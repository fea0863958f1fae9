use game_translator::cache::TranslationCache;
use game_translator::pipeline::{
    apply_translations, background_poll_ms, build_render_list, observe_background,
    observe_no_texts, observe_texts, plan_tick, texts_changed, tick_interval_ms,
    translate_backoff_ms, uncached_texts, TickDecision, TickPhase, TickState,
};
use game_translator::regions::TextRegion;

fn strings(items: &[&str]) -> Vec<String> {
    items.iter().map(|s| s.to_string()).collect()
}

#[test]
fn change_detection_cases() {
    assert!(!texts_changed(&strings(&["A", "B"]), &strings(&["A", "B"])));
    assert!(texts_changed(&strings(&["A", "B"]), &strings(&["A"])));
    assert!(texts_changed(&strings(&["A", "B"]), &strings(&["A", "C"])));
    assert!(!texts_changed(&[], &[]));
    assert!(texts_changed(&strings(&["A"]), &[]));
}

#[test]
fn interval_thresholds() {
    assert_eq!(tick_interval_ms(0), 200);
    assert_eq!(tick_interval_ms(5), 200);
    assert_eq!(tick_interval_ms(6), 1000);
    assert_eq!(tick_interval_ms(10), 1000);
    assert_eq!(tick_interval_ms(11), 2000);
    assert_eq!(tick_interval_ms(u32::MAX), 2000);
    assert_eq!(translate_backoff_ms(), 2000);
    assert_eq!(background_poll_ms(), 500);
}

#[test]
fn tick_phases() {
    assert_eq!(plan_tick(true, true, true), TickPhase::Exit);
    assert_eq!(plan_tick(false, false, true), TickPhase::Exit);
    assert_eq!(plan_tick(false, true, false), TickPhase::Suppress);
    assert_eq!(plan_tick(false, true, true), TickPhase::Capture);
}

#[test]
fn static_scene_backs_off_and_translates_once() {
    let mut cache = TranslationCache::new();
    let mut state = TickState::new();
    let scene = strings(&["Stage 1", "Press any key"]);

    // First tick: the scene is new, both texts need translation.
    let d = observe_texts(&mut state, scene.clone(), &cache);
    let to_translate = match d {
        TickDecision::Refresh { to_translate } => to_translate,
        TickDecision::Skip => panic!("first tick must refresh"),
    };
    assert_eq!(to_translate, scene);
    for t in &to_translate {
        cache.insert(t.clone(), format!("<{}>", t));
    }
    assert_eq!(state.no_change_count, 0);
    assert_eq!(tick_interval_ms(state.no_change_count), 200);

    // Twenty identical ticks: never another translation request, and the
    // delay climbs to 1000 ms after the sixth and 2000 ms after the
    // eleventh unchanged tick.
    for k in 1..=20u32 {
        let d = observe_texts(&mut state, scene.clone(), &cache);
        assert!(matches!(d, TickDecision::Skip));
        assert_eq!(state.no_change_count, k);
        let delay = tick_interval_ms(state.no_change_count);
        if k <= 5 {
            assert_eq!(delay, 200);
        } else if k <= 10 {
            assert_eq!(delay, 1000);
        } else {
            assert_eq!(delay, 2000);
        }
    }
}

#[test]
fn changed_scene_resets_counter_and_requests_uncached_only() {
    let mut cache = TranslationCache::new();
    cache.insert("A".to_string(), "a".to_string());
    let mut state = TickState::new();
    let first = observe_texts(&mut state, strings(&["A", "B"]), &cache);
    match first {
        TickDecision::Refresh { to_translate } => {
            assert_eq!(to_translate, strings(&["B"]));
        },
        TickDecision::Skip => panic!("changed scene must refresh"),
    }
    observe_texts(&mut state, strings(&["A", "B"]), &cache);
    observe_texts(&mut state, strings(&["A", "B"]), &cache);
    assert_eq!(state.no_change_count, 2);
    let d = observe_texts(&mut state, strings(&["A", "C"]), &cache);
    assert!(matches!(d, TickDecision::Refresh { .. }));
    assert_eq!(state.no_change_count, 0);
}

#[test]
fn no_texts_clears_once_and_counts() {
    let mut state = TickState::new();
    let cache = TranslationCache::new();
    observe_texts(&mut state, strings(&["A"]), &cache);
    let clear = observe_no_texts(&mut state);
    assert!(clear);
    assert_eq!(state.no_change_count, 1);
    let clear_again = observe_no_texts(&mut state);
    assert!(!clear_again);
    assert_eq!(state.no_change_count, 2);
}

#[test]
fn background_clears_without_counting() {
    let mut state = TickState::new();
    let cache = TranslationCache::new();
    observe_texts(&mut state, strings(&["A"]), &cache);
    state.no_change_count = 7;
    let clear = observe_background(&mut state);
    assert!(clear);
    assert_eq!(state.no_change_count, 7);
    assert!(!observe_background(&mut state));
}

#[test]
fn uncached_keeps_order_and_duplicates() {
    let mut cache = TranslationCache::new();
    cache.insert("known".to_string(), "k".to_string());
    let texts = strings(&["new", "known", "new"]);
    assert_eq!(uncached_texts(&texts, &cache), strings(&["new", "new"]));
}

#[test]
fn applying_translations_decides_persistence() {
    let mut cache = TranslationCache::new();
    let originals = strings(&["a", "b"]);
    let none_worked: Vec<Option<String>> = vec![None, None];
    assert!(!apply_translations(&mut cache, &originals, &none_worked));
    assert_eq!(cache.len(), 0);
    let one_worked: Vec<Option<String>> = vec![None, Some("B".to_string())];
    assert!(apply_translations(&mut cache, &originals, &one_worked));
    assert_eq!(cache.len(), 1);
    assert_eq!(cache.get(&"b".to_string()), Some(&"B".to_string()));
    assert_eq!(cache.get(&"a".to_string()), None);
}

#[test]
fn render_list_translates_coordinates_and_omits_missing() {
    let mut cache = TranslationCache::new();
    cache.insert("Hello".to_string(), "こんにちは".to_string());
    let regions = vec![
        TextRegion { text: "Hello".to_string(), x: 10, y: 20, width: 100, height: 24 },
        TextRegion { text: "Missing".to_string(), x: 0, y: 60, width: 50, height: 24 },
    ];
    let items = build_render_list(&regions, &cache, 300, 150);
    assert_eq!(items.len(), 1);
    assert_eq!(items[0].text, "こんにちは");
    assert_eq!(items[0].x, 310);
    assert_eq!(items[0].y, 170);
    assert_eq!(items[0].width, 100);
    assert_eq!(items[0].height, 24);
}
