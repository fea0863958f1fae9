use game_translator::overlay::{
    next_render_action, DrawOutcome, RecoveryAction, RenderResources,
};
use game_translator::settings::{is_debug_log, set_debug_log, DebugLogFlag, TranslationEngine};
use game_translator::surface::{capture_viable, FrameSurface};

#[test]
fn same_size_captures_share_the_surface() {
    let mut s = FrameSurface::new();
    assert_eq!(s.alloc_count, 0);
    assert!(s.prepare(640, 480));
    assert_eq!(s.alloc_count, 1);
    assert!(!s.prepare(640, 480));
    assert_eq!(s.alloc_count, 1);
    assert!(!s.prepare(640, 480));
    assert_eq!(s.alloc_count, 1);
}

#[test]
fn size_change_reallocates_exactly_once() {
    let mut s = FrameSurface::new();
    s.prepare(640, 480);
    assert!(s.prepare(800, 600));
    assert_eq!(s.alloc_count, 2);
    assert!(!s.prepare(800, 600));
    assert_eq!(s.alloc_count, 2);
}

#[test]
fn released_surface_reallocates() {
    let mut s = FrameSurface::new();
    s.prepare(640, 480);
    s.release();
    assert!(s.prepare(640, 480));
    assert_eq!(s.alloc_count, 2);
}

#[test]
fn degenerate_sizes_are_not_captured() {
    assert!(!capture_viable(0, 480));
    assert!(!capture_viable(640, 0));
    assert!(capture_viable(1, 1));
}

#[test]
fn target_loss_recovers_with_one_rebuild() {
    let mut res = RenderResources::new();
    res.rebuild();
    let before = res.generation;
    res.note_format(14);

    // The draw attempt reports a lost render target: rebuild once and
    // retry the same command.
    let action = next_render_action(DrawOutcome::TargetLost, false);
    assert_eq!(action, RecoveryAction::RebuildAndRetry);
    res.rebuild();
    assert_eq!(res.generation, before + 1);
    assert_eq!(res.format_keys.len(), 0);

    // The retry completes: done, no further rebuild.
    assert_eq!(next_render_action(DrawOutcome::Completed, true), RecoveryAction::Done);
    assert_eq!(res.generation, before + 1);
}

#[test]
fn second_loss_and_other_failures_propagate() {
    assert_eq!(
        next_render_action(DrawOutcome::TargetLost, true),
        RecoveryAction::GiveUp
    );
    assert_eq!(next_render_action(DrawOutcome::Failed, false), RecoveryAction::GiveUp);
    assert_eq!(next_render_action(DrawOutcome::Failed, true), RecoveryAction::GiveUp);
    assert_eq!(next_render_action(DrawOutcome::Completed, false), RecoveryAction::Done);
}

#[test]
fn format_cache_hits_on_equal_sizes() {
    let mut res = RenderResources::new();
    res.rebuild();
    assert!(!res.note_format(12));
    assert!(res.note_format(12));
    assert!(!res.note_format(18));
    assert!(res.note_format(18));
    res.rebuild();
    assert!(!res.note_format(12));
}

#[test]
fn debug_log_switch() {
    let mut flag = DebugLogFlag::new();
    assert!(!is_debug_log(&flag));
    set_debug_log(&mut flag, true);
    assert!(is_debug_log(&flag));
    set_debug_log(&mut flag, false);
    assert!(!is_debug_log(&flag));
}

#[test]
fn translation_engines_are_distinct() {
    assert_ne!(TranslationEngine::DeepL, TranslationEngine::Groq);
    assert_ne!(TranslationEngine::DeepL, TranslationEngine::LocalLLM);
    assert_eq!(TranslationEngine::Groq, TranslationEngine::Groq);
}
