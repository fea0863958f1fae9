//! The polling orchestrator's per-tick decisions.
//!
//! One tick: check the stop signal and the target window, suppress the
//! overlay while the target is in the background, capture and recognize,
//! compare the recognized texts against the previous tick's, translate
//! only what the cache lacks, and emit a draw or clear command. The
//! delay to the next tick grows while the scene stays unchanged.

use vstd::prelude::*;

verus! {

use crate::cache::TranslationCache;
use crate::overlay::RenderItem;
use crate::overlay::RenderItemView;
use crate::overlay::item_views;
use crate::regions::RegionView;
use crate::regions::TextRegion;
use crate::regions::region_views;

/// The views of a sequence of strings.
pub open spec fn views_of(ss: Seq<String>) -> Seq<Seq<char>> {
    ss.map_values(|s: String| s@)
}

/// Polling delay in milliseconds for a given run of unchanged ticks.
pub open spec fn spec_tick_interval(no_change_count: u32) -> u32 {
    if no_change_count > 10 {
        2000
    } else if no_change_count > 5 {
        1000
    } else {
        200
    }
}

/// Adaptive backoff: the longer the scene has been static, the longer
/// the orchestrator sleeps between ticks.
pub fn tick_interval_ms(no_change_count: u32) -> (r: u32)
    ensures
        r == spec_tick_interval(no_change_count),
{
    if no_change_count > 10 {
        2000
    } else if no_change_count > 5 {
        1000
    } else {
        200
    }
}

/// Delay before retrying after a failed translation call.
pub fn translate_backoff_ms() -> (r: u32)
    ensures
        r == 2000,
{
    2000
}

/// Delay between ticks while the target window is in the background.
pub fn background_poll_ms() -> (r: u32)
    ensures
        r == 500,
{
    500
}

/// Whether the recognized texts differ from the previous tick's: a
/// different count, or any position holding a different string.
pub fn texts_changed(current: &[String], previous: &[String]) -> (r: bool)
    ensures
        r == (views_of(current@) != views_of(previous@)),
{
    let n = current.len();
    if n != previous.len() {
        proof {
            assert(views_of(current@).len() != views_of(previous@).len());
        }
        return true;
    }
    let mut i: usize = 0;
    while i < n
        invariant
            i <= n == current@.len(),
            n == previous@.len(),
            forall|k: int| 0 <= k < i ==> views_of(current@)[k] == views_of(previous@)[k],
        decreases n - i,
    {
        if !current[i].eq(&previous[i]) {
            proof {
                assert(views_of(current@)[i as int] != views_of(previous@)[i as int]);
            }
            return true;
        }
        i = i + 1;
    }
    proof {
        assert(views_of(current@) =~= views_of(previous@));
    }
    false
}

/// What a tick does before any capture is attempted.
#[derive(Clone, Copy, PartialEq, Eq, Structural, Debug)]
pub enum TickPhase {
    /// Stop was requested or the target window is gone: leave the loop
    /// and ask the renderer's context to close.
    Exit,
    /// The target is not the foreground window: hide the overlay, poll
    /// again after the background delay.
    Suppress,
    /// Proceed to capture and recognition.
    Capture,
}

/// The first decisions of a tick, in their order: a stop request or a
/// vanished target window ends the loop; a target in the background
/// suppresses presentation without pausing the pipeline; otherwise the
/// tick captures.
pub fn plan_tick(stop_requested: bool, window_alive: bool, foreground: bool) -> (p: TickPhase)
    ensures
        p == (if stop_requested || !window_alive {
            TickPhase::Exit
        } else if !foreground {
            TickPhase::Suppress
        } else {
            TickPhase::Capture
        }),
{
    if stop_requested || !window_alive {
        TickPhase::Exit
    } else if !foreground {
        TickPhase::Suppress
    } else {
        TickPhase::Capture
    }
}

/// Counter increment that sticks at the top instead of wrapping.
pub open spec fn sat_inc(c: u32) -> u32 {
    if c == u32::MAX {
        c
    } else {
        (c + 1) as u32
    }
}

/// Change tracking across ticks: the previous tick's recognized texts
/// and how many consecutive ticks saw no change.
pub struct TickState {
    pub prev_texts: Vec<String>,
    pub no_change_count: u32,
}

impl TickState {
    /// Fresh state: nothing recognized yet, nothing drawn.
    pub fn new() -> (s: TickState)
        ensures
            s.prev_texts@.len() == 0,
            s.no_change_count == 0,
    {
        TickState { prev_texts: Vec::new(), no_change_count: 0 }
    }
}

/// The texts not yet in the cache, in order, duplicates kept.
pub open spec fn uncached_spec(ts: Seq<Seq<char>>, m: Map<Seq<char>, Seq<char>>) -> Seq<Seq<char>> {
    ts.filter(|t: Seq<char>| !m.contains_key(t))
}

/// The subset of `texts` that the cache lacks, in order.
pub fn uncached_texts(texts: &Vec<String>, cache: &TranslationCache) -> (r: Vec<String>)
    ensures
        views_of(r@) == uncached_spec(views_of(texts@), cache.as_map()),
{
    let ghost m = cache.as_map();
    let ghost ts = views_of(texts@);
    let n = texts.len();
    let mut r: Vec<String> = Vec::new();
    let mut i: usize = 0;
    proof {
        reveal(Seq::filter);
        assert(ts.take(0) =~= Seq::<Seq<char>>::empty());
        assert(views_of(r@) =~= uncached_spec(ts.take(0), m));
    }
    while i < n
        invariant
            i <= n == texts@.len(),
            ts == views_of(texts@),
            m == cache.as_map(),
            views_of(r@) == uncached_spec(ts.take(i as int), m),
        decreases n - i,
    {
        proof {
            reveal(Seq::filter);
            assert(ts.take(i + 1).drop_last() =~= ts.take(i as int));
            assert(ts.take(i + 1).last() == ts[i as int]);
        }
        let ghost old_r = r@;
        if !cache.contains(&texts[i]) {
            r.push(texts[i].clone());
            proof {
                assert(views_of(r@) =~= views_of(old_r).push(texts@[i as int]@));
            }
        }
        i = i + 1;
    }
    proof {
        assert(ts.take(n as int) =~= ts);
    }
    r
}

/// What a tick that recognized at least one region decides.
pub enum TickDecision {
    /// The scene is unchanged: nothing is translated and nothing is
    /// re-rendered.
    Skip,
    /// The scene changed: `to_translate` holds the recognized texts the
    /// cache lacks (possibly none), to be sent to the backend in one
    /// batch; afterwards the overlay is redrawn from the cache.
    Refresh { to_translate: Vec<String> },
}

/// Compare this tick's recognized texts with the previous tick's and
/// update the change tracking: an unchanged scene bumps the no-change
/// counter, a changed one resets it, remembers the texts, and asks for
/// the uncached ones to be translated.
pub fn observe_texts(state: &mut TickState, current: Vec<String>, cache: &TranslationCache) -> (d:
    TickDecision)
    ensures
        (d is Skip) <==> (views_of(current@) == views_of(old(state).prev_texts@)),
        d is Skip ==> final(state).prev_texts@ == old(state).prev_texts@
            && final(state).no_change_count == sat_inc(old(state).no_change_count),
        (match d {
            TickDecision::Refresh { to_translate } => views_of(to_translate@) == uncached_spec(
                views_of(current@),
                cache.as_map(),
            ) && final(state).prev_texts@ == current@ && final(state).no_change_count == 0,
            TickDecision::Skip => true,
        }),
{
    if texts_changed(current.as_slice(), state.prev_texts.as_slice()) {
        state.no_change_count = 0;
        let to_translate = uncached_texts(&current, cache);
        state.prev_texts = current;
        TickDecision::Refresh { to_translate }
    } else {
        state.no_change_count = if state.no_change_count == u32::MAX {
            state.no_change_count
        } else {
            state.no_change_count + 1
        };
        TickDecision::Skip
    }
}

/// A tick that recognized nothing: the overlay is cleared if anything
/// was drawn, the change tracking forgets the old texts, and the
/// no-change counter still advances.
pub fn observe_no_texts(state: &mut TickState) -> (clear: bool)
    ensures
        clear == (old(state).prev_texts@.len() > 0),
        final(state).prev_texts@.len() == 0,
        final(state).no_change_count == sat_inc(old(state).no_change_count),
{
    let clear = state.prev_texts.len() > 0;
    state.prev_texts = Vec::new();
    state.no_change_count = if state.no_change_count == u32::MAX {
        state.no_change_count
    } else {
        state.no_change_count + 1
    };
    clear
}

/// A tick whose target window is in the background: the overlay is
/// cleared if anything was drawn; the no-change counter is untouched,
/// for this suppresses presentation only.
pub fn observe_background(state: &mut TickState) -> (clear: bool)
    ensures
        clear == (old(state).prev_texts@.len() > 0),
        final(state).prev_texts@.len() == 0,
        final(state).no_change_count == old(state).no_change_count,
{
    let clear = state.prev_texts.len() > 0;
    state.prev_texts = Vec::new();
    clear
}

/// The draw list a tick presents: the regions whose text the cache can
/// translate, in order, regions without a cached translation silently
/// omitted; coordinates are moved from frame space to screen space by
/// the window origin. The renderer derives wrap width and font size from
/// the carried box.
pub open spec fn render_list_spec(
    rs: Seq<RegionView>,
    m: Map<Seq<char>, Seq<char>>,
    wx: int,
    wy: int,
) -> Seq<RenderItemView>
    decreases rs.len(),
{
    if rs.len() == 0 {
        Seq::empty()
    } else {
        let rest = render_list_spec(rs.drop_last(), m, wx, wy);
        let r = rs.last();
        if m.contains_key(r.text) {
            rest.push(
                RenderItemView {
                    text: m[r.text],
                    x: r.x + wx,
                    y: r.y + wy,
                    width: r.width,
                    height: r.height,
                },
            )
        } else {
            rest
        }
    }
}

/// Build the draw list for the current regions from the cache.
pub fn build_render_list(
    regions: &Vec<TextRegion>,
    cache: &TranslationCache,
    win_x: i32,
    win_y: i32,
) -> (r: Vec<RenderItem>)
    requires
        cache.wf(),
    ensures
        item_views(r@) == render_list_spec(
            region_views(regions@),
            cache.as_map(),
            win_x as int,
            win_y as int,
        ),
{
    let ghost rv = region_views(regions@);
    let ghost m = cache.as_map();
    let n = regions.len();
    let mut r: Vec<RenderItem> = Vec::new();
    let mut i: usize = 0;
    proof {
        assert(rv.take(0) =~= Seq::<RegionView>::empty());
        assert(item_views(r@) =~= render_list_spec(rv.take(0), m, win_x as int, win_y as int));
    }
    while i < n
        invariant
            i <= n == regions@.len(),
            rv == region_views(regions@),
            m == cache.as_map(),
            cache.wf(),
            item_views(r@) == render_list_spec(rv.take(i as int), m, win_x as int, win_y as int),
        decreases n - i,
    {
        proof {
            assert(rv.take(i + 1).drop_last() =~= rv.take(i as int));
            assert(rv.take(i + 1).last() == rv[i as int]);
        }
        let ghost old_r = r@;
        match cache.get(&regions[i].text) {
            Some(t) => {
                let item = RenderItem {
                    text: t.clone(),
                    x: regions[i].x as i64 + win_x as i64,
                    y: regions[i].y as i64 + win_y as i64,
                    width: regions[i].width,
                    height: regions[i].height,
                };
                r.push(item);
                proof {
                    assert(item_views(r@) =~= item_views(old_r).push(
                        (RenderItemView {
                            text: m[rv[i as int].text],
                            x: rv[i as int].x + win_x as int,
                            y: rv[i as int].y + win_y as int,
                            width: rv[i as int].width,
                            height: rv[i as int].height,
                        }),
                    ));
                }
            },
            None => {
            },
        }
        i = i + 1;
    }
    proof {
        assert(rv.take(n as int) =~= rv);
    }
    r
}

/// The cache after the first `n` replies of a batch are applied, in
/// order: each answered request inserts its translation under its exact
/// source text, an unanswered one changes nothing.
pub open spec fn apply_spec(
    m: Map<Seq<char>, Seq<char>>,
    os: Seq<Seq<char>>,
    ts: Seq<Option<Seq<char>>>,
    n: nat,
) -> Map<Seq<char>, Seq<char>>
    decreases n,
{
    if n == 0 {
        m
    } else {
        let prev = apply_spec(m, os, ts, (n - 1) as nat);
        match ts[n - 1] {
            Some(t) => prev.insert(os[n - 1], t),
            None => prev,
        }
    }
}

/// Store a batch's successful translations in the cache, pairing the
/// k-th reply with the k-th request. Returns whether anything was
/// added, which is when the cache is worth persisting; a cycle served
/// purely from the cache never rewrites the store.
pub fn apply_translations(
    cache: &mut TranslationCache,
    originals: &Vec<String>,
    translations: &Vec<Option<String>>,
) -> (added: bool)
    requires
        old(cache).wf(),
    ensures
        final(cache).wf(),
        final(cache).as_map() == apply_spec(
            old(cache).as_map(),
            views_of(originals@),
            crate::batch::opt_views(translations@),
            (if originals@.len() < translations@.len() {
                originals@.len()
            } else {
                translations@.len()
            }) as nat,
        ),
        added == (exists|k: int|
            0 <= k < originals@.len() && k < translations@.len() && (#[trigger] translations@[k])
                is Some),
{
    let ghost os = views_of(originals@);
    let ghost ts = crate::batch::opt_views(translations@);
    let n = if originals.len() < translations.len() {
        originals.len()
    } else {
        translations.len()
    };
    let mut added = false;
    let mut k: usize = 0;
    while k < n
        invariant
            k <= n,
            n == (if originals@.len() < translations@.len() {
                originals@.len()
            } else {
                translations@.len()
            }),
            os == views_of(originals@),
            ts == crate::batch::opt_views(translations@),
            cache.wf(),
            cache.as_map() == apply_spec(old(cache).as_map(), os, ts, k as nat),
            added == (exists|j: int|
                0 <= j < k && (#[trigger] translations@[j]) is Some),
        decreases n - k,
    {
        match &translations[k] {
            Some(t) => {
                cache.insert(originals[k].clone(), t.clone());
                added = true;
                proof {
                    assert(translations@[k as int] is Some);
                }
            },
            None => {
            },
        }
        k = k + 1;
    }
    added
}

/// The no-change counter after `k` consecutive unchanged ticks from a
/// freshly drawn scene.
pub open spec fn static_count(k: nat) -> u32
    decreases k,
{
    if k == 0 {
        0
    } else {
        sat_inc(static_count((k - 1) as nat))
    }
}

/// A static scene drives the adaptive backoff and nothing else: after a
/// tick that drew the scene, every following tick whose recognized texts
/// are unchanged is a skip (the translator is not invoked again), the
/// no-change counter after the k-th such tick is k, and the delay slept
/// after it is 200 ms through the fifth, 1000 ms from the sixth through
/// the tenth, and 2000 ms from the eleventh on.
pub proof fn lemma_static_scene_backoff(k: nat)
    requires
        k <= u32::MAX,
    ensures
        static_count(k) == k,
        spec_tick_interval(static_count(k)) == (if k > 10 {
            2000u32
        } else if k > 5 {
            1000u32
        } else {
            200u32
        }),
    decreases k,
{
    if k > 0 {
        lemma_static_scene_backoff((k - 1) as nat);
    }
}

} // verus!
