//! The overlay renderer's resource state machine.
//!
//! The renderer owns device-bound resources (a render target, brushes and
//! a cache of text formats keyed by quantized font size). Drawing can
//! report that the device invalidated those resources; the renderer then
//! discards and rebuilds them against the same underlying surface and
//! retries the drawing exactly once. This module holds the bookkeeping and
//! the retry decision; the device calls themselves live with the caller.

use vstd::prelude::*;

verus! {

/// One positioned box of translated text, in screen coordinates.
pub struct RenderItem {
    pub text: String,
    pub x: i64,
    pub y: i64,
    pub width: i32,
    pub height: i32,
}

/// What the orchestrator asks the renderer's owning context to do.
pub enum RenderCommand {
    Draw(Vec<RenderItem>),
    Clear,
}

/// The mathematical image of a render item.
pub ghost struct RenderItemView {
    pub text: Seq<char>,
    pub x: int,
    pub y: int,
    pub width: int,
    pub height: int,
}

impl RenderItem {
    pub open spec fn view_spec(self) -> RenderItemView {
        RenderItemView {
            text: self.text@,
            x: self.x as int,
            y: self.y as int,
            width: self.width as int,
            height: self.height as int,
        }
    }
}

pub open spec fn item_views(s: Seq<RenderItem>) -> Seq<RenderItemView> {
    s.map_values(|i: RenderItem| i.view_spec())
}

/// How one drawing attempt against the device ended.
#[derive(Clone, Copy, PartialEq, Eq, Structural, Debug)]
pub enum DrawOutcome {
    /// The attempt completed and the surface was presented.
    Completed,
    /// The device reported that its render target must be recreated.
    TargetLost,
    /// Any other failure.
    Failed,
}

/// What the renderer must do after a drawing attempt.
#[derive(Clone, Copy, PartialEq, Eq, Structural, Debug)]
pub enum RecoveryAction {
    /// The command is done.
    Done,
    /// Discard and rebuild the device resources, then retry the same
    /// command once.
    RebuildAndRetry,
    /// Propagate the failure.
    GiveUp,
}

/// The action owed after an attempt: a lost render target is recovered by
/// one rebuild-and-retry, and only on the first attempt; every other
/// failure, and a loss reported by the retry itself, propagates.
pub open spec fn recovery_spec(outcome: DrawOutcome, already_retried: bool) -> RecoveryAction {
    match outcome {
        DrawOutcome::Completed => RecoveryAction::Done,
        DrawOutcome::TargetLost => if already_retried {
            RecoveryAction::GiveUp
        } else {
            RecoveryAction::RebuildAndRetry
        },
        DrawOutcome::Failed => RecoveryAction::GiveUp,
    }
}

/// Decide how to proceed after a drawing attempt reported `outcome`.
pub fn next_render_action(outcome: DrawOutcome, already_retried: bool) -> (a: RecoveryAction)
    ensures
        a == recovery_spec(outcome, already_retried),
{
    match outcome {
        DrawOutcome::Completed => RecoveryAction::Done,
        DrawOutcome::TargetLost => if already_retried {
            RecoveryAction::GiveUp
        } else {
            RecoveryAction::RebuildAndRetry
        },
        DrawOutcome::Failed => RecoveryAction::GiveUp,
    }
}

/// Bookkeeping for the device-bound resources. `generation` counts the
/// builds performed; `format_keys` are the font sizes whose text formats
/// are cached on the current generation of resources.
pub struct RenderResources {
    pub live: bool,
    pub generation: u64,
    pub format_keys: Vec<u32>,
}

impl RenderResources {
    /// No key cached twice.
    pub open spec fn wf(self) -> bool {
        forall|i: int, j: int|
            0 <= i < j < self.format_keys@.len() ==> self.format_keys@[i] != self.format_keys@[j]
    }

    /// How one (re)build changes the bookkeeping: the old resources are
    /// discarded, fresh ones exist, and the format cache starts empty.
    pub open spec fn rebuild_rel(pre: RenderResources, post: RenderResources) -> bool {
        &&& post.live
        &&& post.generation == pre.generation + 1
        &&& post.format_keys@.len() == 0
    }

    /// Before `bind`: nothing built yet.
    pub fn new() -> (r: RenderResources)
        ensures
            !r.live,
            r.generation == 0,
            r.format_keys@.len() == 0,
            r.wf(),
    {
        RenderResources { live: false, generation: 0, format_keys: Vec::new() }
    }

    /// Build, or discard and rebuild, the device-bound resources.
    pub fn rebuild(&mut self)
        requires
            old(self).generation < u64::MAX,
        ensures
            RenderResources::rebuild_rel(*old(self), *final(self)),
            final(self).wf(),
    {
        self.live = true;
        self.generation = self.generation + 1;
        self.format_keys = Vec::new();
    }

    /// Record a text-format lookup for a quantized font size. Returns
    /// whether a cached format of that size already existed; if not, the
    /// size is cached now, so an equal later lookup hits.
    pub fn note_format(&mut self, key: u32) -> (hit: bool)
        requires
            old(self).wf(),
        ensures
            final(self).wf(),
            hit == old(self).format_keys@.contains(key),
            hit ==> final(self).format_keys@ == old(self).format_keys@,
            !hit ==> final(self).format_keys@ == old(self).format_keys@.push(key),
            final(self).live == old(self).live,
            final(self).generation == old(self).generation,
    {
        let n = self.format_keys.len();
        let mut i: usize = 0;
        while i < n
            invariant
                i <= n == self.format_keys@.len(),
                self.format_keys@ == old(self).format_keys@,
                self.live == old(self).live,
                self.generation == old(self).generation,
                old(self).wf(),
                forall|k: int| 0 <= k < i ==> self.format_keys@[k] != key,
            decreases n - i,
        {
            if self.format_keys[i] == key {
                return true;
            }
            i = i + 1;
        }
        proof {
            assert(!self.format_keys@.contains(key));
        }
        self.format_keys.push(key);
        false
    }
}

/// Device-loss recovery, end to end: when the first attempt at a command
/// reports a lost render target, the renderer rebuilds its resources
/// exactly once (one generation step, format cache cleared) and retries
/// the same command; a retry that completes ends the command successfully,
/// and a loss reported by the retry itself propagates instead of looping.
pub proof fn lemma_device_loss_recovery(r0: RenderResources, r1: RenderResources)
    requires
        r0.generation < u64::MAX,
        RenderResources::rebuild_rel(r0, r1),
    ensures
        recovery_spec(DrawOutcome::TargetLost, false) == RecoveryAction::RebuildAndRetry,
        r1.generation == r0.generation + 1,
        r1.format_keys@.len() == 0,
        recovery_spec(DrawOutcome::Completed, true) == RecoveryAction::Done,
        recovery_spec(DrawOutcome::TargetLost, true) == RecoveryAction::GiveUp,
{
}

} // verus!
