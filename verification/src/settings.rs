//! Session-wide switches shared by the execution contexts.

use vstd::prelude::*;

verus! {

/// Which translation backend a session uses.
#[derive(Clone, Copy, PartialEq, Eq, Structural, Debug)]
pub enum TranslationEngine {
    DeepL,
    LocalLLM,
    Groq,
}

/// The debug-log switch. Each running session holds one such value behind
/// a shared handle; the contexts receive the handle at start time.
pub struct DebugLogFlag {
    pub enabled: bool,
}

impl DebugLogFlag {
    /// A fresh switch; debug logging starts off.
    pub fn new() -> (r: DebugLogFlag)
        ensures
            !r.enabled,
    {
        DebugLogFlag { enabled: false }
    }
}

/// Turn verbose logging on or off for the session.
pub fn set_debug_log(flag: &mut DebugLogFlag, enabled: bool)
    ensures
        final(flag).enabled == enabled,
{
    flag.enabled = enabled;
}

/// Whether verbose logging is on.
pub fn is_debug_log(flag: &DebugLogFlag) -> (r: bool)
    ensures
        r == flag.enabled,
{
    flag.enabled
}

} // verus!
