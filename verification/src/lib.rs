//! Verified core of a real-time window-translation overlay.
//!
//! The library holds the decision logic of the capture → recognize →
//! translate → render pipeline: paragraph grouping of recognized lines,
//! change detection and adaptive polling backoff, translation batch
//! planning, the numbered-response parser, the persistent translation
//! cache with its JSON wire format, and the resource state machines of
//! the frame source and the overlay renderer. The operating-system and
//! network work that drives these decisions lives outside the library.

pub mod batch;
pub mod cache;
pub mod json;
pub mod overlay;
pub mod pipeline;
pub mod regions;
pub mod settings;
pub mod surface;
pub mod text;
