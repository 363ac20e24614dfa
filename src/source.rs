//! The boundary to the device: attribute reads, existence probes and the
//! system property store.
use vstd::prelude::*;

verus! {

/// Where readings come from. Implementations do the I/O; the library
/// assumes nothing of what they return, so every result it derives holds
/// whatever a call answered.
pub trait AttributeSource {
    /// The trimmed text of the attribute at `path`, or `None` when it is
    /// absent, unreadable or empty.
    fn read(&self, path: &str) -> Option<String>;

    /// Whether `path` exists.
    fn path_exists(&self, path: &str) -> bool;

    /// The value of a system configuration property.
    fn system_property(&self, key: &str) -> Option<String>;

    /// The display stack's description of itself, which names the renderer.
    fn renderer_report(&self) -> Option<String>;
}

} // verus!
