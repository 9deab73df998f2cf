//! Host platforms that receive the shared workspace policy.
use vstd::prelude::*;

verus! {

/// A host family. Availability rules are decided per family.
#[derive(Clone, Copy, Debug, PartialEq, Eq, Structural)]
pub enum Platform {
    Gtk,
    Web,
    Android,
    Ios,
    Mac,
    Windows,
    Generic,
}

/// Capabilities of the running host that some commands depend on.
#[derive(Clone, Copy, Debug, PartialEq, Eq, Structural)]
pub struct HostFeatures {
    /// The host can open further top-level windows.
    pub native_windows: bool,
    /// The host presents color-managed output.
    pub color_management: bool,
}

} // verus!
