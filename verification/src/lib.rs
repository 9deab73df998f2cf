//! Workspace policy shared by every host: panel identities, command metadata
//! and catalogues, toolbar contents, docking topology, the screening of
//! docking requests, the transactional moves of a docked workspace and its
//! validation, the panel registry's rules, the shipped arrangements, the
//! adoption of an opened project,
//! colour-profile library accounting, print-proof options and status, the
//! navigator's preview scheduling and number-field expression screening.
use vstd::prelude::*;

pub mod platform;
pub mod text;
pub mod panel;
pub mod command;
pub mod toolbar;
pub mod dock;
pub mod moves;
pub mod docking;
pub mod profiles;
pub mod print_proof;
pub mod catalog;
pub mod preview;
pub mod numeric;
pub mod workspace;
pub mod presets;
pub mod registry;
pub mod project;

verus! {

} // verus!
