//! Read-only reader and overlay logic for the researched Deathloop executable build.
pub mod controls;
pub mod game;
pub mod keyboard;
pub mod memory;
pub mod network;
pub mod overlay;
mod sealed;
pub mod text;

use vstd::prelude::*;

verus! {

/// Whether the build shows the opponent's health and distance as well.
pub const EXTENDED: bool = false;

} // verus!
