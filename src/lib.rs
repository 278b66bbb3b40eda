//! Font descriptor handling, variant resolution and grid cell metrics for a
//! fixed-grid text renderer.
use vstd::prelude::*;

pub mod descriptor;
pub mod font;
pub mod resolve;
pub mod shortcut;
