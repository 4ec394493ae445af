//! Verified core of a checkpoint-race editor: a pool of candidate map
//! locations, randomized race generation, tweak operations on a generated
//! race, layout geometry for drawing, an export row flip, a text codec for
//! the persisted pool, and the editor's state machine.
//!
//! Coordinates live in map-pixel space and are modeled as integers; the
//! windowing, drawing and file-dialog glue around this library converts to
//! and from its own floating-point screen space.

pub mod config;
pub mod gen;
pub mod geom;
pub mod image;
pub mod layout;
pub mod pool;
pub mod race;
pub mod rng;
pub mod session;
pub mod tweak;

use vstd::prelude::*;

verus! {

} // verus!
