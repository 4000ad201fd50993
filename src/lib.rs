//! Layered sprite-sheet animation: decoding of an exported sheet's frame
//! names, the tag registry, the per-layer frame index and the tick-driven
//! playback state machine.

pub mod filename;
pub mod index;
pub mod runtime;
pub mod sheet;
pub mod tags;
