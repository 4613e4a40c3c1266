//! A verified core for a remotely controlled array-visualization engine.
//!
//! The library keeps an animated representation of array data structures in
//! sync with a stream of mutation commands. It provides an entity/component
//! store, array mutation operations, time-based interpolation toward goal
//! transforms or moving entities, grid layout, delayed and proximity-triggered
//! despawn, and a command dispatcher that applies one action at a time and
//! produces a response. All coordinates and durations are integers, so every
//! rule is stated and proved exactly.

pub mod action;
pub mod array;
pub mod dispatch;
pub mod ecs;
pub mod engine;
pub mod frames;
pub mod interp;
pub mod layout;
pub mod rgb;
pub mod svg_string;
pub mod transform;
pub mod util;
pub mod world;
