//! Verified core of an animation player and editor: the action list that
//! drives playback and the sequencing that reads it, the scene graph and
//! resource tables of the engine with the creation, update, removal and
//! drawing order of containers, tween timing, the binary stream framing, and
//! the editor's timeline, tool and scratch-pad state machines.

pub mod ids;
pub mod actions;
pub mod resources;
pub mod tween;
pub mod systems;
pub mod simulation;
pub mod serialization;
pub mod tools;
pub mod components;
pub mod scratch_pad;
pub mod types;
pub mod runner;
pub mod engine;
pub mod reader;
pub mod display_list;
