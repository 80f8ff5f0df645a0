//! A typing-sound engine's core: which keys were newly pressed, which sound
//! each key plays (repairing stale mappings on the way), which clips are cached
//! under which path, and which playing voices are still tracked.

pub mod available;
pub mod keymap;
pub mod repair;
pub mod edges;
pub mod playback;
pub mod decimal;
pub mod sound_config;
pub mod poll;
