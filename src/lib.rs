//! The engine of a live-updating desktop status bar: listener hub, module
//! registry with render cache, compositor and hot-reloaded configuration.
use vstd::prelude::*;

pub mod bitmap;
pub mod compositor;
pub mod engine;
pub mod format;
pub mod listeners;
pub mod modules;
pub mod registry;
pub mod style;
pub mod text;
pub mod words;
