//! Core logic of the zava terminal audio visualizer: bar layout, glyph
//! selection, colour maps, configuration parsing and the key/menu decisions.

pub mod render;
pub mod text;
pub mod config;
pub mod settings;
pub mod audio;
pub mod events;
pub mod control;
pub mod cli;
pub mod menu;
pub mod dsp;
pub mod ini_write;
pub mod ini_stable;
