//! A navigation and caching engine for a graphical file manager: the sort
//! engine, the view projection onto an icon grid, icon resolution with a
//! persistent cache, and the state machine that user intents drive.

pub mod text;
pub mod config;
pub mod sorting;
pub mod icons;
pub mod view;
pub mod state;
