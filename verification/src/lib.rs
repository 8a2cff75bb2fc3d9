//! Core of a terminal text editor: an in-memory line buffer with tab-aware
//! rendering, cursor and viewport bookkeeping, the edit operations that keep
//! them consistent, and a renderer that emits one full frame of draw commands.

pub mod controllers;
pub mod file;
pub mod position;
pub mod render;
pub mod words;
pub mod writing;
