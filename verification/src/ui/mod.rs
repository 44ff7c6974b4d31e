//! The window: the graph, the list of profiles, editing, and what the user is told.

pub mod graph;
pub mod nowhere;
pub mod sys;
pub mod editor;
pub mod session;
pub mod results;
pub mod status;
pub mod files;
