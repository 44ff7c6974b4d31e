//! What the operations are for: how their results relate to what goes in, and to one another.

pub mod chain;
pub mod devices;
pub mod edit;
pub mod endpoint;
pub mod export;
pub mod files;
pub mod import;
pub mod object;
pub mod search;
pub mod service;
pub mod stored;
pub mod text;
pub mod tone;
pub mod window;
