//! The audio processing object: the formats it takes, what it does with a buffer, and
//! how it answers the engine.

pub mod format;
pub mod object;
pub mod processor;
pub mod watch;
