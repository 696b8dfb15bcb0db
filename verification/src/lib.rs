//! Building blocks for TCP sessions run by actors: how a byte stream is cut into lines or
//! frames, and what a session, its reader and its writer do on each event.

pub mod buffer;
pub mod net;
