//! TCP sessions and the receivers that turn their packets into messages.

pub mod frame_laws;
pub mod frame_reader;
pub mod frame_receiver_laws;
pub mod line_laws;
pub mod line_reader;
pub mod line_receiver_laws;
pub mod separator_reader;
pub mod session;
pub mod session_laws;
pub mod stream;
