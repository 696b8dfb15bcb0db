//! Networking.

pub mod tcp;
