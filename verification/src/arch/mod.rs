//! What depends on the machine.

pub mod amd64;
