//! The parts of a machine or memory module that the wiring logic reads:
//! ports, port references, connections, and the state of machines and
//! memory modules as far as this library decides over it.

pub mod connection;
pub mod machine;
pub mod port;
pub mod ram;
