//! Core of a small workbench in which virtual machines and memory modules
//! expose ports, the user wires those ports into shared connections, and each
//! machine is started, stopped, stepped and recovered on its own.
//!
//! Everything here is plain data and decisions over it; drawing, threads and
//! files belong to the program that links this library.

pub mod components;
pub mod text;
pub mod storage;
pub mod language;
pub mod ui;
pub mod test_window;
