//! Terminal state, grid storage, selection and input encoding for the CuTTY
//! terminal emulator, with their behaviour stated as Verus contracts.

pub mod config;
pub mod grid;
pub mod input;
pub mod laws;
pub mod navigation;
pub mod parser;
pub mod scene;
pub mod selection;
pub mod terminal;
pub mod workloads;
