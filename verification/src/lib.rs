//! An ESC/POS thermal-printer emulator: a streaming parser for the ESC/POS
//! byte protocol, a model of the printer that turns commands into receipt
//! lines, and the small decisions around the network session and the GUI.

pub mod commands;
pub mod decode;
pub mod parser;
pub mod canvas;
pub mod printer;
pub mod emulator;
pub mod session;
pub mod ui;
