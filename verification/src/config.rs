//! The configuration language: key names, the compiler from config text to a layout
//! binary, and its errors.
pub mod error;
pub mod globals;
pub mod text;
pub mod vendor;
pub mod keycodes;
pub mod layer;
pub mod binary;
pub mod compiler;
pub mod parser;
pub mod lookup;
pub mod listing;
