//! Terminal tools: a run-length encoded `.TIF` pixel editor model, a tiny
//! interpreted language, and the text helpers behind a terminal desktop.

pub mod pixel;
pub mod grid;
pub mod tif_format;
pub mod editor;
pub mod text;
pub mod files;
pub mod launcher;
pub mod zoio;
