pub mod buffer;
pub mod config;
pub mod editor;
pub mod hash;
pub mod layout;
pub mod line_parser;
pub mod render;
pub mod scroll;
pub mod text;
pub mod width;
