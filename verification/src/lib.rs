pub mod app;
pub mod cell;
pub mod cursor;
pub mod document;
pub mod key;
pub mod render_buffer;
pub mod text;
pub mod undo;
pub mod viewport;
