pub mod grammar;
pub mod pattern;
pub mod state;
pub mod text;
pub mod buffer;
pub mod editor;
pub mod substitute;
pub mod repl;
pub mod laws;
