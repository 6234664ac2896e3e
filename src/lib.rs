//! Line-oriented text annotation for a file viewer: lexical classification,
//! rainbow bracket depth, string/comment spans, case-insensitive search
//! marks, and size gates that keep very large buffers responsive.

pub mod text;
pub mod search;
pub mod gate;
pub mod lexer;
pub mod annotate;
pub mod theme;
pub mod files;
