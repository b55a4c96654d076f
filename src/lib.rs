pub mod annotatedstring;
pub mod annotation;
pub mod buffer;
pub mod command;
pub mod highlighter;
pub mod line;
pub mod location;
mod unicode;
