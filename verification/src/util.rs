//! Small helpers shared by the rest of the library.

pub mod file;
pub mod json;
pub mod os;
pub mod reg;
pub mod text;
