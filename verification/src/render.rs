//! Pure type renderers for each target representation: given a type
//! expression, each returns the exact text a backend writes for it.

pub mod c;
pub mod cpp;
pub mod python;
