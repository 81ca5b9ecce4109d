//! Resolution of ApiSet contract names (such as `api-ms-win-crt-runtime-l1-1-0.dll`)
//! to the library that implements them, by a bounds-checked walk over the
//! namespace structure that the operating system maps into every process.

pub mod error;
pub mod hash;
pub mod layout;
pub mod names;
pub mod resolver;
pub mod wide;
