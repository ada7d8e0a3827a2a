//! Fixed-capacity, inline-allocated containers: a generic bounded vector and a
//! bounded UTF-8 string, together with the small value types that accompany them.

pub mod errors;
pub mod nulls;
pub mod bytes;
pub mod closures;
pub mod systems;
pub mod ctools;
