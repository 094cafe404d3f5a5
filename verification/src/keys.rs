//! The key types of the collections.

pub mod all;
pub mod uid;
