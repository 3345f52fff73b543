//! What holds of the library as a whole.

pub mod asking;
pub mod breaking;
pub mod cache_calls;
pub mod caching;
pub mod calls;
pub mod finding;
pub mod lines;
pub mod places;
pub mod snapping;
pub mod wrapping;
