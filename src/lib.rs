pub mod arrays;
pub mod error;
pub mod kernel;
pub mod shape;
pub mod tape;
pub mod values;
pub mod laws;
