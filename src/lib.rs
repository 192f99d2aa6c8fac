pub mod adaptor;
pub mod laws;
pub mod model;

pub use adaptor::{flatten, Flatten};
