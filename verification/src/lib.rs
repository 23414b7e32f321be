pub mod text;
pub mod text_map;
pub mod order;
pub mod prelude;
pub mod rank;
pub mod cache;
pub mod calc;

pub use crate::cache::Cache;
