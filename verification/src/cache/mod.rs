pub mod digest;
pub mod disk;

pub use disk::{CacheFlag, DiskCache};
