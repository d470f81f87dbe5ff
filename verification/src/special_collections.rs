//! Small growable collections used by the process manager: a bitmap of
//! dynamically extending width and a pool of recyclable integer identifiers.

pub mod bitmap;
pub mod incrementing_pool;

pub use bitmap::DynamicBitmap;
pub use incrementing_pool::IncrementingPool;
