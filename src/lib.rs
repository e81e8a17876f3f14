//! Insertion-ordered maps and sets that keep a small number of entries inline
//! and move to a hash-indexed heap form once that number is exceeded.

mod ordered_index;
pub mod small_map;
pub mod small_set;

pub use small_map::SmallMap;
pub use small_set::SmallSet;
