//! Ordering the lines of a text by a column: lexicographically, by number, by month
//! name, or by number with a magnitude suffix; and testing whether lines already stand
//! in such an order.
pub mod column;
pub mod keys;
pub mod month;
pub mod number;
pub mod pipeline;
pub mod sorting;
pub mod strategy;
pub mod text;
