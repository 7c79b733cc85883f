//! What the operations of this crate guarantee, said of single rows, cells and characters.
pub mod delta;
pub mod load;
pub mod text;
pub mod write;
