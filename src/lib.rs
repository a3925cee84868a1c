pub mod story;
pub mod tree;
pub mod nodes;
pub mod draw;
