pub mod basic;
pub mod fit;
