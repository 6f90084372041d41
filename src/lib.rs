//! Folding of committed customizable constraint system (CCS) instances.
pub mod error;
pub mod field;
pub mod matrix;
pub mod mle;
pub mod ccs;
pub mod commitment;
pub mod instance;
pub mod folding;
pub mod poly;
pub mod construction;
pub mod laws;
pub mod linearity;
pub mod lcccs;
