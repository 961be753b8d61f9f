//! Selective compilation and contract-size governance for a Solidity build pipeline.
pub mod text;
pub mod filter;
pub mod size;
pub mod compiler;
pub mod remap;
