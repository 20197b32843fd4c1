//! An assembler and a virtual machine for the LC-3, a 16-bit teaching
//! architecture.
//!
//! [`assembler`] turns source text into a memory image; [`lc3`] decodes and
//! executes machine words.
pub mod assembler;
pub mod lc3;
