//! The core of an embeddable scripting language: the values that a script works
//! with, the pool of its constants, and the driver that takes a script from source
//! text to a result or to a diagnostic.
//!
//! The parser, the compiler and the virtual machine belong to the host. The driver
//! tells the host which of them is to run next and takes in how each of them ended.
//!
//! Numbers are held by their bits throughout: nothing here computes with them.

pub mod constant_index;
pub mod constant_pool;
pub mod diagnostics;
pub mod driver;
pub mod equality;
pub mod fault;
pub mod geometry;
pub mod mutation;
pub mod number;
pub mod ordering;
pub mod render;
pub mod text;
pub mod value;
