//! A register-window virtual machine: instruction decoding, a word-addressed
//! memory with a tagged-block allocator, and a single-step execution engine
//! whose behaviour is given by the spec function `engine::transition`.

pub mod decode;
pub mod engine;
pub mod image;
pub mod laws;
pub mod memory;


pub use engine::{Engine, Fault, Step};
pub use memory::Memory;
