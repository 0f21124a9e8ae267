//! What the operations of the library promise, stated of their arguments and results.

pub mod datagrams;
pub mod egress;
pub mod frames;
pub mod locks;
pub mod numerals;
pub mod pools;
pub mod reading;
pub mod settings;
pub mod stacks;
pub mod waking;
pub mod writing;
