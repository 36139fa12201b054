//! What the library does, stated over bytes, texts and numbers.
//!
//! Each law relates the inputs and results of an operation in terms of its own:
//! a field by the bytes that it stands in, a code by its number, an order by
//! what comes before what.

pub mod buffers;
pub mod checksums;
pub mod commands;
pub mod control;
pub mod dump;
pub mod layout;
pub mod octree;
pub mod replay;
pub mod runs;
pub mod screen;
pub mod texts;
pub mod views;
