//! A pipeline engine: an ordered chain of stages that produce, transform
//! and consume bytes, pumped through two fixed-size buffer halves.
#![allow(non_camel_case_types)]

pub mod fault;
pub mod laws;
pub mod model;
pub mod output;
pub mod processor;
pub mod stage;
pub mod util;

pub use fault::Fault;
pub use output::{null, StringOut};
pub use processor::{Io, IoView, Process, Processor};
pub use stage::Stage;
pub use util::echo;
