pub mod xml;
pub mod types;
pub mod spec;
pub mod semantics;
pub mod order;
pub mod protocol;
pub mod laws;
pub mod resolve;
pub mod cycles;
pub mod permute;
pub mod reading;
