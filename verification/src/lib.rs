//! Verified parsing, bookkeeping and rendering for a family of terminal
//! system monitors (CPU, memory, disk, network, battery, GPU, ping).

pub mod text;
pub mod fields;
pub mod cpu;
pub mod graph;
pub mod truncate;
pub mod sensors;
pub mod memory;
pub mod pci;
pub mod monitors;
pub mod ping;
