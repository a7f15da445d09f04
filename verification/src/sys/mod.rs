//! What the kernel's interfaces take.

pub mod dmx_abi;
