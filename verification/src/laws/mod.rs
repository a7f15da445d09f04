//! What the operations of the library do, stated of their inputs and results: how
//! values that are written into bytes, lines and settings are read back, and how
//! the results of related calls relate.

pub mod channels;
pub mod conf_files;
pub mod decoding;
pub mod devices;
pub mod documents;
pub mod events;
pub mod guide;
pub mod listing;
pub mod merging;
pub mod packets;
pub mod results;
pub mod scanning;
pub mod sections;
pub mod texts;
pub mod tuning;
pub mod wire;
