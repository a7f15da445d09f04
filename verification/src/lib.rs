//! Tuning, scanning and programme guides for ISDB-T receivers.

pub mod arib_b24;
pub mod arib_symbols;
pub mod bytes;
pub mod channel;
pub mod config;
pub mod demux;
pub mod dtv_cmds;
pub mod eit;
pub mod epg;
pub mod error;
pub mod frontend;
pub mod guide_text;
pub mod jis_plane2;
pub mod laws;
pub mod names;
pub mod px4;
pub mod scan;
pub mod si_reader;
pub mod si_tables;
pub mod signal;
pub mod sys;
pub mod text;
pub mod text_map;
pub mod toml_doc;
pub mod tuner;
pub mod views;

pub use channel::{Channel, ChannelsFile};
pub use config::{ChannelRecord, ChannelsDocument};
pub use error::Error;
