//! Consolidation of program-derived-address records and their publication into
//! a pair of mirrored remote databases.

pub mod api;
pub mod args;
pub mod client;
pub mod import;
pub mod merge;
pub mod order;
pub mod published;
pub mod record;
pub mod rollout;
pub mod script;
pub mod text;

pub use args::Args;
pub use client::new_client;
pub use published::PublishedSet;
pub use record::{
    decode_address, decode_seeds_from_storage, record_from_row, Address, DecodeError, PdaSqlite,
};
