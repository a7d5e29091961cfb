//! Event-sourced storage core of the candidate-nomination system: hash-chained,
//! encrypted event streams and the projections replayed from them.

pub mod bytes;
pub mod event;
pub mod event_hash_prefix;
pub mod error;
pub mod stream;
pub mod crypto;
pub mod frames;
pub mod store;
pub mod replay;
pub mod memory;
pub mod health;
pub mod id_map;
pub mod entities;
pub mod app_store;
pub mod scrapped;
pub mod text;
pub mod limits;
pub mod csb_main;
pub mod pg_data;
pub mod forms;
pub mod csb_data;
pub mod pg_store;
