//! Typed key-value collections over interchangeable byte-level storage
//! engines: canonical codecs, ordered range scans, change events, batches
//! and multi-collection transactions, with every operation stated over a
//! mathematical model and proved against it.

pub mod backend;
pub mod batch;
pub mod codec;
pub mod collection;
pub mod current_ud;
pub mod dump;
pub mod endpoints;
pub mod error;
pub mod event;
pub mod gva_v1;
pub mod iter;
pub mod keys;
pub mod lex;
pub mod transaction;
pub mod tx;
pub mod utxos;
pub mod values;
