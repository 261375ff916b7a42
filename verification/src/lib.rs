//! A byte-offset index over a delimited file of book records.
//!
//! The dataset is CSV text: one header row, then one row per book. The index
//! maps each book identifier to the byte offset at which its row starts, so
//! that a lookup can start reading there instead of at the top of the file.
//! Everything here works on bytes already in memory; reading and writing the
//! files is the caller's business.

pub mod cli;
pub mod codec;
pub mod dataset;
pub mod decimal;
pub mod index;
pub mod laws;
pub mod lookup;
pub mod scan;
pub mod text;
pub mod types;
