//! Reading and writing of RINEX navigation files, and selection among their records.
//!
//! [`file::parse_nav_file`] reads a whole RINEX 2, 3 or 4 navigation file and keeps every header
//! record and every block with its text; [`write::encode_nav_file`] writes it back, byte for byte
//! where nothing changed. [`file::parse_nav`], [`file::parse_glonass`] and [`file::parse_sbas`] give
//! the records of a file, and [`store::BroadcastStore`] selects among them.
//!
//! Numbers are held as the decimal digits a file states and instants to 10^-30 s, so no value is
//! rounded between a file and its records.

use vstd::prelude::*;

pub mod accuracy;
pub mod binary;
pub mod body;
pub mod calendar;
pub mod cnav;
pub mod cnav_reread;
pub mod cr;
pub mod decimal;
pub mod departures;
pub mod entry_reread;
pub mod epoch;
pub mod error;
pub mod evaluate;
pub mod fields;
pub mod file;
pub mod file_laws;
pub mod format;
pub mod frame_reread;
pub mod frames;
pub mod geo;
pub mod glonass;
pub mod header;
pub mod header_exact;
pub mod header_reread;
pub mod health;
pub mod holdings;
pub mod id;
pub mod instant;
pub mod keplerian;
pub mod lines;
pub mod lnav;
pub mod marker;
pub mod numerals;
pub mod order;
pub mod positions;
pub mod queries;
pub mod ranking;
pub mod record;
pub mod reread;
pub mod restate;
pub mod rounding;
pub mod state_reread;
pub mod stated_header;
pub mod stated_time;
pub mod store;
pub mod subframes;
pub mod text;
pub mod time;
pub mod tokens;
pub mod ura;
pub mod write;

verus! {

} // verus!
