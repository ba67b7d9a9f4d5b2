//! Verified core of the Destiny 2 clan reporting service: member report
//! aggregation, record conversions, Google Drive and workbook layout
//! parsing, and the decisions the service's jobs make between their calls.
use vstd::prelude::*;

pub mod api;
pub mod definitions;
pub mod discord;
pub mod drive;
pub mod jobs;
pub mod keyed;
pub mod lookups;
pub mod member;
pub mod merge;
pub mod order;
pub mod ranking;
pub mod records;
pub mod report;
pub mod responses;
pub mod settings;
pub mod sync;
pub mod tally;
pub mod windows;
pub mod workbook;
pub mod text;

verus! {

} // verus!
