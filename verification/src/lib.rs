//! A periodic network-interface throughput reporter: it samples cumulative
//! received/transmitted byte counters per interface, computes the rate of
//! change, and renders a fixed-width table.
//!
//! The counter source (reading `/proc/net/dev` or a platform API) and the
//! timed loop live outside this library; everything here is pure: parsing
//! counter text into ordered snapshots, choosing which interfaces to show,
//! turning snapshot pairs into rates, and rendering headers and rows.

pub mod devices;
pub mod format;
pub mod numbers;
pub mod opts;
pub mod parse;
pub mod rate;
pub mod sample;
pub mod select;
pub mod snapshot;
pub mod text;

pub use devices::get_device_string_to_name_map;
pub use format::{filter_zero_counters, print_headers, print_stats, shorten_name};
pub use opts::parse_positive_u64;
pub use parse::{parse_net_dev_stats, ParseError};
pub use rate::{rate, rate_centi, saturating_delta};
pub use sample::LoopState;
pub use select::{resolve_selection, split_interfaces};
