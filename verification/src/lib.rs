//! Resolution of IP addresses to the autonomous system (AS) announcing them,
//! and of AS numbers to their registered name and country code.
//!
//! The library ingests three flat-text datasets (an AS-number registry and an
//! IPv4 and an IPv6 prefix table), builds a longest-prefix-match index per
//! address family, and answers point lookups against an immutable snapshot
//! that a refresh replaces atomically.

pub mod checker;
pub mod index;
pub mod ranges;
pub mod registry;
pub mod text;
pub mod types;
