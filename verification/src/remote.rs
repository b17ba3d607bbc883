//! Value shapes exchanged with remote knowledge-base servers.

pub mod types;
