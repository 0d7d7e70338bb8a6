//! Verified core of the soil-moisture and irrigation sensor service.
//!
//! The library holds the logic of the service: the on-chain layout of sensor
//! accounts, the queries that select them, the hourly aggregation of flowmeter
//! readings, the timestamps that readings are stored with, and the decisions of
//! the firmware build endpoint. Database, network, process and file access stay
//! with the caller.

pub mod aggregation;
pub mod blockchain;
pub mod database;
pub mod firmware;
pub mod program_utils;
pub mod readings;
pub mod time;
pub mod types;
