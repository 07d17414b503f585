//! A claim adjudication pipeline: claims are throttled by a biller, routed by
//! a clearinghouse to the payer that their insurance names, adjudicated into
//! remittances, and each remittance is routed back to the submitter of its
//! claim. The library holds the decisions of each actor; channels, timers and
//! tasks belong to the program that runs them.
pub mod biller;
pub mod clearinghouse;
pub mod config;
pub mod logging;
pub mod message;
pub mod payer;
pub mod reader;
pub mod remittance;
pub mod reporter;
pub mod schema;
pub mod table;
