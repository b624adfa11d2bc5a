//! Synchronisation of RPM package repositories from remote mirrors to a
//! local tree: the metadata model, the download and verification rules, the
//! staged publication protocol and the orphan cleaner, each with its contract.
pub mod config;
pub mod cycle;
pub mod digest;
pub mod error;
pub mod fetch;
pub mod package;
pub mod payload;
pub mod repo;
pub mod tags;
