//! Verified building blocks of a rack's control plane.
//!
//! The heart of the crate is the builder of the control plane's internal DNS
//! zone: [`config::DnsConfigBuilder`] collects hosts and service backends and
//! builds the zone's records from them. What it holds and what it builds is
//! stated over [`registry::Registry`]; [`laws`] proves what holds of every
//! builder. [`names`] gives hosts and services their DNS names, [`records`]
//! is the configuration handed to a DNS server, and [`error`] says why a
//! registration was turned down.
//!
//! Below those stand the values they work on: identifiers ([`ident`]), IPv6
//! addresses ([`addr`]), numbers as text ([`text`]) and a map in key order
//! ([`ordered`]). [`swap`] and [`bootstrap`] hold what a sled reports about
//! its swap devices and about rack-level operations.

pub mod addr;
pub mod bootstrap;
pub mod config;
pub mod error;
pub mod ident;
pub mod laws;
pub mod names;
pub mod ordered;
pub mod records;
pub mod registry;
pub mod swap;
pub mod text;
