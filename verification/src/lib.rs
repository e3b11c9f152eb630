//! Verified core of an ingress DNS manager for Kubernetes.
//!
//! The service watches cluster nodes, optionally health-checks their external
//! addresses, and keeps a DNS provider's A/AAAA records in line with the set
//! of addresses that may receive ingress traffic.  This crate holds the
//! decisions of that service: the health hysteresis, the node table, the
//! watcher/timer state machine, and the record plans for each DNS provider.
//! The I/O around them lives in the application that links this crate.

pub mod addr;
pub mod address_health;
pub mod assoc;
pub mod conf;
pub mod controller;
pub mod dns;
pub mod health;
pub mod nodes;
