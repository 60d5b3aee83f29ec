//! `nanodns`: a minimal DNS server for small local networks.
//!
//! This crate is the server's logic, free of sockets and files:
//!   - `dns` reads queries and builds responses;
//!   - `config`, `leases` and `blocklist` read the files of the server, `cli` its
//!     arguments, and `watch` says when a file is to be looked at again;
//!   - `cache` keeps the responses of upstream servers;
//!   - `resolver` decides how a query is answered, `forward` which upstream server
//!     is asked, `server` which packets are worked on;
//!   - `text`, `number`, `addr` and `clock` are what these share.
//!
//! What holds across calls is stated by the proof functions whose names start with
//! `law_`.

pub mod text;
pub mod number;
pub mod addr;
pub mod text_laws;
pub mod dns;
pub mod dns_laws;
pub mod blocklist;
pub mod clock;
pub mod cache;
pub mod leases;
pub mod config;
pub mod config_laws;
pub mod setting_laws;
pub mod watch;
pub mod file_laws;
pub mod resolver;
pub mod resolver_laws;
pub mod answer_laws;
pub mod forward;
pub mod server;
pub mod wire_laws;
pub mod cli;
