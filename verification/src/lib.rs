//! Verified core of a multi-protocol IPv4 host-discovery tool: target-list
//! cleaning, dotted-quad parsing, TCP SYN segment layout, reply
//! classification and the decision logic of the staged probes.

pub mod batch;
pub mod config;
pub mod http;
pub mod input;
pub mod ipv4;
pub mod probe;
pub mod tcp_syn;
pub mod text;
