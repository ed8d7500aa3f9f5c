//! A virtual IP/TCP network stack: forwarding tables with longest-prefix
//! matching, RIP distance-vector routing, IPv4 packet handling, and a TCP
//! implementation with send/receive buffers and retransmission.

pub mod bytes;
pub mod table;
pub mod net;
pub mod routing;
pub mod rip;
pub mod ipv4;
pub mod tcp;
pub mod retransmission;
pub mod circ;
pub mod buffers;
pub mod rng;
pub mod conn_socket;
pub mod conn_handlers;
pub mod conn_ops;
pub mod sockets;
pub mod ip_handler;
pub mod interfaces;
pub mod backend;
pub mod daemon;
pub mod config;
pub mod text;
pub mod node;
pub mod repl;
