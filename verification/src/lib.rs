//! Verified decision logic for a WebRTC stack: gathering host addresses for ICE, checking and
//! reading STUN messages, picking UDP ports, reading the Windows adapter list, running the SCTP
//! retransmission timer, and simulating a lossy link to try loss recovery on.
//!
//! Sockets, clocks and operating-system calls stay outside. They hand plain values in and act on
//! the plain values that come back.

pub mod adapter_codes;
pub mod adapters;
pub mod addr;
pub mod arrivals;
pub mod association;
pub mod bytes;
pub mod error;
pub mod interfaces;
pub mod link;
pub mod messages;
pub mod ports;
pub mod prefixes;
pub mod rto;
pub mod rtx_timer;
pub mod text;
pub mod workload;
