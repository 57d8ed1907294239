use vstd::prelude::*;

pub mod icmp;
pub mod socket;
pub mod stats;
pub mod bytes;
pub mod cli;
pub mod session;
