//! Router advertisement and DNS ingress logic of a small network daemon.
//!
//! Every item here is plain computation: the sockets, timers and tasks that
//! drive it live in the application around the library.
use vstd::prelude::*;

pub mod addr;
pub mod config;
pub mod dns;
pub mod dnspkt;
pub mod icmppkt;
pub mod radv;
pub mod ratelimit;

verus! {

} // verus!
