//! A user-space TCP endpoint core: IPv4/TCP header codec, sequence-space
//! arithmetic, the passive-open connection state machine and the connection
//! table that routes each inbound frame; with a DNS packet reader and a few
//! small containers.
use vstd::prelude::*;

pub mod article;
pub mod bytes;
pub mod cell;
pub mod channel;
pub mod dns;
pub mod flatten;
pub mod seqnum;
pub mod table;
pub mod tcp;
pub mod wire;

verus! {

} // verus!
