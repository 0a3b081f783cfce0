//! A reliable request/response protocol over a narrow, lossy, half-duplex
//! radio link. A Node issues signed REST-like requests; a Link executes them
//! against an HTTP endpoint and sends the response back. Frames are KISS
//! framed toward the TNC; packets carry Reed-Solomon parity; payloads travel
//! as stop-and-wait transfers with per-packet acknowledgement and retry; and
//! the two session state machines coordinate the exchange.

use vstd::prelude::*;

pub mod acked_packet;
pub mod buffers;
pub mod fec;
pub mod framed;
pub mod http;
pub mod kiss;
pub mod link;
pub mod message;
pub mod node;
pub mod packet;
pub mod recv_block;
pub mod request_response;
pub mod send_block;

verus! {

/// Major protocol version carried in Broadcast beacons.
pub const MAJOR_VER: u8 = 0;

/// Minor protocol version carried in Broadcast beacons.
pub const MINOR_VER: u8 = 1;

} // verus!
