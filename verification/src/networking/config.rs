use vstd::prelude::*;

verus! {

/// Largest UDP datagram the game sends (what is assumed of the path MTU).
pub const MAX_UDP_MESSAGE_SIZE: usize = 512;

/// Largest TCP frame, length header included.
pub const MAX_TCP_MESSAGE_SIZE: usize = 1048576;

/// Largest number of payload bytes that may wait in one TCP send queue.
pub const MAX_TCP_MESSAGE_QUEUE_SIZE: usize = 67108864;

} // verus!
