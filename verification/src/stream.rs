//! As much of a stream as a packet number space looks at.
use vstd::prelude::*;

verus! {

/// A stream of bytes between the endpoints.
pub struct Stream {
    /// How many bytes the peer may send in all.
    pub max_rx_data: u64,
    /// How many bytes may be sent to the peer in all.
    pub max_tx_data: u64,
    /// How many bytes were sent.
    pub sent: u64,
    /// The bytes that are to be sent next.
    pub unsent: Vec<u8>,
}

impl Stream {
    /// Nothing was sent and nothing is to be sent, up to the given limits.
    pub open spec fn is_fresh(&self, max_rx_data: u64, max_tx_data: u64) -> bool {
        &&& self.max_rx_data == max_rx_data
        &&& self.max_tx_data == max_tx_data
        &&& self.sent == 0
        &&& self.unsent@ == Seq::<u8>::empty()
    }

    /// There is something to send, and the peer takes some of it.
    pub open spec fn flushable(&self) -> bool {
        self.unsent@.len() > 0 && self.sent < self.max_tx_data
    }

    /// A stream on which nothing was sent yet.
    pub fn new(max_rx_data: u64, max_tx_data: u64) -> (res: Stream)
        ensures
            res.is_fresh(max_rx_data, max_tx_data),
    {
        Stream { max_rx_data, max_tx_data, sent: 0, unsent: Vec::new() }
    }

    /// Whether the stream has data to send, and may send at least some of it.
    pub fn is_flushable(&self) -> (res: bool)
        ensures
            res == self.flushable(),
    {
        self.unsent.len() > 0 && self.sent < self.max_tx_data
    }
}

/// A stream has something to flush if and only if it has bytes left and its limit
/// is not reached; a new one has none.
pub proof fn when_a_stream_is_flushable(s: Stream, max_rx_data: u64, max_tx_data: u64)
    ensures
        s.flushable() <==> s.unsent@.len() > 0 && s.sent < s.max_tx_data,
        s.is_fresh(max_rx_data, max_tx_data) <==> {
            &&& s.max_rx_data == max_rx_data
            &&& s.max_tx_data == max_tx_data
            &&& s.sent == 0
            &&& s.unsent@.len() == 0
        },
        s.is_fresh(max_rx_data, max_tx_data) ==> !s.flushable(),
{
    if s.unsent@.len() == 0 {
        assert(s.unsent@ =~= Seq::empty());
    }
}

} // verus!
