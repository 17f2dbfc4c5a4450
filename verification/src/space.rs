//! Packet number spaces.
use vstd::prelude::*;

use crate::crypto::{Open, Seal, TAG_LEN};
use crate::ranges::RangeSet;
use crate::stream::Stream;
use crate::window::PktNumWindow;

verus! {

/// A point in time, `std::time::Instant`, of which nothing is known.
#[verifier::external_type_specification]
#[verifier::external_body]
pub struct ExInstant(std::time::Instant);

/// Calls `std::time::Instant::now`. Nothing is claimed of what time it is.
#[verifier::external_body]
fn instant_now() -> (res: std::time::Instant) {
    std::time::Instant::now()
}

/// The state of the packets of one epoch.
pub struct PktNumSpace {
    /// The largest packet number received.
    pub largest_rx_pkt_num: u64,
    /// When the packet with that number was received.
    pub largest_rx_pkt_time: std::time::Instant,
    /// The packet number of the next packet that is sent.
    pub next_pkt_num: u64,
    /// The packets that are to be acknowledged.
    pub recv_pkt_need_ack: RangeSet,
    /// The packets that were received.
    pub recv_pkt_num: PktNumWindow,
    /// A packet was received that asks to be acknowledged at once.
    pub ack_elicited: bool,
    /// The keys that packets are opened with.
    pub crypto_open: Option<Open>,
    /// The keys that packets are sealed with.
    pub crypto_seal: Option<Seal>,
    /// The stream that the handshake runs over.
    pub crypto_stream: Stream,
}

impl PktNumSpace {
    /// There is something to send.
    pub open spec fn has_something_to_send(&self) -> bool {
        self.crypto_stream.flushable() || self.ack_elicited
    }

    /// Nothing was sent or received, and there are no keys.
    pub open spec fn is_fresh(&self) -> bool {
        &&& self.largest_rx_pkt_num == 0
        &&& self.next_pkt_num == 0
        &&& self.recv_pkt_need_ack.ranges@.len() == 0
        &&& forall|n: int| !self.recv_pkt_need_ack.has(n)
        &&& self.recv_pkt_num.wf()
        &&& self.recv_pkt_num.base() == 0
        &&& forall|n: int| 0 <= n ==> !self.recv_pkt_num.received(n)
        &&& !self.ack_elicited
        &&& self.crypto_open is None
        &&& self.crypto_seal is None
        &&& self.crypto_stream.is_fresh(u64::MAX, u64::MAX)
    }

    /// A packet number space in which nothing was sent or received.
    pub fn new() -> (res: PktNumSpace)
        ensures
            res.is_fresh(),
            !res.has_something_to_send(),
    {
        PktNumSpace::new_at(instant_now())
    }

    /// Like [`PktNumSpace::new`], with the current time given.
    pub fn new_at(now: std::time::Instant) -> (res: PktNumSpace)
        ensures
            res.is_fresh(),
            res.largest_rx_pkt_time == now,
            !res.has_something_to_send(),
    {
        PktNumSpace {
            largest_rx_pkt_num: 0,
            largest_rx_pkt_time: now,
            next_pkt_num: 0,
            recv_pkt_need_ack: RangeSet::default(),
            recv_pkt_num: PktNumWindow::default(),
            ack_elicited: false,
            crypto_open: None,
            crypto_seal: None,
            crypto_stream: Stream::new(u64::MAX, u64::MAX),
        }
    }

    /// Drops what is to be sent. What was received, and the keys, stay.
    pub fn clear(&mut self)
        ensures
            final(self).crypto_stream.is_fresh(u64::MAX, u64::MAX),
            *final(self) == (PktNumSpace {
                crypto_stream: final(self).crypto_stream,
                ack_elicited: false,
                ..*old(self)
            }),
            !final(self).has_something_to_send(),
    {
        self.crypto_stream = Stream::new(u64::MAX, u64::MAX);
        self.ack_elicited = false;
    }

    /// By how many bytes sealing makes a packet longer.
    pub fn overhead(&self) -> (res: usize)
        requires
            self.crypto_seal is Some,
        ensures
            res == TAG_LEN,
    {
        self.crypto_seal.as_ref().unwrap().alg().tag_len()
    }

    /// Whether there is something to send.
    pub fn ready(&self) -> (res: bool)
        ensures
            res == self.has_something_to_send(),
    {
        self.crypto_stream.is_flushable() || self.ack_elicited
    }
}

/// What a packet number space is at first.
pub proof fn fresh_space(space: PktNumSpace, n: int)
    requires
        space.is_fresh(),
    ensures
        space.largest_rx_pkt_num == 0,
        space.next_pkt_num == 0,
        space.recv_pkt_need_ack.ranges@.len() == 0,
        !space.recv_pkt_need_ack.has(n),
        space.recv_pkt_num.wf(),
        space.recv_pkt_num.base() == 0,
        space.recv_pkt_num.received(n) <==> n < 0,
        !space.ack_elicited,
        space.crypto_open is None,
        space.crypto_seal is None,
        space.crypto_stream.max_rx_data == 0xffff_ffff_ffff_ffff,
        space.crypto_stream.max_tx_data == 0xffff_ffff_ffff_ffff,
        space.crypto_stream.sent == 0,
        space.crypto_stream.unsent@.len() == 0,
{
    crate::window::nothing_received_at_first(space.recv_pkt_num, n);
}

/// There is something to send if and only if an acknowledgement is due, or the
/// stream has bytes left and may send some of them.
pub proof fn when_there_is_something_to_send(space: PktNumSpace)
    ensures
        space.ack_elicited ==> space.has_something_to_send(),
        !space.ack_elicited ==> (space.has_something_to_send() <==> {
            &&& space.crypto_stream.unsent@.len() > 0
            &&& space.crypto_stream.sent < space.crypto_stream.max_tx_data
        }),
{
}

} // verus!
