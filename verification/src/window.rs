//! Which packet numbers were received.
use vstd::prelude::*;

verus! {

/// How many packet numbers a window remembers one by one.
pub const WINDOW_LEN: u64 = 128;

/// The bit of `window` that is `i` places from the lowest.
spec fn bit(window: u128, i: int) -> bool {
    window & (1u128 << (i as u128)) != 0
}

proof fn lemma_bit_set(w: u128, p: u128, i: u128)
    by (bit_vector)
    requires
        p < 128,
        i < 128,
    ensures
        (w | (1u128 << p)) & (1u128 << i) != 0 <==> w & (1u128 << i) != 0 || i == p,
{
}

proof fn lemma_bit_shift(w: u128, k: u128, i: u128)
    by (bit_vector)
    requires
        k < 128,
        i < 128,
    ensures
        (w << k) & (1u128 << i) != 0 <==> i >= k && w & (1u128 << ((i - k) as u128)) != 0,
{
}

proof fn lemma_bit_kept(w: u128, p: u128)
    by (bit_vector)
    requires
        p < 128,
        w & (1u128 << p) != 0,
    ensures
        w | (1u128 << p) == w,
{
}

/// The packet numbers that were received, of those from `lower` on, as far back
/// as a window of [`WINDOW_LEN`] numbers goes. Those below `lower` count as
/// received.
#[derive(Clone, Copy)]
pub struct PktNumWindow {
    pub lower: u64,
    window: u128,
}

impl Default for PktNumWindow {
    /// A window that starts at the first packet number, of which none was
    /// received.
    fn default() -> (res: PktNumWindow)
        ensures
            res.wf(),
            res.base() == 0,
            forall|n: int| 0 <= n ==> !res.received(n),
    {
        proof {
            assert forall|i: int| 0 <= i < 128 implies !bit(0, i) by {
                let j = i as u128;
                assert(0u128 & (1u128 << j) == 0) by (bit_vector);
            }
        }
        PktNumWindow { lower: 0, window: 0 }
    }
}

/// `after` is what the window `before` becomes when `seq` is inserted.
///
/// Where the window moves, each mark moves with it by the low 32 bits of the
/// distance: it stays with its packet number where the distance is no larger
/// than that, and is on another one, or gone, where it is.
pub open spec fn inserted(before: PktNumWindow, seq: u64, after: PktNumWindow) -> bool {
    let dist = seq - before.top();
    let shift = dist % 0x1_0000_0000;
    &&& after.wf()
    &&& before.received(seq as int) ==> after == before
    &&& if seq < before.base() {
        after == before
    } else if seq <= before.top() {
        &&& after.base() == before.base()
        &&& forall|n: int| #[trigger] after.marked(n) <==> n == seq || before.marked(n)
    } else {
        &&& after.top() == seq
        &&& forall|n: int| #[trigger]
            after.marked(n) <==> n == seq || {
                &&& after.base() <= n <= seq
                &&& shift < WINDOW_LEN
                &&& before.marked(n - (dist - shift))
            }
    }
}

impl PktNumWindow {
    /// The smallest packet number in the window.
    pub closed spec fn base(&self) -> u64 {
        self.lower
    }

    /// The window does not reach past the packet numbers that can be inserted.
    pub open spec fn wf(&self) -> bool {
        self.base() <= u64::MAX - WINDOW_LEN
    }

    /// The largest packet number in the window.
    pub open spec fn top(&self) -> int {
        self.base() + WINDOW_LEN - 1
    }

    /// The packet number `n` is in the window and was received.
    pub closed spec fn marked(&self, n: int) -> bool {
        self.base() <= n <= self.top() && bit(self.window, self.top() - n)
    }

    /// The packet number `n` counts as received.
    pub open spec fn received(&self, n: int) -> bool {
        n < self.base() || self.marked(n)
    }

    /// Notes that the packet number `seq` was received. Where it is above the
    /// window, the window moves up until `seq` is its largest number.
    pub fn insert(&mut self, seq: u64)
        requires
            old(self).wf(),
            seq < u64::MAX,
        ensures
            inserted(*old(self), seq, *final(self)),
    {
        // Packet is on the left end of the window.
        if seq < self.lower {
            return;
        }
        // Packet is on the right end of the window.

        if seq > self.upper() {
            let diff: u64 = seq - self.upper();
            self.lower = self.lower + diff;

            let shift: u32 = diff as u32;
            assert(diff as u32 == diff % 0x1_0000_0000) by (bit_vector);
            self.window = if shift < 128 {
                self.window << shift
            } else {
                0
            };
            proof {
                assert forall|i: int| 0 <= i < 128 implies #[trigger] bit(self.window, i) == (shift
                    < 128 && i >= shift && bit(old(self).window, i - shift)) by {
                    if shift < 128 {
                        lemma_bit_shift(old(self).window, shift as u128, i as u128);
                    } else {
                        let j = i as u128;
                        assert(0u128 & (1u128 << j) == 0) by (bit_vector);
                    }
                }
            }
        }
        let ghost moved = self.window;
        let place: u64 = self.upper() - seq;
        let mask: u128 = 1u128 << place;
        self.window = self.window | mask;
        proof {
            assert forall|i: int| 0 <= i < 128 implies #[trigger] bit(self.window, i) == (bit(
                moved,
                i,
            ) || i == place) by {
                lemma_bit_set(moved, place as u128, i as u128);
            }
            if old(self).marked(seq as int) {
                lemma_bit_kept(moved, place as u128);
            }
        }
    }

    /// Whether the packet number `seq` counts as received.
    pub fn contains(&mut self, seq: u64) -> (res: bool)
        requires
            old(self).wf(),
        ensures
            *final(self) == *old(self),
            res == old(self).received(seq as int),
            seq < old(self).base() ==> res,
            seq > old(self).top() ==> !res,
    {
        // Packet is on the right end of the window.
        if seq > self.upper() {
            return false;
        }
        // Packet is on the left end of the window.

        if seq < self.lower {
            return true;
        }
        let mask: u128 = 1u128 << (self.upper() - seq);
        self.window & mask != 0
    }

    /// The largest packet number in the window.
    pub fn upper(&self) -> (res: u64)
        requires
            self.wf(),
        ensures
            res == self.top(),
    {
        self.lower.saturating_add(WINDOW_LEN) - 1
    }
}

/// A packet number counts as received once it was inserted.
pub proof fn inserted_is_received(before: PktNumWindow, seq: u64, after: PktNumWindow)
    requires
        before.wf(),
        inserted(before, seq, after),
    ensures
        after.received(seq as int),
{
    assert(after.marked(seq as int) || seq < before.base());
}

/// A packet number that counts as received goes on to count as received,
/// whatever is inserted.
pub proof fn received_stays_received(before: PktNumWindow, seq: u64, after: PktNumWindow, n: int)
    requires
        before.wf(),
        inserted(before, seq, after),
        before.received(n),
    ensures
        after.received(n),
{
    if before.base() <= n && n >= after.base() {
        assert(after.marked(n));
    }
}

/// Inserting a packet number marks no other one: what counts as received
/// afterwards and did not before has fallen below the window.
pub proof fn only_inserted_is_new(before: PktNumWindow, seq: u64, after: PktNumWindow, n: int)
    requires
        before.wf(),
        inserted(before, seq, after),
        ({
            let dist = seq - before.top();
            ||| dist < 0x1_0000_0000
            ||| forall|m: int| #[trigger]
                before.marked(m) ==> {
                    ||| m - before.base() < dist % 0x1_0000_0000
                    ||| m == before.top() + dist % 0x1_0000_0000
                }
        }),
        n != seq,
        n >= after.base(),
        after.received(n),
    ensures
        before.received(n),
{
    let dist = seq - before.top();
    let shift = dist % 0x1_0000_0000;
    if seq > before.top() {
        assert(after.marked(n));
        assert(before.marked(n - (dist - shift)));
    }
}

/// Inserting a packet number once more changes nothing.
pub proof fn inserting_again_changes_nothing(
    before: PktNumWindow,
    seq: u64,
    once: PktNumWindow,
    twice: PktNumWindow,
)
    requires
        before.wf(),
        inserted(before, seq, once),
        inserted(once, seq, twice),
    ensures
        twice == once,
{
    inserted_is_received(before, seq, once);
}

/// A packet number above the window does not count as received.
pub proof fn above_window_is_not_received(w: PktNumWindow, n: int)
    requires
        n > w.top(),
    ensures
        !w.received(n),
{
}

/// The window has 128 numbers, and it moves only as far as it must: just as far as
/// makes an inserted number above it its largest.
pub proof fn window_follows_the_largest(before: PktNumWindow, seq: u64, after: PktNumWindow)
    requires
        before.wf(),
        inserted(before, seq, after),
    ensures
        before.top() == before.base() + 127,
        before.base() <= u64::MAX - 128,
        seq <= before.top() ==> after.base() == before.base(),
        seq > before.top() ==> after.base() == seq - 127,
{
}

/// What counts as received after `seq` was inserted: `seq`, what is 128 or more
/// below it, and what counted as received before.
pub proof fn received_after_insert(before: PktNumWindow, seq: u64, after: PktNumWindow, n: int)
    requires
        before.wf(),
        inserted(before, seq, after),
        seq - before.top() < 0x1_0000_0000,
    ensures
        after.received(n) <==> n == seq || n + 128 <= seq || before.received(n),
{
    received_after_any_insert(before, seq, after, n);
    if seq <= before.top() && n + 128 <= seq {
        assert(n < before.base());
    }
}

/// What counts as received after any number was inserted. A window that moves by
/// 2^32 or more takes marks with it by as many whole multiples of 2^32.
pub proof fn received_after_any_insert(before: PktNumWindow, seq: u64, after: PktNumWindow, n: int)
    requires
        before.wf(),
        inserted(before, seq, after),
    ensures
        seq <= before.top() ==> (after.received(n) <==> n == seq || before.received(n)),
        seq > before.top() ==> (after.received(n) <==> {
            ||| n == seq
            ||| n + 128 <= seq
            ||| n < seq && before.received(
                n - ((seq - before.top()) / 0x1_0000_0000) * 0x1_0000_0000,
            )
        }),
{
    let dist = seq - before.top();
    let shift = dist % 0x1_0000_0000;
    assert(after.marked(n) || !after.marked(n));
    if seq > before.top() {
        assert(dist - shift == (dist / 0x1_0000_0000) * 0x1_0000_0000);
        if n >= after.base() {
            assert(n - (dist - shift) >= before.base());
            assert(shift >= 128 ==> n - (dist - shift) > before.top());
        }
    }
}

/// A new window has its first 128 numbers, and none of them, or above them, counts
/// as received.
pub proof fn nothing_received_at_first(w: PktNumWindow, n: int)
    requires
        w.base() == 0,
        forall|m: int| 0 <= m ==> !w.received(m),
    ensures
        w.top() == 127,
        w.received(n) <==> n < 0,
{
}

} // verus!
