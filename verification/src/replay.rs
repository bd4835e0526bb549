//! Sliding-window replay protection in the style of RFC 6479.

use vstd::prelude::*;

verus! {

/// Replay window size in packets.
pub const REPLAY_WINDOW_SIZE: usize = 2048;

/// What a replay window remembers: the highest counter accepted so far, and which of the
/// counters within `REPLAY_WINDOW_SIZE` below it were accepted.
#[verifier::ext_equal]
pub struct ReplayModel {
    pub highest: nat,
    pub seen: Set<nat>,
}

/// The window before any packet.
pub open spec fn replay_empty() -> ReplayModel {
    ReplayModel { highest: 0, seen: Set::empty() }
}

/// Whether a counter is not so old that it has fallen out of the window.
pub open spec fn replay_in_reach(m: ReplayModel, counter: nat) -> bool {
    counter > m.highest || m.highest - counter < REPLAY_WINDOW_SIZE
}

/// A counter passes if it is in reach and was not accepted before.
pub open spec fn replay_passes(m: ReplayModel, counter: nat) -> bool {
    replay_in_reach(m, counter) && !m.seen.contains(counter)
}

/// Accepting a counter marks it as seen; a counter above the highest one moves the window up,
/// and what falls out at the bottom is forgotten.
pub open spec fn replay_accepted(m: ReplayModel, counter: nat) -> ReplayModel {
    let highest = if counter > m.highest {
        counter
    } else {
        m.highest
    };
    ReplayModel {
        highest,
        seen: m.seen.insert(counter).filter(|c: nat| highest - c < REPLAY_WINDOW_SIZE),
    }
}

/// Whether bit `d` of the bitmap is set.
spec fn bit(bitmap: Seq<u64>, d: int) -> bool {
    (bitmap[d / 64] >> ((d % 64) as u64)) & 1 == 1
}

/// Sliding window for replay protection.
///
/// Tracks which packet counters have been received within a window of `REPLAY_WINDOW_SIZE`.
/// Packets with counters below the window or already seen within the window are rejected.
#[derive(Clone, Copy)]
pub struct ReplayWindow {
    /// Highest counter value seen.
    highest: u64,
    /// Bit `d` tells whether the counter `highest - d` has been seen.
    bitmap: [u64; 32],
}

impl View for ReplayWindow {
    type V = ReplayModel;

    closed spec fn view(&self) -> ReplayModel {
        ReplayModel {
            highest: self.highest as nat,
            seen: Set::new(
                |c: nat|
                    c <= self.highest && self.highest - c < REPLAY_WINDOW_SIZE && bit(
                        self.bitmap@,
                        self.highest - c,
                    ),
            ),
        }
    }
}

impl ReplayWindow {
    /// Create a new replay window.
    pub fn new() -> (r: Self)
        ensures
            r@ == replay_empty(),
    {
        let r = Self { highest: 0, bitmap: [0u64; 32] };
        proof {
            assert forall|d: int| 0 <= d < 2048 implies !bit(r.bitmap@, d) by {
                let b = (d % 64) as u64;
                assert((0u64 >> b) & 1 == 0) by (bit_vector);
            }
            assert(r@.seen =~= Set::empty());
        }
        r
    }

    /// Check if a counter is valid (not replayed, not too old).
    ///
    /// Returns true if the counter is acceptable. Does not update state: call `accept` after
    /// successful decryption.
    pub fn check(&self, counter: u64) -> (r: bool)
        ensures
            r == replay_passes(self@, counter as nat),
    {
        if counter > self.highest {
            return true;
        }
        let diff: u64 = self.highest - counter;
        if diff >= REPLAY_WINDOW_SIZE as u64 {
            return false;
        }
        let word_idx: usize = (diff as usize) / 64;
        let bit_idx: u64 = diff % 64;
        let word: u64 = self.bitmap[word_idx];
        assert((word & (1u64 << bit_idx)) == 0 <==> (word >> bit_idx) & 1 == 0) by (bit_vector)
            requires
                bit_idx < 64,
        ;
        assert((word >> bit_idx) & 1 == 0 || (word >> bit_idx) & 1 == 1) by (bit_vector);
        (word & (1u64 << bit_idx)) == 0
    }

    /// Accept a counter into the window.
    ///
    /// Call only after successful AEAD decryption.
    pub fn accept(&mut self, counter: u64)
        requires
            replay_in_reach(old(self)@, counter as nat),
        ensures
            final(self)@ == replay_accepted(old(self)@, counter as nat),
    {
        let ghost before = *self;
        if counter > self.highest {
            let shift: u64 = counter - self.highest;
            if shift >= REPLAY_WINDOW_SIZE as u64 {
                self.bitmap = [0u64; 32];
                proof {
                    assert forall|d: int| 0 <= d < 2048 implies !bit(self.bitmap@, d) by {
                        let b = (d % 64) as u64;
                        assert((0u64 >> b) & 1 == 0) by (bit_vector);
                    }
                }
            } else {
                self.shift_bitmap(shift as usize);
            }
            self.highest = counter;
            let ghost shifted = self.bitmap@;
            self.set_bit(0);
            proof {
                assert forall|c: nat| self@.seen.contains(c) == replay_accepted(
                    before@,
                    counter as nat,
                ).seen.contains(c) by {
                    if c <= counter && counter - c < 2048 {
                        let d = counter - c;
                        assert(bit(self.bitmap@, d) == (d == 0 || bit(shifted, d)));
                        if shift < 2048 {
                            assert(bit(shifted, d) == (d >= shift && bit(
                                before.bitmap@,
                                d - shift,
                            )));
                        } else {
                            assert(!bit(shifted, d));
                        }
                    }
                }
            }
        } else {
            let diff: u64 = self.highest - counter;
            self.set_bit(diff as usize);
            proof {
                assert forall|c: nat| self@.seen.contains(c) == replay_accepted(
                    before@,
                    counter as nat,
                ).seen.contains(c) by {
                    if c <= self.highest && self.highest - c < 2048 {
                        let d = self.highest - c;
                        assert(bit(self.bitmap@, d) == (d == diff || bit(before.bitmap@, d)));
                    }
                }
            }
        }
        assert(self@.seen =~= replay_accepted(before@, counter as nat).seen);
    }

    fn set_bit(&mut self, d: usize)
        requires
            d < REPLAY_WINDOW_SIZE,
        ensures
            final(self).highest == old(self).highest,
            forall|e: int|
                0 <= e < REPLAY_WINDOW_SIZE ==> #[trigger] bit(final(self).bitmap@, e) == (e == d
                    || bit(old(self).bitmap@, e)),
    {
        let word_idx: usize = d / 64;
        let bit_idx: u64 = (d % 64) as u64;
        let ghost before = self.bitmap@;
        let word: u64 = self.bitmap[word_idx];
        self.bitmap[word_idx] = word | (1u64 << bit_idx);
        proof {
            assert forall|e: int| 0 <= e < REPLAY_WINDOW_SIZE implies #[trigger] bit(
                self.bitmap@,
                e,
            ) == (e == d || bit(before, e)) by {
                let b = (e % 64) as u64;
                assert(((word | (1u64 << bit_idx)) >> b) & 1 == (if b == bit_idx {
                    1
                } else {
                    (word >> b) & 1
                })) by (bit_vector)
                    requires
                        b < 64,
                        bit_idx < 64,
                ;
                assert((e / 64 == d / 64 && e % 64 == d % 64) == (e == d));
            }
        }
    }

    fn shift_bitmap(&mut self, shift: usize)
        requires
            shift < REPLAY_WINDOW_SIZE,
        ensures
            final(self).highest == old(self).highest,
            forall|d: int|
                0 <= d < REPLAY_WINDOW_SIZE ==> #[trigger] bit(final(self).bitmap@, d) == (d
                    >= shift && bit(old(self).bitmap@, d - shift)),
    {
        let word_shift: usize = shift / 64;
        let bit_shift: u64 = (shift % 64) as u64;
        let ghost before = self.bitmap@;
        if word_shift > 0 {
            let mut i: usize = 32;
            while i > word_shift
                invariant
                    0 < word_shift <= i <= 32,
                    self.highest == old(self).highest,
                    before == old(self).bitmap@,
                    forall|j: int| 0 <= j < i ==> self.bitmap@[j] == before[j],
                    forall|j: int| i <= j < 32 ==> self.bitmap@[j] == before[j - word_shift],
                decreases i,
            {
                i = i - 1;
                self.bitmap[i] = self.bitmap[i - word_shift];
            }
            let mut k: usize = 0;
            while k < word_shift
                invariant
                    k <= word_shift <= 32,
                    self.highest == old(self).highest,
                    forall|j: int| 0 <= j < k ==> self.bitmap@[j] == 0,
                    forall|j: int|
                        word_shift <= j < 32 ==> self.bitmap@[j] == before[j - word_shift],
                decreases word_shift - k,
            {
                self.bitmap[k] = 0;
                k = k + 1;
            }
        }
        let ghost moved = self.bitmap@;
        assert(forall|j: int|
            0 <= j < 32 ==> moved[j] == (if j < word_shift {
                0u64
            } else {
                before[j - word_shift]
            }));
        if bit_shift > 0 {
            let mut carry: u64 = 0;
            let mut i: usize = 0;
            while i < 32
                invariant
                    i <= 32,
                    0 < bit_shift < 64,
                    self.highest == old(self).highest,
                    carry == (if i == 0 {
                        0u64
                    } else {
                        moved[i - 1] >> ((64 - bit_shift) as u64)
                    }),
                    moved.len() == 32,
                    forall|j: int| i <= j < 32 ==> self.bitmap@[j] == moved[j],
                    forall|j: int|
                        0 <= j < i ==> self.bitmap@[j] == (moved[j] << bit_shift) | (if j == 0 {
                            0u64
                        } else {
                            moved[j - 1] >> ((64 - bit_shift) as u64)
                        }),
                decreases 32 - i,
            {
                let new_carry: u64 = self.bitmap[i] >> (64 - bit_shift);
                self.bitmap[i] = (self.bitmap[i] << bit_shift) | carry;
                carry = new_carry;
                i = i + 1;
            }
        }
        proof {
            assert forall|d: int| 0 <= d < REPLAY_WINDOW_SIZE implies #[trigger] bit(
                self.bitmap@,
                d,
            ) == (d >= shift && bit(before, d - shift)) by {
                let w = d / 64;
                let b = (d % 64) as u64;
                let ws = word_shift as int;
                assert(shift == 64 * ws + bit_shift);
                let x = moved[w];
                let y = if w == 0 {
                    0u64
                } else {
                    moved[w - 1]
                };
                assert((0u64 >> b) & 1 == 0) by (bit_vector);
                if bit_shift == 0 {
                    assert((d - shift) / 64 == w - ws && (d - shift) % 64 == d % 64);
                } else {
                    let c = (64 - bit_shift) as u64;
                    assert(0u64 >> c == 0) by (bit_vector);
                    let lo = if b >= bit_shift {
                        (b - bit_shift) as u64
                    } else {
                        (64 - bit_shift + b) as u64
                    };
                    assert((0u64 >> lo) & 1 == 0) by (bit_vector);
                    assert((((x << bit_shift) | (y >> c)) >> b) & 1 == (if b >= bit_shift {
                        (x >> lo) & 1
                    } else {
                        (y >> lo) & 1
                    })) by (bit_vector)
                        requires
                            0 < bit_shift < 64,
                            c == 64 - bit_shift,
                            b < 64,
                            lo == (if b >= bit_shift {
                                b - bit_shift
                            } else {
                                64 - bit_shift + b
                            }),
                    ;
                    if b >= bit_shift {
                        assert((d - shift) / 64 == w - ws && (d - shift) % 64 == b - bit_shift);
                    } else {
                        assert((d - shift) / 64 == w - ws - 1 && (d - shift) % 64 == 64 + b
                            - bit_shift);
                    }
                }
            }
        }
    }
}

impl Default for ReplayWindow {
    fn default() -> (r: Self)
        ensures
            r@ == replay_empty(),
    {
        Self::new()
    }
}

/// An accepted counter never passes again, whatever is accepted after it.
pub proof fn law_accepted_stays_rejected(m: ReplayModel, counter: nat, later: Seq<nat>)
    requires
        replay_in_reach(m, counter),
    ensures
        !replay_passes(replay_accepted_all(replay_accepted(m, counter), later), counter),
    decreases later.len(),
{
    let start = replay_accepted(m, counter);
    lemma_stays_known(start, counter, later);
}

/// Accepting the counters of a sequence one after another.
pub open spec fn replay_accepted_all(m: ReplayModel, counters: Seq<nat>) -> ReplayModel
    decreases counters.len(),
{
    if counters.len() == 0 {
        m
    } else {
        replay_accepted(replay_accepted_all(m, counters.drop_last()), counters.last())
    }
}

proof fn lemma_stays_known(m: ReplayModel, counter: nat, later: Seq<nat>)
    requires
        counter <= m.highest,
        m.seen.contains(counter) || m.highest - counter >= REPLAY_WINDOW_SIZE,
    ensures
        counter <= replay_accepted_all(m, later).highest,
        ({
            let n = replay_accepted_all(m, later);
            n.seen.contains(counter) || n.highest - counter >= REPLAY_WINDOW_SIZE
        }),
    decreases later.len(),
{
    if later.len() > 0 {
        lemma_stays_known(m, counter, later.drop_last());
    }
}

/// A counter that has fallen below the window is rejected.
pub proof fn law_below_window_rejected(m: ReplayModel, counter: nat)
    requires
        counter + REPLAY_WINDOW_SIZE <= m.highest,
    ensures
        !replay_passes(m, counter),
{
}

/// Accepting one counter changes nothing for another that is still in reach afterwards.
pub proof fn law_accept_leaves_others(m: ReplayModel, counter: nat, other: nat)
    requires
        other != counter,
        replay_in_reach(replay_accepted(m, counter), other),
    ensures
        replay_passes(replay_accepted(m, counter), other) == replay_passes(m, other),
{
}

/// A fresh window lets every counter pass.
pub proof fn law_fresh_window_passes(counter: nat)
    ensures
        replay_passes(replay_empty(), counter),
{
}

/// A counter passes if and only if it lies above the highest one, or less than 2048 below it and
/// was not accepted.
pub proof fn law_window_is_2048_wide(m: ReplayModel, counter: nat)
    requires
        forall|c: nat| #[trigger] m.seen.contains(c) ==> c <= m.highest,
    ensures
        counter > m.highest ==> replay_passes(m, counter),
        counter + 2048 <= m.highest ==> !replay_passes(m, counter),
        counter <= m.highest < counter + 2048 ==> (replay_passes(m, counter) <==> !m.seen.contains(
            counter,
        )),
{
}

/// Accepting a counter raises the highest one to it if it lies above, marks it as seen, and keeps
/// what was seen of the 2048 counters up to the highest, and nothing below.
pub proof fn law_accepting_moves_the_window(m: ReplayModel, counter: nat, c: nat)
    requires
        counter > m.highest || m.highest < counter + 2048,
    ensures
        ({
            let n = replay_accepted(m, counter);
            &&& n.highest == counter || n.highest == m.highest
            &&& n.highest >= counter && n.highest >= m.highest
            &&& n.seen.contains(counter)
            &&& c != counter ==> (n.seen.contains(c) <==> m.seen.contains(c) && n.highest < c
                + 2048)
        }),
{
}

} // verus!
