//! Sequence numbers for the packets of one outgoing stream.

use vstd::prelude::*;

verus! {

/// A generator of the sequence numbers of one outgoing stream.
///
/// A generator is seen as the endless stream of numbers that it will hand out:
/// `upcoming(k)` is the number that the call after `k` further calls returns.
/// A call takes the generator by exclusive reference, so no two calls on one
/// generator overlap and no number is handed out twice or lost; producers that
/// share a generator put it behind a lock.
pub trait Sequencer: Sized {
    /// The number that `next_sequence_number` returns after `k` earlier
    /// calls. Where an implementation does not say what it is, it is some
    /// function of the generator and `k` of which nothing more is known.
    open spec fn upcoming(&self, k: nat) -> u16 {
        arbitrary::<spec_fn(Self, nat) -> u16>()(*self, k)
    }

    /// Returns the next sequence number and moves the generator on by one.
    fn next_sequence_number(&mut self) -> (n: u16)
        ensures
            n == old(self).upcoming(0),
            forall|k: nat| #[trigger] final(self).upcoming(k) == old(self).upcoming(k + 1),
    ;
}

/// A generator that counts up from a start value, goes from 0xFFFF back to 0
/// and counts how often it has done so.
#[derive(Debug, Clone)]
pub struct WrappingSequencer {
    next_sequence_number: u16,
    roll_over_count: u64,
}

/// The state of a `WrappingSequencer`: the number it hands out next and the
/// number of times it went from 0xFFFF back to 0.
pub struct SequencerState {
    pub next: u16,
    pub rollovers: u64,
}

/// The state that one call of `next_sequence_number` leaves behind. The
/// rollover count stays where it is once it has reached the largest `u64`.
pub open spec fn step(s: SequencerState) -> SequencerState {
    SequencerState {
        next: if s.next == 0xFFFF { 0 } else { (s.next + 1) as u16 },
        rollovers: if s.next == 0xFFFF && s.rollovers < u64::MAX {
            (s.rollovers + 1) as u64
        } else {
            s.rollovers
        },
    }
}

/// The state after `k` calls of `next_sequence_number`.
pub open spec fn steps(s: SequencerState, k: nat) -> SequencerState
    decreases k,
{
    if k == 0 {
        s
    } else {
        step(steps(s, (k - 1) as nat))
    }
}

impl View for WrappingSequencer {
    type V = SequencerState;

    closed spec fn view(&self) -> SequencerState {
        SequencerState { next: self.next_sequence_number, rollovers: self.roll_over_count }
    }
}

/// `rand::random` for `u16`: a number drawn at random. Nothing is known of
/// the value.
#[verifier::external_body]
fn random_u16() -> u16 {
    rand::random::<u16>()
}

impl WrappingSequencer {
    /// A generator that starts from `init_sequence_number`.
    pub fn new(init_sequence_number: u16) -> (s: Self)
        ensures
            s@ == (SequencerState { next: init_sequence_number, rollovers: 0 }),
    {
        Self { next_sequence_number: init_sequence_number, roll_over_count: 0 }
    }

    /// A generator that starts from a number drawn at random.
    pub fn new_random() -> (s: Self)
        ensures
            s@.rollovers == 0,
    {
        Self::new(random_u16())
    }

    /// The number of times the sequence number went from 0xFFFF back to 0.
    pub fn roll_over_count(&self) -> (n: u64)
        ensures
            n == self@.rollovers,
    {
        self.roll_over_count
    }
}

impl Sequencer for WrappingSequencer {
    open spec fn upcoming(&self, k: nat) -> u16 {
        steps(self@, k).next
    }

    fn next_sequence_number(&mut self) -> (n: u16)
        ensures
            n == old(self)@.next,
            final(self)@ == step(old(self)@),
    {
        let next_sequence_number = self.next_sequence_number;
        self.next_sequence_number = self.next_sequence_number.wrapping_add(1);
        if self.next_sequence_number == 0 && self.roll_over_count < u64::MAX {
            self.roll_over_count += 1;
        }
        proof {
            assert(self@ == step(old(self)@));
            assert forall|k: nat| #[trigger] self.upcoming(k) == old(self).upcoming(k + 1) by {
                lemma_steps_shift(old(self)@, k);
            }
        }
        next_sequence_number
    }
}

/// Taking `k` steps from the state after one step is taking `k + 1` steps.
pub proof fn lemma_steps_shift(s: SequencerState, k: nat)
    ensures
        steps(step(s), k) == steps(s, k + 1),
    decreases k,
{
    if k > 0 {
        lemma_steps_shift(s, (k - 1) as nat);
    } else {
        assert(steps(s, 1) == step(steps(s, 0)));
    }
}

/// After `k` calls the next number is the start plus `k` modulo 65536, and
/// the rollover count has grown by the number of multiples of 65536 that
/// were passed, as long as that count fits 64 bits.
pub proof fn lemma_steps_closed_form(s: SequencerState, k: nat)
    requires
        s.rollovers + (s.next + k) / 0x1_0000 <= u64::MAX,
    ensures
        steps(s, k).next == (s.next + k) % 0x1_0000,
        steps(s, k).rollovers == s.rollovers + (s.next + k) / 0x1_0000,
    decreases k,
{
    if k > 0 {
        lemma_steps_closed_form(s, (k - 1) as nat);
    }
}

/// After exactly 65536 calls the rollover count is one more than before,
/// and the next number is again the one that the first of these calls
/// returned. (A count that has reached the largest `u64` stays there.)
pub proof fn lemma_full_cycle(s: SequencerState)
    requires
        s.rollovers < u64::MAX,
    ensures
        steps(s, 65536).rollovers == s.rollovers + 1,
        steps(s, 65536).next == s.next,
{
    lemma_steps_closed_form(s, 65536);
}

/// The numbers that a generator returns count up from its next number,
/// modulo 65536: each is the one before plus one, and 0 follows 0xFFFF.
pub proof fn lemma_numbers_count_up(s: WrappingSequencer, k: nat)
    ensures
        s.upcoming(k) == (s@.next + k) % 0x1_0000,
{
    lemma_next_closed_form(s@, k);
}

/// The 65537th number that a generator returns is the first one again.
pub proof fn lemma_numbers_repeat(s: WrappingSequencer)
    ensures
        s.upcoming(65536) == s.upcoming(0),
{
    lemma_numbers_count_up(s, 65536);
    lemma_numbers_count_up(s, 0);
}

/// After `k` calls the next number is the start plus `k` modulo 65536,
/// whatever the rollover count.
proof fn lemma_next_closed_form(s: SequencerState, k: nat)
    ensures
        steps(s, k).next == (s.next + k) % 0x1_0000,
    decreases k,
{
    if k > 0 {
        lemma_next_closed_form(s, (k - 1) as nat);
    }
}

} // verus!
