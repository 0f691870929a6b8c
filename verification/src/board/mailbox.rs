//! Struct for keeping track of what's on each square.

use vstd::prelude::*;

use super::{Flippable, Piece};
use crate::bits::Square;

verus! {

broadcast use vstd::array::group_array_axioms;

/// An array of 64 optional-piece slots, one per square, giving reverse
/// lookup from a square to the occupying piece (or empty).
#[derive(PartialEq, Debug, Copy, Clone)]
pub struct Mailbox([Option<Piece>; 64]);

impl View for Mailbox {
    type V = Seq<Option<Piece>>;

    closed spec fn view(&self) -> Seq<Option<Piece>> {
        self.0@
    }
}

impl Mailbox {
    /// Constructs an all-empty mailbox.
    pub fn new() -> (m: Mailbox)
        ensures
            m@.len() == 64,
            forall|i: int| 0 <= i < 64 ==> m@[i] is None,
    {
        let slots = vstd::array::array_fill_for_copy_types::<Option<Piece>, 64>(None);
        proof {
            vstd::array::axiom_spec_array_fill_for_copy_type::<Option<Piece>, 64>(None);
        }
        Mailbox(slots)
    }

    /// Every mailbox has one slot per square.
    pub proof fn lemma_len(self)
        ensures
            self@.len() == 64,
    {
    }

    /// Returns the occupant of a square, or `None` for an empty square.
    pub fn get(&self, s: Square) -> (p: Option<Piece>)
        ensures
            p == self@[s@],
    {
        self.0[s.index()]
    }

    /// Overwrites a square's slot unconditionally.
    ///
    /// This performs no bitboard bookkeeping; callers are responsible for
    /// keeping any derived occupancy sets consistent.
    pub fn set(&mut self, s: Square, p: Option<Piece>)
        ensures
            final(self)@ == old(self)@.update(s@, p),
    {
        self.0[s.index()] = p;
    }
}

impl Flippable for Mailbox {
    /// Slot `i` of `self` holds what slot `63 - i` of `other` held.
    open spec fn is_flip_of(self, other: Mailbox) -> bool {
        forall|i: int| 0 <= i < 64 ==> self@[i] == other@[63 - i]
    }

    fn flipped(&self) -> (m: Self) {
        let mut out = Mailbox::new();
        let mut i: usize = 0;
        while i < 64
            invariant
                i <= 64,
                out@.len() == 64,
                forall|j: int| 0 <= j < i ==> out@[j] == self@[63 - j],
            decreases 64 - i,
        {
            out.0[i] = self.0[63 - i];
            i = i + 1;
        }
        out
    }
}

/// Two mailboxes with the same slots are the same mailbox.
pub proof fn lemma_mailbox_view_injective(a: Mailbox, b: Mailbox)
    requires
        a@ == b@,
    ensures
        a == b,
{
    assert(a.0 =~= b.0);
}

/// Flipping a mailbox twice gives the mailbox back.
pub proof fn lemma_mailbox_flip_involution(a: Mailbox, b: Mailbox, c: Mailbox)
    requires
        b.is_flip_of(a),
        c.is_flip_of(b),
    ensures
        c == a,
{
    assert forall|i: int| 0 <= i < 64 implies c@[i] == a@[i] by {
        assert(c@[i] == b@[63 - i]);
        assert(b@[63 - i] == a@[i]);
    }
    assert(c@ =~= a@);
    assert(c.0 =~= a.0);
}

} // verus!
