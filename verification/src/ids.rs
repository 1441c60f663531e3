//! Index-addressed identifiers. No object identity is load-bearing.

use vstd::prelude::*;

verus! {

/// Seat A is `deck_a` / `"a"` in a trace; B is `"b"`.
#[derive(Debug, Clone, Copy, PartialEq, Eq, Structural, Hash, PartialOrd, Ord)]
pub enum PlayerId {
    A,
    B,
}

/// Index of a seat: A is 0, B is 1.
pub open spec fn spec_player_idx(p: PlayerId) -> nat {
    match p {
        PlayerId::A => 0,
        PlayerId::B => 1,
    }
}

/// The other seat.
pub open spec fn spec_opponent(p: PlayerId) -> PlayerId {
    match p {
        PlayerId::A => PlayerId::B,
        PlayerId::B => PlayerId::A,
    }
}

/// Seat from an index: 0 is A, anything else is B.
pub open spec fn spec_player_from_idx(i: int) -> PlayerId {
    if i == 0 {
        PlayerId::A
    } else {
        PlayerId::B
    }
}

/// Trace label of a seat.
pub open spec fn spec_player_label(p: PlayerId) -> Seq<char> {
    match p {
        PlayerId::A => seq!['a'],
        PlayerId::B => seq!['b'],
    }
}

impl PlayerId {
    pub const ALL: [PlayerId; 2] = [PlayerId::A, PlayerId::B];

    pub fn idx(self) -> (r: usize)
        ensures
            r == spec_player_idx(self),
    {
        match self {
            PlayerId::A => 0,
            PlayerId::B => 1,
        }
    }

    pub fn opponent(self) -> (r: PlayerId)
        ensures
            r == spec_opponent(self),
    {
        match self {
            PlayerId::A => PlayerId::B,
            PlayerId::B => PlayerId::A,
        }
    }

    pub fn as_str(self) -> (r: &'static str)
        ensures
            r@ == spec_player_label(self),
    {
        proof {
            reveal_strlit("a");
            reveal_strlit("b");
        }
        match self {
            PlayerId::A => "a",
            PlayerId::B => "b",
        }
    }

    pub fn from_idx(i: usize) -> (r: Self)
        ensures
            r == spec_player_from_idx(i as int),
    {
        if i == 0 {
            PlayerId::A
        } else {
            PlayerId::B
        }
    }
}

/// The opponent of the opponent is the seat itself, and no seat is its own
/// opponent.
pub proof fn lemma_opponent_involution(p: PlayerId)
    ensures
        spec_opponent(spec_opponent(p)) == p,
        spec_opponent(p) != p,
{
}

/// Converting a seat to its index and back gives the seat; converting a
/// valid index (0 or 1) to a seat and back gives the index.
pub proof fn lemma_idx_roundtrip(p: PlayerId, i: int)
    ensures
        spec_player_from_idx(spec_player_idx(p) as int) == p,
        0 <= i < 2 ==> spec_player_idx(spec_player_from_idx(i)) == i,
{
}

/// The two seats have different indices and different labels.
pub proof fn lemma_seats_distinct()
    ensures
        spec_player_idx(PlayerId::A) != spec_player_idx(PlayerId::B),
        spec_player_label(PlayerId::A) != spec_player_label(PlayerId::B),
{
    assert(spec_player_label(PlayerId::A)[0] != spec_player_label(PlayerId::B)[0]);
}

/// Field slot 0..4, entry order, compacted after leaves. Leftmost = oldest.
#[derive(Debug, Clone, Copy, PartialEq, Eq, Structural, Hash)]
pub struct Slot(pub u8);

impl Slot {
    pub fn idx(self) -> (r: usize)
        ensures
            r == self.0,
    {
        self.0 as usize
    }
}

/// Hand position in draw order.
#[derive(Debug, Clone, Copy, PartialEq, Eq, Structural, Hash)]
pub struct HandIndex(pub u8);

/// Who goes first.
#[derive(Debug, Clone, Copy, PartialEq, Eq, Structural)]
pub enum First {
    Coin,
    A,
    B,
}

/// Combat / effect target: a field slot or a leader.
#[derive(Debug, Clone, Copy, PartialEq, Eq, Structural, Hash)]
pub enum AttackTarget {
    Slot(Slot),
    Leader,
}

} // verus!
