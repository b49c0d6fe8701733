//! What the copies of the silhouette add up to.
//!
//! Each `Replicate` unions into the silhouette a copy of all that is there,
//! and not of the root arm alone: the copies compound. Counted in sixths of
//! a full turn, and with turns taken exactly, this module follows the
//! places at which the root arm comes to stand.

use crate::plan::REPLICAS;
use vstd::prelude::*;

verus! {

/// Whether the root arm stands at `turn` sixths of a full turn once the
/// first `made` copies are unioned in. Before any copy it stands at zero.
/// The copy of index `made - 1` puts all that is there where it is and
/// `made - 1` sixths further.
pub open spec fn stands_at(made: nat, turn: int) -> bool
    decreases made,
{
    if made == 0 {
        turn == 0
    } else {
        let before = (made - 1) as nat;
        stands_at(before, turn) || (0 <= turn < REPLICAS && stands_at(
            before,
            (turn - before) % (REPLICAS as int),
        ))
    }
}

/// The six copies make the silhouette symmetric under a sixth of a turn:
/// after them the root arm stands at each of the six sixths, and nowhere
/// else. The first four copies bring it there already; the last two repeat
/// what is there.
pub proof fn lemma_copies_fill_the_turn(turn: int)
    ensures
        stands_at(REPLICAS as nat, turn) <==> 0 <= turn < REPLICAS,
        stands_at(4, turn) <==> 0 <= turn < REPLICAS,
        stands_at(3, turn) <==> 0 <= turn < 4,
{
    reveal_with_fuel(stands_at, 7);
    if 0 <= turn < REPLICAS {
        assert(stands_at(3, turn) <==> turn < 4);
        assert(stands_at(4, turn));
    }
}

} // verus!
