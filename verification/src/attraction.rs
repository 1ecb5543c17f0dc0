//! The attraction pass: which particle pulls at which, and in what order.

use vstd::prelude::*;
use crate::binary32::Binary32;

verus! {

/// Whether a pair at the given distance pulls. At distance zero the pull has
/// no direction and no finite size, so such a pair is skipped; every other
/// distance pulls.
pub fn attracts(distance: Binary32) -> (r: bool)
    ensures
        r == !distance.is_zero_spec(),
{
    !distance.is_zero()
}

/// The pairs that the pass still has to visit when it stands at the cell
/// `(other, this)` of the square of all index pairs: the cells from there on,
/// row by row, without the diagonal. A pair is `(other, this)`: `other` pulls,
/// and the velocity of `this` changes.
pub open spec fn pairs_from(count: nat, other: nat, this: nat) -> Seq<(nat, nat)>
    decreases count - other, count - this,
{
    if other >= count {
        Seq::empty()
    } else if this >= count {
        pairs_from(count, other + 1, 0)
    } else if this == other {
        pairs_from(count, other, this + 1)
    } else {
        seq![(other, this)].add(pairs_from(count, other, this + 1))
    }
}

/// The pairs of one pass over `count` particles, in the order of their
/// visits.
pub open spec fn schedule(count: nat) -> Seq<(nat, nat)> {
    pairs_from(count, 0, 0)
}

/// `a` comes before `b` when its first index is smaller, or the first indices
/// agree and its second is smaller.
pub open spec fn precedes(a: (nat, nat), b: (nat, nat)) -> bool {
    a.0 < b.0 || (a.0 == b.0 && a.1 < b.1)
}

/// A walk through the pairs of one attraction pass.
pub struct PairWalk {
    count: usize,
    other: usize,
    this: usize,
}

impl View for PairWalk {
    type V = Seq<(nat, nat)>;

    /// The pairs that are still to come, the next one first.
    closed spec fn view(&self) -> Seq<(nat, nat)> {
        pairs_from(self.count as nat, self.other as nat, self.this as nat)
    }
}

impl PairWalk {
    #[verifier::type_invariant]
    spec fn inv(self) -> bool {
        self.other <= self.count && self.this <= self.count
    }

    /// The number of particles that the walk is over.
    pub closed spec fn count(self) -> nat {
        self.count as nat
    }

    /// A walk at the start of a pass over `count` particles.
    pub fn new(count: usize) -> (walk: PairWalk)
        ensures
            walk.count() == count,
            walk@ == schedule(count as nat),
    {
        PairWalk { count, other: 0, this: 0 }
    }

    /// Hands out the next pair as `(other, this)` and moves past it, or
    /// returns `None` when every pair has been handed out.
    pub fn next(&mut self) -> (r: Option<(usize, usize)>)
        ensures
            final(self).count() == old(self).count(),
            match r {
                Some(pair) => {
                    &&& pair.0 < old(self).count()
                    &&& pair.1 < old(self).count()
                    &&& pair.0 != pair.1
                    &&& old(self)@.len() > 0
                    &&& old(self)@[0] == (pair.0 as nat, pair.1 as nat)
                    &&& final(self)@ == old(self)@.drop_first()
                },
                None => old(self)@.len() == 0 && final(self)@.len() == 0,
            },
    {
        proof {
            use_type_invariant(&*self);
        }
        while self.other < self.count && (self.this >= self.count || self.this == self.other)
            invariant
                self.other <= self.count,
                self.this <= self.count,
                self.count == old(self).count,
                self@ == old(self)@,
            decreases self.count - self.other, self.count - self.this,
        {
            if self.this >= self.count {
                self.other = self.other + 1;
                self.this = 0;
            } else {
                self.this = self.this + 1;
            }
        }
        if self.other >= self.count {
            None
        } else {
            let pair = (self.other, self.this);
            self.this = self.this + 1;
            proof {
                let rest = pairs_from(self.count as nat, self.other as nat, self.this as nat);
                assert(old(self)@ == seq![(pair.0 as nat, pair.1 as nat)].add(rest));
                assert(old(self)@.drop_first() == rest);
            }
            Some(pair)
        }
    }
}

/// Every visit is to two different particles of the pass.
pub proof fn lemma_schedule_members(count: nat)
    ensures
        forall|k: int|
            0 <= k < schedule(count).len() ==> {
                let pair = #[trigger] schedule(count)[k];
                pair.0 < count && pair.1 < count && pair.0 != pair.1
            },
{
    lemma_pairs_from_ordered(count, 0, 0);
}

/// The visits go by the pulling particle first and by the pulled one second:
/// an earlier visit precedes every later one. So no pair is visited twice.
pub proof fn lemma_schedule_ordered(count: nat)
    ensures
        forall|j: int, k: int|
            0 <= j < k < schedule(count).len() ==> precedes(
                #[trigger] schedule(count)[j],
                #[trigger] schedule(count)[k],
            ),
{
    lemma_pairs_from_ordered(count, 0, 0);
}

/// Every ordered pair of two different particles is visited.
pub proof fn lemma_schedule_complete(count: nat, other: nat, this: nat)
    requires
        other < count,
        this < count,
        other != this,
    ensures
        schedule(count).contains((other, this)),
{
    lemma_pairs_from_complete(count, 0, 0, other, this);
}

/// A pass over `count` particles makes `count * (count - 1)` visits.
pub proof fn lemma_schedule_len(count: nat)
    ensures
        schedule(count).len() == count * (count - 1),
{
    let len = schedule(count).len();
    if count > 0 {
        lemma_pairs_from_len(count, 0, 0);
        assert(len == count * (count - 1)) by (nonlinear_arith)
            requires
                len == (count - 0) - 1int + (count - 0 - 1) * (count - 1),
        ;
    } else {
        assert(len == count * (count - 1)) by (nonlinear_arith)
            requires
                len == 0,
                count == 0,
        ;
    }
}

proof fn lemma_pairs_from_ordered(count: nat, other: nat, this: nat)
    ensures
        forall|k: int|
            0 <= k < pairs_from(count, other, this).len() ==> {
                let pair = #[trigger] pairs_from(count, other, this)[k];
                &&& pair.0 < count
                &&& pair.1 < count
                &&& pair.0 != pair.1
                &&& !precedes(pair, (other, this))
            },
        forall|j: int, k: int|
            0 <= j < k < pairs_from(count, other, this).len() ==> precedes(
                #[trigger] pairs_from(count, other, this)[j],
                #[trigger] pairs_from(count, other, this)[k],
            ),
    decreases count - other, count - this,
{
    let all = pairs_from(count, other, this);
    if other >= count {
        assert(all.len() == 0);
    } else if this >= count {
        lemma_pairs_from_ordered(count, other + 1, 0);
        assert(all == pairs_from(count, other + 1, 0));
    } else if this == other {
        lemma_pairs_from_ordered(count, other, this + 1);
        assert(all == pairs_from(count, other, this + 1));
    } else {
        lemma_pairs_from_ordered(count, other, this + 1);
        let rest = pairs_from(count, other, this + 1);
        assert(all == seq![(other, this)].add(rest));
        assert forall|k: int| 0 <= k < all.len() implies {
            let pair = #[trigger] all[k];
            &&& pair.0 < count
            &&& pair.1 < count
            &&& pair.0 != pair.1
            &&& !precedes(pair, (other, this))
        } by {
            if k > 0 {
                assert(all[k] == rest[k - 1]);
            }
        }
        assert forall|j: int, k: int| 0 <= j < k < all.len() implies precedes(
            #[trigger] all[j],
            #[trigger] all[k],
        ) by {
            assert(all[k] == rest[k - 1]);
            if j > 0 {
                assert(all[j] == rest[j - 1]);
            }
        }
    }
}

proof fn lemma_pairs_from_complete(count: nat, other: nat, this: nat, a: nat, b: nat)
    requires
        a < count,
        b < count,
        a != b,
        !precedes((a, b), (other, this)),
    ensures
        pairs_from(count, other, this).contains((a, b)),
    decreases count - other, count - this,
{
    if this >= count {
        lemma_pairs_from_complete(count, other + 1, 0, a, b);
    } else if this == other {
        lemma_pairs_from_complete(count, other, this + 1, a, b);
    } else {
        let rest = pairs_from(count, other, this + 1);
        let all = pairs_from(count, other, this);
        assert(all == seq![(other, this)].add(rest));
        if a == other && b == this {
            assert(all[0] == (a, b));
        } else {
            lemma_pairs_from_complete(count, other, this + 1, a, b);
            let k = choose|k: int| 0 <= k < rest.len() && rest[k] == (a, b);
            assert(all[k + 1] == (a, b));
        }
    }
}

proof fn lemma_pairs_from_len(count: nat, other: nat, this: nat)
    requires
        other < count,
        this <= count,
    ensures
        pairs_from(count, other, this).len() == (count - this) - (if this <= other {
            1int
        } else {
            0int
        }) + (count - other - 1) * (count - 1),
    decreases count - other, count - this,
{
    let all = pairs_from(count, other, this);
    let below = (count - other - 1) * (count - 1);
    if this >= count {
        let next = pairs_from(count, other + 1, 0);
        assert(all == next);
        if other + 1 < count {
            lemma_pairs_from_len(count, other + 1, 0);
            let next_below = (count - (other + 1) - 1) * (count - 1);
            assert(next.len() == count - 1 + next_below);
            assert(below == count - 1 + next_below) by (nonlinear_arith)
                requires
                    below == (count - other - 1) * (count - 1),
                    next_below == (count - (other + 1) - 1) * (count - 1),
            ;
        } else {
            assert(next.len() == 0);
            assert(below == 0) by (nonlinear_arith)
                requires
                    below == (count - other - 1) * (count - 1),
                    count - other - 1 == 0,
            ;
        }
    } else {
        lemma_pairs_from_len(count, other, this + 1);
        let rest = pairs_from(count, other, this + 1);
        if this == other {
            assert(all == rest);
        } else {
            assert(all == seq![(other, this)].add(rest));
            assert(all.len() == 1 + rest.len());
        }
    }
}

} // verus!
