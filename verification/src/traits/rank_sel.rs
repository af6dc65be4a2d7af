//! Basic traits for succinct operations on bit vectors, including rank
//! (number of ones before a position) and select (position of the one of a
//! given rank), together with the laws tying the two together.

use vstd::prelude::*;

verus! {

/// The number of ones in `s`.
pub open spec fn count_ones(s: Seq<bool>) -> nat
    decreases s.len(),
{
    if s.len() == 0 {
        0
    } else {
        count_ones(s.drop_last()) + if s.last() {
            1nat
        } else {
            0nat
        }
    }
}

/// The number of zeros in `s`.
pub open spec fn count_zeros(s: Seq<bool>) -> nat {
    (s.len() - count_ones(s)) as nat
}

/// Extending a prefix by one bit adds that bit to its count of ones.
pub proof fn lemma_count_ones_take_step(s: Seq<bool>, i: int)
    requires
        0 <= i < s.len(),
    ensures
        count_ones(s.take(i + 1)) == count_ones(s.take(i)) + if s[i] {
            1nat
        } else {
            0nat
        },
{
    assert(s.take(i + 1).drop_last() =~= s.take(i));
    assert(s.take(i + 1).last() == s[i]);
}

/// A prefix has no more ones than bits.
pub proof fn lemma_count_ones_take_le(s: Seq<bool>, i: int)
    requires
        0 <= i <= s.len(),
    ensures
        count_ones(s.take(i)) <= i,
    decreases i,
{
    if i > 0 {
        lemma_count_ones_take_le(s, i - 1);
        lemma_count_ones_take_step(s, i - 1);
    } else {
        assert(s.take(0) =~= Seq::<bool>::empty());
    }
}

/// A sequence has no more ones than bits.
pub proof fn lemma_count_ones_le(s: Seq<bool>)
    ensures
        count_ones(s) <= s.len(),
{
    lemma_count_ones_take_le(s, s.len() as int);
    assert(s.take(s.len() as int) =~= s);
}

/// Counting ones is monotone in the prefix length.
pub proof fn lemma_count_ones_take_mono(s: Seq<bool>, i: int, j: int)
    requires
        0 <= i <= j <= s.len(),
    ensures
        count_ones(s.take(i)) <= count_ones(s.take(j)),
    decreases j - i,
{
    if i < j {
        lemma_count_ones_take_mono(s, i, j - 1);
        lemma_count_ones_take_step(s, j - 1);
    }
}

/// Rank inverts select: one past the position of a one, the count of ones is
/// one larger than strictly before it. So if a one has rank `r` — `r` ones
/// strictly before it — the rank of the position just past it is `r + 1`.
pub proof fn lemma_rank_of_select(s: Seq<bool>, q: int)
    requires
        0 <= q < s.len(),
        s[q],
    ensures
        count_ones(s.take(q + 1)) == count_ones(s.take(q)) + 1,
{
    lemma_count_ones_take_step(s, q);
}

/// Select inverts rank: if `p` is any position with `r` ones strictly before
/// it, the one of rank `r` — when it exists — lies at or past `p`.
pub proof fn lemma_select_of_rank(s: Seq<bool>, p: int, q: int)
    requires
        0 <= p <= s.len(),
        0 <= q < s.len(),
        s[q],
        count_ones(s.take(q)) == count_ones(s.take(p)),
    ensures
        q >= p,
{
    if q < p {
        lemma_rank_of_select(s, q);
        lemma_count_ones_take_mono(s, q + 1, p);
    }
}

/// The one of a given rank is unique: two set positions with equally many
/// ones before them are the same position.
pub proof fn lemma_select_unique(s: Seq<bool>, q1: int, q2: int)
    requires
        0 <= q1 < s.len(),
        0 <= q2 < s.len(),
        s[q1],
        s[q2],
        count_ones(s.take(q1)) == count_ones(s.take(q2)),
    ensures
        q1 == q2,
{
    lemma_select_of_rank(s, q1, q2);
    lemma_select_of_rank(s, q2, q1);
}

/// A succinct structure exposing the length of an underlying bit vector.
pub trait BitLength {
    /// Structural soundness.
    spec fn inv(&self) -> bool;

    /// The underlying bit vector.
    spec fn bits(&self) -> Seq<bool>;

    /// The length in bits of the underlying bit vector.
    fn len(&self) -> (r: usize)
        requires
            self.inv(),
        ensures
            r == self.bits().len(),
    ;
}

/// A succinct structure exposing the number of ones of the underlying bit
/// vector.
pub trait BitCount: BitLength {
    /// The number of ones in the underlying bit vector.
    fn count(&self) -> (r: usize)
        requires
            self.inv(),
        ensures
            r == count_ones(self.bits()),
    ;
}

/// Rank over a bit vector.
pub trait Rank: BitLength {
    /// The number of ones strictly preceding `pos`, which is clamped to the
    /// length, so out-of-range positions never read past the end.
    fn rank(&self, pos: usize) -> (r: usize)
        requires
            self.inv(),
        ensures
            r == count_ones(
                self.bits().take(
                    if pos <= self.bits().len() {
                        pos as int
                    } else {
                        self.bits().len() as int
                    },
                ),
            ),
    {
        let n = self.len();
        if pos < n {
            self.rank_unchecked(pos)
        } else {
            self.rank_unchecked(n)
        }
    }

    /// The number of ones strictly preceding `pos`, which must be at most the
    /// length of the underlying bit vector.
    fn rank_unchecked(&self, pos: usize) -> (r: usize)
        requires
            self.inv(),
            pos <= self.bits().len(),
        ensures
            r == count_ones(self.bits().take(pos as int)),
    ;
}

/// Rank of zeros over a bit vector.
pub trait RankZero: Rank {
    /// The number of zeros strictly preceding `pos`; positions past the end
    /// count as zeros, as the clamped rank is subtracted from `pos` itself.
    fn rank_zero(&self, pos: usize) -> (r: usize)
        requires
            self.inv(),
        ensures
            r == pos - count_ones(
                self.bits().take(
                    if pos <= self.bits().len() {
                        pos as int
                    } else {
                        self.bits().len() as int
                    },
                ),
            ),
    {
        proof {
            let n = self.bits().len() as int;
            let c = if pos <= n {
                pos as int
            } else {
                n
            };
            lemma_count_ones_take_le(self.bits(), c);
        }
        let r = self.rank(pos);
        pos - r
    }

    /// The number of zeros strictly preceding `pos`, which must be at most
    /// the length of the underlying bit vector.
    fn rank_zero_unchecked(&self, pos: usize) -> (r: usize)
        requires
            self.inv(),
            pos <= self.bits().len(),
        ensures
            r == count_zeros(self.bits().take(pos as int)),
    {
        proof {
            lemma_count_ones_take_le(self.bits(), pos as int);
        }
        let r = self.rank_unchecked(pos);
        pos - r
    }
}

/// Select over a bit vector.
pub trait Select: BitCount {
    /// The position of the one of the given rank, or `None` if fewer than
    /// `rank + 1` ones exist.
    fn select(&self, rank: usize) -> (r: Option<usize>)
        requires
            self.inv(),
        ensures
            match r {
                Some(p) => {
                    &&& p < self.bits().len()
                    &&& self.bits()[p as int]
                    &&& count_ones(self.bits().take(p as int)) == rank
                },
                None => rank >= count_ones(self.bits()),
            },
    {
        if rank >= self.count() {
            None
        } else {
            Some(self.select_unchecked(rank))
        }
    }

    /// The position of the one of the given rank, which must be less than the
    /// number of ones.
    fn select_unchecked(&self, rank: usize) -> (r: usize)
        requires
            self.inv(),
            rank < count_ones(self.bits()),
        ensures
            r < self.bits().len(),
            self.bits()[r as int],
            count_ones(self.bits().take(r as int)) == rank,
    ;
}

/// Select of zeros over a bit vector.
pub trait SelectZero: BitLength + BitCount {
    /// The position of the zero of the given rank, or `None` if fewer than
    /// `rank + 1` zeros exist.
    fn select_zero(&self, rank: usize) -> (r: Option<usize>)
        requires
            self.inv(),
        ensures
            match r {
                Some(p) => {
                    &&& p < self.bits().len()
                    &&& !self.bits()[p as int]
                    &&& count_zeros(self.bits().take(p as int)) == rank
                },
                None => rank >= count_zeros(self.bits()),
            },
    {
        proof {
            lemma_count_ones_le(self.bits());
        }
        let z = self.len() - self.count();
        if rank >= z {
            None
        } else {
            Some(self.select_zero_unchecked(rank))
        }
    }

    /// The position of the zero of the given rank, which must be less than
    /// the number of zeros.
    fn select_zero_unchecked(&self, rank: usize) -> (r: usize)
        requires
            self.inv(),
            rank < count_zeros(self.bits()),
        ensures
            r < self.bits().len(),
            !self.bits()[r as int],
            count_zeros(self.bits().take(r as int)) == rank,
    ;
}

/// Select over a bit vector, with a hint: a known preceding one and its rank
/// let an implementation start its search closer to the target. The answer is
/// the same as without the hint.
pub trait SelectHinted: Select {
    /// The position of the one of the given rank, given the position `pos` of
    /// a one at or before it and the number `rank_at_pos` of ones strictly
    /// before `pos`.
    fn select_hinted_unchecked(&self, rank: usize, pos: usize, rank_at_pos: usize) -> (r: usize)
        requires
            self.inv(),
            rank < count_ones(self.bits()),
            pos < self.bits().len(),
            self.bits()[pos as int],
            rank_at_pos == count_ones(self.bits().take(pos as int)),
            rank_at_pos <= rank,
        ensures
            r < self.bits().len(),
            self.bits()[r as int],
            count_ones(self.bits().take(r as int)) == rank,
    ;

    /// The position of the one of the given rank under the same hint, or
    /// `None` if fewer than `rank + 1` ones exist.
    fn select_hinted(&self, rank: usize, pos: usize, rank_at_pos: usize) -> (r: Option<usize>)
        requires
            self.inv(),
            pos < self.bits().len(),
            self.bits()[pos as int],
            rank_at_pos == count_ones(self.bits().take(pos as int)),
            rank_at_pos <= rank,
        ensures
            match r {
                Some(p) => {
                    &&& p < self.bits().len()
                    &&& self.bits()[p as int]
                    &&& count_ones(self.bits().take(p as int)) == rank
                },
                None => rank >= count_ones(self.bits()),
            },
    ;
}

/// Select of zeros over a bit vector, with a hint, symmetric to
/// [`SelectHinted`].
pub trait SelectZeroHinted: SelectZero {
    /// The position of the zero of the given rank, given the position `pos`
    /// of a zero at or before it and the number `rank_at_pos` of zeros
    /// strictly before `pos`.
    fn select_zero_hinted_unchecked(&self, rank: usize, pos: usize, rank_at_pos: usize) -> (r:
        usize)
        requires
            self.inv(),
            rank < count_zeros(self.bits()),
            pos < self.bits().len(),
            !self.bits()[pos as int],
            rank_at_pos == count_zeros(self.bits().take(pos as int)),
            rank_at_pos <= rank,
        ensures
            r < self.bits().len(),
            !self.bits()[r as int],
            count_zeros(self.bits().take(r as int)) == rank,
    ;

    /// The position of the zero of the given rank under the same hint, or
    /// `None` if fewer than `rank + 1` zeros exist.
    fn select_zero_hinted(&self, rank: usize, pos: usize, rank_at_pos: usize) -> (r: Option<
        usize,
    >)
        requires
            self.inv(),
            pos < self.bits().len(),
            !self.bits()[pos as int],
            rank_at_pos == count_zeros(self.bits().take(pos as int)),
            rank_at_pos <= rank,
        ensures
            match r {
                Some(p) => {
                    &&& p < self.bits().len()
                    &&& !self.bits()[p as int]
                    &&& count_zeros(self.bits().take(p as int)) == rank
                },
                None => rank >= count_zeros(self.bits()),
            },
    ;
}

/// A plain vector of bits is its own bit vector, with rank and select by
/// linear scan: the reference implementation of the contracts above.
impl BitLength for Vec<bool> {
    open spec fn inv(&self) -> bool {
        true
    }

    open spec fn bits(&self) -> Seq<bool> {
        self@
    }

    fn len(&self) -> (r: usize) {
        Vec::len(self)
    }
}

impl BitCount for Vec<bool> {
    fn count(&self) -> (r: usize) {
        let r = self.rank_unchecked(Vec::len(self));
        proof {
            assert(self@.take(self@.len() as int) =~= self@);
        }
        r
    }
}

impl Rank for Vec<bool> {
    fn rank_unchecked(&self, pos: usize) -> (r: usize) {
        let mut i: usize = 0;
        let mut cnt: usize = 0;
        while i < pos
            invariant
                pos <= self@.len(),
                i <= pos,
                cnt == count_ones(self@.take(i as int)),
                cnt <= i,
            decreases pos - i,
        {
            proof {
                lemma_count_ones_take_step(self@, i as int);
            }
            if self[i] {
                cnt = cnt + 1;
            }
            i = i + 1;
        }
        cnt
    }
}

impl RankZero for Vec<bool> {
}

impl Select for Vec<bool> {
    fn select_unchecked(&self, rank: usize) -> (r: usize) {
        let n = Vec::len(self);
        let mut i: usize = 0;
        let mut cnt: usize = 0;
        loop
            invariant
                n == self@.len(),
                i <= n,
                cnt == count_ones(self@.take(i as int)),
                cnt <= rank,
                rank < count_ones(self@),
            decreases n - i,
        {
            proof {
                assert(self@.take(n as int) =~= self@);
                if i == n {
                    assert(false);
                }
                lemma_count_ones_take_step(self@, i as int);
            }
            let b = self[i];
            if b && cnt == rank {
                return i;
            }
            if b {
                cnt = cnt + 1;
            }
            i = i + 1;
        }
    }
}

impl SelectZero for Vec<bool> {
    fn select_zero_unchecked(&self, rank: usize) -> (r: usize) {
        let n = Vec::len(self);
        let mut i: usize = 0;
        let mut cnt: usize = 0;
        loop
            invariant
                n == self@.len(),
                i <= n,
                cnt == count_zeros(self@.take(i as int)),
                cnt <= rank,
                rank < count_zeros(self@),
            decreases n - i,
        {
            proof {
                assert(self@.take(n as int) =~= self@);
                if i == n {
                    assert(false);
                }
                lemma_count_ones_take_step(self@, i as int);
                lemma_count_ones_take_le(self@, i as int);
                lemma_count_ones_take_le(self@, i + 1);
            }
            let b = self[i];
            if !b && cnt == rank {
                return i;
            }
            if !b {
                cnt = cnt + 1;
            }
            i = i + 1;
        }
    }
}

impl SelectHinted for Vec<bool> {
    fn select_hinted_unchecked(&self, rank: usize, pos: usize, rank_at_pos: usize) -> (r: usize) {
        let n = Vec::len(self);
        let mut i: usize = pos;
        let mut cnt: usize = rank_at_pos;
        loop
            invariant
                n == self@.len(),
                i <= n,
                cnt == count_ones(self@.take(i as int)),
                cnt <= rank,
                rank < count_ones(self@),
            decreases n - i,
        {
            proof {
                assert(self@.take(n as int) =~= self@);
                if i == n {
                    assert(false);
                }
                lemma_count_ones_take_step(self@, i as int);
            }
            let b = self[i];
            if b && cnt == rank {
                return i;
            }
            if b {
                cnt = cnt + 1;
            }
            i = i + 1;
        }
    }

    fn select_hinted(&self, rank: usize, pos: usize, rank_at_pos: usize) -> (r: Option<usize>) {
        if rank >= self.count() {
            None
        } else {
            Some(self.select_hinted_unchecked(rank, pos, rank_at_pos))
        }
    }
}

impl SelectZeroHinted for Vec<bool> {
    fn select_zero_hinted_unchecked(&self, rank: usize, pos: usize, rank_at_pos: usize) -> (r:
        usize) {
        let n = Vec::len(self);
        let mut i: usize = pos;
        let mut cnt: usize = rank_at_pos;
        proof {
            lemma_count_ones_take_le(self@, pos as int);
        }
        loop
            invariant
                n == self@.len(),
                i <= n,
                cnt == count_zeros(self@.take(i as int)),
                cnt <= rank,
                rank < count_zeros(self@),
            decreases n - i,
        {
            proof {
                assert(self@.take(n as int) =~= self@);
                if i == n {
                    assert(false);
                }
                lemma_count_ones_take_step(self@, i as int);
                lemma_count_ones_take_le(self@, i as int);
                lemma_count_ones_take_le(self@, i + 1);
            }
            let b = self[i];
            if !b && cnt == rank {
                return i;
            }
            if !b {
                cnt = cnt + 1;
            }
            i = i + 1;
        }
    }

    fn select_zero_hinted(&self, rank: usize, pos: usize, rank_at_pos: usize) -> (r: Option<
        usize,
    >) {
        proof {
            lemma_count_ones_le(self@);
        }
        let z = Vec::len(self) - self.count();
        if rank >= z {
            None
        } else {
            Some(self.select_zero_hinted_unchecked(rank, pos, rank_at_pos))
        }
    }
}

} // verus!
