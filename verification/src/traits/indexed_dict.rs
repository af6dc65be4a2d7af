//! Indexed dictionaries, with optional support for predecessor and successor
//! search over monotonically non-decreasing values.

use vstd::prelude::*;

verus! {

/// Whether `s` is monotonically non-decreasing.
pub open spec fn non_decreasing(s: Seq<u64>) -> bool {
    forall|a: int, b: int| 0 <= a <= b < s.len() ==> s[a] <= s[b]
}

/// A dictionary of values indexed by a `usize`.
pub trait IndexedDict {
    /// Structural soundness of the dictionary.
    spec fn inv(&self) -> bool;

    /// The stored values, in index order.
    spec fn values(&self) -> Seq<u64>;

    /// The value at the specified index, which must be within bounds.
    fn get(&self, index: usize) -> (r: u64)
        requires
            self.inv(),
            index < self.values().len(),
        ensures
            r == self.values()[index as int],
    {
        self.get_unchecked(index)
    }

    /// The value at the specified index: the unchecked core `get` delegates to.
    fn get_unchecked(&self, index: usize) -> (r: u64)
        requires
            self.inv(),
            index < self.values().len(),
        ensures
            r == self.values()[index as int],
    ;

    /// Whether the dictionary contains the given value, by exhaustive scan;
    /// implementations with structural knowledge may do better.
    fn contains(&self, value: u64) -> (r: bool)
        requires
            self.inv(),
        ensures
            r == self.values().contains(value),
    {
        let n = self.len();
        let mut i: usize = 0;
        while i < n
            invariant
                self.inv(),
                i <= n,
                n == self.values().len(),
                forall|k: int| 0 <= k < i ==> self.values()[k] != value,
            decreases n - i,
        {
            if self.get(i) == value {
                return true;
            }
            i = i + 1;
        }
        false
    }

    /// The number of values in the dictionary.
    fn len(&self) -> (r: usize)
        requires
            self.inv(),
        ensures
            r == self.values().len(),
    ;

    /// Whether the dictionary holds no value.
    fn is_empty(&self) -> (r: bool)
        requires
            self.inv(),
        ensures
            r == (self.values().len() == 0),
    {
        self.len() == 0
    }
}

/// Successor computation for dictionaries whose values are monotonically
/// non-decreasing.
pub trait Succ: IndexedDict {
    /// The index and value of the least stored value greater than or equal to
    /// `value` — strictly greater when `strict` — which must exist. The
    /// default implementation scans from the left.
    fn succ_unchecked(&self, value: u64, strict: bool) -> (r: (usize, u64))
        requires
            self.inv(),
            non_decreasing(self.values()),
            exists|k: int|
                0 <= k < self.values().len() && (if strict {
                    self.values()[k] > value
                } else {
                    self.values()[k] >= value
                }),
        ensures
            r.0 < self.values().len(),
            r.1 == self.values()[r.0 as int],
            if strict {
                r.1 > value
            } else {
                r.1 >= value
            },
            forall|k: int|
                0 <= k < r.0 ==> (if strict {
                    self.values()[k] <= value
                } else {
                    self.values()[k] < value
                }),
    {
        let n = self.len();
        let mut i: usize = 0;
        loop
            invariant
                self.inv(),
                non_decreasing(self.values()),
                n == self.values().len(),
                i <= n,
                exists|k: int|
                    i <= k < self.values().len() && (if strict {
                        self.values()[k] > value
                    } else {
                        self.values()[k] >= value
                    }),
                forall|k: int|
                    0 <= k < i ==> (if strict {
                        self.values()[k] <= value
                    } else {
                        self.values()[k] < value
                    }),
            decreases n - i,
        {
            proof {
                let k0 = choose|k: int|
                    i <= k < self.values().len() && (if strict {
                        self.values()[k] > value
                    } else {
                        self.values()[k] >= value
                    });
                assert(i < n);
            }
            let v = self.get(i);
            if (strict && v > value) || (!strict && v >= value) {
                return (i, v);
            }
            i = i + 1;
        }
    }

    /// The index and value of the least stored value greater than or equal to
    /// `value`, or `None` if every stored value is less than `value`.
    fn succ(&self, value: u64) -> (r: Option<(usize, u64)>)
        requires
            self.inv(),
            non_decreasing(self.values()),
        ensures
            match r {
                Some(p) => {
                    &&& p.0 < self.values().len()
                    &&& p.1 == self.values()[p.0 as int]
                    &&& p.1 >= value
                    &&& forall|k: int| 0 <= k < p.0 ==> self.values()[k] < value
                },
                None => forall|k: int| 0 <= k < self.values().len() ==> self.values()[k] < value,
            },
    {
        if self.is_empty() {
            None
        } else {
            let last = self.get(self.len() - 1);
            if value > last {
                None
            } else {
                Some(self.succ_unchecked(value, false))
            }
        }
    }

    /// The index and value of the least stored value strictly greater than
    /// `value`, or `None` if there is none.
    fn succ_strict(&self, value: u64) -> (r: Option<(usize, u64)>)
        requires
            self.inv(),
            non_decreasing(self.values()),
        ensures
            match r {
                Some(p) => {
                    &&& p.0 < self.values().len()
                    &&& p.1 == self.values()[p.0 as int]
                    &&& p.1 > value
                    &&& forall|k: int| 0 <= k < p.0 ==> self.values()[k] <= value
                },
                None => forall|k: int| 0 <= k < self.values().len() ==> self.values()[k] <= value,
            },
    {
        if self.is_empty() {
            None
        } else {
            let last = self.get(self.len() - 1);
            if value >= last {
                None
            } else {
                Some(self.succ_unchecked(value, true))
            }
        }
    }
}

/// Predecessor computation for dictionaries whose values are monotonically
/// non-decreasing.
pub trait Pred: IndexedDict {
    /// The index and value of the greatest stored value less than or equal to
    /// `value` — strictly less when `strict` — which must exist. The default
    /// implementation scans from the right.
    fn pred_unchecked(&self, value: u64, strict: bool) -> (r: (usize, u64))
        requires
            self.inv(),
            non_decreasing(self.values()),
            exists|k: int|
                0 <= k < self.values().len() && (if strict {
                    self.values()[k] < value
                } else {
                    self.values()[k] <= value
                }),
        ensures
            r.0 < self.values().len(),
            r.1 == self.values()[r.0 as int],
            if strict {
                r.1 < value
            } else {
                r.1 <= value
            },
            forall|k: int|
                r.0 < k < self.values().len() ==> (if strict {
                    self.values()[k] >= value
                } else {
                    self.values()[k] > value
                }),
    {
        let n = self.len();
        let mut i: usize = n;
        loop
            invariant
                self.inv(),
                non_decreasing(self.values()),
                n == self.values().len(),
                i <= n,
                exists|k: int|
                    0 <= k < i && (if strict {
                        self.values()[k] < value
                    } else {
                        self.values()[k] <= value
                    }),
                forall|k: int|
                    i <= k < self.values().len() ==> (if strict {
                        self.values()[k] >= value
                    } else {
                        self.values()[k] > value
                    }),
            decreases i,
        {
            proof {
                let k0 = choose|k: int|
                    0 <= k < i && (if strict {
                        self.values()[k] < value
                    } else {
                        self.values()[k] <= value
                    });
                assert(i > 0);
            }
            i = i - 1;
            let v = self.get(i);
            if (strict && v < value) || (!strict && v <= value) {
                return (i, v);
            }
        }
    }

    /// The index and value of the greatest stored value less than or equal to
    /// `value`, or `None` if every stored value is greater than `value`.
    fn pred(&self, value: u64) -> (r: Option<(usize, u64)>)
        requires
            self.inv(),
            non_decreasing(self.values()),
        ensures
            match r {
                Some(p) => {
                    &&& p.0 < self.values().len()
                    &&& p.1 == self.values()[p.0 as int]
                    &&& p.1 <= value
                    &&& forall|k: int|
                        p.0 < k < self.values().len() ==> self.values()[k] > value
                },
                None => forall|k: int| 0 <= k < self.values().len() ==> self.values()[k] > value,
            },
    {
        if self.is_empty() {
            None
        } else {
            let first = self.get(0);
            if value < first {
                None
            } else {
                Some(self.pred_unchecked(value, false))
            }
        }
    }

    /// The index and value of the greatest stored value strictly less than
    /// `value`, or `None` if there is none.
    fn pred_strict(&self, value: u64) -> (r: Option<(usize, u64)>)
        requires
            self.inv(),
            non_decreasing(self.values()),
        ensures
            match r {
                Some(p) => {
                    &&& p.0 < self.values().len()
                    &&& p.1 == self.values()[p.0 as int]
                    &&& p.1 < value
                    &&& forall|k: int|
                        p.0 < k < self.values().len() ==> self.values()[k] >= value
                },
                None => forall|k: int| 0 <= k < self.values().len() ==> self.values()[k] >= value,
            },
    {
        if self.is_empty() {
            None
        } else {
            let first = self.get(0);
            if value <= first {
                None
            } else {
                Some(self.pred_unchecked(value, true))
            }
        }
    }
}

/// A plain vector of words is an indexed dictionary of itself.
impl IndexedDict for Vec<u64> {
    open spec fn inv(&self) -> bool {
        true
    }

    open spec fn values(&self) -> Seq<u64> {
        self@
    }

    fn get_unchecked(&self, index: usize) -> (r: u64) {
        self[index]
    }

    fn len(&self) -> (r: usize) {
        Vec::len(self)
    }
}

impl Succ for Vec<u64> {
}

impl Pred for Vec<u64> {
}

} // verus!
