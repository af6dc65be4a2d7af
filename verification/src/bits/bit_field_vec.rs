//! A vector of values of fixed bit width.
//!
//! Values are stored contiguously in 64-bit words, with no padding bits: in
//! particular, unless the bit width is a power of two, some values are stored
//! across word boundaries. Random access unpacks a value with one or two word
//! reads; bulk traversal uses an iterator that decodes successive values in
//! amortized constant time per value.

use crate::bits::word_ops::extract_field;
use crate::bits::word_ops::field_at;
use crate::bits::word_ops::fields_of;
use crate::bits::word_ops::lemma_field_in_bounds;
use crate::bits::word_ops::lemma_shift_zero;
use crate::bits::word_ops::lemma_shr_full;
use crate::bits::word_ops::lemma_shr_shr;
use crate::bits::word_ops::lemma_store_single;
use crate::bits::word_ops::lemma_store_straddle;
use crate::bits::word_ops::lemma_zero_word_fields;
use crate::bits::word_ops::spec_mask;
use crate::bits::word_ops::store_field;
use crate::bits::word_ops::word_store_high;
use crate::bits::word_ops::word_store_low;
use crate::bits::word_ops::word_store_single;
use vstd::arithmetic::div_mod::lemma_fundamental_div_mod;
use vstd::arithmetic::div_mod::lemma_fundamental_div_mod_converse;
use vstd::pervasive::VecAdditionalExecFns;
use vstd::prelude::*;

verus! {

/// A mask with exactly the low `bit_width` bits set.
pub(crate) fn mask(bit_width: usize) -> (r: u64)
    requires
        bit_width <= 64,
    ensures
        r == spec_mask(bit_width as nat),
{
    if bit_width == 0 {
        0
    } else {
        u64::MAX >> ((64 - bit_width) as u64)
    }
}

/// The number of words that back `len` values of `bit_width` bits each: the
/// packed bits rounded up to whole words, with a floor of one word even when
/// `len * bit_width` is zero.
pub open spec fn spec_word_count(bit_width: nat, len: nat) -> nat {
    let bits = len * bit_width;
    if bits == 0 {
        1
    } else {
        (bits + 63) / 64
    }
}

/// A vector of `len` values of fixed bit width, stored contiguously in 64-bit
/// words with no padding bits.
pub struct BitFieldVec {
    /// The underlying storage.
    data: Vec<u64>,
    /// The bit width of the values stored in the array.
    bit_width: usize,
    /// A mask with its lowest `bit_width` bits set to one.
    mask: u64,
    /// The length of the array.
    len: usize,
}

impl View for BitFieldVec {
    type V = Seq<u64>;

    /// The stored values, in index order.
    closed spec fn view(&self) -> Seq<u64> {
        fields_of(self.data@, self.bit_width as nat, self.len as nat)
    }
}

impl BitFieldVec {
    /// Structural soundness: the mask matches the bit width, and the storage
    /// holds all `len * bit_width` packed bits, with a floor of one word.
    pub closed spec fn inv(&self) -> bool {
        &&& self.bit_width <= 64
        &&& self.mask == spec_mask(self.bit_width as nat)
        &&& self.data@.len() >= 1
        &&& self.len * self.bit_width <= self.data@.len() * 64
        &&& self.len * self.bit_width <= usize::MAX
    }

    /// The bit width of the stored values.
    pub closed spec fn spec_bit_width(&self) -> nat {
        self.bit_width as nat
    }

    /// The backing words, in storage order: the exact bit pattern that
    /// serialization exposes.
    pub closed spec fn spec_words(&self) -> Seq<u64> {
        self.data@
    }

    /// A new vector of `len` values of `bit_width` bits each, all zero,
    /// backed by exactly the word count the packed bits need.
    pub fn new(bit_width: usize, len: usize) -> (r: Self)
        requires
            bit_width <= 64,
            len * bit_width + 63 <= usize::MAX,
        ensures
            r.inv(),
            r.spec_bit_width() == bit_width,
            r@ == Seq::new(len as nat, |k: int| 0u64),
            r.spec_words() == Seq::new(
                spec_word_count(bit_width as nat, len as nat),
                |k: int| 0u64,
            ),
    {
        let bits: usize = len * bit_width;
        // At least one word, to handle the case of bit width zero.
        let n_of_words: usize = if bits == 0 {
            1
        } else {
            (bits + 63) / 64
        };
        let mut data: Vec<u64> = Vec::new();
        while data.len() < n_of_words
            invariant
                data@ =~= Seq::new(data@.len(), |k: int| 0u64),
                data@.len() <= n_of_words,
            decreases n_of_words - data@.len(),
        {
            data.push(0);
        }
        proof {
            if bits != 0 {
                lemma_fundamental_div_mod((bits + 63) as int, 64);
            }
        }
        let r = BitFieldVec { data, bit_width, mask: mask(bit_width), len };
        proof {
            assert forall|k: int| 0 <= k < len implies r@[k] == 0u64 by {
                lemma_field_in_bounds(
                    bit_width as nat,
                    len as nat,
                    r.data@.len(),
                    k as nat,
                );
                let pos = k as nat * bit_width as nat;
                lemma_zero_word_fields((pos % 64) as u64, (64 - pos % 64) as u64, r.mask);
            }
            assert(r@ =~= Seq::new(len as nat, |k: int| 0u64));
            assert(r.spec_words() =~= Seq::new(
                spec_word_count(bit_width as nat, len as nat),
                |k: int| 0u64,
            ));
        }
        r
    }

    /// A vector using `data` as its backing storage, storing `len` values of
    /// `bit_width` bits each: the packed bits must fit in the storage, which
    /// must hold at least one word.
    pub fn from_raw_parts(data: Vec<u64>, bit_width: usize, len: usize) -> (r: Self)
        requires
            bit_width <= 64,
            data@.len() >= 1,
            len * bit_width <= data@.len() * 64,
            len * bit_width <= usize::MAX,
        ensures
            r.inv(),
            r.spec_bit_width() == bit_width,
            r@ == fields_of(data@, bit_width as nat, len as nat),
            r.spec_words() == data@,
    {
        BitFieldVec { data, bit_width, mask: mask(bit_width), len }
    }

    /// The backing storage, bit width and length of this vector. The words
    /// come out exactly as stored — no renormalization — so rebuilding a
    /// vector from these parts reproduces the stored values, and the mask is
    /// recomputable from the bit width alone.
    pub fn into_raw_parts(self) -> (r: (Vec<u64>, usize, usize))
        requires
            self.inv(),
        ensures
            r.0@ == self.spec_words(),
            r.1 == self.spec_bit_width(),
            r.1 <= 64,
            r.2 == self@.len(),
            r.0@.len() >= 1,
            r.2 * r.1 <= r.0@.len() * 64,
            r.2 * r.1 <= usize::MAX,
            fields_of(r.0@, r.1 as nat, r.2 as nat) == self@,
    {
        (self.data, self.bit_width, self.len)
    }

    /// The bit width of the stored values; never more than a word.
    pub fn bit_width(&self) -> (r: usize)
        requires
            self.inv(),
        ensures
            r == self.spec_bit_width(),
            r <= 64,
    {
        self.bit_width
    }

    /// The number of stored values.
    pub fn len(&self) -> (r: usize)
        ensures
            r == self@.len(),
    {
        self.len
    }

    /// The value at `index`.
    pub fn get(&self, index: usize) -> (r: u64)
        requires
            self.inv(),
            index < self@.len(),
        ensures
            r == self@[index as int],
    {
        self.get_unchecked(index)
    }

    /// The value at `index`, the unchecked path `get` delegates to: the
    /// bound is a precondition, and no runtime check is performed.
    pub fn get_unchecked(&self, index: usize) -> (r: u64)
        requires
            self.inv(),
            index < self@.len(),
        ensures
            r == self@[index as int],
    {
        proof {
            lemma_field_in_bounds(
                self.bit_width as nat,
                self.len as nat,
                self.data@.len(),
                index as nat,
            );
        }
        let pos: usize = index * self.bit_width;
        let word_index: usize = pos / 64;
        let bit_index: usize = pos % 64;

        if bit_index + self.bit_width <= 64 {
            // The second word is not consulted when the field fits in one.
            extract_field(self.data[word_index], 0, bit_index, self.bit_width, self.mask)
        } else {
            extract_field(
                self.data[word_index],
                self.data[word_index + 1],
                bit_index,
                self.bit_width,
                self.mask,
            )
        }
    }

    /// Store `value` at `index`, in place. The value must fit in the bit
    /// width; all other stored values are unchanged, and so is every backing
    /// bit outside the written field: at most the two words the field
    /// touches change, as [`store_field`] states word for word.
    pub fn set(&mut self, index: usize, value: u64)
        requires
            old(self).inv(),
            index < old(self)@.len(),
            value & spec_mask(old(self).spec_bit_width()) == value,
        ensures
            final(self).inv(),
            final(self).spec_bit_width() == old(self).spec_bit_width(),
            final(self)@ == old(self)@.update(index as int, value),
            final(self).spec_words() == store_field(
                old(self).spec_words(),
                old(self).spec_bit_width(),
                index as nat,
                value,
            ),
    {
        self.set_unchecked(index, value);
    }

    /// Store `value` at `index`, the unchecked path: bound and fit are
    /// preconditions.
    pub fn set_unchecked(&mut self, index: usize, value: u64)
        requires
            old(self).inv(),
            index < old(self)@.len(),
            value & spec_mask(old(self).spec_bit_width()) == value,
        ensures
            final(self).inv(),
            final(self).spec_bit_width() == old(self).spec_bit_width(),
            final(self)@ == old(self)@.update(index as int, value),
            final(self).spec_words() == store_field(
                old(self).spec_words(),
                old(self).spec_bit_width(),
                index as nat,
                value,
            ),
    {
        proof {
            lemma_field_in_bounds(
                self.bit_width as nat,
                self.len as nat,
                self.data@.len(),
                index as nat,
            );
        }
        let pos: usize = index * self.bit_width;
        let word_index: usize = pos / 64;
        let bit_index: usize = pos % 64;

        if bit_index + self.bit_width <= 64 {
            let mut word = self.data[word_index];
            word &= !(self.mask << (bit_index as u64));
            word |= value << (bit_index as u64);
            self.data.set(word_index, word);
            proof {
                assert(word == word_store_single(
                    old(self).data@[word_index as int],
                    value,
                    spec_mask(self.bit_width as nat),
                    bit_index as u64,
                ));
                lemma_store_single(
                    old(self).data@,
                    self.bit_width as nat,
                    self.len as nat,
                    index as nat,
                    value,
                );
            }
        } else {
            proof {
                assert(1u64 << (bit_index as u64) >= 1) by (bit_vector)
                    requires
                        (bit_index as u64) < 64,
                ;
            }
            let mut word = self.data[word_index];
            word &= (1u64 << (bit_index as u64)) - 1;
            word |= value << (bit_index as u64);
            self.data.set(word_index, word);

            let mut word2 = self.data[word_index + 1];
            word2 &= !(self.mask >> ((64 - bit_index) as u64));
            word2 |= value >> ((64 - bit_index) as u64);
            self.data.set(word_index + 1, word2);
            proof {
                assert(word == word_store_low(
                    old(self).data@[word_index as int],
                    value,
                    bit_index as u64,
                ));
                assert(word2 == word_store_high(
                    old(self).data@[word_index as int + 1],
                    value,
                    spec_mask(self.bit_width as nat),
                    bit_index as u64,
                ));
                lemma_store_straddle(
                    old(self).data@,
                    self.bit_width as nat,
                    self.len as nat,
                    index as nat,
                    value,
                );
            }
        }
    }
}

/// Round-trip: `set` updates the view pointwise and `get` returns the view,
/// so after a fitting value is stored at an index, reading that index gives
/// the value back and reading any other index gives what was there before —
/// whether or not the fields involved straddle a word boundary.
pub proof fn lemma_round_trip(s: Seq<u64>, i: int, x: u64)
    requires
        0 <= i < s.len(),
    ensures
        s.update(i, x)[i] == x,
        forall|j: int| 0 <= j < s.len() && j != i ==> s.update(i, x)[j] == s[j],
{
}

/// Every stored value of a well-formed vector fits its bit width: whatever
/// was written, a read gives back only the low `bit_width` bits.
pub proof fn lemma_values_fit(v: &BitFieldVec)
    requires
        v.inv(),
    ensures
        forall|k: int|
            0 <= k < v@.len() ==> v@[k] & spec_mask(v.spec_bit_width()) == v@[k],
{
    assert forall|k: int|
        0 <= k < v@.len() implies v@[k] & spec_mask(v.spec_bit_width()) == v@[k] by {
        let pos = k as nat * v.spec_bit_width();
        crate::bits::word_ops::lemma_extract_fits(
            v.data@[(pos / 64) as int],
            v.data@[(pos / 64) as int + 1],
            (pos % 64) as u64,
            v.spec_bit_width(),
        );
    }
}

/// A vector of bit width zero stores the zero-width value everywhere: every
/// read returns zero, and zero is the only value that fits the bit width, so
/// it is the only value a write accepts. One word of storage still backs it.
pub proof fn lemma_zero_width(v: &BitFieldVec)
    requires
        v.inv(),
        v.spec_bit_width() == 0,
    ensures
        forall|k: int| 0 <= k < v@.len() ==> v@[k] == 0,
        forall|x: u64| x & spec_mask(0) == x <==> x == 0,
{
    assert forall|k: int| 0 <= k < v@.len() implies v@[k] == 0 by {
        crate::bits::word_ops::lemma_and_zero(v.data@[0] >> 0u64);
    }
    assert forall|x: u64| x & spec_mask(0) == x <==> x == 0 by {
        crate::bits::word_ops::lemma_and_zero(x);
    }
}

/// The bit-packed vector is a concrete indexed dictionary of its stored
/// values.
impl crate::traits::indexed_dict::IndexedDict for BitFieldVec {
    closed spec fn inv(&self) -> bool {
        BitFieldVec::inv(self)
    }

    closed spec fn values(&self) -> Seq<u64> {
        self@
    }

    fn get_unchecked(&self, index: usize) -> (r: u64) {
        BitFieldVec::get_unchecked(self, index)
    }

    fn len(&self) -> (r: usize) {
        BitFieldVec::len(self)
    }
}

/// Monotone successor search over a sorted bit-packed vector.
impl crate::traits::indexed_dict::Succ for BitFieldVec {
}

/// Monotone predecessor search over a sorted bit-packed vector.
impl crate::traits::indexed_dict::Pred for BitFieldVec {
}

/// Decodes successive values of a [`BitFieldVec`] in amortized constant time
/// per value: the unread bits of the current word are kept right-aligned in
/// `window`, and `fill` counts how many of them are valid. Decoding one value
/// consumes `bit_width` bits from the window, refilling it from the next word
/// when fewer than `bit_width` valid bits remain.
pub struct BitFieldVecUncheckedIterator<'a> {
    array: &'a BitFieldVec,
    word_index: usize,
    window: u64,
    fill: usize,
    /// The index of the next value to decode.
    index: Ghost<nat>,
}

impl<'a> BitFieldVecUncheckedIterator<'a> {
    /// The values of the underlying vector.
    pub closed spec fn values(&self) -> Seq<u64> {
        self.array@
    }

    /// The index of the next value to decode.
    pub closed spec fn cursor(&self) -> nat {
        self.index@
    }

    /// The window holds exactly the not-yet-decoded bits of the current word,
    /// and the decoding position matches the cursor.
    pub closed spec fn inv(&self) -> bool {
        &&& self.array.inv()
        &&& self.index@ <= self.array.len
        &&& self.index@ < self.array.len ==> {
            &&& self.fill <= 64
            &&& self.word_index < self.array.data@.len()
            &&& self.word_index * 64 + 64 - self.fill == self.index@ * self.array.bit_width
            &&& self.window == self.array.data@[self.word_index as int] >> ((64 - self.fill) as u64)
        }
    }

    /// An iterator whose first decoded value is the one at `index`.
    pub fn new(array: &'a BitFieldVec, index: usize) -> (r: Self)
        requires
            array.inv(),
            index <= array@.len(),
        ensures
            r.inv(),
            r.values() == array@,
            r.cursor() == index,
    {
        proof {
            assert(index * array.bit_width <= array.len * array.bit_width) by (nonlinear_arith)
                requires
                    index <= array.len,
                    array.bit_width >= 0,
            ;
        }
        let bit_offset: usize = index * array.bit_width;
        let word_index: usize = bit_offset / 64;
        let fill: usize;
        let window: u64;
        if index == array.len {
            fill = 0;
            window = 0;
        } else {
            proof {
                lemma_field_in_bounds(
                    array.bit_width as nat,
                    array.len as nat,
                    array.data@.len(),
                    index as nat,
                );
            }
            let bit_index: usize = bit_offset % 64;
            fill = 64 - bit_index;
            window = array.data[word_index] >> (bit_index as u64);
        }
        Self { array, word_index, window, fill, index: Ghost(index as nat) }
    }

    /// Decode the next value; the cursor must not be at the end.
    pub fn next_unchecked(&mut self) -> (r: u64)
        requires
            old(self).inv(),
            old(self).cursor() < old(self).values().len(),
        ensures
            final(self).inv(),
            final(self).values() == old(self).values(),
            final(self).cursor() == old(self).cursor() + 1,
            r == old(self).values()[old(self).cursor() as int],
    {
        let ghost data = self.array.data@;
        let ghost idx = self.index@;
        let ghost pos = idx * self.array.bit_width as nat;
        let w = self.array.bit_width;
        proof {
            lemma_field_in_bounds(
                w as nat,
                self.array.len as nat,
                data.len(),
                idx,
            );
            assert((idx + 1) * w as nat == idx * w as nat + w as nat) by (nonlinear_arith);
            self.index@ = idx + 1;
        }
        if self.fill >= w {
            proof {
                if self.fill == 0 {
                    // Only a zero width fits in an empty window, but then the
                    // decoding position would be zero, not past a word.
                    assert(w == 0);
                    assert(pos == 0);
                    assert(false);
                }
                lemma_fundamental_div_mod_converse(
                    pos as int,
                    64,
                    self.word_index as int,
                    (64 - self.fill) as int,
                );
                // The field lies within the current word.
                assert(pos % 64 + w as nat <= 64);
            }
            let res = self.window & self.array.mask;
            self.window = if w == 64 {
                proof {
                    lemma_shr_full(self.window);
                }
                0
            } else {
                self.window >> (w as u64)
            };
            proof {
                lemma_shr_shr(
                    data[self.word_index as int],
                    (64 - self.fill) as u64,
                    w as u64,
                );
            }
            self.fill = self.fill - w;
            proof {
                assert(res == field_at(data, w as nat, idx));
            }
            res
        } else {
            proof {
                if self.fill > 0 {
                    lemma_fundamental_div_mod_converse(
                        pos as int,
                        64,
                        self.word_index as int,
                        (64 - self.fill) as int,
                    );
                    // Fewer valid bits than the width: the field straddles.
                    assert(pos % 64 + w as nat > 64);
                } else {
                    lemma_fundamental_div_mod_converse(
                        pos as int,
                        64,
                        self.word_index as int + 1,
                        0,
                    );
                    lemma_shr_full(data[self.word_index as int]);
                }
            }
            let res0 = self.window;
            self.word_index = self.word_index + 1;
            self.window = self.array.data[self.word_index];
            let res = (res0 | (self.window << (self.fill as u64))) & self.array.mask;
            proof {
                if self.fill == 0 {
                    lemma_shift_zero(self.window);
                    lemma_shift_zero(res0);
                }
            }
            let used = w - self.fill;
            self.window = if used == 64 {
                proof {
                    lemma_shr_full(self.window);
                }
                0
            } else {
                self.window >> (used as u64)
            };
            self.fill = 64 - used;
            proof {
                assert(res == field_at(data, w as nat, idx));
            }
            res
        }
    }
}

/// A bound-checked forward iterator over the values of a [`BitFieldVec`],
/// yielding `None` once all values have been decoded.
pub struct BitFieldVecIterator<'a> {
    unchecked: BitFieldVecUncheckedIterator<'a>,
    index: usize,
}

impl<'a> BitFieldVecIterator<'a> {
    /// The values of the underlying vector.
    pub closed spec fn values(&self) -> Seq<u64> {
        self.unchecked.values()
    }

    /// The index of the next value to yield.
    pub closed spec fn cursor(&self) -> nat {
        self.index as nat
    }

    /// The running index agrees with the decoder state.
    pub closed spec fn inv(&self) -> bool {
        &&& self.unchecked.inv()
        &&& self.unchecked.cursor() == self.index
    }

    /// An iterator whose first yielded value is the one at `index`.
    pub fn new(array: &'a BitFieldVec, index: usize) -> (r: Self)
        requires
            array.inv(),
            index <= array@.len(),
        ensures
            r.inv(),
            r.values() == array@,
            r.cursor() == index,
    {
        Self { unchecked: BitFieldVecUncheckedIterator::new(array, index), index }
    }

    /// The next value, or `None` when every value has been yielded. The
    /// sequence yielded from index `s` is exactly `get(s), get(s+1), …,
    /// get(len-1)`.
    pub fn next(&mut self) -> (r: Option<u64>)
        requires
            old(self).inv(),
        ensures
            final(self).inv(),
            final(self).values() == old(self).values(),
            match r {
                Some(v) => {
                    &&& old(self).cursor() < old(self).values().len()
                    &&& v == old(self).values()[old(self).cursor() as int]
                    &&& final(self).cursor() == old(self).cursor() + 1
                },
                None => {
                    &&& old(self).cursor() == old(self).values().len()
                    &&& final(self).cursor() == old(self).cursor()
                },
            },
    {
        if self.index < self.unchecked.array.len {
            let res = self.unchecked.next_unchecked();
            self.index = self.index + 1;
            Some(res)
        } else {
            None
        }
    }

    /// How many values remain to be yielded.
    pub fn len(&self) -> (r: usize)
        requires
            self.inv(),
        ensures
            r == self.values().len() - self.cursor(),
    {
        self.unchecked.array.len - self.index
    }
}

impl BitFieldVec {
    /// An iterator over all stored values, in index order.
    pub fn iter(&self) -> (r: BitFieldVecIterator<'_>)
        requires
            self.inv(),
        ensures
            r.inv(),
            r.values() == self@,
            r.cursor() == 0,
    {
        BitFieldVecIterator::new(self, 0)
    }

    /// An iterator over the stored values starting at index `from`.
    pub fn iter_from(&self, from: usize) -> (r: BitFieldVecIterator<'_>)
        requires
            self.inv(),
            from <= self@.len(),
        ensures
            r.inv(),
            r.values() == self@,
            r.cursor() == from,
    {
        BitFieldVecIterator::new(self, from)
    }

    /// An unchecked decoder starting at index `from`, for bulk sequential
    /// access without per-value bound checks.
    pub fn iter_val_from_unchecked(&self, from: usize) -> (r: BitFieldVecUncheckedIterator<'_>)
        requires
            self.inv(),
            from <= self@.len(),
        ensures
            r.inv(),
            r.values() == self@,
            r.cursor() == from,
    {
        BitFieldVecUncheckedIterator::new(self, from)
    }
}

} // verus!
