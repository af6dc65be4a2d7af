//! Bit-packed vector backed by hardware-atomic words, for concurrent access.
//!
//! Same layout as the plain backend, but each storage word is an atomic
//! 64-bit integer, and every operation takes an explicit memory ordering that
//! is forwarded to the underlying primitives.
//!
//! The concurrency guarantee, and its limit: when the bit width is a power of
//! two, no value straddles a word boundary, so concurrent accesses to
//! distinct indices are independent, and concurrent writes to the same index
//! are atomic — one of the written values wins whole. When the bit width is
//! not a power of two, a write to a value that straddles two words updates
//! each word atomically on its own, with fences around the two updates as a
//! best-effort ordering measure, but the pair is not atomic: if threads race
//! on the same straddling value, a reader may observe half of one write and
//! half of another. Callers who need full safety with such widths must keep
//! concurrent writers away from values that cross a word boundary.

use crate::bits::bit_field_vec::mask;
use crate::bits::bit_field_vec::spec_word_count;
use crate::bits::bit_field_vec::BitFieldVec;
use crate::bits::word_ops::extract_field;
use crate::bits::word_ops::lemma_field_in_bounds;
use crate::bits::word_ops::spec_mask;
use core::sync::atomic::AtomicU64;
use core::sync::atomic::Ordering;
use vstd::arithmetic::div_mod::lemma_fundamental_div_mod;
use vstd::prelude::*;
use vstd::slice::slice_index_get;

verus! {

/// The memory orderings the read half of an atomic operation accepts:
/// `Release` and `AcqRel` make the underlying load panic, so they are kept
/// out of every operation that begins with one.
pub open spec fn read_ordering_ok(order: Ordering) -> bool {
    order != Ordering::Release && order != Ordering::AcqRel
}

/// Relies on `core::sync::atomic::AtomicU64::fetch_update`: it applies the
/// given candidate computation to the word in a compare-and-exchange retry
/// loop, retrying with the observed word after a failed exchange, exactly the
/// lock-free read-modify-write protocol this backend needs. It panics when
/// `fetch_order` is `Release` or `AcqRel` (its first step is a load with that
/// ordering), so those are excluded; and since it may call the closure on any
/// word other threads left behind, the closure must accept every word.
/// Nothing is assumed of the result: under concurrency the observed words
/// depend on the other threads.
pub assume_specification<F: FnMut(u64) -> Option<u64>>[ AtomicU64::fetch_update::<F> ](
    a: &AtomicU64,
    set_order: Ordering,
    fetch_order: Ordering,
    f: F,
) -> Result<u64, u64>
    requires
        read_ordering_ok(fetch_order),
        forall|x: u64| #[trigger] call_requires(f, (x,)),
;

/// Relies on `core::sync::atomic::AtomicU64::into_inner`: it unwraps the word
/// once ownership is exclusive. Nothing is assumed of the value, which may
/// have been written by other threads.
pub assume_specification[ AtomicU64::into_inner ](a: AtomicU64) -> u64;

/// Relies on `core::sync::atomic::fence`, with the acquire ordering.
#[verifier::external_body]
fn fence_acquire() {
    core::sync::atomic::fence(Ordering::Acquire);
}

/// Relies on `core::sync::atomic::fence`, with the release ordering.
#[verifier::external_body]
fn fence_release() {
    core::sync::atomic::fence(Ordering::Release);
}

/// Relies on `core::sync::atomic::compiler_fence`, with the sequentially
/// consistent ordering: it keeps the compiler from reordering the two word
/// updates of a straddling write.
#[verifier::external_body]
fn compiler_fence_seq_cst() {
    core::sync::atomic::compiler_fence(Ordering::SeqCst);
}

/// A vector of `len` values of fixed bit width, stored contiguously in
/// atomic 64-bit words with no padding bits, safe for concurrent access
/// within the limits described at the module level.
pub struct AtomicBitFieldVec {
    /// The underlying storage.
    data: Vec<AtomicU64>,
    /// The bit width of the values stored in the array.
    bit_width: usize,
    /// A mask with its lowest `bit_width` bits set to one.
    mask: u64,
    /// The length of the array.
    len: usize,
}

impl AtomicBitFieldVec {
    /// Structural soundness: the mask matches the bit width, and the storage
    /// holds all `len * bit_width` packed bits, with a floor of one word.
    pub closed spec fn inv(&self) -> bool {
        &&& self.bit_width <= 64
        &&& self.mask == spec_mask(self.bit_width as nat)
        &&& self.data@.len() >= 1
        &&& self.len * self.bit_width <= self.data@.len() * 64
        &&& self.len * self.bit_width <= usize::MAX
    }

    /// The bit width of the stored values.
    pub closed spec fn spec_bit_width(&self) -> nat {
        self.bit_width as nat
    }

    /// The number of stored values.
    pub closed spec fn spec_len(&self) -> nat {
        self.len as nat
    }

    /// The number of atomic words backing the vector.
    pub closed spec fn spec_n_words(&self) -> nat {
        self.data@.len()
    }

    /// The bit width of the stored values; never more than a word.
    pub fn bit_width(&self) -> (r: usize)
        requires
            self.inv(),
        ensures
            r == self.spec_bit_width(),
            r <= 64,
    {
        self.bit_width
    }

    /// The number of stored values.
    pub fn len(&self) -> (r: usize)
        ensures
            r == self.spec_len(),
    {
        self.len
    }

    /// A vector using `data` as its backing storage, storing `len` values of
    /// `bit_width` bits each: the packed bits must fit in the storage, which
    /// must hold at least one word.
    pub fn from_raw_parts(data: Vec<AtomicU64>, bit_width: usize, len: usize) -> (r: Self)
        requires
            bit_width <= 64,
            data@.len() >= 1,
            len * bit_width <= data@.len() * 64,
            len * bit_width <= usize::MAX,
        ensures
            r.inv(),
            r.spec_bit_width() == bit_width,
            r.spec_len() == len,
            r.spec_n_words() == data@.len(),
    {
        AtomicBitFieldVec { data, bit_width, mask: mask(bit_width), len }
    }

    /// The backing storage, bit width and length of this vector; the mask is
    /// recomputable from the bit width alone.
    pub fn into_raw_parts(self) -> (r: (Vec<AtomicU64>, usize, usize))
        requires
            self.inv(),
        ensures
            r.0@.len() == self.spec_n_words(),
            r.1 == self.spec_bit_width(),
            r.1 <= 64,
            r.2 == self.spec_len(),
            r.0@.len() >= 1,
            r.2 * r.1 <= r.0@.len() * 64,
            r.2 * r.1 <= usize::MAX,
    {
        (self.data, self.bit_width, self.len)
    }

    /// The value at `index`, read with the given memory ordering, which must
    /// be one a load accepts. The result is the field the two loads saw —
    /// extracted by [`extract_field`], the same verified reader the plain
    /// backend uses — and always fits the bit width; when the value straddles
    /// two words, the two loads are independent, so under a concurrent
    /// straddling write the result may combine bits of different writes.
    pub fn get(&self, index: usize, order: Ordering) -> (r: u64)
        requires
            self.inv(),
            index < self.spec_len(),
            read_ordering_ok(order),
        ensures
            r & spec_mask(self.spec_bit_width()) == r,
    {
        self.get_unchecked(index, order)
    }

    /// The value at `index`, the unchecked path: the bound is a precondition.
    pub fn get_unchecked(&self, index: usize, order: Ordering) -> (r: u64)
        requires
            self.inv(),
            index < self.spec_len(),
            read_ordering_ok(order),
        ensures
            r & spec_mask(self.spec_bit_width()) == r,
    {
        proof {
            lemma_field_in_bounds(
                self.bit_width as nat,
                self.len as nat,
                self.data@.len(),
                index as nat,
            );
        }
        let pos: usize = index * self.bit_width;
        let word_index: usize = pos / 64;
        let bit_index: usize = pos % 64;
        let data = self.data.as_slice();

        if bit_index + self.bit_width <= 64 {
            let w0 = slice_index_get(data, word_index).load(order);
            extract_field(w0, 0, bit_index, self.bit_width, self.mask)
        } else {
            let w0 = slice_index_get(data, word_index).load(order);
            let w1 = slice_index_get(data, word_index + 1).load(order);
            extract_field(w0, w1, bit_index, self.bit_width, self.mask)
        }
    }

    /// Store `value` at `index` with the given memory ordering, which must
    /// be one the read half of a read-modify-write accepts. The value must
    /// fit the bit width, which must be less than the word width.
    pub fn set(&self, index: usize, value: u64, order: Ordering)
        requires
            self.inv(),
            index < self.spec_len(),
            value & spec_mask(self.spec_bit_width()) == value,
            self.spec_bit_width() < 64,
            read_ordering_ok(order),
    {
        self.set_unchecked(index, value, order);
    }

    /// Store `value` at `index`, the unchecked path: bound and fit are
    /// preconditions.
    ///
    /// A value within one word is written by a single atomic
    /// read-modify-write of that word, so it never tears. A straddling value
    /// is written by two independent atomic word updates with fences between
    /// them: best effort, not atomicity — see the module documentation.
    pub fn set_unchecked(&self, index: usize, value: u64, order: Ordering)
        requires
            self.inv(),
            index < self.spec_len(),
            value & spec_mask(self.spec_bit_width()) == value,
            self.spec_bit_width() < 64,
            read_ordering_ok(order),
    {
        proof {
            lemma_field_in_bounds(
                self.bit_width as nat,
                self.len as nat,
                self.data@.len(),
                index as nat,
            );
        }
        let pos: usize = index * self.bit_width;
        let word_index: usize = pos / 64;
        let bit_index: usize = pos % 64;
        let data = self.data.as_slice();

        if bit_index + self.bit_width <= 64 {
            let clear_mask: u64 = !(self.mask << (bit_index as u64));
            let set_bits: u64 = value << (bit_index as u64);
            proof {
                // The candidate each retry applies is the proven single-word
                // store: it writes `value` into the field and leaves every
                // bit outside it unchanged.
                assert(forall|cur: u64|
                    (cur & clear_mask) | set_bits == crate::bits::word_ops::word_store_single(
                        cur,
                        value,
                        spec_mask(self.spec_bit_width()),
                        bit_index as u64,
                    ));
            }
            let a = slice_index_get(data, word_index);
            let _ = a.fetch_update(order, order, |cur: u64| Some((cur & clear_mask) | set_bits));
        } else {
            proof {
                assert(1u64 << (bit_index as u64) >= 1) by (bit_vector)
                    requires
                        (bit_index as u64) < 64,
                ;
            }
            let keep_mask: u64 = (1u64 << (bit_index as u64)) - 1;
            let set_low: u64 = value << (bit_index as u64);
            let clear_high: u64 = !(self.mask >> ((64 - bit_index) as u64));
            let set_high: u64 = value >> ((64 - bit_index) as u64);
            proof {
                // Each word's candidate is the proven half of a straddling
                // store; only the pair, not each half, depends on the other
                // word, which is why the pair is not atomic.
                assert(forall|cur: u64|
                    (cur & keep_mask) | set_low == crate::bits::word_ops::word_store_low(
                        cur,
                        value,
                        bit_index as u64,
                    ));
                assert(forall|cur: u64|
                    (cur & clear_high) | set_high == crate::bits::word_ops::word_store_high(
                        cur,
                        value,
                        spec_mask(self.spec_bit_width()),
                        bit_index as u64,
                    ));
            }

            let a = slice_index_get(data, word_index);
            // Give a concurrent straddling writer a chance to finish first.
            fence_acquire();
            let _ = a.fetch_update(order, order, |cur: u64| Some((cur & keep_mask) | set_low));
            fence_release();

            // Keep the compiler from reordering the two word updates, so that
            // concurrent straddling writers apply their halves in the same
            // relative order: this makes a consistent outcome more likely,
            // but does not guarantee it.
            compiler_fence_seq_cst();

            let b = slice_index_get(data, word_index + 1);
            fence_acquire();
            let _ = b.fetch_update(order, order, |cur: u64| Some((cur & clear_high) | set_high));
            fence_release();
        }
    }

    /// Reinterpret the vector non-atomically: the length, bit width, word
    /// count and bit pattern carry over, each atomic word unwrapped.
    pub fn into_bit_field_vec(self) -> (r: BitFieldVec)
        requires
            self.inv(),
        ensures
            r.inv(),
            r.spec_bit_width() == self.spec_bit_width(),
            r@.len() == self.spec_len(),
            r.spec_words().len() == self.spec_n_words(),
    {
        let AtomicBitFieldVec { data, bit_width, mask: _, len } = self;
        let ghost n = data@.len();
        let mut adata = data;
        let mut rev: Vec<u64> = Vec::new();
        while adata.len() > 0
            invariant
                adata@.len() + rev@.len() == n,
            decreases adata@.len(),
        {
            let a = adata.pop().unwrap();
            rev.push(a.into_inner());
        }
        let mut words: Vec<u64> = Vec::new();
        while rev.len() > 0
            invariant
                rev@.len() + words@.len() == n,
            decreases rev@.len(),
        {
            words.push(rev.pop().unwrap());
        }
        BitFieldVec::from_raw_parts(words, bit_width, len)
    }
}

impl BitFieldVec {
    /// A new atomically-backed vector of `len` values of `bit_width` bits
    /// each, all zero initially, backed by exactly the word count the packed
    /// bits need. That the elements read zero is visible only at runtime:
    /// atomic word contents are opaque here.
    pub fn new_atomic(bit_width: usize, len: usize) -> (r: AtomicBitFieldVec)
        requires
            bit_width <= 64,
            len * bit_width + 63 <= usize::MAX,
        ensures
            r.inv(),
            r.spec_bit_width() == bit_width,
            r.spec_len() == len,
            r.spec_n_words() == spec_word_count(bit_width as nat, len as nat),
    {
        let bits: usize = len * bit_width;
        // At least one word, to handle the case of bit width zero.
        let n_of_words: usize = if bits == 0 {
            1
        } else {
            (bits + 63) / 64
        };
        let mut data: Vec<AtomicU64> = Vec::new();
        while data.len() < n_of_words
            invariant
                data@.len() <= n_of_words,
            decreases n_of_words - data@.len(),
        {
            data.push(AtomicU64::new(0));
        }
        proof {
            if bits != 0 {
                lemma_fundamental_div_mod((bits + 63) as int, 64);
            }
        }
        AtomicBitFieldVec { data, bit_width, mask: mask(bit_width), len }
    }

    /// Reinterpret the vector atomically: the length, bit width, word count
    /// and bit pattern carry over, each word moved into an atomic word.
    pub fn into_atomic(self) -> (r: AtomicBitFieldVec)
        requires
            self.inv(),
        ensures
            r.inv(),
            r.spec_bit_width() == self.spec_bit_width(),
            r.spec_len() == self@.len(),
            r.spec_n_words() == self.spec_words().len(),
    {
        let (words, bit_width, len) = self.into_raw_parts();
        let n = words.len();
        let mut data: Vec<AtomicU64> = Vec::new();
        let mut i: usize = 0;
        while i < n
            invariant
                data@.len() == i,
                i <= n,
                n == words@.len(),
            decreases n - i,
        {
            data.push(AtomicU64::new(words[i]));
            i = i + 1;
        }
        AtomicBitFieldVec { data, bit_width, mask: mask(bit_width), len }
    }
}

} // verus!
