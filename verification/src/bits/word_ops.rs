//! Word-level model of bit-packed storage.
//!
//! A sequence of 64-bit words stores `len` values of `bit_width` bits each,
//! contiguously and with no padding: value number `i` occupies bits
//! `[i*bit_width, (i+1)*bit_width)` of the word sequence, low bits first.
//! [`field_at`] is the mathematical meaning of that layout; the lemmas below
//! relate it to the shift-and-mask code that reads and writes fields, both
//! when a field lies within one word and when it straddles two.

use vstd::prelude::*;

verus! {

/// A word with exactly the low `bit_width` bits set; zero when `bit_width` is zero.
pub open spec fn spec_mask(bit_width: nat) -> u64 {
    if bit_width == 0 {
        0u64
    } else {
        0xffff_ffff_ffff_ffffu64 >> ((64 - bit_width) as u64)
    }
}

/// The `bit_width`-bit field that starts at bit `bi` of word `w0`: read from
/// `w0` alone when it fits there, and from `w0` and the following word `w1`
/// when it straddles the boundary — `w1` is not consulted otherwise.
pub open spec fn extract_at(w0: u64, w1: u64, bi: u64, bit_width: nat) -> u64 {
    let m = spec_mask(bit_width);
    if bi + bit_width <= 64 {
        (w0 >> bi) & m
    } else {
        ((w0 >> bi) | (w1 << ((64 - bi) as u64))) & m
    }
}

/// The `bit_width`-bit value stored at logical index `i` of the packed word
/// sequence `data`. The field starts at bit `i*bit_width`; it is read from
/// one word when it fits there and from two adjacent words otherwise.
pub open spec fn field_at(data: Seq<u64>, bit_width: nat, i: nat) -> u64 {
    let pos = i * bit_width;
    let wi = (pos / 64) as int;
    let bi = (pos % 64) as u64;
    extract_at(data[wi], data[wi + 1], bi, bit_width)
}

/// All fields of a packed word sequence, as one value sequence.
pub open spec fn fields_of(data: Seq<u64>, bit_width: nat, len: nat) -> Seq<u64> {
    Seq::new(len, |k: int| field_at(data, bit_width, k as nat))
}

/// The word `x` with `v` written into its bits `[bi, bi+w)`, `w` the field
/// width and `m` its mask: the single-word store.
pub open spec fn word_store_single(x: u64, v: u64, m: u64, bi: u64) -> u64 {
    (x & !(m << bi)) | (v << bi)
}

/// The lower word of a straddling store: bits `[bi, 64)` of `x` receive the
/// low `64 - bi` bits of `v`; bits `[0, bi)` are preserved.
pub open spec fn word_store_low(x: u64, v: u64, bi: u64) -> u64 {
    (x & (((1u64 << bi) - 1) as u64)) | (v << bi)
}

/// The upper word of a straddling store: bits `[0, bi+w-64)` of `x` receive
/// the high bits of `v`; the remaining bits are preserved.
pub open spec fn word_store_high(x: u64, v: u64, m: u64, bi: u64) -> u64 {
    (x & !(m >> ((64 - bi) as u64))) | (v >> ((64 - bi) as u64))
}

/// The word sequence after storing `v` in field `i`: at most the two words
/// the field touches change, and each changed word is the corresponding
/// store of `v` into it — every backing bit outside the field is unchanged.
pub open spec fn store_field(data: Seq<u64>, bit_width: nat, i: nat, v: u64) -> Seq<u64> {
    let pos = i * bit_width;
    let wi = (pos / 64) as int;
    let bi = (pos % 64) as u64;
    let m = spec_mask(bit_width);
    if pos % 64 + bit_width <= 64 {
        data.update(wi, word_store_single(data[wi], v, m, bi))
    } else {
        data.update(wi, word_store_low(data[wi], v, bi)).update(
            wi + 1,
            word_store_high(data[wi + 1], v, m, bi),
        )
    }
}

/// Masking with a field mask is idempotent.
pub proof fn lemma_mask_idem(t: u64, m: u64)
    by (bit_vector)
    ensures
        (t & m) & m == t & m,
{
}

/// Whatever two words hold, an extracted field fits its mask.
pub proof fn lemma_extract_fits(w0: u64, w1: u64, bi: u64, bit_width: nat)
    ensures
        extract_at(w0, w1, bi, bit_width) & spec_mask(bit_width) == extract_at(w0, w1, bi, bit_width),
{
    lemma_mask_idem(w0 >> bi, spec_mask(bit_width));
    lemma_mask_idem((w0 >> bi) | (w1 << ((64 - bi) as u64)), spec_mask(bit_width));
}

/// Extract the `bit_width`-bit field that starts at bit `bit_index` of word
/// `w0` and continues into `w1` when it straddles the boundary: the one
/// verified reader of a pair of loaded words, shared by both backends. `w1`
/// is ignored when the field fits in `w0`.
pub fn extract_field(w0: u64, w1: u64, bit_index: usize, bit_width: usize, m: u64) -> (r: u64)
    requires
        bit_index < 64,
        bit_width <= 64,
        m == spec_mask(bit_width as nat),
    ensures
        r == extract_at(w0, w1, bit_index as u64, bit_width as nat),
        r & m == r,
{
    proof {
        lemma_extract_fits(w0, w1, bit_index as u64, bit_width as nat);
    }
    if bit_index + bit_width <= 64 {
        (w0 >> (bit_index as u64)) & m
    } else {
        ((w0 >> (bit_index as u64)) | (w1 << ((64 - bit_index) as u64))) & m
    }
}

/// Masking with zero gives zero.
pub proof fn lemma_and_zero(t: u64)
    by (bit_vector)
    ensures
        t & 0u64 == 0,
{
}

/// Fields extracted from zero words are zero.
pub proof fn lemma_zero_word_fields(b: u64, c: u64, m: u64)
    by (bit_vector)
    ensures
        (0u64 >> b) & m == 0,
        ((0u64 >> b) | (0u64 << c)) & m == 0,
{
}

/// Two right shifts compose into one.
#[verifier::rlimit(60)]
pub proof fn lemma_shr_shr(x: u64, a: u64, b: u64)
    by (bit_vector)
    requires
        a <= 64,
        b <= 64,
    ensures
        (x >> a) >> b == x >> ((a + b) as u64),
{
}

/// Shifting by zero and combining with zero change nothing.
pub proof fn lemma_shift_zero(x: u64)
    by (bit_vector)
    ensures
        x >> 0u64 == x,
        x << 0u64 == x,
        0u64 | x == x,
{
}

/// A shift by the full word width clears the word.
pub proof fn lemma_shr_full(x: u64)
    by (bit_vector)
    ensures
        x >> 64u64 == 0,
{
}

/// Reading back a single-word store: the stored field equals the value written.
pub proof fn lemma_single_write_read(x: u64, v: u64, m: u64, w: u64, bi: u64)
    by (bit_vector)
    requires
        w <= 64,
        bi + w <= 64,
        m == (if w == 0 { 0u64 } else { 0xffff_ffff_ffff_ffffu64 >> ((64 - w) as u64) }),
        v & m == v,
    ensures
        (word_store_single(x, v, m, bi) >> bi) & m == v,
{
}

/// A single-word store into `[bi, bi+w)` leaves all bits at and above `bi + w`
/// unchanged, as seen through any right shift by at least `bi + w`.
pub proof fn lemma_single_write_above(x: u64, v: u64, m: u64, w: u64, bi: u64, bj: u64)
    by (bit_vector)
    requires
        w <= 64,
        bi + w <= 64,
        bj >= bi + w,
        m == (if w == 0 { 0u64 } else { 0xffff_ffff_ffff_ffffu64 >> ((64 - w) as u64) }),
        v & m == v,
    ensures
        word_store_single(x, v, m, bi) >> bj == x >> bj,
{
}

/// A single-word store into `[bi, bi+w)` leaves any `w`-bit field that ends at
/// or below `bi` unchanged.
pub proof fn lemma_single_write_below(x: u64, v: u64, m: u64, w: u64, bi: u64, bj: u64)
    by (bit_vector)
    requires
        w <= 64,
        bi + w <= 64,
        bj + w <= bi,
        m == (if w == 0 { 0u64 } else { 0xffff_ffff_ffff_ffffu64 >> ((64 - w) as u64) }),
        v & m == v,
    ensures
        (word_store_single(x, v, m, bi) >> bj) & m == (x >> bj) & m,
{
}

/// A single-word store into `[bi, bi+w)` leaves any straddling field that ends
/// at or below `bi` of this word unchanged; `z` is the word the neighbouring
/// field starts in and `bj` its start bit there.
pub proof fn lemma_single_write_straddle_in(x: u64, z: u64, v: u64, m: u64, w: u64, bi: u64, bj: u64)
    by (bit_vector)
    requires
        w <= 64,
        bi + w <= 64,
        bj < 64,
        bj + w > 64,
        bj + w <= 64 + bi,
        m == (if w == 0 { 0u64 } else { 0xffff_ffff_ffff_ffffu64 >> ((64 - w) as u64) }),
        v & m == v,
    ensures
        ((z >> bj) | (word_store_single(x, v, m, bi) << ((64 - bj) as u64))) & m
            == ((z >> bj) | (x << ((64 - bj) as u64))) & m,
{
}

/// Reading back a straddling store: combining the two stored halves gives the
/// value written.
pub proof fn lemma_straddle_write_read(x1: u64, x2: u64, v: u64, m: u64, w: u64, bi: u64)
    by (bit_vector)
    requires
        w <= 64,
        bi < 64,
        bi + w > 64,
        m == (if w == 0 { 0u64 } else { 0xffff_ffff_ffff_ffffu64 >> ((64 - w) as u64) }),
        v & m == v,
    ensures
        ((word_store_low(x1, v, bi) >> bi) | (word_store_high(x2, v, m, bi) << ((64 - bi) as u64)))
            & m == v,
{
}

/// The lower word of a straddling store at `bi` leaves any `w`-bit field that
/// ends at or below `bi` unchanged.
pub proof fn lemma_low_write_below(x1: u64, v: u64, m: u64, w: u64, bi: u64, bj: u64)
    by (bit_vector)
    requires
        w <= 64,
        bi < 64,
        bi + w > 64,
        bj + w <= bi,
        m == (if w == 0 { 0u64 } else { 0xffff_ffff_ffff_ffffu64 >> ((64 - w) as u64) }),
    ensures
        (word_store_low(x1, v, bi) >> bj) & m == (x1 >> bj) & m,
{
}

/// The lower word of a straddling store at `bi` leaves any straddling field
/// that ends at or below `bi` of this word unchanged.
pub proof fn lemma_low_write_straddle_in(x1: u64, z: u64, v: u64, m: u64, w: u64, bi: u64, bj: u64)
    by (bit_vector)
    requires
        w <= 64,
        bi < 64,
        bi + w > 64,
        bj < 64,
        bj + w > 64,
        bj + w <= 64 + bi,
        m == (if w == 0 { 0u64 } else { 0xffff_ffff_ffff_ffffu64 >> ((64 - w) as u64) }),
    ensures
        ((z >> bj) | (word_store_low(x1, v, bi) << ((64 - bj) as u64))) & m
            == ((z >> bj) | (x1 << ((64 - bj) as u64))) & m,
{
}

/// The upper word of a straddling store at `bi` changes only bits below
/// `bi + w - 64`: any right shift by at least that many bits is unchanged.
pub proof fn lemma_high_write_above(x2: u64, v: u64, m: u64, w: u64, bi: u64, bj: u64)
    by (bit_vector)
    requires
        w <= 64,
        bi < 64,
        bi + w > 64,
        bj + 64 >= bi + w,
        m == (if w == 0 { 0u64 } else { 0xffff_ffff_ffff_ffffu64 >> ((64 - w) as u64) }),
        v & m == v,
    ensures
        word_store_high(x2, v, m, bi) >> bj == x2 >> bj,
{
}

/// The words a field of `len` packed fields touches are in bounds when the
/// packed bits fit in `n` words.
pub proof fn lemma_field_in_bounds(w: nat, len: nat, n: nat, i: nat)
    requires
        w <= 64,
        i < len,
        len * w <= n * 64,
        n >= 1,
    ensures
        i * w + w <= len * w,
        (i * w) / 64 < n,
        (i * w) % 64 + w > 64 ==> (i * w) / 64 + 1 < n,
{
    let pos = i * w;
    assert(i * w + w <= len * w) by (nonlinear_arith)
        requires
            i < len,
            w >= 0,
    ;
    assert(pos == 64 * (pos / 64) + pos % 64 && 0 <= pos % 64 < 64) by {
        vstd::arithmetic::div_mod::lemma_fundamental_div_mod(pos as int, 64);
    }
    if w == 0 {
        assert(pos / 64 < n);
    } else {
        assert(pos < n * 64);
        assert(pos / 64 < n) by (nonlinear_arith)
            requires
                pos < n * 64,
                pos == 64 * (pos / 64) + pos % 64,
                0 <= pos % 64 < 64,
        ;
    }
    if pos % 64 + w > 64 {
        assert(((pos / 64) + 1) * 64 < pos + w <= n * 64);
        assert(pos / 64 + 1 < n) by (nonlinear_arith)
            requires
                ((pos / 64) + 1) * 64 < n * 64,
        ;
    }
}

/// Storing value `v` in field `i` when the field lies within one word: the
/// updated word sequence holds `v` at `i` and every other field unchanged.
pub proof fn lemma_store_single(data: Seq<u64>, w: nat, len: nat, i: nat, v: u64)
    requires
        w <= 64,
        i < len,
        len * w <= data.len() * 64,
        data.len() >= 1,
        (i * w) % 64 + w <= 64,
        v & spec_mask(w) == v,
    ensures
        fields_of(
            data.update(
                ((i * w) / 64) as int,
                word_store_single(data[((i * w) / 64) as int], v, spec_mask(w), ((i * w) % 64) as u64),
            ),
            w,
            len,
        ) == fields_of(data, w, len).update(i as int, v),
{
    let pos = i * w;
    let wi = (pos / 64) as int;
    let bi = (pos % 64) as u64;
    let m = spec_mask(w);
    let x = data[wi];
    let nw = word_store_single(x, v, m, bi);
    let nd = data.update(wi, nw);
    lemma_field_in_bounds(w, len, data.len(), i);
    vstd::arithmetic::div_mod::lemma_fundamental_div_mod(pos as int, 64);

    // The written field reads back as the value written.
    lemma_single_write_read(x, v, m, w as u64, bi);
    assert(field_at(nd, w, i) == v);

    // Every other field is unchanged.
    assert forall|j: nat| j < len && j != i implies field_at(nd, w, j) == field_at(data, w, j) by {
        lemma_field_in_bounds(w, len, data.len(), j);
        let pj = j * w;
        let wj = (pj / 64) as int;
        let bj = (pj % 64) as u64;
        vstd::arithmetic::div_mod::lemma_fundamental_div_mod(pj as int, 64);
        if j < i {
            assert(pj + w <= pos) by (nonlinear_arith)
                requires
                    j < i,
                    w >= 0,
                    pj == j * w,
                    pos == i * w,
            ;
        } else {
            assert(pos + w <= pj) by (nonlinear_arith)
                requires
                    i < j,
                    w >= 0,
                    pj == j * w,
                    pos == i * w,
            ;
        }
        if pj % 64 + w <= 64 {
            // Field `j` lies within word `wj`.
            if wj == wi {
                if j < i {
                    lemma_single_write_below(x, v, m, w as u64, bi, bj);
                } else {
                    lemma_single_write_above(x, v, m, w as u64, bi, bj);
                }
            }
        } else {
            // Field `j` straddles words `wj` and `wj + 1`.
            if wj == wi {
                // A field that straddles out of `wi` starts after the written one.
                assert(j > i);
                lemma_single_write_above(x, v, m, w as u64, bi, bj);
            } else if wj + 1 == wi {
                // A field that straddles into `wi` ends at or below `bi`.
                assert(j < i);
                lemma_single_write_straddle_in(x, data[wj], v, m, w as u64, bi, bj);
            }
        }
    }
    assert(fields_of(nd, w, len) =~= fields_of(data, w, len).update(i as int, v));
}

/// Storing value `v` in field `i` when the field straddles two words: after
/// updating both words, the sequence holds `v` at `i` and every other field
/// unchanged.
pub proof fn lemma_store_straddle(data: Seq<u64>, w: nat, len: nat, i: nat, v: u64)
    requires
        w <= 64,
        i < len,
        len * w <= data.len() * 64,
        data.len() >= 1,
        (i * w) % 64 + w > 64,
        v & spec_mask(w) == v,
    ensures
        fields_of(
            data.update(
                ((i * w) / 64) as int,
                word_store_low(data[((i * w) / 64) as int], v, ((i * w) % 64) as u64),
            ).update(
                ((i * w) / 64) as int + 1,
                word_store_high(data[((i * w) / 64) as int + 1], v, spec_mask(w), ((i * w) % 64) as u64),
            ),
            w,
            len,
        ) == fields_of(data, w, len).update(i as int, v),
{
    let pos = i * w;
    let wi = (pos / 64) as int;
    let bi = (pos % 64) as u64;
    let m = spec_mask(w);
    let x1 = data[wi];
    let x2 = data[wi + 1];
    let nw1 = word_store_low(x1, v, bi);
    let nw2 = word_store_high(x2, v, m, bi);
    let nd = data.update(wi, nw1).update(wi + 1, nw2);
    lemma_field_in_bounds(w, len, data.len(), i);
    vstd::arithmetic::div_mod::lemma_fundamental_div_mod(pos as int, 64);

    // The written field reads back as the value written.
    lemma_straddle_write_read(x1, x2, v, m, w as u64, bi);
    assert(field_at(nd, w, i) == v);

    // Every other field is unchanged.
    assert forall|j: nat| j < len && j != i implies field_at(nd, w, j) == field_at(data, w, j) by {
        lemma_field_in_bounds(w, len, data.len(), j);
        let pj = j * w;
        let wj = (pj / 64) as int;
        let bj = (pj % 64) as u64;
        vstd::arithmetic::div_mod::lemma_fundamental_div_mod(pj as int, 64);
        if j < i {
            assert(pj + w <= pos) by (nonlinear_arith)
                requires
                    j < i,
                    w >= 0,
                    pj == j * w,
                    pos == i * w,
            ;
        } else {
            assert(pos + w <= pj) by (nonlinear_arith)
                requires
                    i < j,
                    w >= 0,
                    pj == j * w,
                    pos == i * w,
            ;
        }
        if pj % 64 + w <= 64 {
            // Field `j` lies within word `wj`.
            if wj == wi {
                assert(j < i);
                lemma_low_write_below(x1, v, m, w as u64, bi, bj);
            } else if wj == wi + 1 {
                assert(j > i);
                lemma_high_write_above(x2, v, m, w as u64, bi, bj);
            }
        } else {
            // Field `j` straddles words `wj` and `wj + 1`.
            if wj == wi {
                // It would end at or below `bi`, contradicting the straddle.
                assert(false);
            } else if wj + 1 == wi {
                assert(j < i);
                lemma_low_write_straddle_in(x1, data[wj], v, m, w as u64, bi, bj);
            } else if wj == wi + 1 {
                assert(j > i);
                lemma_high_write_above(x2, v, m, w as u64, bi, bj);
            }
        }
    }
    assert(fields_of(nd, w, len) =~= fields_of(data, w, len).update(i as int, v));
}

} // verus!
