use sux::traits::rank_sel::BitCount;
use sux::traits::rank_sel::BitLength;
use sux::traits::rank_sel::Rank;
use sux::traits::rank_sel::RankZero;
use sux::traits::rank_sel::Select;
use sux::traits::rank_sel::SelectHinted;
use sux::traits::rank_sel::SelectZero;
use sux::traits::rank_sel::SelectZeroHinted;

fn sample_bits() -> Vec<bool> {
    vec![true, false, true, true, false, false, true]
}

#[test]
fn length_and_count() {
    let v = sample_bits();
    assert_eq!(BitLength::len(&v), 7);
    assert_eq!(v.count(), 4);
}

#[test]
fn rank_counts_ones_before_position() {
    let v = sample_bits();
    assert_eq!(v.rank(0), 0);
    assert_eq!(v.rank(1), 1);
    assert_eq!(v.rank(3), 2);
    assert_eq!(v.rank(4), 3);
    assert_eq!(v.rank(7), 4);
    // Positions past the end are clamped to the length.
    assert_eq!(v.rank(100), 4);
    assert_eq!(v.rank_unchecked(5), 3);
}

#[test]
fn rank_zero_counts_zeros() {
    let v = sample_bits();
    assert_eq!(v.rank_zero(0), 0);
    assert_eq!(v.rank_zero(2), 1);
    assert_eq!(v.rank_zero(7), 3);
    assert_eq!(v.rank_zero_unchecked(6), 3);
}

#[test]
fn select_finds_kth_one() {
    let v = sample_bits();
    assert_eq!(v.select(0), Some(0));
    assert_eq!(v.select(1), Some(2));
    assert_eq!(v.select(2), Some(3));
    assert_eq!(v.select(3), Some(6));
    assert_eq!(v.select(4), None);
}

#[test]
fn select_zero_finds_kth_zero() {
    let v = sample_bits();
    assert_eq!(v.select_zero(0), Some(1));
    assert_eq!(v.select_zero(1), Some(4));
    assert_eq!(v.select_zero(2), Some(5));
    assert_eq!(v.select_zero(3), None);
}

#[test]
fn hinted_select_agrees_with_plain() {
    let v = sample_bits();
    // The anchor is the one at position 2, of rank 1.
    assert_eq!(v.select_hinted(1, 2, 1), Some(2));
    assert_eq!(v.select_hinted(2, 2, 1), Some(3));
    assert_eq!(v.select_hinted(3, 2, 1), Some(6));
    assert_eq!(v.select_hinted(6, 2, 1), None);
    assert_eq!(v.select_hinted_unchecked(3, 3, 2), 6);
    // The anchor is the zero at position 4, of rank 1.
    assert_eq!(v.select_zero_hinted(1, 4, 1), Some(4));
    assert_eq!(v.select_zero_hinted(2, 4, 1), Some(5));
    assert_eq!(v.select_zero_hinted(5, 4, 1), None);
    assert_eq!(v.select_zero_hinted_unchecked(2, 4, 1), 5);
}

#[test]
fn rank_select_inverse_laws() {
    let v = vec![
        false, true, true, false, true, false, false, true, true, true, false, true,
    ];
    let ones = v.count();
    // The rank of the position just past the one of rank r is r + 1.
    for r in 0..ones {
        let p = v.select(r).unwrap();
        assert!(v[p]);
        assert_eq!(v.rank(p), r);
        assert_eq!(v.rank(p + 1), r + 1);
    }
    // Where rank(p) = r and the one of rank r exists, it lies at or past p.
    for p in 0..=v.len() {
        let r = v.rank(p);
        if r < ones {
            assert!(v.select(r).unwrap() >= p);
        }
    }
}

#[test]
fn empty_bit_vector() {
    let v: Vec<bool> = vec![];
    assert_eq!(BitLength::len(&v), 0);
    assert_eq!(v.count(), 0);
    assert_eq!(v.rank(0), 0);
    assert_eq!(v.rank(5), 0);
    assert_eq!(v.select(0), None);
    assert_eq!(v.select_zero(0), None);
}
