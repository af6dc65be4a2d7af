use sux::bits::bit_field_vec::BitFieldVec;

#[test]
fn new_is_all_zero() {
    let v = BitFieldVec::new(7, 40);
    assert_eq!(v.len(), 40);
    assert_eq!(v.bit_width(), 7);
    for i in 0..40 {
        assert_eq!(v.get(i), 0);
    }
}

#[test]
fn round_trip_width_7() {
    let mut v = BitFieldVec::new(7, 60);
    for i in 0..60 {
        v.set(i, (i as u64 * 5) % 128);
    }
    for i in 0..60 {
        assert_eq!(v.get(i), (i as u64 * 5) % 128);
    }
}

#[test]
fn round_trip_cross_word_width_5() {
    // Width 5 does not divide 64, so many fields straddle word boundaries.
    let mut v = BitFieldVec::new(5, 200);
    for i in 0..200 {
        v.set(i, (i as u64 * 7) % 32);
    }
    for i in 0..200 {
        assert_eq!(v.get(i), (i as u64 * 7) % 32);
    }
    // Overwriting in reverse order disturbs no neighbour.
    for i in (0..200).rev() {
        v.set(i, (i as u64 * 11) % 32);
    }
    for i in 0..200 {
        assert_eq!(v.get(i), (i as u64 * 11) % 32);
    }
}

#[test]
fn round_trip_width_64() {
    let mut v = BitFieldVec::new(64, 5);
    let vals = [u64::MAX, 0, 1, 0x8000_0000_0000_0000, 0x1234_5678_9abc_def0];
    for (i, &x) in vals.iter().enumerate() {
        v.set(i, x);
    }
    for (i, &x) in vals.iter().enumerate() {
        assert_eq!(v.get(i), x);
    }
}

#[test]
fn zero_width() {
    let mut v = BitFieldVec::new(0, 10);
    assert_eq!(v.len(), 10);
    for i in 0..10 {
        assert_eq!(v.get(i), 0);
    }
    // Zero is the only value that fits a zero-width field.
    v.set(3, 0);
    assert_eq!(v.get(3), 0);
    let mut it = v.iter();
    for _ in 0..10 {
        assert_eq!(it.next(), Some(0));
    }
    assert_eq!(it.next(), None);
}

#[test]
fn concrete_scenario_width_5() {
    let mut v = BitFieldVec::new(5, 3);
    v.set(0, 31);
    v.set(1, 17);
    v.set(2, 9);
    assert_eq!(v.get(0), 31);
    assert_eq!(v.get(1), 17);
    assert_eq!(v.get(2), 9);
    let mut it = v.iter_from(1);
    assert_eq!(it.next(), Some(17));
    assert_eq!(it.next(), Some(9));
    assert_eq!(it.next(), None);
}

#[test]
fn iterator_matches_indexed_gets() {
    let mut v = BitFieldVec::new(13, 100);
    for i in 0..100 {
        v.set(i, (i as u64 * 389) % 8192);
    }
    let mut it = v.iter();
    assert_eq!(it.len(), 100);
    for i in 0..100 {
        assert_eq!(it.next(), Some(v.get(i)));
        assert_eq!(it.len(), 100 - i - 1);
    }
    assert_eq!(it.next(), None);
}

#[test]
fn iterator_from_is_suffix() {
    let mut v = BitFieldVec::new(11, 50);
    for i in 0..50 {
        v.set(i, (i as u64 * 123) % 2048);
    }
    let mut it = v.iter_from(37);
    for i in 37..50 {
        assert_eq!(it.next(), Some(v.get(i)));
    }
    assert_eq!(it.next(), None);
    // Starting at the end yields nothing.
    let mut it = v.iter_from(50);
    assert_eq!(it.next(), None);
}

#[test]
fn unchecked_iterator_decodes() {
    let mut v = BitFieldVec::new(9, 30);
    for i in 0..30 {
        v.set(i, (i as u64 * 37) % 512);
    }
    let mut it = v.iter_val_from_unchecked(10);
    for i in 10..30 {
        assert_eq!(it.next_unchecked(), v.get(i));
    }
}

#[test]
fn unchecked_accessors_match_checked() {
    let mut v = BitFieldVec::new(6, 80);
    for i in 0..80 {
        v.set_unchecked(i, (i as u64 * 13) % 64);
    }
    for i in 0..80 {
        assert_eq!(v.get_unchecked(i), (i as u64 * 13) % 64);
    }
}

#[test]
fn backing_word_count() {
    // Exactly ceil(len * bit_width / 64) words, with a floor of one.
    let cases = [
        (0usize, 10usize, 1usize),
        (5, 0, 1),
        (1, 1, 1),
        (5, 200, 16),
        (64, 4, 4),
        (7, 64, 7),
    ];
    for &(bw, len, words) in cases.iter() {
        let (data, _, _) = BitFieldVec::new(bw, len).into_raw_parts();
        assert_eq!(data.len(), words);
        let (adata, _, _) = BitFieldVec::new_atomic(bw, len).into_raw_parts();
        assert_eq!(adata.len(), words);
    }
}

#[test]
fn raw_parts_come_out_as_stored() {
    // The words come back exactly as supplied: no renormalization, even of
    // the padding bits past the last field.
    let words = vec![0xdead_beef_0123_4567u64, 0xffff_ffff_ffff_ffffu64];
    let v = BitFieldVec::from_raw_parts(words.clone(), 3, 40);
    let (out, bw, len) = v.into_raw_parts();
    assert_eq!(out, words);
    assert_eq!(bw, 3);
    assert_eq!(len, 40);
}

#[test]
fn raw_parts_reconstruction() {
    let mut v = BitFieldVec::new(5, 41);
    for i in 0..41 {
        v.set(i, (i as u64 * 3) % 32);
    }
    let (data, bit_width, len) = v.into_raw_parts();
    assert_eq!(bit_width, 5);
    assert_eq!(len, 41);
    // Rebuilding from the parts reproduces identical reads.
    let w = BitFieldVec::from_raw_parts(data, bit_width, len);
    for i in 0..41 {
        assert_eq!(w.get(i), (i as u64 * 3) % 32);
    }
}

#[test]
fn iterator_full_word_widths() {
    // Full-width fields leave the decoding window empty after each value.
    let mut v = BitFieldVec::new(64, 4);
    let vals = [u64::MAX, 7, 0, 0xdead_beef];
    for (i, &x) in vals.iter().enumerate() {
        v.set(i, x);
    }
    let mut it = v.iter();
    for &x in vals.iter() {
        assert_eq!(it.next(), Some(x));
    }
    assert_eq!(it.next(), None);
    // Width 32: the window alternates between half full and empty.
    let mut v = BitFieldVec::new(32, 9);
    for i in 0..9 {
        v.set(i, (i as u64) << 28);
    }
    let mut it = v.iter();
    for i in 0..9 {
        assert_eq!(it.next(), Some((i as u64) << 28));
    }
    assert_eq!(it.next(), None);
}

#[test]
fn single_word_widths() {
    // Power-of-two widths never straddle words.
    for &bw in &[1usize, 2, 4, 8, 16, 32] {
        let m = (1u64 << bw) - 1;
        let mut v = BitFieldVec::new(bw, 130);
        for i in 0..130 {
            v.set(i, (i as u64 * 0x9e37) & m);
        }
        for i in 0..130 {
            assert_eq!(v.get(i), (i as u64 * 0x9e37) & m);
        }
    }
}
