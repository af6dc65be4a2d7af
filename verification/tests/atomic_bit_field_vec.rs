use core::sync::atomic::Ordering;
use sux::bits::bit_field_vec::BitFieldVec;

#[test]
fn atomic_new_is_all_zero() {
    let v = BitFieldVec::new_atomic(8, 100);
    assert_eq!(v.len(), 100);
    assert_eq!(v.bit_width(), 8);
    for i in 0..100 {
        assert_eq!(v.get(i, Ordering::Relaxed), 0);
    }
}

#[test]
fn atomic_round_trip_power_of_two_width() {
    // Power-of-two width: every write is one atomic word update.
    let v = BitFieldVec::new_atomic(8, 100);
    for i in 0..100 {
        v.set(i, (i as u64 * 17) % 256, Ordering::Relaxed);
    }
    for i in 0..100 {
        assert_eq!(v.get(i, Ordering::Relaxed), (i as u64 * 17) % 256);
    }
}

#[test]
fn atomic_round_trip_straddling_width() {
    // Width 5 straddles word boundaries; with one thread the two word
    // updates of a straddling write always compose correctly.
    let v = BitFieldVec::new_atomic(5, 200);
    for i in 0..200 {
        v.set(i, (i as u64 * 7) % 32, Ordering::SeqCst);
    }
    for i in 0..200 {
        assert_eq!(v.get(i, Ordering::SeqCst), (i as u64 * 7) % 32);
    }
}

#[test]
fn atomic_set_preserves_neighbours() {
    let v = BitFieldVec::new_atomic(3, 64);
    for i in 0..64 {
        v.set(i, (i as u64) % 8, Ordering::Relaxed);
    }
    v.set(21, 5, Ordering::Relaxed);
    for i in 0..64 {
        let expected = if i == 21 { 5 } else { (i as u64) % 8 };
        assert_eq!(v.get(i, Ordering::Relaxed), expected);
    }
}

#[test]
fn conversion_keeps_bit_pattern() {
    let mut v = BitFieldVec::new(5, 50);
    for i in 0..50 {
        v.set(i, (i as u64 * 3) % 32);
    }
    // Plain to atomic: same length, width and bits.
    let a = v.into_atomic();
    assert_eq!(a.len(), 50);
    assert_eq!(a.bit_width(), 5);
    for i in 0..50 {
        assert_eq!(a.get(i, Ordering::Relaxed), (i as u64 * 3) % 32);
    }
    // And back again.
    let w = a.into_bit_field_vec();
    assert_eq!(w.len(), 50);
    assert_eq!(w.bit_width(), 5);
    for i in 0..50 {
        assert_eq!(w.get(i), (i as u64 * 3) % 32);
    }
}

#[test]
fn atomic_raw_parts_reconstruction() {
    let v = BitFieldVec::new_atomic(6, 30);
    for i in 0..30 {
        v.set(i, (i as u64 * 5) % 64, Ordering::Relaxed);
    }
    let (data, bit_width, len) = v.into_raw_parts();
    assert_eq!(bit_width, 6);
    assert_eq!(len, 30);
    let w = sux::bits::atomic_bit_field_vec::AtomicBitFieldVec::from_raw_parts(
        data, bit_width, len,
    );
    for i in 0..30 {
        assert_eq!(w.get(i, Ordering::Relaxed), (i as u64 * 5) % 64);
    }
}

#[test]
fn atomic_zero_width() {
    let v = BitFieldVec::new_atomic(0, 10);
    for i in 0..10 {
        assert_eq!(v.get(i, Ordering::Relaxed), 0);
    }
    v.set(4, 0, Ordering::Relaxed);
    assert_eq!(v.get(4, Ordering::Relaxed), 0);
}
