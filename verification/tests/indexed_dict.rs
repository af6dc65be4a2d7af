use sux::bits::bit_field_vec::BitFieldVec;
use sux::traits::indexed_dict::IndexedDict;
use sux::traits::indexed_dict::Pred;
use sux::traits::indexed_dict::Succ;

#[test]
fn vec_dict_basics() {
    let v: Vec<u64> = vec![4, 8, 15, 16, 23, 42];
    assert_eq!(IndexedDict::len(&v), 6);
    assert!(!IndexedDict::is_empty(&v));
    assert_eq!(IndexedDict::get(&v, 0), 4);
    assert_eq!(IndexedDict::get(&v, 5), 42);
    assert!(v.contains(15));
    assert!(!v.contains(14));
    let empty: Vec<u64> = vec![];
    assert!(IndexedDict::is_empty(&empty));
    assert!(!empty.contains(0));
}

#[test]
fn vec_succ_pred() {
    let v: Vec<u64> = vec![1, 3, 3, 7, 10];
    // Successor: least value at or above the query, least such index.
    assert_eq!(v.succ(0), Some((0, 1)));
    assert_eq!(v.succ(1), Some((0, 1)));
    assert_eq!(v.succ(2), Some((1, 3)));
    assert_eq!(v.succ(3), Some((1, 3)));
    assert_eq!(v.succ(8), Some((4, 10)));
    assert_eq!(v.succ(10), Some((4, 10)));
    assert_eq!(v.succ(11), None);
    // Strict successor.
    assert_eq!(v.succ_strict(0), Some((0, 1)));
    assert_eq!(v.succ_strict(1), Some((1, 3)));
    assert_eq!(v.succ_strict(3), Some((3, 7)));
    assert_eq!(v.succ_strict(10), None);
    // Predecessor: greatest value at or below the query, greatest such index.
    assert_eq!(v.pred(0), None);
    assert_eq!(v.pred(1), Some((0, 1)));
    assert_eq!(v.pred(3), Some((2, 3)));
    assert_eq!(v.pred(6), Some((2, 3)));
    assert_eq!(v.pred(100), Some((4, 10)));
    // Strict predecessor.
    assert_eq!(v.pred_strict(1), None);
    assert_eq!(v.pred_strict(3), Some((0, 1)));
    assert_eq!(v.pred_strict(4), Some((2, 3)));
    assert_eq!(v.pred_strict(100), Some((4, 10)));
}

#[test]
fn succ_pred_on_empty_dict() {
    let v: Vec<u64> = vec![];
    assert_eq!(v.succ(0), None);
    assert_eq!(v.succ_strict(0), None);
    assert_eq!(v.pred(u64::MAX), None);
    assert_eq!(v.pred_strict(u64::MAX), None);
}

#[test]
fn bit_field_vec_as_dict() {
    // The packed vector satisfies the same dictionary contract.
    let mut v = BitFieldVec::new(6, 8);
    let vals: [u64; 8] = [2, 5, 5, 9, 17, 17, 33, 60];
    for (i, &x) in vals.iter().enumerate() {
        v.set(i, x);
    }
    assert_eq!(IndexedDict::len(&v), 8);
    assert_eq!(IndexedDict::get(&v, 3), 9);
    assert!(v.contains(17));
    assert!(!v.contains(18));
    assert_eq!(v.succ(6), Some((3, 9)));
    assert_eq!(v.succ(5), Some((1, 5)));
    assert_eq!(v.succ_strict(5), Some((3, 9)));
    assert_eq!(v.succ(61), None);
    assert_eq!(v.pred(1), None);
    assert_eq!(v.pred(17), Some((5, 17)));
    assert_eq!(v.pred_strict(17), Some((3, 9)));
    assert_eq!(v.pred(64), Some((7, 60)));
}
