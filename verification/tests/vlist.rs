use vlist::exclusive::ExclusiveList;
use vlist::persistent::VList;

#[test]
fn persistent_len_counts_cons_calls() {
    let mut v: VList<i32> = VList::new();
    assert_eq!(v.len(), 0);
    for k in 1..=10 {
        v = v.cons(k);
        assert_eq!(v.len(), k as usize);
    }
}

#[test]
fn exclusive_len_counts_cons_calls() {
    let mut v: ExclusiveList<i32> = ExclusiveList::new();
    assert_eq!(v.len(), 0);
    for k in 1..=10 {
        v.cons(k);
        assert_eq!(v.len(), k as usize);
    }
}

#[test]
fn persistent_index_zero_is_newest() {
    let mut v: VList<i32> = VList::new();
    for k in [7, 3, 9, -2] {
        v = v.cons(k);
        assert_eq!(v.index(0), Some(k));
    }
    v = v.cdr().unwrap();
    assert_eq!(v.index(0), Some(9));
}

#[test]
fn exclusive_index_zero_is_newest() {
    let mut v: ExclusiveList<i32> = ExclusiveList::new();
    for k in [7, 3, 9, -2] {
        v.cons(k);
        assert_eq!(v.index(0), Some(k));
    }
    assert!(v.cdr());
    assert_eq!(v.index(0), Some(9));
}

#[test]
fn persistent_cons_cdr_round_trip() {
    let mut v: VList<i32> = VList::new();
    for n in 0..8 {
        // round trip at every length, across segment boundaries
        let grown = v.cons(100 + n);
        let back = grown.cdr().unwrap();
        assert_eq!(back.to_sequence(), v.to_sequence());
        v = v.cons(n);
    }
}

#[test]
fn exclusive_cons_cdr_round_trip() {
    let mut v: ExclusiveList<i32> = ExclusiveList::new();
    for n in 0..8 {
        let before = v.to_sequence();
        v.cons(100 + n);
        assert!(v.cdr());
        assert_eq!(v.to_sequence(), before);
        v.cons(n);
    }
}

#[test]
fn persistent_cdr_on_empty_fails_without_change() {
    let v: VList<i32> = VList::new();
    assert!(v.cdr().is_none());
    assert!(v.cdr().is_none());
    assert_eq!(v.len(), 0);
    assert_eq!(v.to_sequence(), Vec::<i32>::new());
}

#[test]
fn exclusive_cdr_on_empty_fails_without_change() {
    let mut v: ExclusiveList<i32> = ExclusiveList::new();
    assert!(!v.cdr());
    assert!(!v.cdr());
    assert_eq!(v.len(), 0);
    assert_eq!(v.to_sequence(), Vec::<i32>::new());
}

#[test]
fn persistent_sharing_leaves_old_handles_alone() {
    let mut a: VList<i32> = VList::new();
    for k in [5, 4, 3] {
        a = a.cons(k);
    }
    let b = a.cons(2);
    assert_eq!(a.to_sequence(), vec![3, 4, 5]);
    assert_eq!(b.to_sequence(), vec![2, 3, 4, 5]);

    // grow and shrink b in various ways; a must never move
    let c = b.cons(1);
    let d = b.cdr().unwrap();
    let e = d.cons(99);
    assert_eq!(c.to_sequence(), vec![1, 2, 3, 4, 5]);
    assert_eq!(d.to_sequence(), vec![3, 4, 5]);
    assert_eq!(e.to_sequence(), vec![99, 3, 4, 5]);
    assert_eq!(a.to_sequence(), vec![3, 4, 5]);
    assert_eq!(b.to_sequence(), vec![2, 3, 4, 5]);
    assert_eq!(a.len(), 3);
}

#[test]
fn persistent_scenario_six_cons() {
    let mut v: VList<i32> = VList::new();
    for k in [6, 5, 4, 3, 2, 1] {
        v = v.cons(k);
    }
    assert_eq!(v.to_sequence(), vec![1, 2, 3, 4, 5, 6]);
    assert_eq!(v.len(), 6);
}

#[test]
fn exclusive_scenario_six_cons() {
    let mut v: ExclusiveList<i32> = ExclusiveList::new();
    for k in [6, 5, 4, 3, 2, 1] {
        v.cons(k);
    }
    assert_eq!(v.to_sequence(), vec![1, 2, 3, 4, 5, 6]);
    assert_eq!(v.len(), 6);
}

#[test]
fn persistent_scenario_one_cdr() {
    let mut v: VList<i32> = VList::new();
    for k in [6, 5, 4, 3, 2, 1] {
        v = v.cons(k);
    }
    v = v.cdr().unwrap();
    assert_eq!(v.to_sequence(), vec![2, 3, 4, 5, 6]);
    assert_eq!(v.len(), 5);
    assert_eq!(v.index(3), Some(5));
}

#[test]
fn exclusive_scenario_one_cdr() {
    let mut v: ExclusiveList<i32> = ExclusiveList::new();
    for k in [6, 5, 4, 3, 2, 1] {
        v.cons(k);
    }
    assert!(v.cdr());
    assert_eq!(v.to_sequence(), vec![2, 3, 4, 5, 6]);
    assert_eq!(v.len(), 5);
    assert_eq!(v.index(3), Some(5));
}

#[test]
fn persistent_scenario_two_more_cdr() {
    let mut v: VList<i32> = VList::new();
    for k in [6, 5, 4, 3, 2, 1] {
        v = v.cons(k);
    }
    v = v.cdr().unwrap();
    v = v.cdr().unwrap().cdr().unwrap();
    assert_eq!(v.to_sequence(), vec![4, 5, 6]);
    assert_eq!(v.len(), 3);
}

#[test]
fn exclusive_scenario_two_more_cdr() {
    let mut v: ExclusiveList<i32> = ExclusiveList::new();
    for k in [6, 5, 4, 3, 2, 1] {
        v.cons(k);
    }
    assert!(v.cdr());
    assert!(v.cdr());
    assert!(v.cdr());
    assert_eq!(v.to_sequence(), vec![4, 5, 6]);
    assert_eq!(v.len(), 3);
}

#[test]
fn persistent_index_out_of_range() {
    let empty: VList<i32> = VList::new();
    assert_eq!(empty.index(0), None);
    assert_eq!(empty.index(17), None);

    let mut v: VList<i32> = VList::new();
    for k in 0..9 {
        v = v.cons(k);
        assert_eq!(v.index(v.len()), None);
        assert_eq!(v.index(v.len() + 100), None);
    }
}

#[test]
fn exclusive_index_out_of_range() {
    let empty: ExclusiveList<i32> = ExclusiveList::new();
    assert_eq!(empty.index(0), None);
    assert_eq!(empty.index(17), None);

    let mut v: ExclusiveList<i32> = ExclusiveList::new();
    for k in 0..9 {
        v.cons(k);
        assert_eq!(v.index(v.len()), None);
        assert_eq!(v.index(v.len() + 100), None);
    }
}

#[test]
fn persistent_index_every_position() {
    let mut v: VList<i32> = VList::new();
    for k in 0..20 {
        v = v.cons(k);
    }
    for i in 0..20 {
        assert_eq!(v.index(i), Some(19 - i as i32));
    }
}

#[test]
fn exclusive_index_every_position() {
    let mut v: ExclusiveList<i32> = ExclusiveList::new();
    for k in 0..20 {
        v.cons(k);
    }
    for i in 0..20 {
        assert_eq!(v.index(i), Some(19 - i as i32));
    }
}

#[test]
fn persistent_to_string_empty() {
    let v: VList<i32> = VList::new();
    assert_eq!(v.to_string(), "[]");
}

#[test]
fn persistent_to_string_elements() {
    let mut v: VList<i32> = VList::new();
    for k in [3, 2, 1] {
        v = v.cons(k);
    }
    assert_eq!(v.to_string(), "[ 1 2 3 ]");
}

#[test]
fn persistent_to_string_signs_and_digits() {
    let mut v: VList<i32> = VList::new();
    for k in [34, 0, -12, i32::MAX, i32::MIN] {
        v = v.cons(k);
    }
    assert_eq!(v.to_string(), "[ -2147483648 2147483647 -12 0 34 ]");
}

#[test]
fn exclusive_interleaved_cons_cdr() {
    let mut v: ExclusiveList<i32> = ExclusiveList::new();
    v.cons(1);
    v.cons(2);
    v.cons(3);
    assert!(v.cdr());
    v.cons(4);
    v.cons(5);
    assert!(v.cdr());
    assert_eq!(v.to_sequence(), vec![4, 2, 1]);
    assert_eq!(v.len(), 3);
    // drain to empty and past it
    assert!(v.cdr());
    assert!(v.cdr());
    assert!(v.cdr());
    assert!(!v.cdr());
    assert_eq!(v.len(), 0);
}

#[test]
fn persistent_interleaved_cons_cdr() {
    let v: VList<i32> = VList::new();
    let v = v.cons(1).cons(2).cons(3);
    let v = v.cdr().unwrap();
    let v = v.cons(4).cons(5);
    let v = v.cdr().unwrap();
    assert_eq!(v.to_sequence(), vec![4, 2, 1]);
    // drain to empty and past it
    let v = v.cdr().unwrap().cdr().unwrap().cdr().unwrap();
    assert_eq!(v.len(), 0);
    assert!(v.cdr().is_none());
}
