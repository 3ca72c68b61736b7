use unchained_utils::parse::{BlockRange, ParseError};

#[test]
fn new_accepts_ordered_range() {
    let r = BlockRange::new(10, 20).unwrap();
    assert_eq!(r.old, 10);
    assert_eq!(r.new, 20);
}

#[test]
fn new_rejects_equal_bounds() {
    let r = BlockRange::new(5, 5);
    assert!(matches!(r, Err(ParseError::RangeReversed { old: 5, new: 5 })));
}

#[test]
fn new_rejects_reversed_bounds() {
    let r = BlockRange::new(7, 2);
    assert!(matches!(r, Err(ParseError::RangeReversed { old: 7, new: 2 })));
}

#[test]
fn intersection_is_symmetric() {
    let pairs = [
        (BlockRange { old: 0, new: 10 }, BlockRange { old: 5, new: 15 }),
        (BlockRange { old: 0, new: 10 }, BlockRange { old: 11, new: 15 }),
        (BlockRange { old: 3, new: 4 }, BlockRange { old: 4, new: 9 }),
        (BlockRange { old: 8, new: 9 }, BlockRange { old: 0, new: 100 }),
    ];
    for (a, b) in pairs {
        assert_eq!(a.intersection_exists(&b), b.intersection_exists(&a));
    }
    let a = BlockRange { old: 0, new: 10 };
    let b = BlockRange { old: 10, new: 20 };
    assert!(a.intersection_exists(&b));
    let c = BlockRange { old: 11, new: 20 };
    assert!(!a.intersection_exists(&c));
}

#[test]
fn subset_implies_intersection() {
    let inner = BlockRange { old: 5, new: 8 };
    let outer = BlockRange { old: 0, new: 10 };
    assert!(inner.is_volume_of(&outer));
    assert!(inner.intersection_exists(&outer));
    let not_inner = BlockRange { old: 5, new: 11 };
    assert!(!not_inner.is_volume_of(&outer));
}
