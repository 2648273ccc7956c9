use atm_refraction::{
    altitude_key, ascending_order, interval_index, is_ascending, is_strictly_ascending,
};

fn key(h: f64) -> i64 {
    altitude_key(h.to_bits()).unwrap()
}

#[test]
fn keys_follow_the_order_of_numbers() {
    let values = [
        f64::NEG_INFINITY,
        -1e300,
        -5.0,
        -1.0,
        -1e-300,
        0.0,
        1e-300,
        0.5,
        1.0,
        11e3,
        84.852e3,
        f64::INFINITY,
    ];
    for w in values.windows(2) {
        assert!(key(w[0]) < key(w[1]), "{} {}", w[0], w[1]);
    }
}

#[test]
fn both_zeros_share_a_key() {
    assert_eq!(key(0.0), 0);
    assert_eq!(key(-0.0), 0);
    assert_eq!(key(1.0), 0x3ff0_0000_0000_0000);
    assert_eq!(key(-1.0), -0x3ff0_0000_0000_0000);
}

#[test]
fn nan_has_no_key() {
    assert_eq!(altitude_key(f64::NAN.to_bits()), None);
    assert_eq!(altitude_key((-f64::NAN).to_bits()), None);
}

#[test]
fn lookup_finds_the_interval() {
    let ends = vec![key(11e3), key(20e3), key(32e3)];
    assert_eq!(interval_index(&ends, key(-100.0)), 0);
    assert_eq!(interval_index(&ends, key(11e3)), 0);
    assert_eq!(interval_index(&ends, key(11e3 + 1.0)), 1);
    assert_eq!(interval_index(&ends, key(25e3)), 2);
    assert_eq!(interval_index(&ends, key(32e3)), 2);
    assert_eq!(interval_index(&ends, key(1e6)), 3);
    assert_eq!(interval_index(&vec![], key(5.0)), 0);
}

#[test]
fn lookup_with_repeated_ends_takes_the_first() {
    let ends = vec![key(10.0), key(10.0), key(15.0)];
    assert_eq!(interval_index(&ends, key(10.0)), 0);
    assert_eq!(interval_index(&ends, key(12.0)), 2);
}

#[test]
fn ascending_keys() {
    assert!(is_ascending(&vec![]));
    assert!(is_ascending(&vec![1, 1, 2]));
    assert!(!is_ascending(&vec![1, 3, 2]));
    assert!(!is_ascending(&vec![key(20e3), key(11e3)]));
}

#[test]
fn strictly_ascending_keys() {
    assert!(is_strictly_ascending(&vec![]));
    assert!(is_strictly_ascending(&vec![1, 2, 5]));
    assert!(!is_strictly_ascending(&vec![1, 1, 2]));
    assert!(!is_strictly_ascending(&vec![key(20e3), key(11e3)]));
}

#[test]
fn entries_ordered_by_key() {
    let keys = vec![key(20e3), key(11e3), key(84.852e3), key(11e3), key(-5.0)];
    assert_eq!(ascending_order(&keys), vec![4, 1, 3, 0, 2]);
    assert_eq!(ascending_order(&vec![]), Vec::<usize>::new());
    assert_eq!(ascending_order(&vec![7, 7, 7]), vec![0, 1, 2]);
}
