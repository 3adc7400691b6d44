use medslice::location::{index_location, location_key};

#[test]
fn index_location_is_the_index_as_a_single() {
    for i in 0..=u16::MAX {
        assert_eq!(index_location(i), (i as f32).to_bits(), "index {}", i);
    }
}

#[test]
fn index_location_of_small_indices() {
    assert_eq!(index_location(0), 0);
    assert_eq!(index_location(1), 0x3f80_0000);
    assert_eq!(index_location(2), 0x4000_0000);
    assert_eq!(index_location(3), 0x4040_0000);
    assert_eq!(index_location(65535), 0x477f_ff00);
}

#[test]
fn keys_of_positive_patterns_are_the_patterns() {
    assert_eq!(location_key(0), 0);
    assert_eq!(location_key(0x3f80_0000), 0x3f80_0000);
    assert_eq!(location_key(0x7fff_ffff), 0x7fff_ffff);
}

#[test]
fn keys_of_negative_patterns_run_backwards() {
    assert_eq!(location_key(0x8000_0000), -1);
    assert_eq!(location_key(0x8000_0001), -2);
    assert_eq!(location_key(0xffff_ffff), -0x8000_0000);
}

#[test]
fn keys_order_as_the_total_order_of_singles() {
    let values: [f32; 14] = [
        f32::NEG_INFINITY,
        -1.0e30,
        -3.5,
        -1.0,
        -f32::MIN_POSITIVE,
        -0.0,
        0.0,
        f32::MIN_POSITIVE,
        0.5,
        1.0,
        3.0,
        1.0e30,
        f32::INFINITY,
        f32::NAN,
    ];
    for a in values {
        for b in values {
            let expected = a.total_cmp(&b);
            let got = location_key(a.to_bits()).cmp(&location_key(b.to_bits()));
            assert_eq!(got, expected, "{} against {}", a, b);
        }
    }
}

#[test]
fn a_later_index_has_a_greater_key() {
    let mut previous = location_key(index_location(0));
    for i in 1..=u16::MAX {
        let key = location_key(index_location(i));
        assert!(previous < key);
        previous = key;
    }
}
