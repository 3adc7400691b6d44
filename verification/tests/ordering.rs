use medslice::ordering::order_slices;
use medslice::slice::ImageSlice;

fn slice(name: &str, location: Option<f32>) -> ImageSlice {
    ImageSlice::unavailable(name.to_string(), location.map(f32::to_bits))
}

fn names(slices: &[ImageSlice]) -> Vec<String> {
    slices.iter().map(|s| s.file_name().clone()).collect()
}

fn ordered(input: &[(&str, Option<f32>)]) -> Vec<String> {
    let mut slices: Vec<ImageSlice> = input.iter().map(|(n, l)| slice(n, *l)).collect();
    order_slices(&mut slices);
    names(&slices)
}

#[test]
fn slices_without_location_keep_their_place() {
    let got = ordered(&[("a", Some(3.0)), ("b", None), ("c", Some(1.0)), ("d", None)]);
    assert_eq!(got, vec!["a", "b", "c", "d"]);
}

#[test]
fn located_slices_descend() {
    let got = ordered(&[("a", Some(1.0)), ("b", Some(3.0)), ("c", Some(-2.0)), ("d", Some(2.0))]);
    assert_eq!(got, vec!["b", "d", "a", "c"]);
}

#[test]
fn equal_locations_keep_their_order() {
    let got = ordered(&[
        ("a", Some(1.0)),
        ("b", Some(2.0)),
        ("c", Some(1.0)),
        ("d", Some(2.0)),
        ("e", Some(1.0)),
    ]);
    assert_eq!(got, vec!["b", "d", "a", "c", "e"]);
}

#[test]
fn no_slice_passes_one_without_location() {
    let got = ordered(&[
        ("a", Some(1.0)),
        ("b", Some(3.0)),
        ("c", None),
        ("d", Some(2.0)),
        ("e", Some(5.0)),
    ]);
    assert_eq!(got, vec!["b", "a", "c", "e", "d"]);
}

#[test]
fn slices_without_any_location_stay_as_they_are() {
    let got = ordered(&[("c", None), ("a", None), ("b", None)]);
    assert_eq!(got, vec!["c", "a", "b"]);
}

#[test]
fn nothing_and_one_slice() {
    assert_eq!(ordered(&[]), Vec::<String>::new());
    assert_eq!(ordered(&[("a", Some(1.0))]), vec!["a"]);
    assert_eq!(ordered(&[("a", None)]), vec!["a"]);
}

#[test]
fn zeros_and_not_a_number_have_their_place() {
    let got = ordered(&[
        ("minus zero", Some(-0.0)),
        ("zero", Some(0.0)),
        ("minus infinity", Some(f32::NEG_INFINITY)),
        ("nan", Some(f32::NAN)),
        ("infinity", Some(f32::INFINITY)),
    ]);
    assert_eq!(got, vec!["nan", "infinity", "zero", "minus zero", "minus infinity"]);
}

#[test]
fn ordering_keeps_every_slice() {
    let mut slices = vec![
        ImageSlice::new("a".to_string(), 1, 1, vec![1, 2, 3, 4], Some(1.0f32.to_bits())).unwrap(),
        ImageSlice::new("b".to_string(), 1, 2, vec![5; 8], Some(2.0f32.to_bits())).unwrap(),
    ];
    order_slices(&mut slices);
    assert_eq!(names(&slices), vec!["b", "a"]);
    assert_eq!(slices[0].rgba_vec(), &vec![5; 8]);
    assert_eq!(slices[0].height(), 2);
    assert_eq!(slices[1].rgba_vec(), &vec![1, 2, 3, 4]);
}

#[test]
fn located_slices_order_as_a_stable_sort() {
    let mut input: Vec<(String, f32)> = Vec::new();
    let mut seed: u32 = 12345;
    for i in 0..200 {
        seed = seed.wrapping_mul(1664525).wrapping_add(1013904223);
        let value = ((seed >> 16) % 40) as f32 - 20.0;
        input.push((format!("s{}", i), value));
    }
    let mut slices: Vec<ImageSlice> =
        input.iter().map(|(n, l)| slice(n, Some(*l))).collect();
    order_slices(&mut slices);
    let mut expected = input.clone();
    expected.sort_by(|a, b| b.1.total_cmp(&a.1));
    let expected: Vec<String> = expected.into_iter().map(|(n, _)| n).collect();
    assert_eq!(names(&slices), expected);
}

#[test]
fn ordering_twice_changes_nothing() {
    let mut slices = vec![
        slice("a", Some(1.0)),
        slice("b", None),
        slice("c", Some(4.0)),
        slice("d", Some(9.0)),
        slice("e", Some(4.0)),
    ];
    order_slices(&mut slices);
    let once = names(&slices);
    order_slices(&mut slices);
    assert_eq!(names(&slices), once);
    assert_eq!(once, vec!["a", "b", "d", "c", "e"]);
}
