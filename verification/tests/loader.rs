use medslice::loader::{gather, load_images, Decoded};
use medslice::slice::ImageSlice;

fn slice(name: &str, location: Option<f32>) -> ImageSlice {
    ImageSlice::unavailable(name.to_string(), location.map(f32::to_bits))
}

fn volume(name: &str, count: u16) -> Vec<ImageSlice> {
    (0..count).map(|k| slice(&format!("{}#{}", name, k), Some(k as f32))).collect()
}

fn names(slices: &[ImageSlice]) -> Vec<String> {
    slices.iter().map(|s| s.file_name().clone()).collect()
}

#[test]
fn a_single_dicom_file_gives_one_slice() {
    let loaded = load_images(vec![Decoded::Frame(slice("IM1", Some(4.5)))]);
    assert_eq!(names(&loaded), vec!["IM1"]);
    let loaded = load_images(vec![Decoded::Frame(slice("IM1", None))]);
    assert_eq!(names(&loaded), vec!["IM1"]);
}

#[test]
fn of_two_volumes_the_last_is_kept() {
    let loaded = load_images(vec![
        Decoded::Volume(volume("first", 3)),
        Decoded::Volume(volume("second", 2)),
    ]);
    assert_eq!(names(&loaded), vec!["second#1", "second#0"]);
}

#[test]
fn the_slices_of_a_volume_descend_by_index() {
    let loaded = load_images(vec![Decoded::Volume(volume("v", 4))]);
    assert_eq!(names(&loaded), vec!["v#3", "v#2", "v#1", "v#0"]);
}

#[test]
fn frames_are_ordered_by_location() {
    let loaded = load_images(vec![
        Decoded::Frame(slice("IM1", Some(-10.0))),
        Decoded::Skipped,
        Decoded::Frame(slice("IM2", Some(12.5))),
        Decoded::Frame(slice("IM3", Some(0.0))),
    ]);
    assert_eq!(names(&loaded), vec!["IM2", "IM3", "IM1"]);
}

#[test]
fn a_volume_replaces_the_frames_before_it() {
    let loaded = load_images(vec![
        Decoded::Frame(slice("IM1", Some(7.0))),
        Decoded::Volume(volume("v", 2)),
        Decoded::Frame(slice("IM2", Some(0.5))),
    ]);
    assert_eq!(names(&loaded), vec!["v#1", "IM2", "v#0"]);
}

#[test]
fn nothing_gives_nothing() {
    assert!(load_images(Vec::new()).is_empty());
    assert!(load_images(vec![Decoded::Skipped, Decoded::Skipped]).is_empty());
    assert!(load_images(vec![Decoded::Volume(Vec::new())]).is_empty());
}

#[test]
fn gathering_step_by_step() {
    let mut slices = Vec::new();
    gather(&mut slices, Decoded::Frame(slice("a", None)));
    gather(&mut slices, Decoded::Frame(slice("b", None)));
    assert_eq!(names(&slices), vec!["a", "b"]);
    gather(&mut slices, Decoded::Skipped);
    assert_eq!(names(&slices), vec!["a", "b"]);
    gather(&mut slices, Decoded::Volume(volume("v", 1)));
    assert_eq!(names(&slices), vec!["v#0"]);
    gather(&mut slices, Decoded::Frame(slice("c", None)));
    assert_eq!(names(&slices), vec!["v#0", "c"]);
}
