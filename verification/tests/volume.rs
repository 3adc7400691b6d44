use medslice::volume::{is_decodable, nifi_to_rgba, try_nifi_to_rgba, volume_slices};
use nifti::{Endianness, InMemNiftiVolume, NiftiType};

fn le_bytes(samples: &[u16]) -> Vec<u8> {
    let mut out = Vec::new();
    for s in samples {
        out.extend_from_slice(&s.to_le_bytes());
    }
    out
}

fn volume(height: u16, width: u16, count: u16, samples: &[u16]) -> InMemNiftiVolume {
    InMemNiftiVolume::from_raw_fields(
        [3, height, width, count, 0, 0, 0, 0],
        NiftiType::Uint16,
        1.0,
        0.0,
        le_bytes(samples),
        Endianness::Little,
    )
    .unwrap()
}

#[test]
fn a_volume_gives_one_slice_for_each_index() {
    let samples: Vec<u16> = (0..24).collect();
    let slices = nifi_to_rgba(volume(2, 3, 4, &samples), "brain.nii.gz".to_string());
    assert_eq!(slices.len(), 4);
    for (k, slice) in slices.iter().enumerate() {
        assert_eq!(slice.height(), 2);
        assert_eq!(slice.width(), 3);
        assert_eq!(slice.rgba_vec().len(), 2 * 3 * 4);
        assert_eq!(slice.file_name(), "brain.nii.gz");
        assert_eq!(slice.location().map(f32::from_bits), Some(k as f32));
    }
}

#[test]
fn the_window_is_that_of_the_whole_volume() {
    // min 100, max 200 over both slices
    let samples = [100u16, 150, 200, 120];
    let slices = nifi_to_rgba(volume(1, 2, 2, &samples), "v.gz".to_string());
    assert_eq!(slices[0].rgba_vec(), &vec![0, 0, 0, 255, 63, 63, 63, 255]);
    assert_eq!(slices[1].rgba_vec(), &vec![127, 127, 127, 255, 25, 25, 25, 255]);
}

#[test]
fn the_highest_sample_does_not_reach_255_above_a_positive_minimum() {
    let samples = [250u16, 1000, 500, 750];
    let slices = nifi_to_rgba(volume(2, 2, 1, &samples), "v.gz".to_string());
    // (1000 - 250) / 1000 * 255 = 191.25, (500 - 250) / 1000 * 255 = 63.75,
    // (750 - 250) / 1000 * 255 = 127.5
    assert_eq!(
        slices[0].rgba_vec(),
        &vec![0, 0, 0, 255, 191, 191, 191, 255, 63, 63, 63, 255, 127, 127, 127, 255]
    );
}

#[test]
fn a_volume_of_zeros_is_black() {
    let slices = nifi_to_rgba(volume(1, 1, 2, &[0, 0]), "v.gz".to_string());
    assert_eq!(slices[0].rgba_vec(), &vec![0, 0, 0, 255]);
    assert_eq!(slices[1].rgba_vec(), &vec![0, 0, 0, 255]);
}

#[test]
fn samples_are_read_little_endian() {
    let slices = nifi_to_rgba(volume(1, 2, 1, &[0x0100, 0x0001]), "v.gz".to_string());
    // min 1, max 256: (256 - 1) * 255 / 256 = 254
    assert_eq!(slices[0].rgba_vec(), &vec![254, 254, 254, 255, 0, 0, 0, 255]);
}

#[test]
fn more_than_three_dimensions_are_cut_along_the_third() {
    let samples: Vec<u16> = (0..16).collect();
    let four = InMemNiftiVolume::from_raw_fields(
        [4, 2, 2, 2, 2, 0, 0, 0],
        NiftiType::Uint16,
        1.0,
        0.0,
        le_bytes(&samples),
        Endianness::Little,
    )
    .unwrap();
    let slices = try_nifi_to_rgba(four, "v.gz".to_string()).unwrap();
    assert_eq!(slices.len(), 2);
    // the window spans all sixteen samples: max 15
    assert_eq!(slices[1].rgba_vec()[0], (4 * 255 / 15) as u8);
}

#[test]
fn a_buffer_of_single_bytes_is_too_short() {
    let bytes = InMemNiftiVolume::from_raw_fields(
        [3, 2, 2, 2, 0, 0, 0, 0],
        NiftiType::Uint8,
        1.0,
        0.0,
        vec![0; 8],
        Endianness::Little,
    )
    .unwrap();
    assert!(try_nifi_to_rgba(bytes, "v.gz".to_string()).is_none());
}

#[test]
fn a_plane_alone_is_no_volume() {
    let plane = InMemNiftiVolume::from_raw_fields(
        [2, 2, 2, 0, 0, 0, 0, 0],
        NiftiType::Uint16,
        1.0,
        0.0,
        vec![0; 8],
        Endianness::Little,
    )
    .unwrap();
    assert!(try_nifi_to_rgba(plane, "v.gz".to_string()).is_none());
}

#[test]
fn a_fitting_volume_is_decoded() {
    let slices = try_nifi_to_rgba(volume(1, 1, 3, &[5, 6, 7]), "v.gz".to_string()).unwrap();
    assert_eq!(slices.len(), 3);
    assert_eq!(slices[2].rgba_vec(), &vec![72, 72, 72, 255]);
}

#[test]
fn decodable_buffers() {
    assert!(is_decodable(&[1, 1, 1], &[0, 0]));
    assert!(is_decodable(&[2, 3, 4], &[0; 48]));
    assert!(is_decodable(&[2, 3, 4], &[0; 50]));
    assert!(is_decodable(&[2, 3, 4, 9], &[0; 48]));
    assert!(!is_decodable(&[2, 3, 4], &[0; 46]));
    assert!(!is_decodable(&[2, 3, 4], &[0; 49]));
    assert!(!is_decodable(&[2, 3], &[0; 48]));
    assert!(!is_decodable(&[], &[]));
    assert!(is_decodable(&[0, 3, 4], &[]));
    assert!(!is_decodable(&[65535, 65535, 65535], &[0; 16]));
}

#[test]
fn slices_of_plain_values() {
    let name = "plain".to_string();
    let slices = volume_slices(&[1, 1, 2], &[10, 0, 20, 0], &name);
    assert_eq!(slices.len(), 2);
    assert_eq!(slices[0].rgba_vec(), &vec![0, 0, 0, 255]);
    assert_eq!(slices[1].rgba_vec(), &vec![127, 127, 127, 255]);
    assert_eq!(slices[1].location(), Some(1.0f32.to_bits()));
    assert_eq!(slices[1].file_name(), "plain");
}

#[test]
fn bytes_beyond_the_slices_widen_the_window_only() {
    let name = "plain".to_string();
    // one slice of one sample, followed by a sample that no slice shows
    let slices = volume_slices(&[1, 1, 1], &[10, 0, 40, 0], &name);
    assert_eq!(slices.len(), 1);
    assert_eq!(slices[0].rgba_vec(), &vec![0, 0, 0, 255]);
    let slices = volume_slices(&[1, 1, 1], &[40, 0, 10, 0], &name);
    // (40 - 10) * 255 / 40 = 191.25
    assert_eq!(slices[0].rgba_vec(), &vec![191, 191, 191, 255]);
}

#[test]
fn a_volume_without_extent_gives_empty_slices() {
    let name = "plain".to_string();
    let slices = volume_slices(&[0, 7, 3], &[], &name);
    assert_eq!(slices.len(), 3);
    for slice in &slices {
        assert_eq!(slice.height(), 0);
        assert_eq!(slice.width(), 7);
        assert!(slice.rgba_vec().is_empty());
    }
}
