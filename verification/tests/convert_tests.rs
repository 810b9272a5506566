use poc1to2::convert::{convert_copy, convert_image, read_block, swap_second_halves, write_block};
use poc1to2::geometry::NONCE_SIZE;
use poc1to2::plot::Plot;

fn synthetic_plot(nonces: usize) -> Vec<u8> {
    let len = nonces * NONCE_SIZE as usize;
    let mut data = Vec::with_capacity(len);
    for i in 0..len {
        data.push(((i % 256) ^ ((i / 256) % 256) ^ ((i / 65536) % 256)) as u8);
    }
    data
}

#[test]
fn round_trip_restores_original() {
    let original = synthetic_plot(2);
    let mut data = original.clone();
    convert_image(&mut data, 2);
    assert_ne!(data, original);
    convert_image(&mut data, 2);
    assert_eq!(data, original);
}

#[test]
fn conversion_is_deterministic() {
    let original = synthetic_plot(1);
    let mut once = original.clone();
    let mut again = original.clone();
    convert_image(&mut once, 1);
    convert_image(&mut again, 1);
    assert_eq!(once, again);
}

#[test]
fn moves_exactly_the_second_hash_halves() {
    // two nonces: block size 128, file size 524288, mirrored block of scoop
    // s starts at (4095 - s) * 128
    let original = synthetic_plot(2);
    let mut data = original.clone();
    convert_image(&mut data, 2);
    // first hash halves stay in place
    assert_eq!(data[0], original[0]);
    assert_eq!(data[64], original[64]);
    assert_eq!(data[200], original[200]);
    // second hash halves trade places with the mirrored block
    assert_eq!(data[32], original[4095 * 128 + 32]);
    assert_eq!(data[4095 * 128 + 32], original[32]);
    assert_eq!(data[100], original[4095 * 128 + 100]);
    assert_eq!(data[230], original[4094 * 128 + 102]);
    assert_eq!(data[524287], original[127]);
}

#[test]
fn copy_mode_never_mutates_the_source() {
    let original = synthetic_plot(2);
    let source = original.clone();
    let converted = convert_copy(&source, 2);
    assert_eq!(source, original);
    let mut in_place = original.clone();
    convert_image(&mut in_place, 2);
    assert_eq!(converted, in_place);
}

#[test]
fn conversion_keeps_the_size() {
    let mut data = synthetic_plot(3);
    let len = data.len();
    convert_image(&mut data, 3);
    assert_eq!(data.len(), len);
    let copied = convert_copy(&data, 3);
    assert_eq!(copied.len(), len);
}

#[test]
fn empty_plot_stays_empty() {
    let mut data: Vec<u8> = Vec::new();
    convert_image(&mut data, 0);
    assert!(data.is_empty());
}

#[test]
fn descriptor_convert_matches_image_convert() {
    let plot = Plot::new("1_0_2_2", 2 * NONCE_SIZE).unwrap();
    let original = synthetic_plot(2);
    let mut via_plot = original.clone();
    plot.convert(&mut via_plot);
    let mut via_image = original.clone();
    convert_image(&mut via_image, 2);
    assert_eq!(via_plot, via_image);
}

#[test]
fn swap_exchanges_only_second_halves() {
    let a0: Vec<u8> = (0..128).map(|i| i as u8).collect();
    let b0: Vec<u8> = (0..128).map(|i| (200 - i) as u8).collect();
    let mut a = a0.clone();
    let mut b = b0.clone();
    swap_second_halves(&mut a, &mut b);
    for j in 0..128 {
        if j % 64 >= 32 {
            assert_eq!(a[j], b0[j]);
            assert_eq!(b[j], a0[j]);
        } else {
            assert_eq!(a[j], a0[j]);
            assert_eq!(b[j], b0[j]);
        }
    }
}

#[test]
fn block_reads_and_writes_window_exactly() {
    let data: Vec<u8> = (0..100).map(|i| i as u8).collect();
    let block = read_block(&data, 10, 5);
    assert_eq!(block, vec![10, 11, 12, 13, 14]);
    let mut target: Vec<u8> = vec![0; 20];
    write_block(&mut target, 3, &block);
    assert_eq!(target[2], 0);
    assert_eq!(&target[3..8], &[10, 11, 12, 13, 14]);
    assert_eq!(target[8], 0);
}
