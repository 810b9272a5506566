use poc1to2::geometry::{NONCE_SIZE, SCOOP_PAIRS, SCOOP_SIZE};
use poc1to2::plot::{io_mode, IoMode, Plot, PlotError, PlotName};

#[test]
fn io_mode_follows_output_dir() {
    assert_eq!(io_mode(false), IoMode::InPlace);
    assert_eq!(io_mode(true), IoMode::CopyOnWrite);
}

#[test]
fn accepts_matching_size() {
    let plot = Plot::new("11253871103436815155_0_10_10", 10 * NONCE_SIZE).unwrap();
    assert_eq!(plot.id, 11253871103436815155);
    assert_eq!(plot.offset, 0);
    assert_eq!(plot.nonces, 10);
    assert_eq!(plot.size, 2621440);
}

#[test]
fn renders_poc2_name_without_stagger() {
    let plot = Plot::new("11253871103436815155_0_10_10", 2621440).unwrap();
    assert_eq!(plot.poc2_name(), "11253871103436815155_0_10");
}

#[test]
fn rejects_unsupported_stagger() {
    assert_eq!(Plot::new("1_0_10_5", 10 * NONCE_SIZE), Err(PlotError::NotOptimized));
}

#[test]
fn rejects_size_mismatch() {
    assert_eq!(Plot::new("1_0_10_10", 10 * NONCE_SIZE - 1), Err(PlotError::SizeMismatch));
    assert_eq!(Plot::new("1_0_10_10", 10 * NONCE_SIZE + 1), Err(PlotError::SizeMismatch));
    assert_eq!(Plot::new("1_0_10_10", 0), Err(PlotError::SizeMismatch));
}

#[test]
fn rejects_negative_nonce_count() {
    assert_eq!(Plot::new("1_0_-10_-10", 0), Err(PlotError::SizeMismatch));
}

#[test]
fn rejects_nonce_count_whose_size_overflows() {
    // 2^46 nonces would imply a size of 2^64 bytes, more than any u64 size
    assert_eq!(Plot::new("1_0_70368744177664_70368744177664", u64::MAX), Err(PlotError::SizeMismatch));
}

#[test]
fn accepts_empty_plot() {
    let plot = Plot::new("7_0_0_0", 0).unwrap();
    assert_eq!(plot.nonces, 0);
    assert_eq!(plot.poc2_name(), "7_0_0");
}

#[test]
fn from_name_matches_parse_then_validate() {
    let pn = PlotName::parse("11253871103436815155_0_10_10").unwrap();
    let plot = Plot::from_name(pn, 2621440).unwrap();
    assert_eq!(plot.id, pn.id);
    assert_eq!(plot.offset, pn.offset);
    assert_eq!(plot.nonces, pn.nonces);
}

#[test]
fn pair_count_is_constant_and_covers_file() {
    // 2048 scoop pairs whatever the nonce count; two blocks per pair, read
    // once and written once, is one full pass over the file
    assert_eq!(SCOOP_PAIRS, 2048);
    for nonces in [1u64, 10, 1000] {
        let name = format!("1_0_{}_{}", nonces, nonces);
        let plot = Plot::new(&name, nonces * NONCE_SIZE).unwrap();
        assert_eq!(2 * SCOOP_PAIRS * plot.block_size(), plot.size);
    }
}

#[test]
fn block_addressing_covers_the_file() {
    let plot = Plot::new("1_0_10_10", 10 * NONCE_SIZE).unwrap();
    let bs = plot.block_size();
    assert_eq!(bs, 10 * SCOOP_SIZE);
    assert_eq!(plot.forward_offset(0), 0);
    assert_eq!(plot.mirror_offset(0), plot.size - bs);
    assert_eq!(plot.forward_offset(SCOOP_PAIRS - 1), 2047 * bs);
    // the last forward block and the last mirrored block are adjacent at the
    // middle of the file
    assert_eq!(plot.mirror_offset(SCOOP_PAIRS - 1), 2048 * bs);
}
