use uvoxid::tolerance::{ToleranceError, MAX_SIG_CHARS};
use uvoxid::{encode_uvoxid, equal_within_tolerance, snap_to_tolerance, truncate_to_tolerance};

#[test]
fn test_truncate_and_equal() {
    let r = 6_371_000_000_000u64;
    let a = encode_uvoxid(r, (25.76 * 1e6) as i64, (-80.19 * 1e6) as i64);
    let b = encode_uvoxid(r, (25.7601 * 1e6) as i64, (-80.1901 * 1e6) as i64);

    assert!(!equal_within_tolerance(&a, &b, 38).unwrap()); // strict, they differ
    assert!(equal_within_tolerance(&a, &b, 5).unwrap()); // coarse, they match
}

#[test]
fn test_snap() {
    let r = 6_371_000_000_000u64;
    let uv = encode_uvoxid(r, (25.76 * 1e6) as i64, (-80.19 * 1e6) as i64);

    let snapped = snap_to_tolerance(&uv, 8).unwrap();
    assert!(snapped.starts_with("uvoxid:"));
    assert_eq!(snapped.len(), "uvoxid:".len() + 48); // 48 hex chars
}

#[test]
fn truncate_keeps_high_bits() {
    let p = (u128::MAX, u64::MAX);
    // 38 units keep 190 bits: the two lowest bits go.
    assert_eq!(truncate_to_tolerance(&p, 38).unwrap(), (u128::MAX, u64::MAX - 3));
    // 12 units keep 60 bits of the high word's 128.
    assert_eq!(truncate_to_tolerance(&p, 12).unwrap(), (u128::MAX << 68, 0));
    // 25 units keep 125 bits: all of the high word but its 3 lowest.
    assert_eq!(truncate_to_tolerance(&p, 25).unwrap(), (u128::MAX << 3, 0));
    // 26 units keep 130 bits: the high word and the low word's top 2.
    assert_eq!(truncate_to_tolerance(&p, 26).unwrap(), (u128::MAX, 3u64 << 62));
    assert_eq!(truncate_to_tolerance(&p, 0).unwrap(), (0, 0));
}

#[test]
fn precision_out_of_range_is_an_error() {
    let p = (1u128, 1u64);
    let err = ToleranceError::PrecisionOutOfRange { requested: 39, max: MAX_SIG_CHARS };
    assert_eq!(truncate_to_tolerance(&p, 39), Err(err));
    assert_eq!(equal_within_tolerance(&p, &p, 39), Err(err));
    assert_eq!(snap_to_tolerance(&p, 39), Err(err));
    assert!(truncate_to_tolerance(&p, MAX_SIG_CHARS).is_ok());
}

#[test]
fn snap_renders_truncated_value() {
    let p = ((0x0123_4567_89ab_cdefu128 << 64) | 0xfedc_ba98_7654_3210u128, 0xffff_ffff_ffff_ffffu64);
    assert_eq!(
        snap_to_tolerance(&p, 38).unwrap(),
        "uvoxid:0123456789abcdeffedcba9876543210fffffffffffffffc"
    );
    assert_eq!(
        snap_to_tolerance(&p, 4).unwrap(),
        format!("uvoxid:01234{}", "0".repeat(43))
    );
}

#[test]
fn coarser_precision_matches_more() {
    let a = encode_uvoxid(1_000, 10, 20);
    let b = encode_uvoxid(1_000, 10, 24);
    let mut matched = false;
    for n in (0..=MAX_SIG_CHARS).rev() {
        let eq = equal_within_tolerance(&a, &b, n).unwrap();
        if matched {
            assert!(eq, "a match at a finer precision must hold at {}", n);
        }
        matched = matched || eq;
    }
    assert!(matched);
    assert!(!equal_within_tolerance(&a, &b, MAX_SIG_CHARS).unwrap());
}
