use uvoxid::address::FrameMismatch;
use uvoxid::{Delta, UvoxId};

#[test]
fn concrete_move() {
    let a = UvoxId::new(0, 1_000_000, 0, 0) + Delta::new(100, 50, -50);
    assert_eq!(a, UvoxId::new(0, 1_000_100, 50, -50));
}

#[test]
fn add_assign_moves_in_place() {
    let mut a = UvoxId::earth(10, 0, 0);
    a += Delta::new(5, -5, 5);
    assert_eq!(a, UvoxId::new(0, 15, -5, 5));
}

#[test]
fn north_pole_reflection_exact() {
    let a = UvoxId::new(3, 0, 89_999_990, 0) + Delta::new(0, 20, 0);
    assert_eq!(a, UvoxId::new(3, 0, 89_999_990, -180_000_000));
}

#[test]
fn south_pole_reflection_exact() {
    let a = UvoxId::new(0, 0, -89_999_990, 10) + Delta::new(0, -20, 0);
    assert_eq!(a, UvoxId::new(0, 0, -89_999_990, -179_999_990));
}

#[test]
fn two_crossings_keep_longitude() {
    // 450° north: over the north pole and then over the south pole.
    let a = UvoxId::new(0, 0, 0, 1_000) + Delta::new(0, 450_000_000, 0);
    assert_eq!(a.lat_code, 90_000_000);
    assert_eq!(a.lon_code, 1_000);
    // 200° north: one crossing.
    let b = UvoxId::new(0, 0, 0, 1_000) + Delta::new(0, 200_000_000, 0);
    assert_eq!(b.lat_code, -20_000_000);
    assert_eq!(b.lon_code, -179_999_000);
    // 270° south lands on the north pole after one crossing.
    let c = UvoxId::new(0, 0, 0, 0) + Delta::new(0, -270_000_000, 0);
    assert_eq!((c.lat_code, c.lon_code), (90_000_000, -180_000_000));
    // 270° north lands on the south pole after one crossing.
    let d = UvoxId::new(0, 0, 0, 0) + Delta::new(0, 270_000_000, 0);
    assert_eq!((d.lat_code, d.lon_code), (-90_000_000, -180_000_000));
}

#[test]
fn huge_deltas_do_not_overflow() {
    let a = UvoxId::new(9, u64::MAX, i64::MAX, i64::MIN)
        + Delta::new(i128::MAX, i128::MAX, i128::MIN);
    assert_eq!(a.frame_id, 9);
    assert_eq!(a.r_um, u64::MAX);
    assert!(-90_000_000 <= a.lat_code && a.lat_code <= 90_000_000);
    assert!(-180_000_000 <= a.lon_code && a.lon_code < 180_000_000);
    let b = UvoxId::new(0, 5, i64::MIN, 0) + Delta::new(i128::MIN, i128::MIN, 0);
    assert_eq!(b.r_um, 0);
    assert!(-90_000_000 <= b.lat_code && b.lat_code <= 90_000_000);
}

#[test]
fn longitude_wraps_at_antimeridian() {
    let a = UvoxId::new(0, 0, 0, 179_999_999) + Delta::new(0, 0, 1);
    assert_eq!(a.lon_code, -180_000_000);
    let b = UvoxId::new(0, 0, 0, -180_000_000) + Delta::new(0, 0, -1);
    assert_eq!(b.lon_code, 179_999_999);
    let c = UvoxId::new(0, 0, 0, 0) + Delta::new(0, 0, 720_000_000 + 5);
    assert_eq!(c.lon_code, 5);
}

#[test]
fn radius_floor_is_zero() {
    let a = UvoxId::new(0, 100, 0, 0) + Delta::new(-101, 0, 0);
    assert_eq!(a.r_um, 0);
    let b = UvoxId::new(0, 100, 0, 0) + Delta::new(-100, 0, 0);
    assert_eq!(b.r_um, 0);
    let c = UvoxId::new(0, u64::MAX - 1, 0, 0) + Delta::new(5, 0, 0);
    assert_eq!(c.r_um, u64::MAX);
}

#[test]
fn additive_without_wrap() {
    let a = UvoxId::new(1, 1_000, 10_000_000, 170_000_000);
    let d1 = Delta::new(10, 5_000_000, 5_000_000);
    let d2 = Delta::new(-20, -30_000_000, 20_000_000);
    let sum = Delta::new(d1.dr_um + d2.dr_um, d1.dlat + d2.dlat, d1.dlon + d2.dlon);
    assert_eq!((a + d1) + d2, a + sum);
}

#[test]
fn not_additive_across_a_pole() {
    let a = UvoxId::new(0, 0, 80_000_000, 0);
    let d1 = Delta::new(0, 20_000_000, 0);
    let d2 = Delta::new(0, -20_000_000, 0);
    let sum = Delta::new(0, 0, 0);
    // Over the pole and back south: the latitude drops to 60° on the far
    // meridian.
    assert_eq!((a + d1) + d2, UvoxId::new(0, 0, 60_000_000, -180_000_000));
    assert_eq!(a + sum, a);
    assert_ne!((a + d1) + d2, a + sum);
}

#[test]
fn subtraction_needs_one_frame() {
    let a = UvoxId::new(1, 0, 0, 0);
    let b = UvoxId::new(2, 0, 0, 0);
    assert_eq!(a - b, Err(FrameMismatch::DifferentFrames { left: 1, right: 2 }));
}

#[test]
fn scale_multiplies_components() {
    assert_eq!(Delta::new(1, -2, 3).scale(4), Delta::new(4, -8, 12));
    assert_eq!(Delta::new(1, -2, 3).scale(0), Delta::new(0, 0, 0));
}

#[test]
fn wrapping_adds_wrap() {
    let mut a = UvoxId::new(0, 0, i64::MAX, i64::MIN);
    a.wrapping_add_lat(1);
    a.wrapping_add_lon(-1);
    assert_eq!(a, UvoxId::new(0, 0, i64::MIN, i64::MAX));
    a.wrapping_add_lat(5);
    assert_eq!(a.lat_code, i64::MIN + 5);
}

#[test]
fn earth_is_frame_zero() {
    assert_eq!(UvoxId::earth(1, 2, 3), UvoxId::new(0, 1, 2, 3));
}

#[test]
fn hex_text_is_exact() {
    let a = UvoxId::new(1, 2, 0, 0);
    assert_eq!(
        a.to_hex(),
        "0000000000000001000000000000000200000000055d4a80000000000aba9500"
    );
    let b = UvoxId::new(0, 0, -1, -180_000_000);
    assert_eq!(&b.to_hex()[32..], "00000000055d4a7f0000000000000000");
}

#[test]
fn hex_parse_failures() {
    let good = UvoxId::new(7, 8, -9, 10).to_hex();
    assert_eq!(UvoxId::from_hex(&good), Some(UvoxId::new(7, 8, -9, 10)));
    assert_eq!(UvoxId::from_hex(&good.to_uppercase()), Some(UvoxId::new(7, 8, -9, 10)));
    assert_eq!(UvoxId::from_hex(&good[..63]), None);
    assert_eq!(UvoxId::from_hex(&format!("{}0", good)), None);
    assert_eq!(UvoxId::from_hex(""), None);
    let mut bad = good.clone();
    bad.replace_range(40..41, "g");
    assert_eq!(UvoxId::from_hex(&bad), None);
    let mut plus = good.clone();
    plus.replace_range(16..17, "+");
    assert_eq!(UvoxId::from_hex(&plus), None);
    let mut wide = good.clone();
    wide.replace_range(0..2, "é");
    assert_eq!(UvoxId::from_hex(&wide), None);
}

#[test]
fn hex_round_trip_extremes() {
    for a in [
        UvoxId::new(u64::MAX, u64::MAX, i64::MAX, i64::MIN),
        UvoxId::new(0, 0, 0, 0),
        UvoxId::new(5, 6, -90_000_000, 179_999_999),
    ] {
        let h = a.to_hex();
        assert_eq!(h.len(), 64);
        assert_eq!(UvoxId::from_hex(&h), Some(a));
    }
}

#[test]
fn packed_round_trip_keeps_frame() {
    let a = UvoxId::new(77, 123, -4_000_000, 5_000_000);
    let (high, low) = a.to_packed();
    assert_eq!(high, (123u128 << 64) | 86_000_000u128);
    assert_eq!(low, 185_000_000);
    assert_eq!(UvoxId::from_packed(77, high, low), a);
}
