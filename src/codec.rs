//! The packed coordinate layout.
//!
//! A position (radius, latitude, longitude) packs into 192 bits, held as a
//! pair `(high, low)`:
//!
//! ```text
//! high = [ radius : 64 ][ latitude + 90_000_000  : 64 ]
//! low  =                [ longitude + 180_000_000 : 64 ]
//! ```
//!
//! The biased fields are taken modulo 2^64, so every signed code has exactly
//! one packed form; for latitudes and longitudes in their valid ranges the
//! bias keeps the packed integer in the same order as the coordinates.
use vstd::prelude::*;

verus! {

/// Added to a latitude code before it is packed.
pub const LAT_BIAS: u64 = 90_000_000;

/// Added to a longitude code before it is packed.
pub const LON_BIAS: u64 = 180_000_000;

/// 2^64, the weight of the high word's lower half in the packed integer.
pub const WORD: u128 = 0x1_0000_0000_0000_0000;

/// 2^63, the offset between the signed and unsigned 64-bit ranges.
pub const HALF_WORD: i128 = 0x8000_0000_0000_0000;

/// The packed form of a signed code: `code + bias`, modulo 2^64.
pub open spec fn biased(code: int, bias: int) -> int {
    (code + bias) % (WORD as int)
}

/// The signed code of a packed field: `enc - bias`, modulo 2^64, read as a
/// two's-complement 64-bit number.
pub open spec fn unbiased(enc: int, bias: int) -> int {
    let x = (enc - bias) % (WORD as int);
    if x >= HALF_WORD {
        x - WORD as int
    } else {
        x
    }
}

/// The value of a 192-bit packed pair as one integer.
pub open spec fn packed_value(p: (u128, u64)) -> nat {
    (p.0 as nat) * (WORD as nat) + p.1 as nat
}

/// The packed form of a position.
pub open spec fn pack(r_um: u64, lat: i64, lon: i64) -> (u128, u64) {
    (
        (r_um as int * WORD as int + biased(lat as int, LAT_BIAS as int)) as u128,
        biased(lon as int, LON_BIAS as int) as u64,
    )
}

/// The position that a packed pair holds.
pub open spec fn unpack(p: (u128, u64)) -> (u64, i64, i64) {
    (
        (p.0 as int / WORD as int) as u64,
        unbiased(p.0 as int % WORD as int, LAT_BIAS as int) as i64,
        unbiased(p.1 as int, LON_BIAS as int) as i64,
    )
}

/// The biased packing of one signed code.
pub fn bias_code(code: i64, bias: u64) -> (r: u64)
    requires
        bias < HALF_WORD,
    ensures
        r as int == biased(code as int, bias as int),
{
    let x: i128 = code as i128 + bias as i128;
    if x < 0 {
        (x + WORD as i128) as u64
    } else {
        x as u64
    }
}

/// The signed code held by one biased field.
pub fn unbias_code(enc: u64, bias: u64) -> (r: i64)
    requires
        bias < HALF_WORD,
    ensures
        r as int == unbiased(enc as int, bias as int),
{
    let x: i128 = enc as i128 - bias as i128;
    let y: i128 = if x < 0 {
        x + WORD as i128
    } else {
        x
    };
    if y >= HALF_WORD {
        (y - WORD as i128) as i64
    } else {
        y as i64
    }
}

/// Unpacking a biased code gives the code back, for every signed code.
pub proof fn lemma_unbias_bias(code: i64, bias: int)
    requires
        0 <= bias < HALF_WORD,
    ensures
        0 <= biased(code as int, bias) < WORD,
        unbiased(biased(code as int, bias), bias) == code as int,
{
}

/// Packs a position into its 192-bit form `(high, low)`.
pub fn encode_uvoxid(r_um: u64, lat_microdeg: i64, lon_microdeg: i64) -> (r: (u128, u64))
    ensures
        r == pack(r_um, lat_microdeg, lon_microdeg),
{
    let lat_enc = bias_code(lat_microdeg, LAT_BIAS);
    let lon_enc = bias_code(lon_microdeg, LON_BIAS);
    proof {
        lemma_unbias_bias(lat_microdeg, LAT_BIAS as int);
    }
    assert(r_um as int * WORD as int + lat_enc as int <= u128::MAX) by (nonlinear_arith)
        requires
            r_um <= u64::MAX,
            lat_enc <= u64::MAX,
            WORD == 0x1_0000_0000_0000_0000u128,
    ;
    ((r_um as u128) * WORD + lat_enc as u128, lon_enc)
}

/// Unpacks a 192-bit form into `(radius, latitude, longitude)`.
pub fn decode_uvoxid(uvoxid: &(u128, u64)) -> (r: (u64, i64, i64))
    ensures
        r == unpack(*uvoxid),
{
    let high = uvoxid.0;
    let r_um = (high / WORD) as u64;
    let lat_enc = (high % WORD) as u64;
    let lat = unbias_code(lat_enc, LAT_BIAS);
    let lon = unbias_code(uvoxid.1, LON_BIAS);
    (r_um, lat, lon)
}

/// Unpacking the packed form of a position gives the position back, for every
/// radius and every pair of signed codes (in particular for every latitude in
/// [-90_000_000, 90_000_000] and every longitude in [-180_000_000, 180_000_000)).
pub proof fn lemma_decode_encode(r_um: u64, lat: i64, lon: i64)
    ensures
        unpack(pack(r_um, lat, lon)) == (r_um, lat, lon),
{
    lemma_unbias_bias(lat, LAT_BIAS as int);
    lemma_unbias_bias(lon, LON_BIAS as int);
    let b = biased(lat as int, LAT_BIAS as int);
    let h = r_um as int * WORD as int + b;
    assert(h <= u128::MAX) by (nonlinear_arith)
        requires
            0 <= r_um <= u64::MAX,
            0 <= b < WORD,
            WORD == 0x1_0000_0000_0000_0000u128,
            h == r_um * WORD + b,
    ;
    vstd::arithmetic::div_mod::lemma_fundamental_div_mod_converse(h, WORD as int, r_um as int, b);
}

} // verus!
