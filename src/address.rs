//! The address type and the arithmetic that moves an address by a delta.
use vstd::prelude::*;
use vstd::arithmetic::div_mod::{
    lemma_add_mod_noop,
    lemma_fundamental_div_mod,
    lemma_mod_multiples_vanish,
};
use crate::codec::{
    bias_code,
    biased,
    decode_uvoxid,
    encode_uvoxid,
    lemma_unbias_bias,
    pack,
    unbiased,
    unpack,
    HALF_WORD,
    LAT_BIAS,
    LON_BIAS,
    WORD,
};
use crate::delta::Delta;
use crate::hex::{
    all_hex,
    hex16,
    hex_chars,
    hex_value,
    lemma_hex_chars,
    lemma_pow16_word,
    parse_hex_word,
};

verus! {

/// Latitude code of the north pole.
pub const LAT_LIMIT: i128 = 90_000_000;

/// Half a turn of longitude, in millionths of a degree.
pub const HALF_TURN: i128 = 180_000_000;

/// A full turn of longitude, in millionths of a degree.
pub const FULL_TURN: i128 = 360_000_000;

/// A spatial address: a reference frame, a radius and a latitude/longitude
/// pair.
///
/// `frame_id` names the body the radius is measured from (0 is the primary
/// body), `r_um` is in micrometres, and the codes are in millionths of a
/// degree. Any four values form an address; moving one by a delta brings its
/// latitude into [-90_000_000, 90_000_000] and its longitude into
/// [-180_000_000, 180_000_000).
#[derive(Debug, Clone, Copy, PartialEq, Eq, Hash, Structural)]
pub struct UvoxId {
    pub frame_id: u64,
    pub r_um: u64,
    pub lat_code: i64,
    pub lon_code: i64,
}

/// The absolute value of an integer.
pub open spec fn abs(x: int) -> int {
    if x >= 0 {
        x
    } else {
        -x
    }
}

/// Pole crossing: while the latitude lies beyond a pole, reflect it about
/// that pole and turn the longitude by half a turn.
pub open spec fn pole_wrap(lat: int, lon: int) -> (int, int)
    decreases abs(lat),
{
    if lat > LAT_LIMIT {
        pole_wrap(HALF_TURN - lat, lon + HALF_TURN)
    } else if lat < -LAT_LIMIT {
        pole_wrap(-HALF_TURN - lat, lon + HALF_TURN)
    } else {
        (lat, lon)
    }
}

/// A longitude brought into [-180_000_000, 180_000_000) by a Euclidean
/// remainder.
pub open spec fn norm_lon(lon: int) -> int {
    (lon + HALF_TURN) % (FULL_TURN as int) - HALF_TURN
}

/// A radius held in the range of `u64`: negative results become 0, results
/// past the top become `u64::MAX`.
pub open spec fn clamp_radius(r: int) -> int {
    if r < 0 {
        0
    } else if r > u64::MAX {
        u64::MAX as int
    } else {
        r
    }
}

/// The address that `a` moves to under `d`: the frame is kept, the radius
/// clamped, the latitude wrapped across the poles and the longitude
/// normalized.
pub open spec fn moved(a: UvoxId, d: Delta) -> UvoxId {
    let w = pole_wrap(a.lat_code + d.dlat, a.lon_code + d.dlon);
    UvoxId {
        frame_id: a.frame_id,
        r_um: clamp_radius(a.r_um + d.dr_um) as u64,
        lat_code: w.0 as i64,
        lon_code: norm_lon(w.1) as i64,
    }
}

/// Pole crossing turns the longitude by a sum independent of the longitude.
pub proof fn lemma_pole_wrap_shift(lat: int, lon: int)
    ensures
        pole_wrap(lat, lon) == (pole_wrap(lat, 0).0, pole_wrap(lat, 0).1 + lon),
    decreases abs(lat),
{
    if lat > LAT_LIMIT {
        lemma_pole_wrap_shift(HALF_TURN - lat, lon + HALF_TURN);
        lemma_pole_wrap_shift(HALF_TURN - lat, HALF_TURN as int);
    } else if lat < -LAT_LIMIT {
        lemma_pole_wrap_shift(-HALF_TURN - lat, lon + HALF_TURN);
        lemma_pole_wrap_shift(-HALF_TURN - lat, HALF_TURN as int);
    }
}

/// A pole-wrapped latitude lies between the poles.
pub proof fn lemma_pole_wrap_range(lat: int, lon: int)
    ensures
        -LAT_LIMIT <= pole_wrap(lat, lon).0 <= LAT_LIMIT,
    decreases abs(lat),
{
    if lat > LAT_LIMIT {
        lemma_pole_wrap_range(HALF_TURN - lat, lon + HALF_TURN);
    } else if lat < -LAT_LIMIT {
        lemma_pole_wrap_range(-HALF_TURN - lat, lon + HALF_TURN);
    }
}

/// Going `j` full turns north of a latitude above the south pole crosses a
/// pole `2 j` times.
proof fn lemma_pole_wrap_turns_north(r: int, j: nat, lon: int)
    requires
        r > -LAT_LIMIT,
    ensures
        pole_wrap(r + FULL_TURN * j, lon) == pole_wrap(r, lon + FULL_TURN * j),
    decreases j,
{
    if j > 0 {
        let t = r + FULL_TURN * j;
        assert(t > 3 * LAT_LIMIT);
        assert(pole_wrap(t, lon) == pole_wrap(HALF_TURN - t, lon + HALF_TURN));
        assert(pole_wrap(HALF_TURN - t, lon + HALF_TURN) == pole_wrap(
            t - FULL_TURN,
            lon + FULL_TURN,
        ));
        lemma_pole_wrap_turns_north(r, (j - 1) as nat, lon + FULL_TURN);
        assert(r + FULL_TURN * (j - 1) == t - FULL_TURN);
        assert(lon + FULL_TURN + FULL_TURN * (j - 1) == lon + FULL_TURN * j);
    }
}

/// Going `j` full turns south of a latitude below the north pole crosses a
/// pole `2 j` times.
proof fn lemma_pole_wrap_turns_south(r: int, j: nat, lon: int)
    requires
        r < LAT_LIMIT,
    ensures
        pole_wrap(r - FULL_TURN * j, lon) == pole_wrap(r, lon + FULL_TURN * j),
    decreases j,
{
    if j > 0 {
        let t = r - FULL_TURN * j;
        assert(t < -3 * LAT_LIMIT);
        assert(pole_wrap(t, lon) == pole_wrap(-HALF_TURN - t, lon + HALF_TURN));
        assert(pole_wrap(-HALF_TURN - t, lon + HALF_TURN) == pole_wrap(
            t + FULL_TURN,
            lon + FULL_TURN,
        ));
        lemma_pole_wrap_turns_south(r, (j - 1) as nat, lon + FULL_TURN);
        assert(r - FULL_TURN * (j - 1) == t + FULL_TURN);
        assert(lon + FULL_TURN + FULL_TURN * (j - 1) == lon + FULL_TURN * j);
    }
}

/// The Euclidean remainder of `x` by a full turn.
fn rem_turn(x: i128) -> (r: i128)
    ensures
        r == x % FULL_TURN,
        0 <= r < FULL_TURN,
{
    match x.checked_rem_euclid(FULL_TURN) {
        Some(v) => v,
        None => 0,
    }
}

/// Wraps `lat + dlat` across the poles. Returns the wrapped latitude and
/// whether the number of pole crossings is odd.
fn wrap_latitude(lat: i64, dlat: i128) -> (r: (i64, bool))
    ensures
        r.0 == pole_wrap(lat + dlat, 0).0,
        pole_wrap(lat + dlat, 0).1 % (FULL_TURN as int) == (if r.1 {
            HALF_TURN
        } else {
            0
        }),
{
    let lat0 = lat as i128;
    let ghost t: int = lat + dlat;
    if dlat <= LAT_LIMIT - lat0 && dlat >= -LAT_LIMIT - lat0 {
        return ((lat0 + dlat) as i64, false);
    }
    let a = rem_turn(lat0 + LAT_LIMIT);
    let b = rem_turn(dlat);
    let e: i128 = if a + b >= FULL_TURN {
        a + b - FULL_TURN
    } else {
        a + b
    };
    proof {
        lemma_add_mod_noop(lat0 + LAT_LIMIT, dlat as int, FULL_TURN as int);
        lemma_fundamental_div_mod(t + LAT_LIMIT, FULL_TURN as int);
    }
    assert(e == (t + LAT_LIMIT) % (FULL_TURN as int));
    let ghost q: int = (t + LAT_LIMIT) / (FULL_TURN as int);
    assert(t + LAT_LIMIT == FULL_TURN * q + e);
    if dlat > LAT_LIMIT - lat0 {
        // north of the north pole: reduce into (-90e6, 270e6]
        let r: i128 = if e == 0 {
            3 * LAT_LIMIT
        } else {
            e - LAT_LIMIT
        };
        let ghost j: int = if e == 0 {
            q - 1
        } else {
            q
        };
        assert(t == r + FULL_TURN * j);
        assert(j >= 0);
        proof {
            lemma_pole_wrap_turns_north(r as int, j as nat, 0);
            lemma_mod_multiples_vanish(j, HALF_TURN as int, FULL_TURN as int);
            lemma_mod_multiples_vanish(j, 0, FULL_TURN as int);
        }
        if r > LAT_LIMIT {
            assert(pole_wrap(r as int, FULL_TURN * j) == pole_wrap(
                HALF_TURN - r,
                FULL_TURN * j + HALF_TURN,
            ));
            ((HALF_TURN - r) as i64, true)
        } else {
            (r as i64, false)
        }
    } else {
        // south of the south pole: reduce into [-270e6, 90e6)
        let e2: i128 = if e >= HALF_TURN {
            e - HALF_TURN
        } else {
            e + HALF_TURN
        };
        let r: i128 = e2 - 3 * LAT_LIMIT;
        let ghost j: int = if e >= HALF_TURN {
            -q - 1
        } else {
            -q
        };
        assert(t == r - FULL_TURN * j);
        assert(j >= 0);
        proof {
            lemma_pole_wrap_turns_south(r as int, j as nat, 0);
            lemma_mod_multiples_vanish(j, HALF_TURN as int, FULL_TURN as int);
            lemma_mod_multiples_vanish(j, 0, FULL_TURN as int);
        }
        if r < -LAT_LIMIT {
            assert(pole_wrap(r as int, FULL_TURN * j) == pole_wrap(
                -HALF_TURN - r,
                FULL_TURN * j + HALF_TURN,
            ));
            ((-HALF_TURN - r) as i64, true)
        } else {
            (r as i64, false)
        }
    }
}

/// Normalizes `lon + dlon + turn` into [-180_000_000, 180_000_000), where
/// `turn` is half a turn when `flip` holds and nothing otherwise.
fn normalize_longitude(lon: i64, dlon: i128, flip: bool) -> (r: i64)
    ensures
        r == norm_lon(lon + dlon + (if flip {
            HALF_TURN
        } else {
            0
        })),
        -HALF_TURN <= r < HALF_TURN,
{
    let turn: i128 = if flip {
        HALF_TURN
    } else {
        0
    };
    let a = rem_turn(lon as i128 + turn + HALF_TURN);
    let b = rem_turn(dlon);
    let e: i128 = if a + b >= FULL_TURN {
        a + b - FULL_TURN
    } else {
        a + b
    };
    proof {
        lemma_add_mod_noop(lon + turn + HALF_TURN, dlon as int, FULL_TURN as int);
    }
    assert(lon + turn + HALF_TURN + dlon == lon + dlon + turn + HALF_TURN);
    (e - HALF_TURN) as i64
}

/// A signed sum taken modulo 2^64 into the range of `i64`.
pub open spec fn wrap_i64(x: int) -> int {
    (x + HALF_WORD) % (WORD as int) - HALF_WORD
}

/// The text form of an address: sixteen lowercase hexadecimal digits for
/// each of the frame, the radius, the biased latitude and the biased
/// longitude, in that order.
pub open spec fn address_text(a: UvoxId) -> Seq<char> {
    hex_chars(a.frame_id as nat, 16) + hex_chars(a.r_um as nat, 16) + hex_chars(
        biased(a.lat_code as int, LAT_BIAS as int) as nat,
        16,
    ) + hex_chars(biased(a.lon_code as int, LON_BIAS as int) as nat, 16)
}

/// A text that reads as an address: 64 hexadecimal digits.
pub open spec fn is_address_text(t: Seq<char>) -> bool {
    t.len() == 64 && all_hex(t)
}

/// The address that a 64-digit text reads as.
pub open spec fn text_address(t: Seq<char>) -> UvoxId {
    UvoxId {
        frame_id: hex_value(t.subrange(0, 16)) as u64,
        r_um: hex_value(t.subrange(16, 32)) as u64,
        lat_code: unbiased(hex_value(t.subrange(32, 48)) as int, LAT_BIAS as int) as i64,
        lon_code: unbiased(hex_value(t.subrange(48, 64)) as int, LON_BIAS as int) as i64,
    }
}

/// Reading the text form of an address gives the address back, and the text
/// form is 64 characters long.
pub proof fn lemma_hex_round_trip(a: UvoxId)
    ensures
        address_text(a).len() == 64,
        is_address_text(address_text(a)),
        text_address(address_text(a)) == a,
{
    let la = biased(a.lat_code as int, LAT_BIAS as int);
    let lo = biased(a.lon_code as int, LON_BIAS as int);
    lemma_unbias_bias(a.lat_code, LAT_BIAS as int);
    lemma_unbias_bias(a.lon_code, LON_BIAS as int);
    lemma_pow16_word();
    let g0 = hex_chars(a.frame_id as nat, 16);
    let g1 = hex_chars(a.r_um as nat, 16);
    let g2 = hex_chars(la as nat, 16);
    let g3 = hex_chars(lo as nat, 16);
    lemma_hex_chars(a.frame_id as nat, 16);
    lemma_hex_chars(a.r_um as nat, 16);
    lemma_hex_chars(la as nat, 16);
    lemma_hex_chars(lo as nat, 16);
    let t = address_text(a);
    assert(t.subrange(0, 16) =~= g0);
    assert(t.subrange(16, 32) =~= g1);
    assert(t.subrange(32, 48) =~= g2);
    assert(t.subrange(48, 64) =~= g3);
    assert forall|i: int| 0 <= i < t.len() implies crate::hex::is_hex_digit(#[trigger] t[i]) by {
        if i < 16 {
            assert(t[i] == g0[i]);
        } else if i < 32 {
            assert(t[i] == g1[i - 16]);
        } else if i < 48 {
            assert(t[i] == g2[i - 32]);
        } else {
            assert(t[i] == g3[i - 48]);
        }
    }
}

impl UvoxId {
    /// Builds an address from its four fields.
    pub fn new(frame_id: u64, r_um: u64, lat_code: i64, lon_code: i64) -> (r: Self)
        ensures
            r == (UvoxId { frame_id, r_um, lat_code, lon_code }),
    {
        UvoxId { frame_id, r_um, lat_code, lon_code }
    }

    /// Builds an address in frame 0, the primary body.
    pub fn earth(r_um: u64, lat_code: i64, lon_code: i64) -> (r: Self)
        ensures
            r == (UvoxId { frame_id: 0, r_um, lat_code, lon_code }),
    {
        Self::new(0, r_um, lat_code, lon_code)
    }

    /// The four fields: `(frame_id, r_um, lat_code, lon_code)`.
    pub fn as_tuple(&self) -> (r: (u64, u64, i64, i64))
        ensures
            r == (self.frame_id, self.r_um, self.lat_code, self.lon_code),
    {
        (self.frame_id, self.r_um, self.lat_code, self.lon_code)
    }

    /// Adds `delta` to the longitude code, wrapping around the range of
    /// `i64`; nothing else changes.
    pub fn wrapping_add_lon(&mut self, delta: i64)
        ensures
            final(self).lon_code == wrap_i64(old(self).lon_code + delta),
            final(self).frame_id == old(self).frame_id,
            final(self).r_um == old(self).r_um,
            final(self).lat_code == old(self).lat_code,
    {
        self.lon_code = self.lon_code.wrapping_add(delta);
    }

    /// Adds `delta` to the latitude code, wrapping around the range of
    /// `i64`; nothing else changes.
    pub fn wrapping_add_lat(&mut self, delta: i64)
        ensures
            final(self).lat_code == wrap_i64(old(self).lat_code + delta),
            final(self).frame_id == old(self).frame_id,
            final(self).r_um == old(self).r_um,
            final(self).lon_code == old(self).lon_code,
    {
        self.lat_code = self.lat_code.wrapping_add(delta);
    }

    /// The packed 192-bit form of the position (the frame is not part of
    /// it): see `codec` for the layout.
    pub fn to_packed(&self) -> (r: (u128, u64))
        ensures
            r == pack(self.r_um, self.lat_code, self.lon_code),
    {
        encode_uvoxid(self.r_um, self.lat_code, self.lon_code)
    }

    /// The address in frame `frame_id` whose position has the packed form
    /// `(high, low)`.
    pub fn from_packed(frame_id: u64, high: u128, low: u64) -> (r: Self)
        ensures
            r.frame_id == frame_id,
            (r.r_um, r.lat_code, r.lon_code) == unpack((high, low)),
    {
        let (r_um, lat_code, lon_code) = decode_uvoxid(&(high, low));
        UvoxId { frame_id, r_um, lat_code, lon_code }
    }

    /// The text form: 64 lowercase hexadecimal digits, sixteen for each of
    /// the frame, the radius, the biased latitude and the biased longitude.
    pub fn to_hex(&self) -> (r: String)
        ensures
            r@ == address_text(*self),
            r@.len() == 64,
    {
        proof {
            lemma_hex_round_trip(*self);
        }
        let mut s = hex16(self.frame_id);
        let g1 = hex16(self.r_um);
        s.append(g1.as_str());
        let g2 = hex16(bias_code(self.lat_code, LAT_BIAS));
        s.append(g2.as_str());
        let g3 = hex16(bias_code(self.lon_code, LON_BIAS));
        s.append(g3.as_str());
        s
    }

    /// Reads the text form. Returns `None` unless `s` is exactly 64
    /// hexadecimal digits (either case).
    pub fn from_hex(s: &str) -> (r: Option<Self>)
        ensures
            match r {
                Some(a) => is_address_text(s@) && a == text_address(s@),
                None => !is_address_text(s@),
            },
    {
        if !s.is_ascii() {
            proof {
                if is_address_text(s@) {
                    assert forall|i: int| 0 <= i < s@.len() implies '\0' <= #[trigger] s@[i]
                        <= '\u{7f}' by {
                        assert(crate::hex::is_hex_digit(s@[i]));
                    }
                }
            }
            return None;
        }
        if s.unicode_len() != 64 {
            return None;
        }
        proof {
            assert forall|k: int, i: int| 0 <= k <= 48 && 0 <= i < 16 && all_hex(s@) implies
                crate::hex::is_hex_digit(#[trigger] s@.subrange(k, k + 16)[i]) by {
                assert(s@.subrange(k, k + 16)[i] == s@[k + i]);
            }
        }
        let frame_id = match parse_hex_word(s, 0) {
            Some(v) => v,
            None => return None,
        };
        let r_um = match parse_hex_word(s, 16) {
            Some(v) => v,
            None => return None,
        };
        let lat_bits = match parse_hex_word(s, 32) {
            Some(v) => v,
            None => return None,
        };
        let lon_bits = match parse_hex_word(s, 48) {
            Some(v) => v,
            None => return None,
        };
        proof {
            assert forall|i: int| 0 <= i < s@.len() implies crate::hex::is_hex_digit(
                #[trigger] s@[i],
            ) by {
                let k: int = if i < 16 {
                    0
                } else if i < 32 {
                    16
                } else if i < 48 {
                    32
                } else {
                    48
                };
                assert(s@[i] == s@.subrange(k, k + 16)[i - k]);
            }
        }
        Some(
            UvoxId {
                frame_id,
                r_um,
                lat_code: crate::codec::unbias_code(lat_bits, LAT_BIAS),
                lon_code: crate::codec::unbias_code(lon_bits, LON_BIAS),
            },
        )
    }

    /// Moves this address by `delta`: the radius changes by `dr_um` and is
    /// held in `[0, u64::MAX]`, the latitude is wrapped across the poles
    /// (each crossing turns the longitude by half a turn) and the longitude
    /// is brought into [-180_000_000, 180_000_000). The frame is kept.
    pub fn apply_delta(&mut self, delta: Delta)
        ensures
            *final(self) == moved(*old(self), delta),
            -LAT_LIMIT <= final(self).lat_code <= LAT_LIMIT,
            -HALF_TURN <= final(self).lon_code < HALF_TURN,
    {
        let ghost a = *self;
        let r0 = self.r_um as i128;
        let new_r: u64 = if delta.dr_um <= -r0 {
            0
        } else if delta.dr_um >= u64::MAX as i128 - r0 {
            u64::MAX
        } else {
            (r0 + delta.dr_um) as u64
        };
        let (lat, flip) = wrap_latitude(self.lat_code, delta.dlat);
        let lon = normalize_longitude(self.lon_code, delta.dlon, flip);
        proof {
            let t = a.lat_code + delta.dlat;
            let l = a.lon_code + delta.dlon;
            let s = pole_wrap(t, 0).1;
            let f: int = if flip {
                HALF_TURN as int
            } else {
                0
            };
            lemma_pole_wrap_shift(t, l);
            lemma_pole_wrap_range(t, l);
            lemma_fundamental_div_mod(s, FULL_TURN as int);
            lemma_mod_multiples_vanish(s / (FULL_TURN as int), l + f + HALF_TURN, FULL_TURN as int);
            assert(s + l + HALF_TURN == FULL_TURN * (s / (FULL_TURN as int)) + (l + f + HALF_TURN));
        }
        self.r_um = new_r;
        self.lat_code = lat;
        self.lon_code = lon;
    }
}

/// Why two addresses have no difference.
#[derive(Debug, Clone, Copy, PartialEq, Eq, Structural)]
pub enum FrameMismatch {
    /// The addresses are measured from different frames.
    DifferentFrames { left: u64, right: u64 },
}

/// The displacement from `b` to `a`, field by field.
pub open spec fn difference(a: UvoxId, b: UvoxId) -> Delta {
    Delta {
        dr_um: (a.r_um - b.r_um) as i128,
        dlat: (a.lat_code - b.lat_code) as i128,
        dlon: (a.lon_code - b.lon_code) as i128,
    }
}

impl core::ops::Add<Delta> for UvoxId {
    type Output = UvoxId;

    /// The address moved by `delta` (see `UvoxId::apply_delta`).
    fn add(self, delta: Delta) -> (r: UvoxId) {
        let mut moved_id = self;
        moved_id.apply_delta(delta);
        moved_id
    }
}

impl vstd::std_specs::ops::AddSpecImpl<Delta> for UvoxId {
    open spec fn obeys_add_spec() -> bool {
        true
    }

    open spec fn add_req(self, delta: Delta) -> bool {
        true
    }

    open spec fn add_spec(self, delta: Delta) -> UvoxId {
        moved(self, delta)
    }
}

impl core::ops::AddAssign<Delta> for UvoxId {
    /// Moves this address by `delta` (see `UvoxId::apply_delta`).
    fn add_assign(&mut self, delta: Delta)
        ensures
            *final(self) == moved(*old(self), delta),
    {
        self.apply_delta(delta);
    }
}

impl core::ops::Sub<UvoxId> for UvoxId {
    type Output = Result<Delta, FrameMismatch>;

    /// The displacement that moves `other` to `self` when no wrap is
    /// involved; addresses in different frames have none.
    fn sub(self, other: UvoxId) -> (r: Result<Delta, FrameMismatch>) {
        if self.frame_id != other.frame_id {
            return Err(
                FrameMismatch::DifferentFrames { left: self.frame_id, right: other.frame_id },
            );
        }
        Ok(
            Delta {
                dr_um: self.r_um as i128 - other.r_um as i128,
                dlat: self.lat_code as i128 - other.lat_code as i128,
                dlon: self.lon_code as i128 - other.lon_code as i128,
            },
        )
    }
}

impl vstd::std_specs::ops::SubSpecImpl<UvoxId> for UvoxId {
    open spec fn obeys_sub_spec() -> bool {
        true
    }

    open spec fn sub_req(self, other: UvoxId) -> bool {
        true
    }

    open spec fn sub_spec(self, other: UvoxId) -> Result<Delta, FrameMismatch> {
        if self.frame_id != other.frame_id {
            Err(FrameMismatch::DifferentFrames { left: self.frame_id, right: other.frame_id })
        } else {
            Ok(difference(self, other))
        }
    }
}

/// The component-wise sum of two displacements.
pub open spec fn delta_sum(d1: Delta, d2: Delta) -> Delta {
    Delta {
        dr_um: (d1.dr_um + d2.dr_um) as i128,
        dlat: (d1.dlat + d2.dlat) as i128,
        dlon: (d1.dlon + d2.dlon) as i128,
    }
}

/// A latitude between the poles.
pub open spec fn between_poles(lat: int) -> bool {
    -LAT_LIMIT <= lat <= LAT_LIMIT
}

/// Normalizing a longitude twice, with a displacement added between, is
/// normalizing once.
pub proof fn lemma_norm_lon_compose(x: int, y: int)
    ensures
        norm_lon(norm_lon(x) + y) == norm_lon(x + y),
{
    lemma_add_mod_noop(x + HALF_TURN, y, FULL_TURN as int);
    vstd::arithmetic::div_mod::lemma_mod_twice(x + HALF_TURN, FULL_TURN as int);
    assert(norm_lon(x) + y + HALF_TURN == (x + HALF_TURN) % (FULL_TURN as int) + y);
    lemma_add_mod_noop((x + HALF_TURN) % (FULL_TURN as int), y, FULL_TURN as int);
}

/// Moving by `d1` and then by `d2` is moving by `d1 + d2`, when neither step
/// nor the sum crosses a pole and the radius stays within `u64` all along.
/// (Across a pole the two differ: reflection is not linear.)
pub proof fn lemma_delta_additive(a: UvoxId, d1: Delta, d2: Delta)
    requires
        i128::MIN <= d1.dr_um + d2.dr_um <= i128::MAX,
        i128::MIN <= d1.dlat + d2.dlat <= i128::MAX,
        i128::MIN <= d1.dlon + d2.dlon <= i128::MAX,
        between_poles(a.lat_code + d1.dlat),
        between_poles(a.lat_code + d1.dlat + d2.dlat),
        0 <= a.r_um + d1.dr_um <= u64::MAX,
        0 <= a.r_um + d1.dr_um + d2.dr_um <= u64::MAX,
    ensures
        moved(moved(a, d1), d2) == moved(a, delta_sum(d1, d2)),
{
    let b = moved(a, d1);
    assert(b.lat_code == a.lat_code + d1.dlat);
    assert(b.lon_code == norm_lon(a.lon_code + d1.dlon));
    lemma_norm_lon_compose(a.lon_code + d1.dlon, d2.dlon as int);
    assert(a.lon_code + d1.dlon + d2.dlon == a.lon_code + delta_sum(d1, d2).dlon);
}

/// A longitude carried to exactly +180° becomes -180°: the range of
/// longitudes is closed below and open above.
pub proof fn lemma_antimeridian(a: UvoxId, d: Delta)
    requires
        between_poles(a.lat_code + d.dlat),
        a.lon_code + d.dlon == HALF_TURN,
    ensures
        moved(a, d).lon_code == -HALF_TURN,
{
    assert(norm_lon(HALF_TURN as int) == -HALF_TURN);
}

/// A radius change below zero leaves the radius at zero.
pub proof fn lemma_radius_floor(a: UvoxId, d: Delta)
    requires
        a.r_um + d.dr_um < 0,
    ensures
        moved(a, d).r_um == 0,
{
}

/// Moving an address never changes its frame, and always leaves the
/// latitude between the poles and the longitude in [-180°, 180°).
pub proof fn lemma_moved_valid(a: UvoxId, d: Delta)
    ensures
        moved(a, d).frame_id == a.frame_id,
        between_poles(moved(a, d).lat_code as int),
        -HALF_TURN <= moved(a, d).lon_code < HALF_TURN,
{
    lemma_pole_wrap_range(a.lat_code + d.dlat, a.lon_code + d.dlon);
}

} // verus!
