//! Fixed-width spherical addresses: a reference frame, a radius in
//! micrometres and a latitude/longitude pair in millionths of a degree,
//! with a bit-packed form, a hexadecimal text form, delta arithmetic that
//! wraps across the poles and the antimeridian, and approximate comparison
//! by truncating the packed form.
//!
//! One convention runs through every encoding: latitude and longitude are
//! stored biased (`lat + 90_000_000`, `lon + 180_000_000`, modulo 2^64),
//! both in the 192-bit packed form and in the 64-digit text form.
pub mod address;
pub mod codec;
pub mod delta;
pub mod hex;
pub mod tolerance;

pub use address::UvoxId;
pub use codec::{decode_uvoxid, encode_uvoxid};
pub use delta::Delta;
pub use tolerance::{equal_within_tolerance, snap_to_tolerance, truncate_to_tolerance};
