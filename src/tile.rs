use vstd::arithmetic::power2::{lemma2_to64, lemma_pow2_strictly_increases, lemma_pow2_unfold, pow2};
use vstd::prelude::*;

verus! {

/// Largest zoom level: at zoom `z` a side holds `2^z` tiles, which must fit in a `u32`.
pub const MAX_ZOOM: u32 = 31;

/// The decimal digit characters.
pub open spec fn is_digit(c: char) -> bool {
    '0' <= c && c <= '9'
}

/// The value of a string of decimal digits.
pub open spec fn digits_value(s: Seq<char>) -> int
    decreases s.len(),
{
    if s.len() == 0 {
        0
    } else {
        10 * digits_value(s.drop_last()) + (s.last() as int - '0' as int)
    }
}

/// What `u32::from_str` gives for `s`: an optional `+` followed by at least one decimal
/// digit, of a value that fits in a `u32`.
pub open spec fn spec_parse_u32(s: Seq<char>) -> Option<u32> {
    let d = if s.len() > 0 && s[0] == '+' {
        s.drop_first()
    } else {
        s
    };
    if d.len() > 0 && (forall|i: int| 0 <= i < d.len() ==> is_digit(#[trigger] d[i]))
        && digits_value(d) <= u32::MAX {
        Some(digits_value(d) as u32)
    } else {
        None
    }
}

/// Relies on `u32::from_str`: it accepts an optional `+` and then ASCII decimal digits of a
/// value up to `u32::MAX`, and nothing else (no sign `-`, no whitespace).
#[verifier::external_body]
fn parse_u32(s: &String) -> (r: Option<u32>)
    ensures
        r == spec_parse_u32(s@),
{
    s.parse::<u32>().ok()
}

/// `r` is an error with message `msg`.
pub open spec fn fails_with(r: Result<Tile, String>, msg: Seq<char>) -> bool {
    r matches Err(m) && m@ == msg
}

/// A map tile: column `x` and row `y` at zoom level `z`.
#[derive(Clone, Copy, Debug, PartialEq, Eq, Structural)]
pub struct Tile {
    pub x: u32,
    pub y: u32,
    pub z: u32,
}

/// Number of tiles along one side at zoom `z`: `2^z`.
fn side_length(z: u32) -> (r: u64)
    requires
        z <= MAX_ZOOM,
    ensures
        r == pow2(z as nat),
{
    proof {
        lemma2_to64();
    }
    let mut p: u64 = 1;
    let mut i: u32 = 0;
    while i < z
        invariant
            i <= z <= MAX_ZOOM,
            p == pow2(i as nat),
            pow2(31) == 0x8000_0000,
        decreases z - i,
    {
        proof {
            lemma_pow2_unfold((i + 1) as nat);
            if i + 1 < 31 {
                lemma_pow2_strictly_increases((i + 1) as nat, 31);
            }
        }
        p = p * 2;
        i += 1;
    }
    p
}

impl Tile {
    /// Reads a tile from its three path components. Each must be a decimal `u32`
    /// (else "Invalid z value", "Invalid x value" or "Invalid y value", checked in that
    /// order); the zoom must be at most 31 (else "Invalid z value"); and `x` and `y` must be
    /// below `2^z` (else "X and Y must be within the valid range").
    pub fn from(z: &String, x: &String, y: &String) -> (r: Result<Tile, String>)
        ensures
            spec_parse_u32(z@) is None ==> fails_with(r, "Invalid z value"@),
            spec_parse_u32(z@) is Some && spec_parse_u32(x@) is None ==> fails_with(r, "Invalid x value"@),
            spec_parse_u32(z@) is Some && spec_parse_u32(x@) is Some && spec_parse_u32(y@) is None
                ==> fails_with(r, "Invalid y value"@),
            match (spec_parse_u32(z@), spec_parse_u32(x@), spec_parse_u32(y@)) {
                (Some(vz), Some(vx), Some(vy)) => if vz > MAX_ZOOM {
                    fails_with(r, "Invalid z value"@)
                } else if vx < pow2(vz as nat) && vy < pow2(vz as nat) {
                    r == Ok::<Tile, String>(Tile { x: vx, y: vy, z: vz })
                } else {
                    fails_with(r, "X and Y must be within the valid range"@)
                },
                _ => true,
            },
    {
        let z = match parse_u32(z) {
            Some(v) => v,
            None => {
                return Err("Invalid z value".to_owned());
            },
        };
        let x = match parse_u32(x) {
            Some(v) => v,
            None => {
                return Err("Invalid x value".to_owned());
            },
        };
        let y = match parse_u32(y) {
            Some(v) => v,
            None => {
                return Err("Invalid y value".to_owned());
            },
        };
        if z > MAX_ZOOM {
            return Err("Invalid z value".to_owned());
        }
        let side = side_length(z);
        if !((x as u64) < side && (y as u64) < side) {
            return Err("X and Y must be within the valid range".to_owned());
        }
        Ok(Tile { x, y, z })
    }
}

} // verus!
