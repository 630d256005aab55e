//! Colours as red, green and blue components.

use vstd::prelude::*;
use core::str::FromStr;

verus! {

/// A colour with 8-bit red, green and blue components.
#[derive(Debug, Eq, PartialEq, Copy, Clone, Default, Structural)]
pub struct Rgb {
    pub r: u8,
    pub g: u8,
    pub b: u8,
}

/// The value of a hexadecimal digit, in either case.
pub open spec fn hex_value(c: char) -> Option<u8> {
    if '0' <= c && c <= '9' {
        Some((c as u32 - '0' as u32) as u8)
    } else if 'a' <= c && c <= 'f' {
        Some((c as u32 - 'a' as u32 + 10) as u8)
    } else if 'A' <= c && c <= 'F' {
        Some((c as u32 - 'A' as u32 + 10) as u8)
    } else {
        None
    }
}

/// The value of a hexadecimal digit, in either case.
pub fn hex_digit(c: char) -> (r: Option<u8>)
    ensures
        r == hex_value(c),
{
    if '0' <= c && c <= '9' {
        Some((c as u32 - '0' as u32) as u8)
    } else if 'a' <= c && c <= 'f' {
        Some((c as u32 - 'a' as u32 + 10) as u8)
    } else if 'A' <= c && c <= 'F' {
        Some((c as u32 - 'A' as u32 + 10) as u8)
    } else {
        None
    }
}

/// Length of the prefix of a hexadecimal colour: 2 for `0x`, 1 for `#`, `None` otherwise.
pub open spec fn hex_prefix_len(s: Seq<char>) -> Option<int> {
    if s.len() >= 1 && s[0] == '0' {
        if s.len() >= 2 && s[1] == 'x' {
            Some(2)
        } else {
            None
        }
    } else if s.len() >= 1 && s[0] == '#' {
        Some(1)
    } else {
        None
    }
}

/// The six digits after the prefix are hexadecimal.
pub open spec fn hex_digits_follow(s: Seq<char>, p: int) -> bool {
    &&& s.len() >= p + 6
    &&& forall|i: int| p <= i < p + 6 ==> #[trigger] hex_value(s[i]) is Some
}

/// The byte made of the two hexadecimal digits at `i` and `i + 1`.
pub open spec fn hex_byte(s: Seq<char>, i: int) -> int {
    hex_value(s[i]).unwrap() * 16 + hex_value(s[i + 1]).unwrap()
}

/// The colour `s` spells as `0xRRGGBB` or `#RRGGBB`; characters after the six digits are
/// ignored.
pub open spec fn parse_hex_color(s: Seq<char>) -> Option<Rgb> {
    match hex_prefix_len(s) {
        Some(p) => if hex_digits_follow(s, p) {
            Some(
                Rgb {
                    r: hex_byte(s, p) as u8,
                    g: hex_byte(s, p + 2) as u8,
                    b: hex_byte(s, p + 4) as u8,
                },
            )
        } else {
            None
        },
        None => None,
    }
}

impl Rgb {
    /// The component scaled by the dim factor of 66%, rounded down.
    pub open spec fn dim_component(c: u8) -> u8 {
        (c * 66 / 100) as u8
    }

    /// The colour with every component scaled by the dim factor of 66%, rounded down.
    pub fn dim(self) -> (r: Rgb)
        ensures
            r.r == Rgb::dim_component(self.r),
            r.g == Rgb::dim_component(self.g),
            r.b == Rgb::dim_component(self.b),
    {
        Rgb {
            r: ((self.r as u32) * 66 / 100) as u8,
            g: ((self.g as u32) * 66 / 100) as u8,
            b: ((self.b as u32) * 66 / 100) as u8,
        }
    }

    /// Reads a colour written as `0xRRGGBB` or `#RRGGBB`, in either case.
    pub fn parse_hex(s: &str) -> (r: Result<Rgb, ()>)
        ensures
            r matches Ok(c) ==> parse_hex_color(s@) == Some(c),
            r is Err ==> parse_hex_color(s@) is None,
    {
        let len = s.unicode_len();
        let p: usize;
        if len >= 1 && s.get_char(0) == '0' {
            if len >= 2 && s.get_char(1) == 'x' {
                p = 2;
            } else {
                return Err(());
            }
        } else if len >= 1 && s.get_char(0) == '#' {
            p = 1;
        } else {
            return Err(());
        }
        if len < p + 6 {
            return Err(());
        }
        let mut parts: [u8; 3] = [0, 0, 0];
        let mut k: usize = 0;
        while k < 3
            invariant
                len == s@.len(),
                hex_prefix_len(s@) == Some(p as int),
                len >= p + 6,
                k <= 3,
                forall|i: int| p <= i < p + 2 * k ==> #[trigger] hex_value(s@[i]) is Some,
                forall|j: int| 0 <= j < k ==> parts@[j] == hex_byte(s@, p + 2 * j),
            decreases 3 - k,
        {
            let hi = hex_digit(s.get_char(p + 2 * k));
            let lo = hex_digit(s.get_char(p + 2 * k + 1));
            match (hi, lo) {
                (Some(h), Some(l)) => {
                    assert(h < 16 && l < 16);
                    parts[k] = h * 16 + l;
                },
                _ => {
                    assert(!hex_digits_follow(s@, p as int)) by {
                        if hi is None {
                            assert(hex_value(s@[p + 2 * k]) is None);
                        } else {
                            assert(hex_value(s@[p + 2 * k + 1]) is None);
                        }
                    }
                    return Err(());
                },
            }
            k = k + 1;
        }
        Ok(Rgb { r: parts[0], g: parts[1], b: parts[2] })
    }
}

/// Reads a colour written as `0xRRGGBB` or `#RRGGBB`.
impl FromStr for Rgb {
    type Err = ();

    fn from_str(s: &str) -> (r: Result<Rgb, ()>)
        ensures
            r matches Ok(c) ==> parse_hex_color(s@) == Some(c),
            r is Err ==> parse_hex_color(s@) is None,
    {
        Rgb::parse_hex(s)
    }
}

/// Every hexadecimal digit has its digit value, in either case, and no other character is a
/// digit: `0`..`9` are 0..9, `a`..`f` and `A`..`F` are 10..15.
pub proof fn lemma_hex_digit_values(c: char)
    ensures
        '0' <= c <= '9' ==> hex_value(c) == Some((c as int - 48) as u8),
        'a' <= c <= 'f' ==> hex_value(c) == Some((c as int - 87) as u8),
        'A' <= c <= 'F' ==> hex_value(c) == Some((c as int - 55) as u8),
        !('0' <= c <= '9' || 'a' <= c <= 'f' || 'A' <= c <= 'F') ==> hex_value(c) is None,
        hex_value(c) matches Some(d) ==> d < 16,
{
}

/// A letter digit has the same value in upper and lower case.
pub proof fn lemma_hex_digit_case(c: char)
    requires
        'a' <= c <= 'f',
    ensures
        hex_value(((c as u32) - 32) as char) == hex_value(c),
        hex_value(c) is Some,
{
}

} // verus!
