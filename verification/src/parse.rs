//! Parsers for the plain-text forms of colors and placements: hex color
//! strings (with or without a leading `#`) and two-part placement
//! strings such as `center,-3`.

use vstd::prelude::*;

use crate::color::Color;
use crate::color::ColorA;
use crate::layout::AxisAnchor;
use crate::layout::AxisPlacement;
use crate::layout::Placement;

verus! {

/// Why a parse was rejected.
#[derive(Clone, Copy, Debug, PartialEq, Eq, Structural)]
pub enum ParseError {
    /// A hex color had a digit count other than the accepted ones.
    WrongDigitCount,
    /// A hex color held a character that is not a hexadecimal digit.
    InvalidDigit,
    /// A placement did not have exactly two comma-separated parts.
    WrongComponentCount,
    /// The horizontal part of a placement was not understood.
    BadHorizontal,
    /// The vertical part of a placement was not understood.
    BadVertical,
}

/// The value of a hexadecimal digit, or 16 for any other character.
pub open spec fn hex_val(c: char) -> int {
    if '0' as int <= c as int <= '9' as int {
        c as int - '0' as int
    } else if 'a' as int <= c as int <= 'f' as int {
        c as int - 'a' as int + 10
    } else if 'A' as int <= c as int <= 'F' as int {
        c as int - 'A' as int + 10
    } else {
        16
    }
}

pub open spec fn all_hex(s: Seq<char>) -> bool {
    forall|i: int| 0 <= i < s.len() ==> hex_val(#[trigger] s[i]) < 16
}

/// The string with one leading `#` removed, if present.
pub open spec fn strip_hash(s: Seq<char>) -> Seq<char> {
    if s.len() > 0 && s[0] == '#' {
        s.skip(1)
    } else {
        s
    }
}

/// Whether a string is an accepted RGB hex color: after an optional `#`,
/// exactly 3 or 6 hexadecimal digits.
pub open spec fn color_hex_ok(s: Seq<char>) -> bool {
    let t = strip_hash(s);
    (t.len() == 3 || t.len() == 6) && all_hex(t)
}

/// The color a 3-digit form stands for: each digit doubled (`f` is
/// `0xff`).
pub open spec fn color_of_hex3(t: Seq<char>) -> Color {
    Color(
        (hex_val(t[0]) * 17) as u8,
        (hex_val(t[1]) * 17) as u8,
        (hex_val(t[2]) * 17) as u8,
    )
}

/// The color a 6-digit form stands for: one byte from each digit pair.
pub open spec fn color_of_hex6(t: Seq<char>) -> Color {
    Color(
        (hex_val(t[0]) * 16 + hex_val(t[1])) as u8,
        (hex_val(t[2]) * 16 + hex_val(t[3])) as u8,
        (hex_val(t[4]) * 16 + hex_val(t[5])) as u8,
    )
}

/// The color of an accepted RGB hex string.
pub open spec fn color_of_hex(s: Seq<char>) -> Color {
    let t = strip_hash(s);
    if t.len() == 3 {
        color_of_hex3(t)
    } else {
        color_of_hex6(t)
    }
}

/// Whether a string is an accepted RGBA hex color: after an optional
/// `#`, exactly 3, 4, 6 or 8 hexadecimal digits.
pub open spec fn colora_hex_ok(s: Seq<char>) -> bool {
    let t = strip_hash(s);
    (t.len() == 3 || t.len() == 4 || t.len() == 6 || t.len() == 8) && all_hex(t)
}

/// The RGBA color an accepted string stands for: the 3- and 6-digit
/// forms are fully opaque; the 4- and 8-digit forms carry their own
/// alpha digit(s).
pub open spec fn colora_of_hex(s: Seq<char>) -> ColorA {
    let t = strip_hash(s);
    if t.len() == 3 {
        ColorA(
            (hex_val(t[0]) * 17) as u8,
            (hex_val(t[1]) * 17) as u8,
            (hex_val(t[2]) * 17) as u8,
            255,
        )
    } else if t.len() == 4 {
        ColorA(
            (hex_val(t[0]) * 17) as u8,
            (hex_val(t[1]) * 17) as u8,
            (hex_val(t[2]) * 17) as u8,
            (hex_val(t[3]) * 17) as u8,
        )
    } else if t.len() == 6 {
        ColorA(
            (hex_val(t[0]) * 16 + hex_val(t[1])) as u8,
            (hex_val(t[2]) * 16 + hex_val(t[3])) as u8,
            (hex_val(t[4]) * 16 + hex_val(t[5])) as u8,
            255,
        )
    } else {
        ColorA(
            (hex_val(t[0]) * 16 + hex_val(t[1])) as u8,
            (hex_val(t[2]) * 16 + hex_val(t[3])) as u8,
            (hex_val(t[4]) * 16 + hex_val(t[5])) as u8,
            (hex_val(t[6]) * 16 + hex_val(t[7])) as u8,
        )
    }
}

/// The value of one hexadecimal digit character, or 16 for any other.
fn hex_nibble(c: char) -> (v: u8)
    ensures
        v as int == hex_val(c),
{
    let cv = c as u32;
    if 48 <= cv && cv <= 57 {
        (cv - 48) as u8
    } else if 97 <= cv && cv <= 102 {
        (cv - 97 + 10) as u8
    } else if 65 <= cv && cv <= 70 {
        (cv - 65 + 10) as u8
    } else {
        16
    }
}

/// Parse an RGB hex color: an optional `#`, then exactly 3 or 6 hex
/// digits. Succeeds exactly on those strings; any other digit count is
/// `WrongDigitCount`, a non-digit character is `InvalidDigit`.
pub fn color_from_hex(hex: &str) -> (r: Result<Color, ParseError>)
    ensures
        r is Ok <==> color_hex_ok(hex@),
        r matches Ok(c) ==> c == color_of_hex(hex@),
        !(strip_hash(hex@).len() == 3 || strip_hash(hex@).len() == 6) ==> r == Result::<
            Color,
            ParseError,
        >::Err(ParseError::WrongDigitCount),
        (strip_hash(hex@).len() == 3 || strip_hash(hex@).len() == 6) && !all_hex(strip_hash(hex@))
            ==> r == Result::<Color, ParseError>::Err(ParseError::InvalidDigit),
{
    let n0 = hex.unicode_len();
    let start: usize = if n0 > 0 && hex.get_char(0) == '#' {
        1
    } else {
        0
    };
    let ghost t = strip_hash(hex@);
    proof {
        assert(t =~= hex@.skip(start as int));
    }
    let n = n0 - start;
    if n == 3 {
        let d0 = hex_nibble(hex.get_char(start));
        let d1 = hex_nibble(hex.get_char(start + 1));
        let d2 = hex_nibble(hex.get_char(start + 2));
        proof {
            assert(t[0] == hex@[start as int]);
            assert(t[1] == hex@[start + 1]);
            assert(t[2] == hex@[start + 2]);
        }
        if d0 < 16 && d1 < 16 && d2 < 16 {
            proof {
                assert forall|i: int| 0 <= i < t.len() implies hex_val(#[trigger] t[i]) < 16 by {
                    assert(t[i] == hex@[start + i]);
                }
            }
            Ok(Color(d0 * 17, d1 * 17, d2 * 17))
        } else {
            Err(ParseError::InvalidDigit)
        }
    } else if n == 6 {
        let d0 = hex_nibble(hex.get_char(start));
        let d1 = hex_nibble(hex.get_char(start + 1));
        let d2 = hex_nibble(hex.get_char(start + 2));
        let d3 = hex_nibble(hex.get_char(start + 3));
        let d4 = hex_nibble(hex.get_char(start + 4));
        let d5 = hex_nibble(hex.get_char(start + 5));
        proof {
            assert(t[0] == hex@[start as int]);
            assert(t[1] == hex@[start + 1]);
            assert(t[2] == hex@[start + 2]);
            assert(t[3] == hex@[start + 3]);
            assert(t[4] == hex@[start + 4]);
            assert(t[5] == hex@[start + 5]);
        }
        if d0 < 16 && d1 < 16 && d2 < 16 && d3 < 16 && d4 < 16 && d5 < 16 {
            proof {
                assert forall|i: int| 0 <= i < t.len() implies hex_val(#[trigger] t[i]) < 16 by {
                    assert(t[i] == hex@[start + i]);
                }
            }
            Ok(Color(d0 * 16 + d1, d2 * 16 + d3, d4 * 16 + d5))
        } else {
            Err(ParseError::InvalidDigit)
        }
    } else {
        Err(ParseError::WrongDigitCount)
    }
}

/// Parse an RGBA hex color: an optional `#`, then exactly 3, 4, 6 or 8
/// hex digits; the 3- and 6-digit forms are fully opaque.
pub fn colora_from_hex(hex: &str) -> (r: Result<ColorA, ParseError>)
    ensures
        r is Ok <==> colora_hex_ok(hex@),
        r matches Ok(c) ==> c == colora_of_hex(hex@),
        !(strip_hash(hex@).len() == 3 || strip_hash(hex@).len() == 4 || strip_hash(hex@).len() == 6
            || strip_hash(hex@).len() == 8) ==> r == Result::<ColorA, ParseError>::Err(
            ParseError::WrongDigitCount,
        ),
        (strip_hash(hex@).len() == 3 || strip_hash(hex@).len() == 4 || strip_hash(hex@).len() == 6
            || strip_hash(hex@).len() == 8) && !all_hex(strip_hash(hex@)) ==> r == Result::<
            ColorA,
            ParseError,
        >::Err(ParseError::InvalidDigit),
{
    let n0 = hex.unicode_len();
    let start: usize = if n0 > 0 && hex.get_char(0) == '#' {
        1
    } else {
        0
    };
    let ghost t = strip_hash(hex@);
    proof {
        assert(t =~= hex@.skip(start as int));
    }
    let n = n0 - start;
    if n == 3 || n == 4 || n == 6 || n == 8 {
        let mut ok = true;
        let mut i: usize = 0;
        while i < n
            invariant
                i <= n,
                n0 == hex@.len(),
                start <= 1,
                n == n0 - start,
                t == strip_hash(hex@),
                t == hex@.skip(start as int),
                ok == (forall|k: int| 0 <= k < i ==> hex_val(#[trigger] t[k]) < 16),
            decreases n - i,
        {
            let d = hex_nibble(hex.get_char(start + i));
            proof {
                assert(t[i as int] == hex@[start + i]);
            }
            let ghost ok_old = ok;
            if d >= 16 {
                ok = false;
            }
            proof {
                if ok_old && d < 16 {
                    assert forall|k: int| 0 <= k < i + 1 implies hex_val(#[trigger] t[k])
                        < 16 by {}
                } else if !ok_old {
                    let k = choose|k: int| 0 <= k < i && hex_val(#[trigger] t[k]) >= 16;
                    assert(0 <= k < i + 1 && hex_val(t[k]) >= 16);
                } else {
                    assert(hex_val(t[i as int]) >= 16);
                }
            }
            i = i + 1;
        }
        proof {
            assert(t.len() == n);
            if ok {
                assert(all_hex(t));
            } else {
                let k = choose|k: int| 0 <= k < n && hex_val(#[trigger] t[k]) >= 16;
                assert(!all_hex(t));
            }
        }
        if !ok {
            return Err(ParseError::InvalidDigit);
        }
        if n == 3 {
            let d0 = hex_nibble(hex.get_char(start));
            let d1 = hex_nibble(hex.get_char(start + 1));
            let d2 = hex_nibble(hex.get_char(start + 2));
            proof {
                assert(t[0] == hex@[start as int]);
                assert(t[1] == hex@[start + 1]);
                assert(t[2] == hex@[start + 2]);
            }
            Ok(ColorA(d0 * 17, d1 * 17, d2 * 17, 255))
        } else if n == 4 {
            let d0 = hex_nibble(hex.get_char(start));
            let d1 = hex_nibble(hex.get_char(start + 1));
            let d2 = hex_nibble(hex.get_char(start + 2));
            let d3 = hex_nibble(hex.get_char(start + 3));
            proof {
                assert(t[0] == hex@[start as int]);
                assert(t[1] == hex@[start + 1]);
                assert(t[2] == hex@[start + 2]);
                assert(t[3] == hex@[start + 3]);
            }
            Ok(ColorA(d0 * 17, d1 * 17, d2 * 17, d3 * 17))
        } else if n == 6 {
            let d0 = hex_nibble(hex.get_char(start));
            let d1 = hex_nibble(hex.get_char(start + 1));
            let d2 = hex_nibble(hex.get_char(start + 2));
            let d3 = hex_nibble(hex.get_char(start + 3));
            let d4 = hex_nibble(hex.get_char(start + 4));
            let d5 = hex_nibble(hex.get_char(start + 5));
            proof {
                assert(t[0] == hex@[start as int]);
                assert(t[1] == hex@[start + 1]);
                assert(t[2] == hex@[start + 2]);
                assert(t[3] == hex@[start + 3]);
                assert(t[4] == hex@[start + 4]);
                assert(t[5] == hex@[start + 5]);
            }
            Ok(ColorA(d0 * 16 + d1, d2 * 16 + d3, d4 * 16 + d5, 255))
        } else {
            let d0 = hex_nibble(hex.get_char(start));
            let d1 = hex_nibble(hex.get_char(start + 1));
            let d2 = hex_nibble(hex.get_char(start + 2));
            let d3 = hex_nibble(hex.get_char(start + 3));
            let d4 = hex_nibble(hex.get_char(start + 4));
            let d5 = hex_nibble(hex.get_char(start + 5));
            let d6 = hex_nibble(hex.get_char(start + 6));
            let d7 = hex_nibble(hex.get_char(start + 7));
            proof {
                assert(t[0] == hex@[start as int]);
                assert(t[1] == hex@[start + 1]);
                assert(t[2] == hex@[start + 2]);
                assert(t[3] == hex@[start + 3]);
                assert(t[4] == hex@[start + 4]);
                assert(t[5] == hex@[start + 5]);
                assert(t[6] == hex@[start + 6]);
                assert(t[7] == hex@[start + 7]);
            }
            Ok(ColorA(d0 * 16 + d1, d2 * 16 + d3, d4 * 16 + d5, d6 * 16 + d7))
        }
    } else {
        Err(ParseError::WrongDigitCount)
    }
}

/// Whether every character of a string is a decimal digit.
pub open spec fn all_dec(s: Seq<char>) -> bool {
    forall|i: int| 0 <= i < s.len() ==> '0' as int <= (#[trigger] s[i]) as int <= '9' as int
}

/// The number a digit string stands for, most significant digit first.
pub open spec fn dec_val(s: Seq<char>) -> int
    decreases s.len(),
{
    if s.len() == 0 {
        0
    } else {
        dec_val(s.drop_last()) * 10 + (s.last() as int - '0' as int)
    }
}

/// The digits of a signed decimal string (one optional leading `+` or
/// `-` removed).
pub open spec fn int_body(s: Seq<char>) -> Seq<char> {
    if s.len() > 0 && (s[0] == '+' || s[0] == '-') {
        s.skip(1)
    } else {
        s
    }
}

pub open spec fn int_neg(s: Seq<char>) -> bool {
    s.len() > 0 && s[0] == '-'
}

/// Whether a string is an accepted signed decimal integer: an optional
/// sign, at least one digit, and a value within the machine range.
pub open spec fn int_ok(s: Seq<char>) -> bool {
    let b = int_body(s);
    &&& b.len() > 0
    &&& all_dec(b)
    &&& (if int_neg(s) {
        -dec_val(b) >= isize::MIN
    } else {
        dec_val(b) <= isize::MAX
    })
}

/// The value of an accepted signed decimal integer.
pub open spec fn int_val(s: Seq<char>) -> int {
    if int_neg(s) {
        -dec_val(int_body(s))
    } else {
        dec_val(int_body(s))
    }
}

/// The value of a digit string is never negative.
proof fn lemma_dec_val_nonneg(s: Seq<char>)
    requires
        all_dec(s),
    ensures
        dec_val(s) >= 0,
    decreases s.len(),
{
    if s.len() > 0 {
        assert(all_dec(s.drop_last())) by {
            assert forall|i: int| 0 <= i < s.drop_last().len() implies '0' as int <= (
            #[trigger] s.drop_last()[i]) as int <= '9' as int by {
                assert(s.drop_last()[i] == s[i]);
            }
        }
        lemma_dec_val_nonneg(s.drop_last());
    }
}

/// Reading more digits never makes the value smaller.
proof fn lemma_dec_val_mono(s: Seq<char>, i: int)
    requires
        all_dec(s),
        0 <= i <= s.len(),
    ensures
        dec_val(s.take(i)) <= dec_val(s),
    decreases s.len() - i,
{
    if i < s.len() {
        lemma_dec_val_mono(s, i + 1);
        let p = s.take(i + 1);
        assert(p.drop_last() =~= s.take(i));
        assert(p.last() == s[i]);
        assert(all_dec(s.take(i))) by {
            assert forall|k: int| 0 <= k < i implies '0' as int <= (#[trigger] s.take(i)[k]) as int
                <= '9' as int by {
                assert(s.take(i)[k] == s[k]);
            }
        }
        lemma_dec_val_nonneg(s.take(i));
        assert(dec_val(p) == dec_val(s.take(i)) * 10 + (s[i] as int - '0' as int));
        assert(dec_val(s.take(i)) <= dec_val(p));
    } else {
        assert(s.take(i) =~= s);
    }
}

/// Parse a signed decimal integer with an optional leading `+` or `-`.
/// Succeeds exactly on strings of an optional sign followed by one or
/// more digits whose value fits the machine integer range.
pub fn parse_int_part(part: &str) -> (r: Option<isize>)
    ensures
        r is Some <==> int_ok(part@),
        r matches Some(v) ==> v as int == int_val(part@),
{
    let n = part.unicode_len();
    if n == 0 {
        return None;
    }
    let first = part.get_char(0);
    let neg = first == '-';
    let has_sign = neg || first == '+';
    let start: usize = if has_sign {
        1
    } else {
        0
    };
    let ghost b = int_body(part@);
    proof {
        assert(b =~= part@.skip(start as int));
    }
    if start >= n {
        return None;
    }
    let limit: i128 = if neg {
        (isize::MAX as i128) + 1
    } else {
        isize::MAX as i128
    };
    let mut acc: i128 = 0;
    let mut i: usize = start;
    while i < n
        invariant
            start <= i <= n,
            start <= 1,
            n == part@.len(),
            b == int_body(part@),
            b == part@.skip(start as int),
            b.len() == n - start,
            neg == int_neg(part@),
            limit == if neg {
                isize::MAX as int + 1
            } else {
                isize::MAX as int
            },
            0 <= acc <= limit,
            acc == dec_val(b.take(i - start)),
            forall|k: int| 0 <= k < i - start ==> '0' as int <= (#[trigger] b[k]) as int <= '9' as int,
        decreases n - i,
    {
        let c = part.get_char(i);
        proof {
            assert(b[i - start] == part@[i as int]);
        }
        let cv = c as u32;
        if cv < 48 || cv > 57 {
            proof {
                assert('0' as int <= b[i - start] as int <= '9' as int ==> false);
            }
            return None;
        }
        let d: i128 = (cv - 48) as i128;
        acc = acc * 10 + d;
        proof {
            let m = i - start;
            let p = b.take(m + 1);
            assert(p.drop_last() =~= b.take(m as int));
            assert(p.last() == b[m]);
            assert(acc == dec_val(b.take(m + 1)));
        }
        if acc > limit {
            proof {
                let m = i + 1 - start;
                if int_ok(part@) {
                    lemma_dec_val_mono(b, m);
                    assert(dec_val(b) >= dec_val(b.take(m)));
                    assert(false);
                }
            }
            return None;
        }
        i = i + 1;
    }
    proof {
        assert(b.take(n - start) =~= b);
        assert(all_dec(b));
    }
    if neg {
        Some((-acc) as isize)
    } else {
        Some(acc as isize)
    }
}

/// How many commas a string holds.
pub open spec fn comma_count(s: Seq<char>) -> int
    decreases s.len(),
{
    if s.len() == 0 {
        0int
    } else {
        comma_count(s.drop_last()) + if s.last() == ',' {
            1int
        } else {
            0int
        }
    }
}

/// The position of the first comma (the length when there is none).
pub open spec fn first_comma(s: Seq<char>) -> int
    decreases s.len(),
{
    if s.len() == 0 {
        0
    } else if s[0] == ',' {
        0
    } else {
        1 + first_comma(s.skip(1))
    }
}

/// One axis of a placement string: the words `auto` and `center`, or a
/// signed pixel count, where a leading `-` anchors at the far edge (its
/// remainder parsed as another signed integer) and anything else anchors
/// at the near edge.
pub open spec fn axis_of_part(part: Seq<char>) -> Option<AxisPlacement> {
    if part == "auto"@ {
        Some(AxisPlacement { anchor: AxisAnchor::Auto, offset: 0 })
    } else if part == "center"@ {
        Some(AxisPlacement { anchor: AxisAnchor::Center, offset: 0 })
    } else if part.len() > 0 && part[0] == '-' {
        if int_ok(part.skip(1)) {
            Some(AxisPlacement { anchor: AxisAnchor::End, offset: int_val(part.skip(1)) as isize })
        } else {
            None
        }
    } else {
        if int_ok(part) {
            Some(AxisPlacement { anchor: AxisAnchor::Start, offset: int_val(part) as isize })
        } else {
            None
        }
    }
}

/// Parse one axis of a placement string.
pub fn parse_axis_part(part: &str) -> (r: Option<AxisPlacement>)
    ensures
        r == axis_of_part(part@),
{
    proof {
        reveal_strlit("auto");
        reveal_strlit("center");
    }
    let n = part.unicode_len();
    if n == 4 && part.get_char(0) == 'a' && part.get_char(1) == 'u' && part.get_char(2) == 't'
        && part.get_char(3) == 'o' {
        proof {
            assert(part@ =~= "auto"@);
        }
        return Some(AxisPlacement { anchor: AxisAnchor::Auto, offset: 0 });
    }
    if n == 6 && part.get_char(0) == 'c' && part.get_char(1) == 'e' && part.get_char(2) == 'n'
        && part.get_char(3) == 't' && part.get_char(4) == 'e' && part.get_char(5) == 'r' {
        proof {
            assert(part@ =~= "center"@);
        }
        return Some(AxisPlacement { anchor: AxisAnchor::Center, offset: 0 });
    }
    proof {
        assert(part@ != "auto"@);
        assert(part@ != "center"@);
    }
    if n > 0 && part.get_char(0) == '-' {
        let rest = part.substring_char(1, n);
        match parse_int_part(rest) {
            Some(d) => Some(AxisPlacement { anchor: AxisAnchor::End, offset: d }),
            None => None,
        }
    } else {
        match parse_int_part(part) {
            Some(d) => Some(AxisPlacement { anchor: AxisAnchor::Start, offset: d }),
            None => None,
        }
    }
}

/// Whether a placement string is accepted: exactly two comma-separated
/// parts, each an accepted axis.
pub open spec fn placement_parse_ok(s: Seq<char>) -> bool {
    &&& comma_count(s) == 1
    &&& axis_of_part(s.take(first_comma(s))) is Some
    &&& axis_of_part(s.skip(first_comma(s) + 1)) is Some
}

/// The placement an accepted string stands for.
pub open spec fn placement_of_parse(s: Seq<char>) -> Placement {
    Placement {
        horz: axis_of_part(s.take(first_comma(s)))->Some_0,
        vert: axis_of_part(s.skip(first_comma(s) + 1))->Some_0,
    }
}

/// A string with exactly one comma has it before the end.
proof fn lemma_first_comma_in_range(s: Seq<char>)
    ensures
        0 <= first_comma(s) <= s.len(),
        first_comma(s) < s.len() ==> s[first_comma(s)] == ',',
        forall|k: int| 0 <= k < first_comma(s) ==> s[k] != ',',
    decreases s.len(),
{
    if s.len() > 0 && s[0] != ',' {
        lemma_first_comma_in_range(s.skip(1));
        assert forall|k: int| 0 <= k < first_comma(s) implies s[k] != ',' by {
            if k > 0 {
                assert(s.skip(1)[k - 1] == s[k]);
            }
        }
        if first_comma(s) < s.len() {
            assert(s.skip(1)[first_comma(s.skip(1))] == s[first_comma(s)]);
        }
    }
}

/// Parse a placement string: two comma-separated axis placements,
/// horizontal then vertical.
pub fn parse_placement(s: &str) -> (r: Result<Placement, ParseError>)
    ensures
        r is Ok <==> placement_parse_ok(s@),
        r matches Ok(p) ==> p == placement_of_parse(s@),
        comma_count(s@) != 1 ==> r == Result::<Placement, ParseError>::Err(
            ParseError::WrongComponentCount,
        ),
        comma_count(s@) == 1 && axis_of_part(s@.take(first_comma(s@))) is None ==> r == Result::<
            Placement,
            ParseError,
        >::Err(ParseError::BadHorizontal),
        comma_count(s@) == 1 && axis_of_part(s@.take(first_comma(s@))) is Some && axis_of_part(
            s@.skip(first_comma(s@) + 1),
        ) is None ==> r == Result::<Placement, ParseError>::Err(ParseError::BadVertical),
{
    let n = s.unicode_len();
    let mut count: usize = 0;
    let mut k: usize = n;
    let mut i: usize = 0;
    while i < n
        invariant
            i <= n,
            n == s@.len(),
            count <= i,
            count as int == comma_count(s@.take(i as int)),
            count == 0 ==> k == n && (forall|m: int| 0 <= m < i ==> s@[m] != ','),
            count > 0 ==> k < i && s@[k as int] == ',' && (forall|m: int|
                0 <= m < k ==> s@[m] != ','),
        decreases n - i,
    {
        let c = s.get_char(i);
        proof {
            let p = s@.take(i + 1);
            assert(p.drop_last() =~= s@.take(i as int));
            assert(p.last() == s@[i as int]);
        }
        if c == ',' {
            if count == 0 {
                k = i;
            }
            count = count + 1;
        }
        i = i + 1;
    }
    proof {
        assert(s@.take(n as int) =~= s@);
        lemma_first_comma_in_range(s@);
        if count > 0 {
            assert(k as int == first_comma(s@)) by {
                if (k as int) < first_comma(s@) {
                    assert(s@[k as int] != ',');
                } else if first_comma(s@) < k as int {
                    assert(s@[first_comma(s@)] != ',');
                }
            }
        }
    }
    if count != 1 {
        return Err(ParseError::WrongComponentCount);
    }
    let part1 = s.substring_char(0, k);
    let part2 = s.substring_char(k + 1, n);
    proof {
        assert(part1@ == s@.take(first_comma(s@)));
        assert(part2@ == s@.skip(first_comma(s@) + 1));
    }
    let horz = match parse_axis_part(part1) {
        Some(h) => h,
        None => {
            return Err(ParseError::BadHorizontal);
        },
    };
    let vert = match parse_axis_part(part2) {
        Some(v) => v,
        None => {
            return Err(ParseError::BadVertical);
        },
    };
    Ok(Placement { horz, vert })
}

} // verus!
