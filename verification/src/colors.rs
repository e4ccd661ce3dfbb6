//! Colours of the terminal browser's settings file, written `#RRGGBB`.
use vstd::prelude::*;
use crate::text::{chars_of, extend_str, string_of, strip_leading, strip_leading_chars, trim, trim_str};
use crate::trusted::{debug_text, debug_text_of};

verus! {

/// How many UTF-8 bytes encode `c`.
pub open spec fn utf8_width(c: char) -> nat {
    if (c as u32) < 0x80 {
        1
    } else if (c as u32) < 0x800 {
        2
    } else if (c as u32) < 0x10000 {
        3
    } else {
        4
    }
}

/// How many UTF-8 bytes encode `s` (`str::len`).
pub open spec fn utf8_len(s: Seq<char>) -> nat
    decreases s.len(),
{
    if s.len() == 0 {
        0
    } else {
        utf8_width(s[0]) + utf8_len(s.drop_first())
    }
}

/// How many characters of `s` fill its first `k` bytes, when byte `k` falls
/// between two characters.
pub open spec fn chars_in_bytes(s: Seq<char>, k: int) -> Option<int>
    decreases s.len(),
{
    if k == 0 {
        Some(0)
    } else if k < 0 || s.len() == 0 {
        None
    } else {
        match chars_in_bytes(s.drop_first(), k - utf8_width(s[0])) {
            Some(i) => Some(i + 1),
            None => None,
        }
    }
}

/// The value of a hexadecimal digit, either case.
pub open spec fn hex_value(c: char) -> Option<u8> {
    if '0' <= c && c <= '9' {
        Some(((c as u32) - 48) as u8)
    } else if 'a' <= c && c <= 'f' {
        Some(((c as u32) - 87) as u8)
    } else if 'A' <= c && c <= 'F' {
        Some(((c as u32) - 55) as u8)
    } else {
        None
    }
}

/// `u8::from_str_radix(piece, 16)` for the two bytes `piece`: two digits, or
/// `+` and one digit; a single two-byte character is no digit.
pub open spec fn hex_byte(piece: Seq<char>) -> Option<u8> {
    if piece.len() == 2 {
        if piece[0] == '+' {
            hex_value(piece[1])
        } else {
            match (hex_value(piece[0]), hex_value(piece[1])) {
                (Some(a), Some(b)) => Some((a * 16 + b) as u8),
                _ => None,
            }
        }
    } else {
        None
    }
}

/// The text between the leading `#` signs and the end, trimmed.
pub open spec fn hex_digits(raw: Seq<char>) -> Seq<char> {
    strip_leading(trim(raw), '#')
}

/// The three two-byte pieces of the digits can be cut out at character
/// boundaries (slicing inside a character would stop the program).
pub open spec fn hex_cuttable(raw: Seq<char>) -> bool {
    let s = hex_digits(raw);
    utf8_len(s) == 6 ==> chars_in_bytes(s, 2) is Some && chars_in_bytes(s, 4) is Some
}

/// A `#RRGGBB` colour as red, green and blue, or why it is not one.
pub open spec fn hex_color(raw: Seq<char>) -> Result<(u8, u8, u8), Seq<char>> {
    let s = hex_digits(raw);
    if utf8_len(s) != 6 {
        Err("expected #RRGGBB, got "@ + debug_text_of(raw))
    } else {
        let i = chars_in_bytes(s, 2).unwrap();
        let j = chars_in_bytes(s, 4).unwrap();
        match (hex_byte(s.subrange(0, i)), hex_byte(s.subrange(i, j)), hex_byte(s.subrange(j, s.len() as int))) {
            (Some(r), Some(g), Some(b)) => Ok((r, g, b)),
            _ => Err("invalid digit found in string"@),
        }
    }
}

fn width_of(c: char) -> (r: usize)
    ensures
        r == utf8_width(c),
{
    if (c as u32) < 0x80 {
        1
    } else if (c as u32) < 0x800 {
        2
    } else if (c as u32) < 0x10000 {
        3
    } else {
        4
    }
}

proof fn lemma_utf8_len_at_least_count(s: Seq<char>)
    ensures
        utf8_len(s) >= s.len(),
    decreases s.len(),
{
    if s.len() > 0 {
        lemma_utf8_len_at_least_count(s.drop_first());
    }
}

/// Whether `s` takes exactly six bytes.
fn is_six_bytes(s: &Vec<char>) -> (r: bool)
    ensures
        r == (utf8_len(s@) == 6),
{
    let mut total: usize = 0;
    let mut i: usize = 0;
    assert(s@.subrange(0, s.len() as int) =~= s@);
    while i < s.len()
        invariant
            i <= s.len(),
            total <= 6,
            utf8_len(s@) == total + utf8_len(s@.subrange(i as int, s.len() as int)),
        decreases s.len() - i,
    {
        let ghost rest = s@.subrange(i as int, s.len() as int);
        assert(rest.drop_first() =~= s@.subrange(i + 1, s.len() as int));
        let w = width_of(s[i]);
        if total + w > 6 {
            proof {
                lemma_utf8_len_at_least_count(rest.drop_first());
            }
            return false;
        }
        total = total + w;
        i += 1;
    }
    assert(s@.subrange(i as int, s.len() as int) =~= Seq::<char>::empty());
    total == 6
}

/// How many characters fill the first `k` bytes of `s` (`chars_in_bytes`).
fn chars_in(s: &Vec<char>, k: usize) -> (r: Option<usize>)
    requires
        k <= 6,
    ensures
        match r {
            Some(i) => chars_in_bytes(s@, k as int) == Some(i as int) && i <= s.len(),
            None => chars_in_bytes(s@, k as int) is None,
        },
{
    let mut rem: usize = k;
    let mut i: usize = 0;
    assert(s@.subrange(0, s.len() as int) =~= s@);
    while i < s.len() && rem > 0
        invariant
            i <= s.len(),
            rem <= 6,
            chars_in_bytes(s@, k as int) == match chars_in_bytes(s@.subrange(i as int, s.len() as int), rem as int) {
                Some(n) => Some(n + i),
                None => None,
            },
        decreases s.len() - i,
    {
        let ghost rest = s@.subrange(i as int, s.len() as int);
        assert(rest.drop_first() =~= s@.subrange(i + 1, s.len() as int));
        let w = width_of(s[i]);
        if w > rem {
            assert(chars_in_bytes(rest.drop_first(), rem - w) is None);
            return None;
        }
        rem = rem - w;
        i += 1;
    }
    if rem == 0 {
        Some(i)
    } else {
        assert(s@.subrange(i as int, s.len() as int) =~= Seq::<char>::empty());
        None
    }
}

fn hex_value_of(c: char) -> (r: Option<u8>)
    ensures
        r == hex_value(c),
{
    if '0' <= c && c <= '9' {
        Some(((c as u32) - 48) as u8)
    } else if 'a' <= c && c <= 'f' {
        Some(((c as u32) - 87) as u8)
    } else if 'A' <= c && c <= 'F' {
        Some(((c as u32) - 55) as u8)
    } else {
        None
    }
}

fn hex_byte_of(s: &Vec<char>, lo: usize, hi: usize) -> (r: Option<u8>)
    requires
        lo <= hi <= s.len(),
    ensures
        r == hex_byte(s@.subrange(lo as int, hi as int)),
{
    if hi - lo != 2 {
        return None;
    }
    let a = s[lo];
    let b = s[lo + 1];
    if a == '+' {
        return hex_value_of(b);
    }
    match (hex_value_of(a), hex_value_of(b)) {
        (Some(x), Some(y)) => Some(x * 16 + y),
        _ => None,
    }
}

/// `#RRGGBB` (leading `#` signs and surrounding space allowed) as red, green
/// and blue.
pub fn parse_hex_color(raw: &str) -> (r: Result<(u8, u8, u8), String>)
    requires
        hex_cuttable(raw@),
    ensures
        match r {
            Ok(c) => hex_color(raw@) == Ok::<(u8, u8, u8), Seq<char>>(c),
            Err(e) => hex_color(raw@) == Err::<(u8, u8, u8), Seq<char>>(e@),
        },
{
    let t = trim_str(raw);
    let s = strip_leading_chars(&t, '#');
    if !is_six_bytes(&s) {
        let mut v = chars_of("expected #RRGGBB, got ");
        let shown = debug_text(raw);
        extend_str(&mut v, shown.as_str());
        return Err(string_of(&v));
    }
    let i = chars_in(&s, 2).unwrap();
    let j = chars_in(&s, 4).unwrap();
    proof {
        lemma_chars_in_order(s@, 2, 4);
    }
    let red = hex_byte_of(&s, 0, i);
    let green = hex_byte_of(&s, i, j);
    let blue = hex_byte_of(&s, j, s.len());
    match (red, green, blue) {
        (Some(r), Some(g), Some(b)) => Ok((r, g, b)),
        _ => Err(crate::text::owned("invalid digit found in string")),
    }
}

proof fn lemma_chars_in_order(s: Seq<char>, k: int, m: int)
    requires
        0 <= k <= m,
        chars_in_bytes(s, k) is Some,
        chars_in_bytes(s, m) is Some,
    ensures
        chars_in_bytes(s, k).unwrap() <= chars_in_bytes(s, m).unwrap(),
    decreases s.len(),
{
    if k == 0 {
        lemma_chars_in_nonneg(s, m);
    } else {
        let w = utf8_width(s[0]);
        assert(s.len() > 0);
        assert(chars_in_bytes(s, k) == match chars_in_bytes(s.drop_first(), k - w) {
            Some(i) => Some(i + 1),
            None => None,
        });
        assert(chars_in_bytes(s, m) == match chars_in_bytes(s.drop_first(), m - w) {
            Some(i) => Some(i + 1),
            None => None,
        });
        lemma_chars_in_order(s.drop_first(), k - w, m - w);
    }
}

proof fn lemma_chars_in_nonneg(s: Seq<char>, k: int)
    ensures
        chars_in_bytes(s, k) matches Some(i) ==> i >= 0,
    decreases s.len(),
{
    if k != 0 && k >= 0 && s.len() > 0 {
        lemma_chars_in_nonneg(s.drop_first(), k - utf8_width(s[0]));
    }
}

} // verus!
