use vstd::prelude::*;

use crate::path_data::{is_white_space, is_white_space_char};

verus! {

/// The number of bytes of `c` in UTF-8.
pub open spec fn utf8_len(c: char) -> nat {
    let u = c as u32;
    if u < 0x80 {
        1
    } else if u < 0x800 {
        2
    } else if u < 0x10000 {
        3
    } else {
        4
    }
}

/// The number of bytes of `s` in UTF-8.
pub open spec fn byte_len(s: Seq<char>) -> nat
    decreases s.len(),
{
    if s.len() == 0 {
        0
    } else {
        byte_len(s.drop_last()) + utf8_len(s.last())
    }
}

/// Whether byte offset `off` of `s` falls between two characters.
pub open spec fn is_boundary(s: Seq<char>, off: nat) -> bool {
    exists|k: int| 0 <= k <= s.len() && byte_len(#[trigger] s.take(k)) == off
}

/// All characters of `s` are ASCII.
pub open spec fn all_ascii(s: Seq<char>) -> bool {
    forall|i: int| 0 <= i < s.len() ==> (#[trigger] s[i] as u32) < 0x80
}

/// Leading whitespace removed (`str::trim_start`).
pub open spec fn trim_start(s: Seq<char>) -> Seq<char>
    decreases s.len(),
{
    if s.len() > 0 && is_white_space(s[0]) {
        trim_start(s.drop_first())
    } else {
        s
    }
}

/// Trailing whitespace removed (`str::trim_end`).
pub open spec fn trim_end(s: Seq<char>) -> Seq<char>
    decreases s.len(),
{
    if s.len() > 0 && is_white_space(s.last()) {
        trim_end(s.drop_last())
    } else {
        s
    }
}

/// What follows the `#` of a colour written `#...`, whitespace around it ignored.
pub open spec fn hex_digits_of(s: Seq<char>) -> Option<Seq<char>> {
    let v = trim_end(trim_start(s));
    if v.len() > 0 && v[0] == '#' {
        Some(v.skip(1))
    } else {
        None
    }
}

/// Whether cutting the digits `h` into their three components would cut a character in
/// two: the components are one byte each in a three-byte string and two bytes each in a
/// six-byte string.
pub open spec fn cuts_a_character(h: Seq<char>) -> bool {
    ||| byte_len(h) == 3 && !(is_boundary(h, 1) && is_boundary(h, 2))
    ||| byte_len(h) == 6 && !(is_boundary(h, 2) && is_boundary(h, 4))
}

/// The value of a hexadecimal digit.
pub open spec fn hex_digit_value(c: char) -> Option<u8> {
    let u = c as u32;
    if 0x30 <= u <= 0x39 {
        Some((u - 0x30) as u8)
    } else if 0x41 <= u <= 0x46 {
        Some((u - 0x41 + 10) as u8)
    } else if 0x61 <= u <= 0x66 {
        Some((u - 0x61 + 10) as u8)
    } else {
        None
    }
}

/// `u8::from_str_radix` on the two characters `a` `b` in base 16: an optional `+` and then
/// digits.
pub open spec fn hex_byte(a: char, b: char) -> Option<u8> {
    if a == '+' {
        hex_digit_value(b)
    } else {
        match (hex_digit_value(a), hex_digit_value(b)) {
            (Some(x), Some(y)) => Some((16 * x + y) as u8),
            _ => None,
        }
    }
}

/// The three components, where each is present.
pub open spec fn rgb(r: Option<u8>, g: Option<u8>, b: Option<u8>) -> Option<(u8, u8, u8)> {
    match (r, g, b) {
        (Some(r), Some(g), Some(b)) => Some((r, g, b)),
        _ => None,
    }
}

/// The colour that `#rgb` or `#rrggbb` (whitespace around it ignored) names; a short digit
/// stands for itself twice.
pub open spec fn hex_color(s: Seq<char>) -> Option<(u8, u8, u8)> {
    match hex_digits_of(s) {
        None => None,
        Some(h) => if !all_ascii(h) {
            None
        } else if h.len() == 3 {
            rgb(hex_byte(h[0], h[0]), hex_byte(h[1], h[1]), hex_byte(h[2], h[2]))
        } else if h.len() == 6 {
            rgb(hex_byte(h[0], h[1]), hex_byte(h[2], h[3]), hex_byte(h[4], h[5]))
        } else {
            None
        },
    }
}

fn hex_digit(c: char) -> (v: Option<u8>)
    ensures
        v == hex_digit_value(c),
{
    let u = c as u32;
    if 0x30 <= u && u <= 0x39 {
        Some((u - 0x30) as u8)
    } else if 0x41 <= u && u <= 0x46 {
        Some((u - 0x41 + 10) as u8)
    } else if 0x61 <= u && u <= 0x66 {
        Some((u - 0x61 + 10) as u8)
    } else {
        None
    }
}

fn parse_hex_byte(a: char, b: char) -> (v: Option<u8>)
    ensures
        v == hex_byte(a, b),
{
    if a == '+' {
        return hex_digit(b);
    }
    match (hex_digit(a), hex_digit(b)) {
        (Some(x), Some(y)) => Some(16 * x + y),
        _ => None,
    }
}

pub(crate) proof fn lemma_trim_start_skip(s: Seq<char>, k: int)
    requires
        0 <= k <= s.len(),
        forall|i: int| 0 <= i < k ==> is_white_space(#[trigger] s[i]),
        k == s.len() || !is_white_space(s[k]),
    ensures
        trim_start(s) == s.skip(k),
    decreases k,
{
    if k > 0 {
        lemma_trim_start_skip(s.drop_first(), k - 1);
        assert(s.drop_first().skip(k - 1) =~= s.skip(k));
    } else {
        assert(s.skip(0) =~= s);
    }
}

pub(crate) proof fn lemma_trim_end_take(s: Seq<char>, k: int)
    requires
        0 <= k <= s.len(),
        forall|i: int| k <= i < s.len() ==> is_white_space(#[trigger] s[i]),
        k == 0 || !is_white_space(s[k - 1]),
    ensures
        trim_end(s) == s.take(k),
    decreases s.len() - k,
{
    if k < s.len() {
        lemma_trim_end_take(s.drop_last(), k);
        assert(s.drop_last().take(k) =~= s.take(k));
    } else {
        assert(s.take(k) =~= s);
    }
}

/// Reads a colour written `#rgb` or `#rrggbb`, whitespace around it ignored, as
/// `hex_color` says.
pub fn parse_hex_color(input: &str) -> (color: Option<(u8, u8, u8)>)
    requires
        !(hex_digits_of(input@) matches Some(h) && cuts_a_character(h)),
    ensures
        color == hex_color(input@),
{
    let v = crate::path_data::chars_of(input);
    let n = v.len();
    let mut lo: usize = 0;
    while lo < n && is_white_space_char(v[lo])
        invariant
            lo <= n,
            n == v.len(),
            forall|i: int| 0 <= i < lo ==> is_white_space(#[trigger] v@[i]),
        decreases n - lo,
    {
        lo = lo + 1;
    }
    let mut hi: usize = n;
    while hi > lo && is_white_space_char(v[hi - 1])
        invariant
            lo <= hi <= n,
            n == v.len(),
            forall|i: int| hi <= i < n ==> is_white_space(#[trigger] v@[i]),
        decreases hi,
    {
        hi = hi - 1;
    }
    let ghost t = v@.subrange(lo as int, hi as int);
    proof {
        lemma_trim_start_skip(v@, lo as int);
        let s1 = v@.skip(lo as int);
        assert forall|i: int| hi - lo <= i < s1.len() implies is_white_space(#[trigger] s1[i]) by {
            assert(s1[i] == v@[lo + i]);
        }
        if hi > lo {
            assert(s1[hi - lo - 1] == v@[hi - 1]);
        }
        lemma_trim_end_take(s1, hi - lo);
        assert(s1.take(hi - lo) =~= t);
        assert(trim_end(trim_start(input@)) == t);
        if hi > lo {
            assert(t[0] == v@[lo as int]);
        }
    }
    if hi == lo || v[lo] != '#' {
        return None;
    }
    let ghost h = t.skip(1);
    proof {
        assert(h =~= v@.subrange(lo + 1, hi as int));
        assert(hex_digits_of(input@) == Some(h));
    }
    let mut k = lo + 1;
    while k < hi
        invariant
            lo < k <= hi <= n,
            n == v.len(),
            h == v@.subrange(lo + 1, hi as int),
            hex_digits_of(input@) == Some(h),
            forall|i: int| lo + 1 <= i < k ==> (#[trigger] v@[i] as u32) < 0x80,
        decreases hi - k,
    {
        if (v[k] as u32) >= 0x80 {
            proof {
                assert(h[k - lo - 1] == v@[k as int]);
            }
            return None;
        }
        k = k + 1;
    }
    proof {
        assert forall|i: int| 0 <= i < h.len() implies (#[trigger] h[i] as u32) < 0x80 by {
            assert(h[i] == v@[lo + 1 + i]);
        }
    }
    let len = hi - lo - 1;
    let d = lo + 1;
    if len == 3 {
        let r = parse_hex_byte(v[d], v[d]);
        let g = parse_hex_byte(v[d + 1], v[d + 1]);
        let b = parse_hex_byte(v[d + 2], v[d + 2]);
        proof {
            assert(h[0] == v@[d as int] && h[1] == v@[d + 1] && h[2] == v@[d + 2]);
        }
        match (r, g, b) {
            (Some(r), Some(g), Some(b)) => Some((r, g, b)),
            _ => None,
        }
    } else if len == 6 {
        let r = parse_hex_byte(v[d], v[d + 1]);
        let g = parse_hex_byte(v[d + 2], v[d + 3]);
        let b = parse_hex_byte(v[d + 4], v[d + 5]);
        proof {
            assert(h[0] == v@[d as int] && h[1] == v@[d + 1] && h[2] == v@[d + 2]);
            assert(h[3] == v@[d + 3] && h[4] == v@[d + 4] && h[5] == v@[d + 5]);
        }
        match (r, g, b) {
            (Some(r), Some(g), Some(b)) => Some((r, g, b)),
            _ => None,
        }
    } else {
        None
    }
}

/// The short form `#rgb` names the same colour as `#rrggbb`.
pub proof fn law_short_hex_color(r: char, g: char, b: char)
    requires
        hex_digit_value(r) is Some,
        hex_digit_value(g) is Some,
        hex_digit_value(b) is Some,
    ensures
        hex_color(seq!['#', r, g, b]) == hex_color(seq!['#', r, r, g, g, b, b]),
        hex_color(seq!['#', r, g, b]) is Some,
{
    let short = seq!['#', r, g, b];
    let long = seq!['#', r, r, g, g, b, b];
    assert(!is_white_space('#'));
    assert(trim_start(short) == short);
    assert(trim_end(short) == short);
    assert(trim_start(long) == long);
    assert(trim_end(long) == long);
    assert(short.skip(1) =~= seq![r, g, b]);
    assert(long.skip(1) =~= seq![r, r, g, g, b, b]);
}

} // verus!
