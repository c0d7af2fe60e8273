use vstd::prelude::*;

verus! {

/// The Unicode `White_Space` property, which is what `str::split_whitespace` splits on.
pub open spec fn is_white_space(c: char) -> bool {
    let u = c as u32;
    ||| 0x09 <= u <= 0x0D
    ||| u == 0x20
    ||| u == 0x85
    ||| u == 0xA0
    ||| u == 0x1680
    ||| 0x2000 <= u <= 0x200A
    ||| u == 0x2028
    ||| u == 0x2029
    ||| u == 0x202F
    ||| u == 0x205F
    ||| u == 0x3000
}

/// An ASCII letter, `A`..`Z` or `a`..`z`.
pub open spec fn is_ascii_letter(c: char) -> bool {
    let u = c as u32;
    (0x41 <= u <= 0x5A) || (0x61 <= u <= 0x7A)
}

/// What the path-data normaliser writes for one input character: a letter is set off by
/// spaces, a comma becomes a space, anything else is kept.
pub open spec fn normalized_char(c: char) -> Seq<char> {
    if is_ascii_letter(c) {
        seq![' ', c, ' ']
    } else if c == ',' {
        seq![' ']
    } else {
        seq![c]
    }
}

/// The normalised path data: every character of `s` replaced as `normalized_char` says.
pub open spec fn normalized_path_data(s: Seq<char>) -> Seq<char>
    decreases s.len(),
{
    if s.len() == 0 {
        seq![]
    } else {
        normalized_path_data(s.drop_last()) + normalized_char(s.last())
    }
}

/// Splitting state after reading `s`: the finished words and the word being read.
pub open spec fn split_state(s: Seq<char>) -> (Seq<Seq<char>>, Seq<char>)
    decreases s.len(),
{
    if s.len() == 0 {
        (seq![], seq![])
    } else {
        split_step(split_state(s.drop_last()), s.last())
    }
}

/// One character of splitting: whitespace ends the current word, anything else extends it.
pub open spec fn split_step(state: (Seq<Seq<char>>, Seq<char>), c: char) -> (
    Seq<Seq<char>>,
    Seq<char>,
) {
    if is_white_space(c) {
        if state.1.len() > 0 {
            (state.0.push(state.1), seq![])
        } else {
            state
        }
    } else {
        (state.0, state.1.push(c))
    }
}

/// The maximal runs of non-whitespace characters of `s`, in order.
pub open spec fn split_whitespace(s: Seq<char>) -> Seq<Seq<char>> {
    let state = split_state(s);
    if state.1.len() > 0 {
        state.0.push(state.1)
    } else {
        state.0
    }
}

/// The tokens of SVG path data `d`.
pub open spec fn path_tokens(d: Seq<char>) -> Seq<Seq<char>> {
    split_whitespace(normalized_path_data(d))
}

/// The character sequences of a list of strings.
pub open spec fn string_views(v: Seq<String>) -> Seq<Seq<char>> {
    v.map_values(|s: String| s@)
}

/// Appends a character to a string (`String::push`).
#[verifier::external_body]
pub(crate) fn push_char(s: &mut String, c: char)
    ensures
        final(s)@ == old(s)@.push(c),
{
    s.push(c);
}

pub(crate) fn is_white_space_char(c: char) -> (b: bool)
    ensures
        b == is_white_space(c),
{
    let u = c as u32;
    (0x09 <= u && u <= 0x0D) || u == 0x20 || u == 0x85 || u == 0xA0 || u == 0x1680 || (0x2000
        <= u && u <= 0x200A) || u == 0x2028 || u == 0x2029 || u == 0x202F || u == 0x205F || u
        == 0x3000
}

fn is_ascii_letter_char(c: char) -> (b: bool)
    ensures
        b == is_ascii_letter(c),
{
    let u = c as u32;
    (0x41 <= u && u <= 0x5A) || (0x61 <= u && u <= 0x7A)
}

proof fn lemma_split_state_push(s: Seq<char>, c: char)
    ensures
        split_state(s.push(c)) == split_step(split_state(s), c),
{
    assert(s.push(c).drop_last() =~= s);
}

proof fn lemma_normalized_push(s: Seq<char>, c: char)
    ensures
        normalized_path_data(s.push(c)) == normalized_path_data(s) + normalized_char(c),
{
    assert(s.push(c).drop_last() =~= s);
}

/// Feeds one character into the splitter held in `tokens` and `current`.
fn feed_char(tokens: &mut Vec<String>, current: &mut String, c: char)
    ensures
        (string_views(final(tokens)@), final(current)@) == split_step(
            (string_views(old(tokens)@), old(current)@),
            c,
        ),
{
    if is_white_space_char(c) {
        if current.unicode_len() > 0 {
            let mut word = String::new();
            std::mem::swap(current, &mut word);
            let ghost old_views = string_views(tokens@);
            tokens.push(word);
            proof {
                assert(string_views(tokens@) =~= old_views.push(word@));
            }
        }
    } else {
        push_char(current, c);
    }
}

/// Splits SVG path data into tokens: each command letter is a token of its own, and numbers
/// are separated by whitespace or commas.
pub fn tokenize_path_data(d: &str) -> (tokens: Vec<String>)
    ensures
        string_views(tokens@) == path_tokens(d@),
{
    let mut tokens: Vec<String> = Vec::new();
    let mut current = String::new();
    proof {
        assert(string_views(tokens@) =~= seq![]);
        assert(d@.take(0) =~= seq![]);
    }
    for c in it: d.chars()
        invariant
            it.seq() == d@,
            (string_views(tokens@), current@) == split_state(
                normalized_path_data(d@.take(it.index() as int)),
            ),
    {
        let ghost before = normalized_path_data(d@.take(it.index() as int));
        proof {
            assert(d@.take(it.index() + 1) =~= d@.take(it.index() as int).push(c));
            lemma_normalized_push(d@.take(it.index() as int), c);
        }
        if is_ascii_letter_char(c) {
            feed_char(&mut tokens, &mut current, ' ');
            proof { lemma_split_state_push(before, ' '); }
            feed_char(&mut tokens, &mut current, c);
            proof { lemma_split_state_push(before.push(' '), c); }
            feed_char(&mut tokens, &mut current, ' ');
            proof {
                lemma_split_state_push(before.push(' ').push(c), ' ');
                assert(before.push(' ').push(c).push(' ') =~= before + seq![' ', c, ' ']);
            }
        } else if c == ',' {
            feed_char(&mut tokens, &mut current, ' ');
            proof {
                lemma_split_state_push(before, ' ');
                assert(before.push(' ') =~= before + seq![' ']);
            }
        } else {
            feed_char(&mut tokens, &mut current, c);
            proof {
                lemma_split_state_push(before, c);
                assert(before.push(c) =~= before + seq![c]);
            }
        }
    }
    proof {
        assert(d@.take(d@.len() as int) =~= d@);
    }
    if current.unicode_len() > 0 {
        let ghost old_views = string_views(tokens@);
        tokens.push(current);
        proof {
            assert(string_views(tokens@) =~= old_views.push(current@));
        }
    }
    tokens
}

/// An ASCII decimal digit.
pub open spec fn is_decimal_digit(c: char) -> bool {
    0x30 <= (c as u32) <= 0x39
}

/// `c` with an ASCII capital letter turned into its small letter.
pub open spec fn ascii_lower(c: char) -> char {
    if 0x41 <= (c as u32) <= 0x5A {
        ((c as u32) + 32) as char
    } else {
        c
    }
}

/// `s` made of decimal digits only.
pub open spec fn all_digits(s: Seq<char>) -> bool {
    forall|i: int| 0 <= i < s.len() ==> is_decimal_digit(#[trigger] s[i])
}

/// `Digit+ | Digit+ '.' Digit* | Digit* '.' Digit+`: digits with at most one point among
/// them, and at least one digit.
pub open spec fn is_float_mantissa(s: Seq<char>) -> bool {
    &&& forall|i: int| 0 <= i < s.len() ==> is_decimal_digit(#[trigger] s[i]) || s[i] == '.'
    &&& forall|i: int, j: int| 0 <= i < j < s.len() && #[trigger] s[i] == '.' ==> #[trigger] s[j] != '.'
    &&& exists|i: int| 0 <= i < s.len() && is_decimal_digit(#[trigger] s[i])
}

/// `'e' Sign? Digit+`, the letter in either case.
pub open spec fn is_float_exponent(s: Seq<char>) -> bool {
    &&& s.len() >= 2
    &&& ascii_lower(s[0]) == 'e'
    &&& if s[1] == '+' || s[1] == '-' {
        s.len() >= 3 && all_digits(s.skip(2))
    } else {
        all_digits(s.skip(1))
    }
}

/// `Mantissa Exp?`
pub open spec fn is_float_number(s: Seq<char>) -> bool {
    ||| is_float_mantissa(s)
    ||| exists|k: int|
        0 < k < s.len() && is_float_mantissa(#[trigger] s.take(k)) && is_float_exponent(s.skip(k))
}

/// `s` with every ASCII capital turned into its small letter.
pub open spec fn lowered(s: Seq<char>) -> Seq<char> {
    s.map_values(|c: char| ascii_lower(c))
}

/// The words `inf`, `infinity` and `nan`, in any mix of cases.
pub open spec fn is_float_word(s: Seq<char>) -> bool {
    let l = lowered(s);
    l == seq!['i', 'n', 'f'] || l == seq!['i', 'n', 'f', 'i', 'n', 'i', 't', 'y'] || l == seq![
        'n',
        'a',
        'n',
    ]
}

/// The strings that `str::parse` accepts as a floating-point number, as its documentation
/// gives them: `Sign? ('inf' | 'infinity' | 'nan' | Number)` after turning capitals into
/// small letters; whitespace anywhere is an error.
pub open spec fn is_float_literal(s: Seq<char>) -> bool {
    if s.len() > 0 && (s[0] == '+' || s[0] == '-') {
        is_float_word(s.skip(1)) || is_float_number(s.skip(1))
    } else {
        is_float_word(s) || is_float_number(s)
    }
}

/// The characters of `s`, in order.
pub(crate) fn chars_of(s: &str) -> (v: Vec<char>)
    ensures
        v@ == s@,
{
    let mut v: Vec<char> = Vec::new();
    for c in it: s.chars()
        invariant
            it.seq() == s@,
            v@ == s@.take(it.index() as int),
    {
        proof {
            assert(s@.take(it.index() + 1) =~= s@.take(it.index() as int).push(c));
        }
        v.push(c);
    }
    proof {
        assert(s@.take(s@.len() as int) =~= s@);
    }
    v
}

fn is_digit_char(c: char) -> (b: bool)
    ensures
        b == is_decimal_digit(c),
{
    let u = c as u32;
    0x30 <= u && u <= 0x39
}

fn lower_char(c: char) -> (l: char)
    ensures
        l == ascii_lower(c),
{
    if 'A' <= c && c <= 'Z' {
        let u = ((c as u32) + 32) as u8;
        u as char
    } else {
        c
    }
}

/// Whether `v[lo..hi]` is a mantissa.
fn mantissa_at(v: &Vec<char>, lo: usize, hi: usize) -> (b: bool)
    requires
        lo <= hi <= v.len(),
    ensures
        b == is_float_mantissa(v@.subrange(lo as int, hi as int)),
{
    let ghost s = v@.subrange(lo as int, hi as int);
    let mut i = lo;
    let mut dot: Option<usize> = None;
    let mut digit: Option<usize> = None;
    while i < hi
        invariant
            lo <= i <= hi <= v.len(),
            s == v@.subrange(lo as int, hi as int),
            forall|k: int| 0 <= k < i - lo ==> is_decimal_digit(#[trigger] s[k]) || s[k] == '.',
            match dot {
                Some(p) => lo <= p < i && s[p - lo] == '.' && forall|k: int|
                    0 <= k < i - lo && k != p - lo ==> #[trigger] s[k] != '.',
                None => forall|k: int| 0 <= k < i - lo ==> #[trigger] s[k] != '.',
            },
            match digit {
                Some(p) => lo <= p < i && is_decimal_digit(s[p - lo]),
                None => forall|k: int| 0 <= k < i - lo ==> !is_decimal_digit(#[trigger] s[k]),
            },
        decreases hi - i,
    {
        let c = v[i];
        assert(s[i - lo] == c);
        if is_digit_char(c) {
            digit = Some(i);
        } else if c == '.' {
            if dot.is_some() {
                proof {
                    let p = dot.unwrap();
                    assert(s[p - lo] == '.' && s[i - lo] == '.');
                }
                return false;
            }
            dot = Some(i);
        } else {
            proof {
                assert(!(is_decimal_digit(s[i - lo]) || s[i - lo] == '.'));
            }
            return false;
        }
        i = i + 1;
    }
    proof {
        if let Some(p) = digit {
            assert(is_decimal_digit(s[p - lo]));
        }
    }
    digit.is_some()
}

/// Whether `v[lo..hi]` is made of digits only.
fn digits_at(v: &Vec<char>, lo: usize, hi: usize) -> (b: bool)
    requires
        lo <= hi <= v.len(),
    ensures
        b == all_digits(v@.subrange(lo as int, hi as int)),
{
    let ghost s = v@.subrange(lo as int, hi as int);
    let mut i = lo;
    while i < hi
        invariant
            lo <= i <= hi <= v.len(),
            s == v@.subrange(lo as int, hi as int),
            forall|k: int| 0 <= k < i - lo ==> is_decimal_digit(#[trigger] s[k]),
        decreases hi - i,
    {
        assert(s[i - lo] == v@[i as int]);
        if !is_digit_char(v[i]) {
            return false;
        }
        i = i + 1;
    }
    true
}

/// Whether `v[lo..hi]` is an exponent.
fn exponent_at(v: &Vec<char>, lo: usize, hi: usize) -> (b: bool)
    requires
        lo <= hi <= v.len(),
    ensures
        b == is_float_exponent(v@.subrange(lo as int, hi as int)),
{
    let ghost s = v@.subrange(lo as int, hi as int);
    if hi - lo < 2 {
        return false;
    }
    if lower_char(v[lo]) != 'e' {
        return false;
    }
    if v[lo + 1] == '+' || v[lo + 1] == '-' {
        if hi - lo < 3 {
            return false;
        }
        let r = digits_at(v, lo + 2, hi);
        proof {
            assert(s.skip(2) =~= v@.subrange(lo + 2, hi as int));
        }
        r
    } else {
        let r = digits_at(v, lo + 1, hi);
        proof {
            assert(s.skip(1) =~= v@.subrange(lo + 1, hi as int));
        }
        r
    }
}

/// Whether `v[lo..hi]` is a number: a mantissa, maybe followed by an exponent. The exponent
/// can only begin at the first `e` or `E`, since a mantissa holds neither.
fn number_at(v: &Vec<char>, lo: usize, hi: usize) -> (b: bool)
    requires
        lo <= hi <= v.len(),
    ensures
        b == is_float_number(v@.subrange(lo as int, hi as int)),
{
    let ghost s = v@.subrange(lo as int, hi as int);
    let mut k = lo;
    while k < hi && lower_char(v[k]) != 'e'
        invariant
            lo <= k <= hi <= v.len(),
            s == v@.subrange(lo as int, hi as int),
            forall|j: int| 0 <= j < k - lo ==> ascii_lower(#[trigger] s[j]) != 'e',
        decreases hi - k,
    {
        assert(s[k - lo] == v@[k as int]);
        k = k + 1;
    }
    if k == hi {
        let m = mantissa_at(v, lo, hi);
        proof {
            if !m {
                assert forall|q: int| 0 < q < s.len() && is_float_mantissa(#[trigger] s.take(q))
                    implies !is_float_exponent(s.skip(q)) by {
                    assert(s.skip(q)[0] == s[q]);
                }
            }
        }
        m
    } else {
        proof {
            assert(s[k - lo] == v@[k as int]);
            assert(ascii_lower(s[k - lo]) == 'e');
            assert(!is_decimal_digit(s[k - lo]) && s[k - lo] != '.');
            // the whole range is no mantissa: it holds an `e`
            assert(!is_float_mantissa(s));
        }
        if k == lo {
            proof {
                assert forall|q: int| 0 < q < s.len() && is_float_mantissa(#[trigger] s.take(q))
                    implies !is_float_exponent(s.skip(q)) by {
                    assert(s.take(q)[0] == s[0]);
                }
            }
            return false;
        }
        let m = mantissa_at(v, lo, k);
        let e = exponent_at(v, k, hi);
        proof {
            let kk = k - lo;
            assert(s.take(kk) =~= v@.subrange(lo as int, k as int));
            assert(s.skip(kk) =~= v@.subrange(k as int, hi as int));
            assert forall|q: int|
                0 < q < s.len() && is_float_mantissa(#[trigger] s.take(q)) && is_float_exponent(
                    s.skip(q),
                ) implies q == kk by {
                if q < kk {
                    assert(s.skip(q)[0] == s[q]);
                    assert(ascii_lower(s[q]) != 'e');
                } else if q > kk {
                    assert(s.take(q)[kk] == s[kk]);
                }
            }
        }
        m && e
    }
}

/// Whether `v[lo..hi]` is `inf`, `infinity` or `nan` in any mix of cases.
fn word_at(v: &Vec<char>, lo: usize, hi: usize) -> (b: bool)
    requires
        lo <= hi <= v.len(),
    ensures
        b == is_float_word(v@.subrange(lo as int, hi as int)),
{
    let ghost s = v@.subrange(lo as int, hi as int);
    let ghost l = lowered(s);
    let n = hi - lo;
    if n == 3 {
        let a = lower_char(v[lo]);
        let b = lower_char(v[lo + 1]);
        let c = lower_char(v[lo + 2]);
        proof {
            assert(l[0] == a && l[1] == b && l[2] == c);
            assert(l.len() == 3);
            if a == 'i' && b == 'n' && c == 'f' {
                assert(l =~= seq!['i', 'n', 'f']);
            }
            if a == 'n' && b == 'a' && c == 'n' {
                assert(l =~= seq!['n', 'a', 'n']);
            }
        }
        (a == 'i' && b == 'n' && c == 'f') || (a == 'n' && b == 'a' && c == 'n')
    } else if n == 8 {
        let ghost w = seq!['i', 'n', 'f', 'i', 'n', 'i', 't', 'y'];
        proof {
            assert(l.len() != seq!['i', 'n', 'f'].len());
            assert(l.len() != seq!['n', 'a', 'n'].len());
        }
        let word = ['i', 'n', 'f', 'i', 'n', 'i', 't', 'y'];
        let mut j: usize = 0;
        while j < 8
            invariant
                j <= 8,
                hi - lo == 8,
                lo <= hi <= v.len(),
                s == v@.subrange(lo as int, hi as int),
                l == lowered(s),
                word@ == w,
                w == seq!['i', 'n', 'f', 'i', 'n', 'i', 't', 'y'],
                forall|q: int| 0 <= q < j ==> l[q] == w[q],
            decreases 8 - j,
        {
            assert(l[j as int] == ascii_lower(v@[lo + j]));
            if lower_char(v[lo + j]) != word[j] {
                proof {
                    assert(l[j as int] != w[j as int]);
                    assert(l.len() == 8);
                    assert(l != w);
                    assert(l.len() != seq!['i', 'n', 'f'].len());
                    assert(l.len() != seq!['n', 'a', 'n'].len());
                    assert(l != seq!['i', 'n', 'f', 'i', 'n', 'i', 't', 'y']);
                    assert(l != seq!['i', 'n', 'f']);
                    assert(l != seq!['n', 'a', 'n']);
                    assert(!is_float_word(s));
                }
                return false;
            }
            j = j + 1;
        }
        proof {
            assert(l =~= w);
        }
        true
    } else {
        proof {
            assert(l.len() == n);
            assert(l.len() != seq!['i', 'n', 'f'].len());
            assert(l.len() != seq!['n', 'a', 'n'].len());
            assert(l.len() != seq!['i', 'n', 'f', 'i', 'n', 'i', 't', 'y'].len());
        }
        false
    }
}

/// Whether `s` reads as a floating-point number under `str::parse`, by the grammar that its
/// documentation gives.
pub fn parses_as_float(s: &str) -> (b: bool)
    ensures
        b == is_float_literal(s@),
{
    let v = chars_of(s);
    let n = v.len();
    if n > 0 && (v[0] == '+' || v[0] == '-') {
        let w = word_at(&v, 1, n);
        let m = number_at(&v, 1, n);
        proof {
            assert(s@.skip(1) =~= v@.subrange(1, n as int));
        }
        w || m
    } else {
        let w = word_at(&v, 0, n);
        let m = number_at(&v, 0, n);
        proof {
            assert(s@ =~= v@.subrange(0, n as int));
        }
        w || m
    }
}

/// How one vertex of a polygon path is computed from the tokens: by the index of the token
/// (or tokens) that hold its coordinates, and whether they are absolute or relative to the
/// previous vertex. A coordinate that a step does not name keeps its previous value.
#[derive(Clone, Copy, PartialEq, Eq, Debug)]
pub enum PathStep {
    /// Both coordinates given absolutely (`M`, `L`).
    Absolute { x: usize, y: usize },
    /// Both coordinates given relative to the previous vertex (`m`, `l`).
    Relative { x: usize, y: usize },
    /// The x coordinate given absolutely (`H`).
    HorizontalAbsolute { x: usize },
    /// The x coordinate given relative to the previous vertex (`h`).
    HorizontalRelative { x: usize },
    /// The y coordinate given absolutely (`V`).
    VerticalAbsolute { y: usize },
    /// The y coordinate given relative to the previous vertex (`v`).
    VerticalRelative { y: usize },
}

/// The path commands that the polygon parser understands.
pub open spec fn is_path_command(c: char) -> bool {
    c == 'M' || c == 'm' || c == 'L' || c == 'l' || c == 'H' || c == 'h' || c == 'V' || c == 'v'
        || c == 'Z' || c == 'z'
}

/// A token that is a single path command letter.
pub open spec fn is_command_token(t: Seq<char>) -> bool {
    t.len() == 1 && is_path_command(t[0])
}

/// The vertices of a polygon path, read from token `i` on with `command` in force.
/// `numeric[k]` says whether token `k` reads as a number. A move command that has read its
/// first pair turns into the line command of the same kind; `Z` or `z` ends the path, and so
/// does a command whose coordinates are missing or not numbers.
pub open spec fn plan_from(tokens: Seq<Seq<char>>, numeric: Seq<bool>, i: nat, command: char) -> Seq<
    PathStep,
>
    decreases tokens.len() - i, 1nat,
{
    if i >= tokens.len() {
        seq![]
    } else if is_command_token(tokens[i as int]) {
        let c = tokens[i as int][0];
        if c == 'Z' || c == 'z' {
            seq![]
        } else {
            plan_from(tokens, numeric, i + 1, c)
        }
    } else {
        plan_operand(tokens, numeric, i, command)
    }
}

/// The vertices of a polygon path when token `i` is not a command: the operands of `command`.
pub open spec fn plan_operand(tokens: Seq<Seq<char>>, numeric: Seq<bool>, i: nat, command: char) -> Seq<
    PathStep,
>
    decreases tokens.len() - i, 0nat,
{
    if i >= tokens.len() {
        seq![]
    } else if command == 'M' || command == 'L' || command == 'm' || command == 'l' {
        if i + 1 < tokens.len() && numeric[i as int] && numeric[i + 1int] {
            let step = if command == 'M' || command == 'L' {
                PathStep::Absolute { x: i as usize, y: (i + 1) as usize }
            } else {
                PathStep::Relative { x: i as usize, y: (i + 1) as usize }
            };
            let next = if command == 'M' {
                'L'
            } else if command == 'm' {
                'l'
            } else {
                command
            };
            seq![step] + plan_from(tokens, numeric, i + 2, next)
        } else {
            seq![]
        }
    } else if command == 'H' || command == 'h' || command == 'V' || command == 'v' {
        if numeric[i as int] {
            let step = if command == 'H' {
                PathStep::HorizontalAbsolute { x: i as usize }
            } else if command == 'h' {
                PathStep::HorizontalRelative { x: i as usize }
            } else if command == 'V' {
                PathStep::VerticalAbsolute { y: i as usize }
            } else {
                PathStep::VerticalRelative { y: i as usize }
            };
            seq![step] + plan_from(tokens, numeric, i + 1, command)
        } else {
            seq![]
        }
    } else {
        plan_from(tokens, numeric, i + 1, command)
    }
}

/// The vertices of a polygon path given as tokens, starting with an implicit `M`.
pub open spec fn polygon_path_plan(tokens: Seq<Seq<char>>, numeric: Seq<bool>) -> Seq<PathStep> {
    plan_from(tokens, numeric, 0, 'M')
}

/// Which of the tokens read as numbers.
pub open spec fn numeric_tokens(tokens: Seq<Seq<char>>) -> Seq<bool> {
    tokens.map_values(|t: Seq<char>| is_float_literal(t))
}

/// The single character of a one-character token, if it is one.
fn single_char(t: &String) -> (r: Option<char>)
    ensures
        r == (if t@.len() == 1 {
            Some(t@[0])
        } else {
            None::<char>
        }),
{
    let s = t.as_str();
    if s.unicode_len() == 1 {
        Some(s.get_char(0))
    } else {
        None
    }
}

/// Reads the vertices of a polygon path from its tokens, given which tokens are numbers.
/// Only `M`, `L`, `H`, `V` (absolute) and their relative forms are understood; `Z` ends
/// the path.
pub fn plan_polygon_path(tokens: &Vec<String>, numeric: &Vec<bool>) -> (steps: Vec<PathStep>)
    requires
        numeric.len() == tokens.len(),
    ensures
        steps@ == polygon_path_plan(string_views(tokens@), numeric@),
{
    let ghost tv = string_views(tokens@);
    let n = tokens.len();
    let mut steps: Vec<PathStep> = Vec::new();
    let mut i: usize = 0;
    let mut command: char = 'M';
    while i < n
        invariant
            n == tokens.len(),
            numeric.len() == n,
            tv == string_views(tokens@),
            tv.len() == n,
            i <= n,
            steps@ + plan_from(tv, numeric@, i as nat, command) == polygon_path_plan(
                tv,
                numeric@,
            ),
        decreases n - i,
    {
        let head = single_char(&tokens[i]);
        proof {
            assert(tv[i as int] == tokens@[i as int]@);
        }
        let is_command = match head {
            Some(c) => c == 'M' || c == 'm' || c == 'L' || c == 'l' || c == 'H' || c == 'h'
                || c == 'V' || c == 'v' || c == 'Z' || c == 'z',
            None => false,
        };
        if is_command {
            let c = head.unwrap();
            if c == 'Z' || c == 'z' {
                proof {
                    assert(steps@ + seq![] =~= steps@);
                }
                return steps;
            }
            command = c;
            i = i + 1;
            continue;
        }
        proof {
            assert(!is_command_token(tv[i as int]));
            assert(plan_from(tv, numeric@, i as nat, command) == plan_operand(
                tv,
                numeric@,
                i as nat,
                command,
            ));
        }
        if command == 'M' || command == 'L' || command == 'm' || command == 'l' {
            if i + 1 < n && numeric[i] && numeric[i + 1] {
                let step = if command == 'M' || command == 'L' {
                    PathStep::Absolute { x: i, y: i + 1 }
                } else {
                    PathStep::Relative { x: i, y: i + 1 }
                };
                let ghost old_steps = steps@;
                let ghost next = if command == 'M' {
                    'L'
                } else if command == 'm' {
                    'l'
                } else {
                    command
                };
                steps.push(step);
                proof {
                    assert(old_steps + (seq![step] + plan_from(tv, numeric@, (i + 2) as nat, next))
                        =~= steps@ + plan_from(tv, numeric@, (i + 2) as nat, next));
                }
                if command == 'M' {
                    command = 'L';
                } else if command == 'm' {
                    command = 'l';
                }
                i = i + 2;
            } else {
                proof {
                    assert(steps@ + seq![] =~= steps@);
                }
                return steps;
            }
        } else if command == 'H' || command == 'h' || command == 'V' || command == 'v' {
            if numeric[i] {
                let step = if command == 'H' {
                    PathStep::HorizontalAbsolute { x: i }
                } else if command == 'h' {
                    PathStep::HorizontalRelative { x: i }
                } else if command == 'V' {
                    PathStep::VerticalAbsolute { y: i }
                } else {
                    PathStep::VerticalRelative { y: i }
                };
                let ghost old_steps = steps@;
                steps.push(step);
                proof {
                    assert(old_steps + (seq![step] + plan_from(tv, numeric@, (i + 1) as nat, command))
                        =~= steps@ + plan_from(tv, numeric@, (i + 1) as nat, command));
                }
                i = i + 1;
            } else {
                proof {
                    assert(steps@ + seq![] =~= steps@);
                }
                return steps;
            }
        } else {
            i = i + 1;
        }
    }
    proof {
        assert(steps@ + seq![] =~= steps@);
    }
    steps
}

/// Reads the vertices of a simple polygon from SVG path data: the data is tokenized, each
/// token checked for being a number, and the tokens read as `plan_polygon_path` says.
pub fn parse_simple_polygon_path(d: &str) -> (steps: Vec<PathStep>)
    ensures
        steps@ == polygon_path_plan(path_tokens(d@), numeric_tokens(path_tokens(d@))),
{
    let tokens = tokenize_path_data(d);
    let mut numeric: Vec<bool> = Vec::new();
    let mut k: usize = 0;
    while k < tokens.len()
        invariant
            k <= tokens.len(),
            numeric@ == numeric_tokens(string_views(tokens@)).take(k as int),
        decreases tokens.len() - k,
    {
        let b = parses_as_float(tokens[k].as_str());
        proof {
            assert(string_views(tokens@)[k as int] == tokens@[k as int]@);
        }
        numeric.push(b);
        proof {
            assert(numeric@ =~= numeric_tokens(string_views(tokens@)).take(k + 1));
        }
        k = k + 1;
    }
    proof {
        assert(numeric@ =~= numeric_tokens(string_views(tokens@)));
    }
    plan_polygon_path(&tokens, &numeric)
}

/// A well-formed token: not empty, no whitespace in it, and a letter only as a token of
/// its own.
pub open spec fn token_ok(t: Seq<char>) -> bool {
    &&& t.len() > 0
    &&& forall|i: int| 0 <= i < t.len() ==> !is_white_space(#[trigger] t[i])
    &&& forall|i: int| 0 <= i < t.len() && is_ascii_letter(#[trigger] t[i]) ==> t.len() == 1
}

/// Splitting state between two characters of the input: finished words well formed, and
/// the word being read free of whitespace and letters.
spec fn state_ok(st: (Seq<Seq<char>>, Seq<char>)) -> bool {
    &&& forall|k: int| 0 <= k < st.0.len() ==> token_ok(#[trigger] st.0[k])
    &&& forall|i: int|
        0 <= i < st.1.len() ==> !is_white_space(#[trigger] st.1[i]) && !is_ascii_letter(st.1[i])
}

proof fn lemma_normalized_char_ok(s: Seq<char>, c: char)
    requires
        state_ok(split_state(s)),
    ensures
        state_ok(split_state(s + normalized_char(c))),
{
    let st = split_state(s);
    if is_ascii_letter(c) {
        assert(!is_white_space(c));
        let s1 = s.push(' ');
        let s2 = s1.push(c);
        let s3 = s2.push(' ');
        assert(s + normalized_char(c) =~= s3);
        lemma_split_state_push(s, ' ');
        lemma_split_state_push(s1, c);
        lemma_split_state_push(s2, ' ');
        let st1 = split_state(s1);
        assert(st1.1.len() == 0);
        let st2 = split_state(s2);
        assert(st2.1 =~= seq![c]);
        let st3 = split_state(s3);
        assert(st3.0 == st2.0.push(seq![c]));
        assert(token_ok(seq![c]));
    } else if c == ',' {
        assert(s + normalized_char(c) =~= s.push(' '));
        lemma_split_state_push(s, ' ');
    } else {
        assert(s + normalized_char(c) =~= s.push(c));
        lemma_split_state_push(s, c);
    }
}

proof fn lemma_state_ok(d: Seq<char>)
    ensures
        state_ok(split_state(normalized_path_data(d))),
    decreases d.len(),
{
    if d.len() == 0 {
        assert(normalized_path_data(d) =~= seq![]);
    } else {
        lemma_state_ok(d.drop_last());
        assert(d.drop_last().push(d.last()) =~= d);
        lemma_normalized_push(d.drop_last(), d.last());
        lemma_normalized_char_ok(normalized_path_data(d.drop_last()), d.last());
    }
}

/// Every token of path data is well formed: not empty, free of whitespace, and a command
/// letter always a token of its own.
pub proof fn law_path_tokens_well_formed(d: Seq<char>)
    ensures
        forall|k: int| 0 <= k < path_tokens(d).len() ==> token_ok(#[trigger] path_tokens(d)[k]),
{
    lemma_state_ok(d);
    let st = split_state(normalized_path_data(d));
    if st.1.len() > 0 {
        assert forall|k: int| 0 <= k < path_tokens(d).len() implies token_ok(
            #[trigger] path_tokens(d)[k],
        ) by {
            if k == st.0.len() {
                assert(path_tokens(d)[k] == st.1);
            }
        }
    }
}

/// A vertex step that reads its coordinates from tokens that exist and are numbers.
pub open spec fn step_reads_numbers(step: PathStep, numeric: Seq<bool>) -> bool {
    match step {
        PathStep::Absolute { x, y } | PathStep::Relative { x, y } => x < numeric.len() && y
            < numeric.len() && numeric[x as int] && numeric[y as int],
        PathStep::HorizontalAbsolute { x } | PathStep::HorizontalRelative { x } => x
            < numeric.len() && numeric[x as int],
        PathStep::VerticalAbsolute { y } | PathStep::VerticalRelative { y } => y < numeric.len()
            && numeric[y as int],
    }
}

proof fn lemma_plan_reads_numbers(
    tokens: Seq<Seq<char>>,
    numeric: Seq<bool>,
    i: nat,
    command: char,
    operand: bool,
)
    requires
        numeric.len() == tokens.len(),
        tokens.len() <= usize::MAX,
    ensures
        operand ==> forall|k: int|
            0 <= k < plan_operand(tokens, numeric, i, command).len() ==> step_reads_numbers(
                #[trigger] plan_operand(tokens, numeric, i, command)[k],
                numeric,
            ),
        operand ==> plan_operand(tokens, numeric, i, command).len() <= tokens.len() - i || (i
            >= tokens.len() && plan_operand(tokens, numeric, i, command).len() == 0),
        !operand ==> forall|k: int|
            0 <= k < plan_from(tokens, numeric, i, command).len() ==> step_reads_numbers(
                #[trigger] plan_from(tokens, numeric, i, command)[k],
                numeric,
            ),
        !operand ==> plan_from(tokens, numeric, i, command).len() <= tokens.len() - i || (i
            >= tokens.len() && plan_from(tokens, numeric, i, command).len() == 0),
    decreases tokens.len() - i, (if operand {
        0nat
    } else {
        1nat
    }),
{
    if i >= tokens.len() {
    } else if !operand && is_command_token(tokens[i as int]) {
        let c = tokens[i as int][0];
        if !(c == 'Z' || c == 'z') {
            lemma_plan_reads_numbers(tokens, numeric, i + 1, c, false);
        }
    } else if !operand {
        lemma_plan_reads_numbers(tokens, numeric, i, command, true);
    } else if command == 'M' || command == 'L' || command == 'm' || command == 'l' {
        if i + 1 < tokens.len() && numeric[i as int] && numeric[i + 1int] {
            let next = if command == 'M' {
                'L'
            } else if command == 'm' {
                'l'
            } else {
                command
            };
            lemma_plan_reads_numbers(tokens, numeric, i + 2, next, false);
            let p = plan_operand(tokens, numeric, i, command);
            let rest = plan_from(tokens, numeric, i + 2, next);
            let step = if command == 'M' || command == 'L' {
                PathStep::Absolute { x: i as usize, y: (i + 1) as usize }
            } else {
                PathStep::Relative { x: i as usize, y: (i + 1) as usize }
            };
            assert(p == seq![step] + rest);
            assert(step_reads_numbers(step, numeric));
            assert forall|k: int| 0 <= k < p.len() implies step_reads_numbers(
                #[trigger] p[k],
                numeric,
            ) by {
                if k > 0 {
                    assert(p[k] == rest[k - 1]);
                } else {
                    assert(p[0] == step);
                }
            }
        }
    } else if command == 'H' || command == 'h' || command == 'V' || command == 'v' {
        if numeric[i as int] {
            lemma_plan_reads_numbers(tokens, numeric, i + 1, command, false);
            let p = plan_operand(tokens, numeric, i, command);
            let rest = plan_from(tokens, numeric, i + 1, command);
            let step = if command == 'H' {
                PathStep::HorizontalAbsolute { x: i as usize }
            } else if command == 'h' {
                PathStep::HorizontalRelative { x: i as usize }
            } else if command == 'V' {
                PathStep::VerticalAbsolute { y: i as usize }
            } else {
                PathStep::VerticalRelative { y: i as usize }
            };
            assert(p == seq![step] + rest);
            assert(step_reads_numbers(step, numeric));
            assert forall|k: int| 0 <= k < p.len() implies step_reads_numbers(
                #[trigger] p[k],
                numeric,
            ) by {
                if k > 0 {
                    assert(p[k] == rest[k - 1]);
                } else {
                    assert(p[0] == step);
                }
            }
        }
    } else {
        lemma_plan_reads_numbers(tokens, numeric, i + 1, command, false);
    }
}

/// Every vertex of a polygon path is read from tokens that exist and are numbers, and a
/// path has no more vertices than tokens.
pub proof fn law_plan_reads_numbers(tokens: Seq<Seq<char>>, numeric: Seq<bool>)
    requires
        numeric.len() == tokens.len(),
        tokens.len() <= usize::MAX,
    ensures
        forall|k: int|
            0 <= k < polygon_path_plan(tokens, numeric).len() ==> step_reads_numbers(
                #[trigger] polygon_path_plan(tokens, numeric)[k],
                numeric,
            ),
        polygon_path_plan(tokens, numeric).len() <= tokens.len(),
{
    lemma_plan_reads_numbers(tokens, numeric, 0, 'M', false);
    assert(polygon_path_plan(tokens, numeric) == plan_from(tokens, numeric, 0, 'M'));
}

} // verus!
