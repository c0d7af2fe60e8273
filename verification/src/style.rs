use vstd::prelude::*;

use crate::color::{lemma_trim_end_take, lemma_trim_start_skip, trim_end, trim_start};
use crate::paint::{is_length, paint_color, parse_paint_color, svg_length_parses, svg_paint, PaintValue};
use crate::path_data::{
    chars_of, is_float_literal, is_white_space, is_white_space_char, parses_as_float, push_char,
};

verus! {

/// `s` with whitespace removed at both ends (`str::trim`).
pub open spec fn trimmed(s: Seq<char>) -> Seq<char> {
    trim_end(trim_start(s))
}

/// The pieces of `s` between the occurrences of `sep` (`str::split`): one more piece than
/// there are separators, empty pieces included.
pub open spec fn split_on(s: Seq<char>, sep: char) -> Seq<Seq<char>> {
    let st = split_on_state(s, sep);
    st.0.push(st.1)
}

/// The pieces finished, and the piece being read, after reading `s`.
pub open spec fn split_on_state(s: Seq<char>, sep: char) -> (Seq<Seq<char>>, Seq<char>)
    decreases s.len(),
{
    if s.len() == 0 {
        (seq![], seq![])
    } else {
        let st = split_on_state(s.drop_last(), sep);
        if s.last() == sep {
            (st.0.push(st.1), seq![])
        } else {
            (st.0, st.1.push(s.last()))
        }
    }
}

/// A style declaration `key: value`, both trimmed; without a colon, the whole piece is the
/// key and the value is empty.
pub open spec fn declaration(item: Seq<char>) -> (Seq<char>, Seq<char>) {
    if exists|p: int| 0 <= p < item.len() && item[p] == ':' {
        let p = choose|p: int|
            0 <= p < item.len() && item[p] == ':' && forall|q: int|
                0 <= q < p ==> #[trigger] item[q] != ':';
        (trimmed(item.take(p)), trimmed(item.skip(p + 1)))
    } else {
        (trimmed(item), seq![])
    }
}

/// The declarations of a style attribute: its pieces between semicolons, each read as
/// `declaration` says.
pub open spec fn style_declarations_spec(style: Seq<char>) -> Seq<(Seq<char>, Seq<char>)> {
    split_on(style, ';').map_values(|item: Seq<char>| declaration(item))
}

/// The characters `v[lo..hi]` as a string.
fn string_of(v: &Vec<char>, lo: usize, hi: usize) -> (s: String)
    requires
        lo <= hi <= v.len(),
    ensures
        s@ == v@.subrange(lo as int, hi as int),
{
    let mut s = String::new();
    let mut i = lo;
    while i < hi
        invariant
            lo <= i <= hi <= v.len(),
            s@ == v@.subrange(lo as int, i as int),
        decreases hi - i,
    {
        push_char(&mut s, v[i]);
        proof {
            assert(s@ =~= v@.subrange(lo as int, i + 1));
        }
        i = i + 1;
    }
    s
}

/// `v[lo..hi]` trimmed, as a string.
fn trimmed_string(v: &Vec<char>, lo: usize, hi: usize) -> (s: String)
    requires
        lo <= hi <= v.len(),
    ensures
        s@ == trimmed(v@.subrange(lo as int, hi as int)),
{
    let ghost t = v@.subrange(lo as int, hi as int);
    let mut a = lo;
    while a < hi && is_white_space_char(v[a])
        invariant
            lo <= a <= hi <= v.len(),
            forall|i: int| lo <= i < a ==> is_white_space(#[trigger] v@[i]),
        decreases hi - a,
    {
        a = a + 1;
    }
    let mut b = hi;
    while b > a && is_white_space_char(v[b - 1])
        invariant
            lo <= a <= b <= hi <= v.len(),
            forall|i: int| b <= i < hi ==> is_white_space(#[trigger] v@[i]),
        decreases b,
    {
        b = b - 1;
    }
    proof {
        assert forall|i: int| 0 <= i < a - lo implies is_white_space(#[trigger] t[i]) by {
            assert(t[i] == v@[lo + i]);
        }
        if a < hi {
            assert(t[a - lo] == v@[a as int]);
        }
        lemma_trim_start_skip(t, a - lo);
        let s1 = t.skip(a - lo);
        assert forall|i: int| b - a <= i < s1.len() implies is_white_space(#[trigger] s1[i]) by {
            assert(s1[i] == v@[a + i]);
        }
        if b > a {
            assert(s1[b - a - 1] == v@[b - 1]);
        }
        lemma_trim_end_take(s1, b - a);
        assert(s1.take(b - a) =~= v@.subrange(a as int, b as int));
    }
    string_of(v, a, b)
}

proof fn lemma_split_on_push(s: Seq<char>, c: char, sep: char)
    ensures
        split_on_state(s.push(c), sep) == (if c == sep {
            (split_on_state(s, sep).0.push(split_on_state(s, sep).1), seq![])
        } else {
            (split_on_state(s, sep).0, split_on_state(s, sep).1.push(c))
        }),
{
    assert(s.push(c).drop_last() =~= s);
}

/// Reads the declaration `v[lo..hi]`.
fn read_declaration(v: &Vec<char>, lo: usize, hi: usize) -> (d: (String, String))
    requires
        lo <= hi <= v.len(),
    ensures
        (d.0@, d.1@) == declaration(v@.subrange(lo as int, hi as int)),
{
    let ghost item = v@.subrange(lo as int, hi as int);
    let mut p = lo;
    while p < hi && v[p] != ':'
        invariant
            lo <= p <= hi <= v.len(),
            forall|q: int| lo <= q < p ==> #[trigger] v@[q] != ':',
        decreases hi - p,
    {
        p = p + 1;
    }
    if p == hi {
        proof {
            assert forall|q: int| 0 <= q < item.len() implies item[q] != ':' by {
                assert(item[q] == v@[lo + q]);
            }
        }
        let key = trimmed_string(v, lo, hi);
        return (key, String::new());
    }
    let key = trimmed_string(v, lo, p);
    let value = trimmed_string(v, p + 1, hi);
    proof {
        let pp = p - lo;
        assert(item[pp] == ':');
        assert forall|q: int| 0 <= q < pp implies #[trigger] item[q] != ':' by {
            assert(item[q] == v@[lo + q]);
        }
        let c = choose|c: int|
            0 <= c < item.len() && item[c] == ':' && forall|q: int|
                0 <= q < c ==> #[trigger] item[q] != ':';
        if c < pp {
            assert(item[c] == v@[lo + c]);
        } else if c > pp {
            assert(item[pp] != ':');
        }
        assert(item.take(pp) =~= v@.subrange(lo as int, p as int));
        assert(item.skip(pp + 1) =~= v@.subrange(p + 1, hi as int));
    }
    (key, value)
}

/// Splits a style attribute into its declarations: the pieces between semicolons (empty
/// ones included), each cut at its first colon into a key and a value, both trimmed.
pub fn style_declarations(style: &str) -> (decls: Vec<(String, String)>)
    ensures
        decls@.map_values(|d: (String, String)| (d.0@, d.1@)) == style_declarations_spec(
            style@,
        ),
{
    let v = chars_of(style);
    let n = v.len();
    let mut decls: Vec<(String, String)> = Vec::new();
    let mut start: usize = 0;
    let mut i: usize = 0;
    proof {
        assert(v@.take(0) =~= seq![]);
    }
    while i < n
        invariant
            n == v.len(),
            v@ == style@,
            start <= i <= n,
            split_on_state(v@.take(i as int), ';').1 == v@.subrange(start as int, i as int),
            decls@.map_values(|d: (String, String)| (d.0@, d.1@)) == split_on_state(
                v@.take(i as int),
                ';',
            ).0.map_values(|item: Seq<char>| declaration(item)),
        decreases n - i,
    {
        proof {
            assert(v@.take(i + 1) =~= v@.take(i as int).push(v@[i as int]));
            lemma_split_on_push(v@.take(i as int), v@[i as int], ';');
        }
        if v[i] == ';' {
            let d = read_declaration(&v, start, i);
            let ghost before = decls@.map_values(|d: (String, String)| (d.0@, d.1@));
            decls.push(d);
            proof {
                assert(decls@.map_values(|d: (String, String)| (d.0@, d.1@)) =~= before.push(
                    (d.0@, d.1@),
                ));
                let st = split_on_state(v@.take(i as int), ';');
                assert(st.0.push(st.1).map_values(|item: Seq<char>| declaration(item))
                    =~= st.0.map_values(|item: Seq<char>| declaration(item)).push(
                    declaration(st.1),
                ));
                assert(v@.subrange((i + 1) as int, (i + 1) as int) =~= seq![]);
            }
            start = i + 1;
        } else {
            proof {
                assert(v@.subrange(start as int, i + 1) =~= v@.subrange(start as int, i as int).push(
                    v@[i as int],
                ));
            }
        }
        i = i + 1;
    }
    let d = read_declaration(&v, start, n);
    let ghost before = decls@.map_values(|d: (String, String)| (d.0@, d.1@));
    decls.push(d);
    proof {
        assert(v@.take(n as int) =~= v@);
        let st = split_on_state(v@, ';');
        assert(decls@.map_values(|d: (String, String)| (d.0@, d.1@)) =~= before.push(
            (d.0@, d.1@),
        ));
        assert(st.0.push(st.1).map_values(|item: Seq<char>| declaration(item)) =~= st.0.map_values(
            |item: Seq<char>| declaration(item),
        ).push(declaration(st.1)));
    }
    decls
}

/// How one channel of a shape is painted (its outline or its fill): the colour with its
/// own alpha, and the opacity text, if any, that overrides that alpha.
pub struct ChannelStyle {
    pub color: PaintValue,
    pub opacity: Option<String>,
}

/// What a style attribute says of a shape: how its outline and its fill are painted, the
/// opacity text of the whole shape, and the text of its outline width. Texts are those of
/// the declarations that take effect; turning them into numbers is left to the caller.
pub struct StyleValues {
    pub line: ChannelStyle,
    pub fill: ChannelStyle,
    pub opacity: Option<String>,
    pub stroke_width: Option<String>,
}

/// The text of an optional string.
pub open spec fn opt_text(o: Option<String>) -> Option<Seq<char>> {
    match o {
        Some(t) => Some(t@),
        None => None,
    }
}

/// A channel as a colour and an optional opacity text.
pub open spec fn channel_model(c: ChannelStyle) -> (PaintValue, Option<Seq<char>>) {
    (c.color, opt_text(c.opacity))
}

/// The style values as plain values: outline, fill, shape opacity text, outline width text.
pub open spec fn style_model(v: StyleValues) -> (
    (PaintValue, Option<Seq<char>>),
    (PaintValue, Option<Seq<char>>),
    Option<Seq<char>>,
    Option<Seq<char>>,
) {
    (channel_model(v.line), channel_model(v.fill), opt_text(v.opacity), opt_text(v.stroke_width))
}

/// Opaque black.
pub open spec fn opaque_black() -> PaintValue {
    PaintValue { r: 0, g: 0, b: 0, alpha: 255 }
}

/// The style values before any declaration: both channels opaque black, no opacity and no
/// width given.
pub open spec fn initial_style() -> (
    (PaintValue, Option<Seq<char>>),
    (PaintValue, Option<Seq<char>>),
    Option<Seq<char>>,
    Option<Seq<char>>,
) {
    ((opaque_black(), None), (opaque_black(), None), None, None)
}

/// One declaration applied to the style values. `stroke` and `fill` set the channel's
/// colour (and drop an earlier opacity) where the value names a colour; `stroke-opacity`,
/// `fill-opacity` and `opacity` take effect where the value reads as a float, and
/// `stroke-width` where it reads as a length. Other declarations, and values that do not
/// read, change nothing.
pub open spec fn apply_declaration(
    m: ((PaintValue, Option<Seq<char>>), (PaintValue, Option<Seq<char>>), Option<Seq<char>>, Option<Seq<char>>),
    key: Seq<char>,
    value: Seq<char>,
) -> ((PaintValue, Option<Seq<char>>), (PaintValue, Option<Seq<char>>), Option<Seq<char>>, Option<Seq<char>>) {
    if key == "stroke"@ {
        match paint_color(svg_paint(value)) {
            Some(c) => ((c, None), m.1, m.2, m.3),
            None => m,
        }
    } else if key == "fill"@ {
        match paint_color(svg_paint(value)) {
            Some(c) => (m.0, (c, None), m.2, m.3),
            None => m,
        }
    } else if key == "stroke-opacity"@ {
        if is_float_literal(value) {
            ((m.0.0, Some(value)), m.1, m.2, m.3)
        } else {
            m
        }
    } else if key == "fill-opacity"@ {
        if is_float_literal(value) {
            (m.0, (m.1.0, Some(value)), m.2, m.3)
        } else {
            m
        }
    } else if key == "opacity"@ {
        if is_float_literal(value) {
            (m.0, m.1, Some(value), m.3)
        } else {
            m
        }
    } else if key == "stroke-width"@ {
        if svg_length_parses(value) {
            (m.0, m.1, m.2, Some(value))
        } else {
            m
        }
    } else {
        m
    }
}

/// The style values after the declarations `decls`, applied first to last.
pub open spec fn style_values_spec(decls: Seq<(Seq<char>, Seq<char>)>) -> (
    (PaintValue, Option<Seq<char>>),
    (PaintValue, Option<Seq<char>>),
    Option<Seq<char>>,
    Option<Seq<char>>,
)
    decreases decls.len(),
{
    if decls.len() == 0 {
        initial_style()
    } else {
        let d = decls.last();
        apply_declaration(style_values_spec(decls.drop_last()), d.0, d.1)
    }
}

/// Whether the string `s` is the text `lit`.
fn text_is(s: &String, lit: &str) -> (b: bool)
    ensures
        b == (s@ == lit@),
{
    let t = lit.to_owned();
    s.eq(&t)
}

/// What the style attribute `style` says of a shape: its declarations applied first to
/// last, as `apply_declaration` says.
pub fn style_values(style: &str) -> (v: StyleValues)
    ensures
        style_model(v) == style_values_spec(style_declarations_spec(style@)),
{
    let decls = style_declarations(style);
    let ghost ds = decls@.map_values(|d: (String, String)| (d.0@, d.1@));
    let mut v = StyleValues {
        line: ChannelStyle { color: PaintValue { r: 0, g: 0, b: 0, alpha: 255 }, opacity: None },
        fill: ChannelStyle { color: PaintValue { r: 0, g: 0, b: 0, alpha: 255 }, opacity: None },
        opacity: None,
        stroke_width: None,
    };
    let mut i: usize = 0;
    proof {
        assert(ds.take(0) =~= seq![]);
    }
    while i < decls.len()
        invariant
            i <= decls.len(),
            ds == decls@.map_values(|d: (String, String)| (d.0@, d.1@)),
            style_model(v) == style_values_spec(ds.take(i as int)),
        decreases decls.len() - i,
    {
        let key = &decls[i].0;
        let value = &decls[i].1;
        proof {
            assert(ds.take(i + 1).drop_last() =~= ds.take(i as int));
            assert(ds.take(i + 1).last() == (key@, value@));
        }
        if text_is(key, "stroke") {
            match parse_paint_color(value.as_str()) {
                Some(c) => {
                    v.line = ChannelStyle { color: c, opacity: None };
                },
                None => {},
            }
        } else if text_is(key, "fill") {
            match parse_paint_color(value.as_str()) {
                Some(c) => {
                    v.fill = ChannelStyle { color: c, opacity: None };
                },
                None => {},
            }
        } else if text_is(key, "stroke-opacity") {
            if parses_as_float(value.as_str()) {
                v.line.opacity = Some(value.clone());
            }
        } else if text_is(key, "fill-opacity") {
            if parses_as_float(value.as_str()) {
                v.fill.opacity = Some(value.clone());
            }
        } else if text_is(key, "opacity") {
            if parses_as_float(value.as_str()) {
                v.opacity = Some(value.clone());
            }
        } else if text_is(key, "stroke-width") {
            if is_length(value.as_str()) {
                v.stroke_width = Some(value.clone());
            }
        }
        i = i + 1;
    }
    proof {
        assert(ds.take(decls.len() as int) =~= ds);
    }
    v
}

/// A `stroke` declaration whose value names a colour paints the outline in exactly that
/// colour (so `stroke:none` gives a transparent outline) and drops an earlier outline
/// opacity; the fill, the shape opacity and the width stay as they were. A `stroke` value
/// that names no colour changes nothing.
pub proof fn law_stroke_declaration(ds: Seq<(Seq<char>, Seq<char>)>, value: Seq<char>)
    ensures
        ({
            let before = style_values_spec(ds);
            let after = style_values_spec(ds.push(("stroke"@, value)));
            &&& paint_color(svg_paint(value)) matches Some(c) ==> after == (
                (c, None::<Seq<char>>),
                before.1,
                before.2,
                before.3,
            )
            &&& paint_color(svg_paint(value)) is None ==> after == before
        }),
{
    assert(ds.push(("stroke"@, value)).drop_last() =~= ds);
}

/// A `fill` declaration whose value names a colour paints the fill in exactly that colour
/// and drops an earlier fill opacity; the outline, the shape opacity and the width stay as
/// they were. A `fill` value that names no colour changes nothing.
pub proof fn law_fill_declaration(ds: Seq<(Seq<char>, Seq<char>)>, value: Seq<char>)
    ensures
        ({
            let before = style_values_spec(ds);
            let after = style_values_spec(ds.push(("fill"@, value)));
            &&& paint_color(svg_paint(value)) matches Some(c) ==> after == (
                before.0,
                (c, None::<Seq<char>>),
                before.2,
                before.3,
            )
            &&& paint_color(svg_paint(value)) is None ==> after == before
        }),
{
    reveal_strlit("fill");
    reveal_strlit("stroke");
    assert(ds.push(("fill"@, value)).drop_last() =~= ds);
    assert("fill"@ != "stroke"@) by {
        assert("fill"@[0] != "stroke"@[0]);
    }
}

/// An outline or fill opacity declaration whose value reads as a float sets that channel's
/// opacity text and keeps its colour; the shape opacity declaration sets the shape opacity;
/// each leaves everything else as it was, and a value that does not read as a float
/// changes nothing.
pub proof fn law_opacity_declarations(ds: Seq<(Seq<char>, Seq<char>)>, value: Seq<char>)
    ensures
        ({
            let before = style_values_spec(ds);
            let line = style_values_spec(ds.push(("stroke-opacity"@, value)));
            let fill = style_values_spec(ds.push(("fill-opacity"@, value)));
            let shape = style_values_spec(ds.push(("opacity"@, value)));
            &&& is_float_literal(value) ==> line == (
                (before.0.0, Some(value)),
                before.1,
                before.2,
                before.3,
            )
            &&& is_float_literal(value) ==> fill == (
                before.0,
                (before.1.0, Some(value)),
                before.2,
                before.3,
            )
            &&& is_float_literal(value) ==> shape == (before.0, before.1, Some(value), before.3)
            &&& !is_float_literal(value) ==> line == before && fill == before && shape == before
        }),
{
    reveal_strlit("stroke");
    reveal_strlit("fill");
    reveal_strlit("stroke-opacity");
    reveal_strlit("fill-opacity");
    reveal_strlit("opacity");
    assert(ds.push(("stroke-opacity"@, value)).drop_last() =~= ds);
    assert(ds.push(("fill-opacity"@, value)).drop_last() =~= ds);
    assert(ds.push(("opacity"@, value)).drop_last() =~= ds);
    assert("stroke-opacity"@ != "stroke"@) by {
        assert("stroke-opacity"@.len() != "stroke"@.len());
    }
    assert("stroke-opacity"@ != "fill"@) by {
        assert("stroke-opacity"@.len() != "fill"@.len());
    }
    assert("fill-opacity"@ != "stroke"@) by {
        assert("fill-opacity"@.len() != "stroke"@.len());
    }
    assert("fill-opacity"@ != "fill"@) by {
        assert("fill-opacity"@.len() != "fill"@.len());
    }
    assert("fill-opacity"@ != "stroke-opacity"@) by {
        assert("fill-opacity"@.len() != "stroke-opacity"@.len());
    }
    assert("opacity"@ != "stroke"@) by {
        assert("opacity"@[0] != "stroke"@[0]);
    }
    assert("opacity"@ != "fill"@) by {
        assert("opacity"@.len() != "fill"@.len());
    }
    assert("opacity"@ != "stroke-opacity"@) by {
        assert("opacity"@.len() != "stroke-opacity"@.len());
    }
    assert("opacity"@ != "fill-opacity"@) by {
        assert("opacity"@.len() != "fill-opacity"@.len());
    }
}

/// A `stroke-width` declaration whose value reads as a length sets the width text and
/// leaves everything else as it was; one that does not read as a length changes nothing.
pub proof fn law_stroke_width_declaration(ds: Seq<(Seq<char>, Seq<char>)>, value: Seq<char>)
    ensures
        ({
            let before = style_values_spec(ds);
            let after = style_values_spec(ds.push(("stroke-width"@, value)));
            &&& svg_length_parses(value) ==> after == (before.0, before.1, before.2, Some(value))
            &&& !svg_length_parses(value) ==> after == before
        }),
{
    reveal_strlit("stroke");
    reveal_strlit("fill");
    reveal_strlit("stroke-opacity");
    reveal_strlit("fill-opacity");
    reveal_strlit("opacity");
    reveal_strlit("stroke-width");
    assert(ds.push(("stroke-width"@, value)).drop_last() =~= ds);
    assert("stroke-width"@ != "stroke"@) by {
        assert("stroke-width"@.len() != "stroke"@.len());
    }
    assert("stroke-width"@ != "fill"@) by {
        assert("stroke-width"@.len() != "fill"@.len());
    }
    assert("stroke-width"@ != "stroke-opacity"@) by {
        assert("stroke-width"@.len() != "stroke-opacity"@.len());
    }
    assert("stroke-width"@ != "fill-opacity"@) by {
        assert("stroke-width"@[0] != "fill-opacity"@[0]);
    }
    assert("stroke-width"@ != "opacity"@) by {
        assert("stroke-width"@.len() != "opacity"@.len());
    }
}

/// Before any declaration, both the outline and the fill are opaque black, with no opacity
/// or width given.
pub proof fn law_style_defaults()
    ensures
        style_values_spec(Seq::<(Seq<char>, Seq<char>)>::empty()) == (
            (PaintValue { r: 0, g: 0, b: 0, alpha: 255 }, None::<Seq<char>>),
            (PaintValue { r: 0, g: 0, b: 0, alpha: 255 }, None::<Seq<char>>),
            None::<Seq<char>>,
            None::<Seq<char>>,
        ),
{
}

/// A declaration of any other property changes nothing.
pub proof fn law_other_declaration(ds: Seq<(Seq<char>, Seq<char>)>, key: Seq<char>, value: Seq<char>)
    requires
        key != "stroke"@,
        key != "fill"@,
        key != "stroke-opacity"@,
        key != "fill-opacity"@,
        key != "opacity"@,
        key != "stroke-width"@,
    ensures
        style_values_spec(ds.push((key, value))) == style_values_spec(ds),
{
    assert(ds.push((key, value)).drop_last() =~= ds);
}

} // verus!
