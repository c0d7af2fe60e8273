use vstd::prelude::*;

use svgtypes::{Length, Paint, PaintFallback};

verus! {

/// A colour with its opacity, each channel from 0 to 255.
#[derive(Clone, Copy, PartialEq, Eq, Debug)]
pub struct PaintValue {
    pub r: u8,
    pub g: u8,
    pub b: u8,
    pub alpha: u8,
}

/// The fallback of a paint server reference.
#[derive(Clone, Copy, PartialEq, Eq, Debug)]
pub enum PaintFallbackValue {
    /// `none`.
    NoPaint,
    /// `currentColor`.
    CurrentColor,
    /// A colour: red, green, blue, alpha.
    Color(u8, u8, u8, u8),
}

/// An SVG `<paint>` value, as far as it decides a colour.
#[derive(Clone, Copy, PartialEq, Eq, Debug)]
pub enum SvgPaint {
    /// `none`.
    NoPaint,
    /// A keyword that names no colour of its own: `inherit`, `currentColor`,
    /// `context-fill` or `context-stroke`.
    Keyword,
    /// A colour: red, green, blue, alpha.
    Color(u8, u8, u8, u8),
    /// A reference to a paint server (`url(...)`), with its fallback if it has one.
    FuncIri(Option<PaintFallbackValue>),
}

/// What svgtypes' `Paint::from_str` reads from `value`: `None` where it reports an error.
pub uninterp spec fn svg_paint(value: Seq<char>) -> Option<SvgPaint>;

/// Whether svgtypes reads `value` as a `Length` (`str::parse::<Length>` succeeds).
pub uninterp spec fn svg_length_parses(value: Seq<char>) -> bool;

/// Reads an SVG paint value with svgtypes' `Paint::from_str`. The contract claims only that
/// the result is a function of the text (`svg_paint`); the grammar is svgtypes' own.
#[verifier::external_body]
fn parse_paint(value: &str) -> (p: Option<SvgPaint>)
    ensures
        p == svg_paint(value@),
{
    Paint::from_str(value).ok().map(|paint| match paint {
        Paint::None => SvgPaint::NoPaint,
        Paint::Color(c) => SvgPaint::Color(c.red, c.green, c.blue, c.alpha),
        Paint::FuncIRI(_, None) => SvgPaint::FuncIri(None),
        Paint::FuncIRI(_, Some(PaintFallback::None)) => SvgPaint::FuncIri(Some(PaintFallbackValue::NoPaint)),
        Paint::FuncIRI(_, Some(PaintFallback::CurrentColor)) => SvgPaint::FuncIri(Some(PaintFallbackValue::CurrentColor)),
        Paint::FuncIRI(_, Some(PaintFallback::Color(c))) => SvgPaint::FuncIri(Some(PaintFallbackValue::Color(c.red, c.green, c.blue, c.alpha))),
        _ => SvgPaint::Keyword,
    })
}

/// Whether svgtypes reads `value` as a length (`str::parse::<svgtypes::Length>`). The
/// contract claims only that the answer is a function of the text (`svg_length_parses`).
#[verifier::external_body]
pub(crate) fn is_length(value: &str) -> (b: bool)
    ensures
        b == svg_length_parses(value@),
{
    value.parse::<Length>().is_ok()
}

/// Fully transparent black, the colour of `none`.
pub open spec fn transparent() -> PaintValue {
    PaintValue { r: 0, g: 0, b: 0, alpha: 0 }
}

/// The colour that a paint value gives a shape: `none` (also as the fallback of a paint
/// server) is transparent black, a colour (also as a fallback) is itself; a keyword, a
/// paint server without a colour fallback, or an unreadable value gives none.
pub open spec fn paint_color(p: Option<SvgPaint>) -> Option<PaintValue> {
    match p {
        Some(SvgPaint::NoPaint) => Some(transparent()),
        Some(SvgPaint::Color(r, g, b, alpha)) => Some(PaintValue { r, g, b, alpha }),
        Some(SvgPaint::FuncIri(Some(PaintFallbackValue::NoPaint))) => Some(transparent()),
        Some(SvgPaint::FuncIri(Some(PaintFallbackValue::Color(r, g, b, alpha)))) => Some(
            PaintValue { r, g, b, alpha },
        ),
        _ => None,
    }
}

/// The colour that a read paint value gives a shape, as `paint_color` says.
pub fn color_of_paint(p: Option<SvgPaint>) -> (c: Option<PaintValue>)
    ensures
        c == paint_color(p),
{
    match p {
        Some(SvgPaint::NoPaint) => Some(PaintValue { r: 0, g: 0, b: 0, alpha: 0 }),
        Some(SvgPaint::Color(r, g, b, alpha)) => Some(PaintValue { r, g, b, alpha }),
        Some(SvgPaint::FuncIri(Some(PaintFallbackValue::NoPaint))) => Some(
            PaintValue { r: 0, g: 0, b: 0, alpha: 0 },
        ),
        Some(SvgPaint::FuncIri(Some(PaintFallbackValue::Color(r, g, b, alpha)))) => Some(
            PaintValue { r, g, b, alpha },
        ),
        _ => None,
    }
}

/// The colour that the SVG paint value `value` gives a shape, if any.
pub fn parse_paint_color(value: &str) -> (c: Option<PaintValue>)
    ensures
        c == paint_color(svg_paint(value@)),
{
    color_of_paint(parse_paint(value))
}

} // verus!
