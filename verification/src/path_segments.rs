use vstd::prelude::*;

use svgtypes::{PathParser, PathSegment};

verus! {

/// The kind of one segment that svgtypes' `PathParser` reads from SVG path data.
#[derive(Clone, Copy, PartialEq, Eq, Debug)]
pub enum SegmentKind {
    /// `M` (absolute) or `m`.
    MoveTo { abs: bool },
    /// `L` (absolute) or `l`, also a pair after a move.
    LineTo { abs: bool },
    /// `H` (absolute) or `h`.
    HorizontalLineTo { abs: bool },
    /// `V` (absolute) or `v`.
    VerticalLineTo { abs: bool },
    /// `Z` or `z`.
    ClosePath,
    /// A cubic or quadratic curve or an elliptical arc, in any form.
    Curve,
    /// A syntax error; the parser reads nothing after it.
    Invalid,
}

/// The kinds of the segments that svgtypes' `PathParser` yields for the path data `d`, in
/// order, an error read as `Invalid`.
pub uninterp spec fn svg_path_segments(d: Seq<char>) -> Seq<SegmentKind>;

/// Reads the segments of SVG path data with svgtypes' `PathParser`, keeping the kind of each
/// (the coordinates are floating-point numbers). The contract claims only that the result
/// is a function of the text (`svg_path_segments`).
#[verifier::external_body]
fn path_segment_kinds(d: &str) -> (kinds: Vec<SegmentKind>)
    ensures
        kinds@ == svg_path_segments(d@),
{
    PathParser::from(d).map(|segment| match segment {
        Ok(PathSegment::MoveTo { abs, .. }) => SegmentKind::MoveTo { abs },
        Ok(PathSegment::LineTo { abs, .. }) => SegmentKind::LineTo { abs },
        Ok(PathSegment::HorizontalLineTo { abs, .. }) => SegmentKind::HorizontalLineTo { abs },
        Ok(PathSegment::VerticalLineTo { abs, .. }) => SegmentKind::VerticalLineTo { abs },
        Ok(PathSegment::ClosePath { .. }) => SegmentKind::ClosePath,
        Ok(_) => SegmentKind::Curve,
        Err(_) => SegmentKind::Invalid,
    }).collect()
}

/// How one vertex of a polygon is read from the segment with index `segment`: both
/// coordinates, or only the x or only the y coordinate (the other one kept), absolutely or
/// relative to the previous vertex.
#[derive(Clone, Copy, PartialEq, Eq, Debug)]
pub enum SegmentStep {
    Point { segment: usize, abs: bool },
    Horizontal { segment: usize, abs: bool },
    Vertical { segment: usize, abs: bool },
}

/// The vertices of a polygon read from segments `k` on: one step per move or line, up to
/// the first close-path or the end; `None` where a curve or an error comes first.
pub open spec fn plan_segments_from(segs: Seq<SegmentKind>, k: int) -> Option<Seq<SegmentStep>>
    decreases segs.len() - k,
{
    if k < 0 || k >= segs.len() {
        Some(seq![])
    } else {
        let rest = plan_segments_from(segs, k + 1);
        match segs[k] {
            SegmentKind::ClosePath => Some(seq![]),
            SegmentKind::Curve => None,
            SegmentKind::Invalid => None,
            SegmentKind::MoveTo { abs } => match rest {
                Some(r) => Some(seq![SegmentStep::Point { segment: k as usize, abs }] + r),
                None => None,
            },
            SegmentKind::LineTo { abs } => match rest {
                Some(r) => Some(seq![SegmentStep::Point { segment: k as usize, abs }] + r),
                None => None,
            },
            SegmentKind::HorizontalLineTo { abs } => match rest {
                Some(r) => Some(seq![SegmentStep::Horizontal { segment: k as usize, abs }] + r),
                None => None,
            },
            SegmentKind::VerticalLineTo { abs } => match rest {
                Some(r) => Some(seq![SegmentStep::Vertical { segment: k as usize, abs }] + r),
                None => None,
            },
        }
    }
}

/// The vertices of a simple polygon read from its segments: empty where a curve or an
/// error comes before the first close-path.
pub open spec fn segment_plan_spec(segs: Seq<SegmentKind>) -> Seq<SegmentStep> {
    match plan_segments_from(segs, 0) {
        Some(steps) => steps,
        None => seq![],
    }
}

/// Plans the vertices of a simple polygon from the kinds of its path segments, as
/// `segment_plan_spec` says.
pub fn segment_plan(segs: &Vec<SegmentKind>) -> (steps: Vec<SegmentStep>)
    ensures
        steps@ == segment_plan_spec(segs@),
{
    let mut steps: Vec<SegmentStep> = Vec::new();
    let mut i: usize = 0;
    while i < segs.len()
        invariant
            i <= segs.len(),
            plan_segments_from(segs@, 0) == match plan_segments_from(segs@, i as int) {
                Some(r) => Some(steps@ + r),
                None => None::<Seq<SegmentStep>>,
            },
        decreases segs.len() - i,
    {
        let step = match segs[i] {
            SegmentKind::ClosePath => {
                proof {
                    assert(steps@ + seq![] =~= steps@);
                }
                return steps;
            },
            SegmentKind::Curve => {
                return Vec::new();
            },
            SegmentKind::Invalid => {
                return Vec::new();
            },
            SegmentKind::MoveTo { abs } => SegmentStep::Point { segment: i, abs },
            SegmentKind::LineTo { abs } => SegmentStep::Point { segment: i, abs },
            SegmentKind::HorizontalLineTo { abs } => SegmentStep::Horizontal { segment: i, abs },
            SegmentKind::VerticalLineTo { abs } => SegmentStep::Vertical { segment: i, abs },
        };
        proof {
            let ghost rest = plan_segments_from(segs@, i + 1);
            match rest {
                Some(r) => {
                    assert(steps@.push(step) + r =~= steps@ + (seq![step] + r));
                },
                None => {},
            }
        }
        steps.push(step);
        i = i + 1;
    }
    proof {
        assert(steps@ + seq![] =~= steps@);
    }
    steps
}

/// Plans the vertices of the simple polygon that the SVG path data `d` describes: its
/// segments read by svgtypes, then planned as `segment_plan_spec` says.
pub fn polygon_segment_plan(d: &str) -> (steps: Vec<SegmentStep>)
    ensures
        steps@ == segment_plan_spec(svg_path_segments(d@)),
{
    let kinds = path_segment_kinds(d);
    segment_plan(&kinds)
}

/// A segment that gives a vertex: a move or a straight line.
pub open spec fn gives_vertex(kind: SegmentKind) -> bool {
    kind is MoveTo || kind is LineTo || kind is HorizontalLineTo || kind is VerticalLineTo
}

/// Step `s` reads the vertex that segment `k`, of kind `kind`, gives: both coordinates of a
/// move or line, the x of a horizontal line, the y of a vertical line, absolute or relative
/// as the segment is.
pub open spec fn step_reads(s: SegmentStep, k: int, kind: SegmentKind) -> bool {
    match kind {
        SegmentKind::MoveTo { abs } => s == SegmentStep::Point { segment: k as usize, abs },
        SegmentKind::LineTo { abs } => s == SegmentStep::Point { segment: k as usize, abs },
        SegmentKind::HorizontalLineTo { abs } => s == SegmentStep::Horizontal {
            segment: k as usize,
            abs,
        },
        SegmentKind::VerticalLineTo { abs } => s == SegmentStep::Vertical {
            segment: k as usize,
            abs,
        },
        _ => false,
    }
}

proof fn lemma_plan_from_len(segs: Seq<SegmentKind>, k: int)
    requires
        0 <= k <= segs.len(),
    ensures
        plan_segments_from(segs, k) matches Some(r) ==> k + r.len() <= segs.len(),
    decreases segs.len() - k,
{
    if k < segs.len() {
        lemma_plan_from_len(segs, k + 1);
    }
}

proof fn lemma_plan_from_reads(segs: Seq<SegmentKind>, k: int)
    requires
        0 <= k <= segs.len(),
    ensures
        plan_segments_from(segs, k) matches Some(r) ==> forall|i: int|
            0 <= i < r.len() ==> step_reads(#[trigger] r[i], k + i, segs[k + i]),
    decreases segs.len() - k,
{
    if k < segs.len() {
        lemma_plan_from_reads(segs, k + 1);
        if let Some(r) = plan_segments_from(segs, k) {
            if gives_vertex(segs[k]) {
                let rest = plan_segments_from(segs, k + 1)->Some_0;
                assert(r == seq![r[0]] + rest);
                assert forall|i: int| 0 <= i < r.len() implies step_reads(
                    #[trigger] r[i],
                    k + i,
                    segs[k + i],
                ) by {
                    if i > 0 {
                        assert(r[i] == rest[i - 1]);
                    }
                }
            }
        }
    }
}

proof fn lemma_plan_from_extent(segs: Seq<SegmentKind>, c: int, k: int)
    requires
        0 <= k <= c <= segs.len(),
        forall|j: int| 0 <= j < c ==> gives_vertex(#[trigger] segs[j]),
        c == segs.len() || segs[c] is ClosePath,
    ensures
        plan_segments_from(segs, k) matches Some(r) && r.len() == c - k,
    decreases c - k,
{
    if k < c {
        lemma_plan_from_extent(segs, c, k + 1);
        assert(gives_vertex(segs[k]));
    }
}

proof fn lemma_plan_from_rejects(segs: Seq<SegmentKind>, bad: int, k: int)
    requires
        0 <= k <= bad < segs.len(),
        segs[bad] is Curve || segs[bad] is Invalid,
        forall|j: int| 0 <= j < bad ==> !(#[trigger] segs[j] is ClosePath),
    ensures
        plan_segments_from(segs, k) is None,
    decreases bad - k,
{
    if k < bad {
        lemma_plan_from_rejects(segs, bad, k + 1);
        assert(!(segs[k] is ClosePath));
    }
}

/// Every step of a polygon plan reads the segment of the same position, as that segment
/// says: a move or line gives both coordinates, a horizontal line the x and a vertical
/// line the y, each absolute or relative as the segment is.
pub proof fn law_segment_plan_reads_segments(segs: Seq<SegmentKind>)
    ensures
        forall|i: int|
            0 <= i < segment_plan_spec(segs).len() ==> i < segs.len() && step_reads(
                #[trigger] segment_plan_spec(segs)[i],
                i,
                segs[i],
            ),
{
    lemma_plan_from_reads(segs, 0);
    lemma_plan_from_len(segs, 0);
}

/// Where the segments up to the first close-path (or the end) all give vertices, the plan
/// has one vertex for each of them.
pub proof fn law_segment_plan_extent(segs: Seq<SegmentKind>, c: int)
    requires
        0 <= c <= segs.len(),
        forall|j: int| 0 <= j < c ==> gives_vertex(#[trigger] segs[j]),
        c == segs.len() || segs[c] is ClosePath,
    ensures
        segment_plan_spec(segs).len() == c,
{
    lemma_plan_from_extent(segs, c, 0);
}

/// A curve or a syntax error before the first close-path leaves no polygon at all.
pub proof fn law_segment_plan_rejects(segs: Seq<SegmentKind>, bad: int)
    requires
        0 <= bad < segs.len(),
        segs[bad] is Curve || segs[bad] is Invalid,
        forall|j: int| 0 <= j < bad ==> !(#[trigger] segs[j] is ClosePath),
    ensures
        segment_plan_spec(segs).len() == 0,
{
    lemma_plan_from_rejects(segs, bad, 0);
}

} // verus!
