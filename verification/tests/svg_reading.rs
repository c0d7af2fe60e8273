use chubby_bunny::{
    parse_paint_color, polygon_segment_plan, prune_distance_outliers, segment_plan, style_values, AttachmentCandidate,
    PaintValue, SegmentKind, SegmentStep,
};

fn rgba(r: u8, g: u8, b: u8, alpha: u8) -> PaintValue {
    PaintValue { r, g, b, alpha }
}

#[test]
fn paint_colors() {
    assert_eq!(parse_paint_color("red"), Some(rgba(255, 0, 0, 255)));
    assert_eq!(parse_paint_color(" #00ff00 "), Some(rgba(0, 255, 0, 255)));
    assert_eq!(parse_paint_color("none"), Some(rgba(0, 0, 0, 0)));
    assert_eq!(parse_paint_color("url(#g) none"), Some(rgba(0, 0, 0, 0)));
    assert_eq!(parse_paint_color("url(#g) blue"), Some(rgba(0, 0, 255, 255)));
    assert_eq!(parse_paint_color("url(#g)"), None);
    assert_eq!(parse_paint_color("url(#g) currentColor"), None);
    assert_eq!(parse_paint_color("inherit"), None);
    assert_eq!(parse_paint_color("not a colour"), None);
}

#[test]
fn style_values_of_a_typical_shape() {
    let v = style_values("fill:#f4d35e;stroke:#000000;stroke-width:2");
    assert_eq!(v.fill.color, rgba(0xf4, 0xd3, 0x5e, 255));
    assert_eq!(v.fill.opacity, None);
    assert_eq!(v.line.color, rgba(0, 0, 0, 255));
    assert_eq!(v.stroke_width.as_deref(), Some("2"));
    assert_eq!(v.opacity, None);
}

#[test]
fn style_values_defaults() {
    let v = style_values("");
    assert_eq!(v.line.color, rgba(0, 0, 0, 255));
    assert_eq!(v.fill.color, rgba(0, 0, 0, 255));
    assert_eq!(v.stroke_width, None);
}

#[test]
fn style_values_follow_declaration_order() {
    let v = style_values("stroke-opacity:0.5;stroke:red");
    assert_eq!(v.line.color, rgba(255, 0, 0, 255));
    assert_eq!(v.line.opacity, None);
    let v = style_values("stroke:red;stroke-opacity:0.5;fill-opacity:.25");
    assert_eq!(v.line.opacity.as_deref(), Some("0.5"));
    assert_eq!(v.fill.opacity.as_deref(), Some(".25"));
    let v = style_values("opacity:0.3;opacity:x;stroke-width:2px;stroke-width:wide");
    assert_eq!(v.opacity.as_deref(), Some("0.3"));
    assert_eq!(v.stroke_width.as_deref(), Some("2px"));
    let v = style_values("stroke:bogus;fill:none");
    assert_eq!(v.line.color, rgba(0, 0, 0, 255));
    assert_eq!(v.fill.color, rgba(0, 0, 0, 0));
}

#[test]
fn segment_plan_of_a_closed_square() {
    let plan = polygon_segment_plan("M0 0 L10 0 L10 10 Z L5 5");
    assert_eq!(
        plan,
        vec![
            SegmentStep::Point { segment: 0, abs: true },
            SegmentStep::Point { segment: 1, abs: true },
            SegmentStep::Point { segment: 2, abs: true },
        ]
    );
}

#[test]
fn segment_plan_relative_and_implicit() {
    let plan = polygon_segment_plan("m 1 2 h 3 v 4 z");
    assert_eq!(
        plan,
        vec![
            SegmentStep::Point { segment: 0, abs: false },
            SegmentStep::Horizontal { segment: 1, abs: false },
            SegmentStep::Vertical { segment: 2, abs: false },
        ]
    );
    let plan = polygon_segment_plan("M 10 20 30 40");
    assert_eq!(
        plan,
        vec![SegmentStep::Point { segment: 0, abs: true }, SegmentStep::Point { segment: 1, abs: true }]
    );
}

#[test]
fn segment_plan_empty_on_curve_or_error() {
    assert_eq!(polygon_segment_plan("M0 0 C1 1 2 2 3 3 L5 5"), vec![]);
    assert_eq!(polygon_segment_plan("M0 0 L1 x"), vec![]);
    assert_eq!(polygon_segment_plan("M0 0 L1 1 Z C1 1 2 2 3 3").len(), 2);
}

#[test]
fn segment_plan_from_given_kinds() {
    let kinds = vec![
        SegmentKind::MoveTo { abs: true },
        SegmentKind::VerticalLineTo { abs: true },
        SegmentKind::ClosePath,
        SegmentKind::Invalid,
    ];
    assert_eq!(
        segment_plan(&kinds),
        vec![SegmentStep::Point { segment: 0, abs: true }, SegmentStep::Vertical { segment: 1, abs: true }]
    );
    assert_eq!(segment_plan(&vec![SegmentKind::MoveTo { abs: true }, SegmentKind::Curve]), vec![]);
    assert_eq!(segment_plan(&vec![SegmentKind::Invalid]), vec![]);
}

#[test]
fn prune_sorts_unsorted_candidates() {
    let c = |child_idx: usize, distance_rank: u64| AttachmentCandidate { parent_idx: 0, child_idx, distance_rank };
    let kept = prune_distance_outliers(vec![c(0, 9), c(1, 1), c(2, 5), c(3, 1)], 0);
    assert_eq!(kept, vec![c(1, 1), c(3, 1), c(2, 5), c(0, 9)]);
    let kept = prune_distance_outliers(vec![c(0, 50), c(1, 1), c(2, 2), c(3, 3), c(4, 4), c(5, 60)], 4);
    assert_eq!(kept, vec![c(1, 1), c(2, 2), c(3, 3), c(4, 4)]);
}
