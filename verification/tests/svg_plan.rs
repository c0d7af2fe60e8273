use chubby_bunny::{plan_group_bodies, plan_svg_bodies, Group, PlannedBody, Svg, SvgNode, SvgPath};

fn path(d: &str) -> SvgNode {
    SvgNode::Path(SvgPath { d: Some(d.to_string()), style: None })
}

fn summary(plan: &[PlannedBody]) -> Vec<(String, i32, usize)> {
    plan.iter()
        .map(|b| (b.path.d.clone().unwrap_or_default(), b.z_index, b.children.len()))
        .collect()
}

const SQUARE: &str = "M0 0 L1 0 L1 1 L0 1 Z";
const TRIANGLE: &str = "M0 0 L2 0 L1 1 Z";

#[test]
fn group_paths_take_subgroups_as_children() {
    let group = Group {
        children: vec![
            path(SQUARE),
            path("M0 0 C1 1 2 2 3 3"),
            SvgNode::Path(SvgPath { d: None, style: None }),
            path("M0 0 L1 1 Z"),
            SvgNode::G(Group { children: vec![path(TRIANGLE)] }),
            path(TRIANGLE),
            SvgNode::Unknown,
        ],
    };
    let plan = plan_group_bodies(&group, 5);
    assert_eq!(summary(&plan), vec![(SQUARE.to_string(), 5, 1), (TRIANGLE.to_string(), 5, 1)]);
    for body in &plan {
        assert_eq!(summary(&body.children), vec![(TRIANGLE.to_string(), 6, 0)]);
    }
}

#[test]
fn group_without_paths_passes_subgroups_up() {
    let group = Group {
        children: vec![
            SvgNode::G(Group { children: vec![path(SQUARE)] }),
            SvgNode::Unknown,
            SvgNode::G(Group { children: vec![SvgNode::G(Group { children: vec![path(TRIANGLE)] })] }),
        ],
    };
    let plan = plan_group_bodies(&group, 0);
    assert_eq!(summary(&plan), vec![(SQUARE.to_string(), 1, 0), (TRIANGLE.to_string(), 2, 0)]);
}

#[test]
fn svg_plan_in_document_order() {
    let svg = Svg {
        children: vec![
            path(TRIANGLE),
            SvgNode::G(Group {
                children: vec![path(SQUARE), SvgNode::G(Group { children: vec![path(TRIANGLE)] })],
            }),
            path("not a path"),
            path(SQUARE),
        ],
    };
    let plan = plan_svg_bodies(&svg);
    assert_eq!(
        summary(&plan),
        vec![(TRIANGLE.to_string(), 0, 0), (SQUARE.to_string(), 1, 1), (SQUARE.to_string(), 0, 0)]
    );
    assert_eq!(summary(&plan[1].children), vec![(TRIANGLE.to_string(), 2, 0)]);
}
