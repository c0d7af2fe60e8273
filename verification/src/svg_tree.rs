use vstd::prelude::*;

verus! {

/// A `<path>` element: its path data and its style attribute, where present.
#[derive(Debug, Clone)]
pub struct SvgPath {
    pub d: Option<String>,
    pub style: Option<String>,
}

/// A `<g>` element and its child elements.
pub struct Group {
    pub children: Vec<SvgNode>,
}

/// An element inside an SVG document: a group, a path, or anything else.
pub enum SvgNode {
    G(Group),
    Path(SvgPath),
    Unknown,
}

/// The root `<svg>` element and its child elements.
pub struct Svg {
    pub children: Vec<SvgNode>,
}

/// The paths among `nodes`, in order.
pub open spec fn paths_among(nodes: Seq<SvgNode>) -> Seq<SvgPath>
    decreases nodes.len(),
{
    if nodes.len() == 0 {
        seq![]
    } else {
        let rest = paths_among(nodes.drop_last());
        match nodes.last() {
            SvgNode::Path(p) => rest.push(p),
            _ => rest,
        }
    }
}

/// The groups among `nodes`, in order.
pub open spec fn groups_among(nodes: Seq<SvgNode>) -> Seq<Group>
    decreases nodes.len(),
{
    if nodes.len() == 0 {
        seq![]
    } else {
        let rest = groups_among(nodes.drop_last());
        match nodes.last() {
            SvgNode::G(g) => rest.push(g),
            _ => rest,
        }
    }
}

/// The direct child paths and the direct child groups of `group`, each in document order;
/// other elements are left out.
pub fn split_paths_and_groups(group: &Group) -> (r: (Vec<&SvgPath>, Vec<&Group>))
    ensures
        r.0@.map_values(|p: &SvgPath| *p) == paths_among(group.children@),
        r.1@.map_values(|g: &Group| *g) == groups_among(group.children@),
{
    let mut direct_paths: Vec<&SvgPath> = Vec::new();
    let mut child_groups: Vec<&Group> = Vec::new();
    let mut i: usize = 0;
    while i < group.children.len()
        invariant
            i <= group.children.len(),
            direct_paths@.map_values(|p: &SvgPath| *p) == paths_among(
                group.children@.take(i as int),
            ),
            child_groups@.map_values(|g: &Group| *g) == groups_among(
                group.children@.take(i as int),
            ),
        decreases group.children.len() - i,
    {
        let ghost before = group.children@.take(i as int);
        proof {
            assert(group.children@.take(i + 1).drop_last() =~= before);
        }
        match &group.children[i] {
            SvgNode::Path(path) => {
                direct_paths.push(path);
                proof {
                    assert(direct_paths@.map_values(|p: &SvgPath| *p) =~= paths_among(
                        before,
                    ).push(*path));
                }
            },
            SvgNode::G(child_group) => {
                child_groups.push(child_group);
                proof {
                    assert(child_groups@.map_values(|g: &Group| *g) =~= groups_among(
                        before,
                    ).push(*child_group));
                }
            },
            SvgNode::Unknown => {},
        }
        i = i + 1;
    }
    proof {
        assert(group.children@.take(group.children@.len() as int) =~= group.children@);
    }
    (direct_paths, child_groups)
}

} // verus!
