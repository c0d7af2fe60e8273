use vstd::prelude::*;

use crate::path_segments::{polygon_segment_plan, segment_plan_spec, svg_path_segments};
use crate::svg_tree::{paths_among, split_paths_and_groups, Group, Svg, SvgNode, SvgPath};

verus! {

/// A path that becomes a body: it has path data, and the data plans a polygon of at least
/// three vertices.
pub open spec fn polygon_path(p: SvgPath) -> bool {
    match p.d {
        Some(d) => segment_plan_spec(svg_path_segments(d@)).len() >= 3,
        None => false,
    }
}

/// A planned body as a plain value: the path it is made from, its drawing order, and the
/// bodies planned as its children.
pub struct BodyPlanModel {
    pub path: SvgPath,
    pub z_index: int,
    pub children: Seq<BodyPlanModel>,
}

/// The bodies that the group `group`, drawn at `z`, turns into. A group without paths of its
/// own passes up the bodies of its subgroups, drawn one level deeper. Otherwise each of its
/// paths that makes a polygon becomes a body at `z`, in document order, and every such body
/// takes the bodies of all the subgroups, drawn one level deeper, as its children.
pub open spec fn group_plan(group: Group, z: int) -> Seq<BodyPlanModel>
    decreases group, 2nat, 0nat,
{
    if paths_among(group.children@).len() == 0 {
        subgroups_prefix(group, z, group.children@.len())
    } else {
        path_bodies_prefix(group, z, group.children@.len())
    }
}

/// The bodies of the subgroups among the first `k` children of `group` (drawn at `z`), each
/// subgroup drawn at `z + 1`, one after another.
pub open spec fn subgroups_prefix(group: Group, z: int, k: nat) -> Seq<BodyPlanModel>
    decreases group, 0nat, k,
{
    if k == 0 || k > group.children@.len() {
        seq![]
    } else {
        let rest = subgroups_prefix(group, z, (k - 1) as nat);
        match group.children@[k - 1] {
            SvgNode::G(g) => rest + group_plan(g, z + 1),
            _ => rest,
        }
    }
}

/// The bodies of the polygon paths among the first `k` children of `group` (drawn at `z`),
/// each with the bodies of all the subgroups as its children.
pub open spec fn path_bodies_prefix(group: Group, z: int, k: nat) -> Seq<BodyPlanModel>
    decreases group, 1nat, k,
{
    if k == 0 || k > group.children@.len() {
        seq![]
    } else {
        let rest = path_bodies_prefix(group, z, (k - 1) as nat);
        match group.children@[k - 1] {
            SvgNode::Path(p) => if polygon_path(p) {
                rest.push(
                    BodyPlanModel {
                        path: p,
                        z_index: z,
                        children: subgroups_prefix(group, z, group.children@.len()),
                    },
                )
            } else {
                rest
            },
            _ => rest,
        }
    }
}

/// How many levels of groups lie inside `group`: none without subgroups, else one more than
/// in its deepest subgroup.
pub open spec fn group_depth(group: Group) -> nat
    decreases group, 1nat, 0nat,
{
    depth_prefix(group, group.children@.len())
}

/// How many levels of groups lie inside the subgroups among the first `k` children of
/// `group`, counting the subgroups themselves.
pub open spec fn depth_prefix(group: Group, k: nat) -> nat
    decreases group, 0nat, k,
{
    if k == 0 || k > group.children@.len() {
        0
    } else {
        let d = depth_prefix(group, (k - 1) as nat);
        match group.children@[k - 1] {
            SvgNode::G(g) => if d >= 1 + group_depth(g) {
                d
            } else {
                1 + group_depth(g)
            },
            _ => d,
        }
    }
}

/// A subgroup among the children of `group` lies at least one level less deep.
proof fn lemma_subgroup_depth(group: Group, k: nat, j: int)
    requires
        0 <= j < k <= group.children@.len(),
        group.children@[j] is G,
    ensures
        1 + group_depth(group.children@[j]->G_0) <= depth_prefix(group, k),
    decreases k,
{
    if j < k - 1 {
        lemma_subgroup_depth(group, (k - 1) as nat, j);
    }
}

/// A body planned from a path: the path, its drawing order, and the bodies planned as its
/// children.
pub struct PlannedBody<'a> {
    pub path: &'a SvgPath,
    pub z_index: i32,
    pub children: Vec<PlannedBody<'a>>,
}

/// A planned body as a plain value.
pub open spec fn body_plan_model<'a>(b: PlannedBody<'a>) -> BodyPlanModel
    decreases b,
{
    BodyPlanModel { path: *b.path, z_index: b.z_index as int, children: plans_model(b.children@) }
}

/// Planned bodies as plain values.
pub open spec fn plans_model<'a>(s: Seq<PlannedBody<'a>>) -> Seq<BodyPlanModel>
    decreases s,
{
    if s.len() == 0 {
        seq![]
    } else {
        plans_model(s.subrange(0, s.len() - 1)).push(body_plan_model(s[s.len() - 1]))
    }
}

proof fn lemma_plans_model_add<'a>(a: Seq<PlannedBody<'a>>, b: Seq<PlannedBody<'a>>)
    ensures
        plans_model(a + b) == plans_model(a) + plans_model(b),
    decreases b.len(),
{
    if b.len() == 0 {
        assert(a + b =~= a);
        assert(plans_model(a) + plans_model(b) =~= plans_model(a));
    } else {
        let b0 = b.subrange(0, b.len() - 1);
        lemma_plans_model_add(a, b0);
        assert((a + b).subrange(0, (a + b).len() - 1) =~= a + b0);
        assert((a + b)[(a + b).len() - 1] == b[b.len() - 1]);
        assert(plans_model(a) + plans_model(b) =~= (plans_model(a) + plans_model(b0)).push(
            body_plan_model(b[b.len() - 1]),
        ));
    }
}

proof fn lemma_plans_model_push<'a>(a: Seq<PlannedBody<'a>>, x: PlannedBody<'a>)
    ensures
        plans_model(a.push(x)) == plans_model(a).push(body_plan_model(x)),
{
    assert(a.push(x).subrange(0, a.len() as int) =~= a);
}

/// Whether the path makes a polygon, as `polygon_path` says.
fn is_polygon_path(p: &SvgPath) -> (b: bool)
    ensures
        b == polygon_path(*p),
{
    match &p.d {
        Some(d) => polygon_segment_plan(d.as_str()).len() >= 3,
        None => false,
    }
}

/// Plans the bodies of a group drawn at `z_index`, as `group_plan` says.
pub fn plan_group_bodies<'a>(group: &'a Group, z_index: i32) -> (plan: Vec<PlannedBody<'a>>)
    requires
        z_index + group_depth(*group) <= i32::MAX,
    ensures
        plans_model(plan@) == group_plan(*group, z_index as int),
    decreases *group, 2nat, 0nat,
{
    let (paths, _) = split_paths_and_groups(group);
    proof {
        assert(paths@.map_values(|p: &SvgPath| *p).len() == paths@.len());
    }
    if paths.len() == 0 {
        plan_subgroups(group, z_index)
    } else {
        plan_path_bodies(group, z_index)
    }
}

/// Plans the bodies of the subgroups of a group drawn at `z_index`, as `subgroups_prefix`
/// says for all of its children.
fn plan_subgroups<'a>(group: &'a Group, z_index: i32) -> (plan: Vec<PlannedBody<'a>>)
    requires
        z_index + group_depth(*group) <= i32::MAX,
    ensures
        plans_model(plan@) == subgroups_prefix(*group, z_index as int, group.children@.len()),
    decreases *group, 0nat, 0nat,
{
    let mut out: Vec<PlannedBody<'a>> = Vec::new();
    let mut i: usize = 0;
    while i < group.children.len()
        invariant
            i <= group.children.len(),
            z_index + group_depth(*group) <= i32::MAX,
            plans_model(out@) == subgroups_prefix(*group, z_index as int, i as nat),
        decreases group.children.len() - i,
    {
        match &group.children[i] {
            SvgNode::G(g) => {
                proof {
                    lemma_subgroup_depth(*group, group.children@.len(), i as int);
                    assert(decreases_to!(*group => group.children));
                    assert(decreases_to!(group.children => group.children@));
                    assert(decreases_to!(group.children@ => group.children@[i as int]));
                }
                let mut sub = plan_group_bodies(g, z_index + 1);
                let ghost before = out@;
                let ghost sub0 = sub@;
                out.append(&mut sub);
                proof {
                    lemma_plans_model_add(before, sub0);
                }
            },
            _ => {},
        }
        i = i + 1;
    }
    out
}

/// Plans the bodies of the polygon paths of a group drawn at `z_index`, as
/// `path_bodies_prefix` says for all of its children.
fn plan_path_bodies<'a>(group: &'a Group, z_index: i32) -> (plan: Vec<PlannedBody<'a>>)
    requires
        z_index + group_depth(*group) <= i32::MAX,
    ensures
        plans_model(plan@) == path_bodies_prefix(*group, z_index as int, group.children@.len()),
    decreases *group, 1nat, 0nat,
{
    let mut out: Vec<PlannedBody<'a>> = Vec::new();
    let mut i: usize = 0;
    while i < group.children.len()
        invariant
            i <= group.children.len(),
            z_index + group_depth(*group) <= i32::MAX,
            plans_model(out@) == path_bodies_prefix(*group, z_index as int, i as nat),
        decreases group.children.len() - i,
    {
        match &group.children[i] {
            SvgNode::Path(p) => {
                if is_polygon_path(p) {
                    let children = plan_subgroups(group, z_index);
                    let body = PlannedBody { path: p, z_index, children };
                    proof {
                        lemma_plans_model_push(out@, body);
                    }
                    out.push(body);
                }
            },
            _ => {},
        }
        i = i + 1;
    }
    out
}

/// The bodies of an SVG document: its top-level paths that make polygons become bodies drawn
/// at 0, without children, and its top-level groups are planned as `group_plan` says, drawn
/// at 1; all in document order.
pub open spec fn svg_plan(svg: Svg) -> Seq<BodyPlanModel> {
    top_plan_prefix(svg.children@, svg.children@.len())
}

/// The bodies of the first `k` top-level nodes.
pub open spec fn top_plan_prefix(nodes: Seq<SvgNode>, k: nat) -> Seq<BodyPlanModel>
    decreases k,
{
    if k == 0 || k > nodes.len() {
        seq![]
    } else {
        let rest = top_plan_prefix(nodes, (k - 1) as nat);
        match nodes[k - 1] {
            SvgNode::Path(p) => if polygon_path(p) {
                rest.push(BodyPlanModel { path: p, z_index: 0, children: seq![] })
            } else {
                rest
            },
            SvgNode::G(g) => rest + group_plan(g, 1),
            SvgNode::Unknown => rest,
        }
    }
}

/// How many levels of groups lie among the first `k` top-level nodes, counting the
/// top-level groups themselves.
pub open spec fn top_depth(nodes: Seq<SvgNode>, k: nat) -> nat
    decreases k,
{
    if k == 0 || k > nodes.len() {
        0
    } else {
        let d = top_depth(nodes, (k - 1) as nat);
        match nodes[k - 1] {
            SvgNode::G(g) => if d >= 1 + group_depth(g) {
                d
            } else {
                1 + group_depth(g)
            },
            _ => d,
        }
    }
}

proof fn lemma_top_group_depth(nodes: Seq<SvgNode>, k: nat, j: int)
    requires
        0 <= j < k <= nodes.len(),
        nodes[j] is G,
    ensures
        1 + group_depth(nodes[j]->G_0) <= top_depth(nodes, k),
    decreases k,
{
    if j < k - 1 {
        lemma_top_group_depth(nodes, (k - 1) as nat, j);
    }
}

/// Plans the bodies of an SVG document, as `svg_plan` says.
pub fn plan_svg_bodies<'a>(svg: &'a Svg) -> (plan: Vec<PlannedBody<'a>>)
    requires
        top_depth(svg.children@, svg.children@.len()) <= i32::MAX,
    ensures
        plans_model(plan@) == svg_plan(*svg),
{
    let mut out: Vec<PlannedBody<'a>> = Vec::new();
    let mut i: usize = 0;
    while i < svg.children.len()
        invariant
            i <= svg.children.len(),
            top_depth(svg.children@, svg.children@.len()) <= i32::MAX,
            plans_model(out@) == top_plan_prefix(svg.children@, i as nat),
        decreases svg.children.len() - i,
    {
        match &svg.children[i] {
            SvgNode::Path(p) => {
                if is_polygon_path(p) {
                    let body = PlannedBody { path: p, z_index: 0, children: Vec::new() };
                    proof {
                        lemma_plans_model_push(out@, body);
                        assert(plans_model(body.children@) =~= seq![]);
                    }
                    out.push(body);
                }
            },
            SvgNode::G(g) => {
                proof {
                    lemma_top_group_depth(svg.children@, svg.children@.len(), i as int);
                }
                let mut sub = plan_group_bodies(g, 1);
                let ghost before = out@;
                let ghost sub0 = sub@;
                out.append(&mut sub);
                proof {
                    lemma_plans_model_add(before, sub0);
                }
            },
            SvgNode::Unknown => {},
        }
        i = i + 1;
    }
    out
}

proof fn lemma_no_direct_paths(nodes: Seq<SvgNode>)
    requires
        forall|k: int| 0 <= k < nodes.len() ==> !(#[trigger] nodes[k] is Path),
    ensures
        paths_among(nodes).len() == 0,
    decreases nodes.len(),
{
    if nodes.len() > 0 {
        assert(!(nodes[nodes.len() - 1] is Path));
        lemma_no_direct_paths(nodes.drop_last());
    }
}

proof fn lemma_subgroups_contain(group: Group, z: int, k: nat, j: int, b: BodyPlanModel)
    requires
        0 <= j < k <= group.children@.len(),
        group.children@[j] is G,
        group_plan(group.children@[j]->G_0, z + 1).contains(b),
    ensures
        subgroups_prefix(group, z, k).contains(b),
    decreases k,
{
    let rest = subgroups_prefix(group, z, (k - 1) as nat);
    if j < k - 1 {
        lemma_subgroups_contain(group, z, (k - 1) as nat, j, b);
        let m = choose|m: int| 0 <= m < rest.len() && rest[m] == b;
        match group.children@[k - 1] {
            SvgNode::G(g) => {
                assert((rest + group_plan(g, z + 1))[m] == b);
            },
            _ => {},
        }
    } else {
        let sub = group_plan(group.children@[j]->G_0, z + 1);
        let m = choose|m: int| 0 <= m < sub.len() && sub[m] == b;
        assert((rest + sub)[rest.len() + m] == b);
    }
}

proof fn lemma_path_bodies_contain(group: Group, z: int, k: nat, j: int)
    requires
        0 <= j < k <= group.children@.len(),
        group.children@[j] is Path,
        polygon_path(group.children@[j]->Path_0),
    ensures
        path_bodies_prefix(group, z, k).contains(
            BodyPlanModel {
                path: group.children@[j]->Path_0,
                z_index: z,
                children: subgroups_prefix(group, z, group.children@.len()),
            },
        ),
    decreases k,
{
    let rest = path_bodies_prefix(group, z, (k - 1) as nat);
    if j < k - 1 {
        lemma_path_bodies_contain(group, z, (k - 1) as nat, j);
        let b = BodyPlanModel {
            path: group.children@[j]->Path_0,
            z_index: z,
            children: subgroups_prefix(group, z, group.children@.len()),
        };
        let m = choose|m: int| 0 <= m < rest.len() && rest[m] == b;
        match group.children@[k - 1] {
            SvgNode::Path(p) => {
                if polygon_path(p) {
                    assert(path_bodies_prefix(group, z, k)[m] == b);
                }
            },
            _ => {},
        }
    } else {
        assert(path_bodies_prefix(group, z, k)[rest.len() as int] == BodyPlanModel {
            path: group.children@[j]->Path_0,
            z_index: z,
            children: subgroups_prefix(group, z, group.children@.len()),
        });
    }
}

/// A group without paths of its own passes up the bodies of its subgroups: every body
/// planned for a subgroup, one level deeper, is planned for the group.
pub proof fn law_pathless_group_passes_up(group: Group, z: int, j: int, b: BodyPlanModel)
    requires
        forall|k: int|
            0 <= k < group.children@.len() ==> !(#[trigger] group.children@[k] is Path),
        0 <= j < group.children@.len(),
        group.children@[j] is G,
        group_plan(group.children@[j]->G_0, z + 1).contains(b),
    ensures
        group_plan(group, z).contains(b),
{
    lemma_no_direct_paths(group.children@);
    lemma_subgroups_contain(group, z, group.children@.len(), j, b);
}

/// Each path of a group that makes a polygon becomes a body of the group, drawn at the
/// group's level, whose children include every body planned for a subgroup of the group one
/// level deeper.
pub proof fn law_group_path_becomes_body(group: Group, z: int, j: int)
    requires
        0 <= j < group.children@.len(),
        group.children@[j] is Path,
        polygon_path(group.children@[j]->Path_0),
    ensures
        exists|b: BodyPlanModel|
            #[trigger] group_plan(group, z).contains(b) && b.path == group.children@[j]->Path_0
                && b.z_index == z && forall|i: int, x: BodyPlanModel|
                0 <= i < group.children@.len() && group.children@[i] is G && #[trigger] group_plan(
                    group.children@[i]->G_0,
                    z + 1,
                ).contains(x) ==> b.children.contains(x),
{
    let len = group.children@.len();
    assert(paths_among(group.children@).len() > 0) by {
        lemma_paths_among_has(group.children@, j);
    }
    lemma_path_bodies_contain(group, z, len, j);
    let b = BodyPlanModel {
        path: group.children@[j]->Path_0,
        z_index: z,
        children: subgroups_prefix(group, z, len),
    };
    assert forall|i: int, x: BodyPlanModel|
        0 <= i < len && group.children@[i] is G && #[trigger] group_plan(
            group.children@[i]->G_0,
            z + 1,
        ).contains(x) implies b.children.contains(x) by {
        lemma_subgroups_contain(group, z, len, i, x);
    }
    assert(group_plan(group, z).contains(b));
}

proof fn lemma_paths_among_has(nodes: Seq<SvgNode>, j: int)
    requires
        0 <= j < nodes.len(),
        nodes[j] is Path,
    ensures
        paths_among(nodes).len() > 0,
    decreases nodes.len(),
{
    if j < nodes.len() - 1 {
        lemma_paths_among_has(nodes.drop_last(), j);
    }
}

proof fn lemma_top_contains(nodes: Seq<SvgNode>, k: nat, j: int, b: BodyPlanModel)
    requires
        0 <= j < k <= nodes.len(),
        (nodes[j] is G && group_plan(nodes[j]->G_0, 1).contains(b)) || (nodes[j] is Path
            && polygon_path(nodes[j]->Path_0) && b == BodyPlanModel {
            path: nodes[j]->Path_0,
            z_index: 0,
            children: seq![],
        }),
    ensures
        top_plan_prefix(nodes, k).contains(b),
    decreases k,
{
    let rest = top_plan_prefix(nodes, (k - 1) as nat);
    let all = top_plan_prefix(nodes, k);
    if j < k - 1 {
        lemma_top_contains(nodes, (k - 1) as nat, j, b);
        let m = choose|m: int| 0 <= m < rest.len() && rest[m] == b;
        match nodes[k - 1] {
            SvgNode::G(g) => {
                assert((rest + group_plan(g, 1))[m] == b);
            },
            SvgNode::Path(p) => {
                if polygon_path(p) {
                    assert(all[m] == b);
                }
            },
            SvgNode::Unknown => {},
        }
    } else {
        match nodes[j] {
            SvgNode::G(g) => {
                let sub = group_plan(g, 1);
                let m = choose|m: int| 0 <= m < sub.len() && sub[m] == b;
                assert((rest + sub)[rest.len() + m] == b);
            },
            _ => {
                assert(all[rest.len() as int] == b);
            },
        }
    }
}

/// The bodies of a document: every body planned for a top-level group, drawn at level one,
/// is a body of the document, and every top-level path that makes a polygon is a body drawn
/// at level zero without children.
pub proof fn law_svg_plan_holds_top_level(svg: Svg, j: int, b: BodyPlanModel)
    requires
        0 <= j < svg.children@.len(),
    ensures
        svg.children@[j] is G && group_plan(svg.children@[j]->G_0, 1).contains(b) ==> svg_plan(
            svg,
        ).contains(b),
        svg.children@[j] is Path && polygon_path(svg.children@[j]->Path_0) ==> svg_plan(
            svg,
        ).contains(BodyPlanModel { path: svg.children@[j]->Path_0, z_index: 0, children: seq![] }),
{
    let nodes = svg.children@;
    if nodes[j] is G && group_plan(nodes[j]->G_0, 1).contains(b) {
        lemma_top_contains(nodes, nodes.len(), j, b);
    }
    if nodes[j] is Path && polygon_path(nodes[j]->Path_0) {
        lemma_top_contains(
            nodes,
            nodes.len(),
            j,
            BodyPlanModel { path: nodes[j]->Path_0, z_index: 0, children: seq![] },
        );
    }
}

/// Every body in `s` is made of a path that makes a polygon and is drawn at level `z` or
/// deeper.
pub open spec fn sound_bodies(s: Seq<BodyPlanModel>, z: int) -> bool {
    forall|m: int| 0 <= m < s.len() ==> polygon_path((#[trigger] s[m]).path) && s[m].z_index >= z
}

proof fn lemma_sound_add(a: Seq<BodyPlanModel>, b: Seq<BodyPlanModel>, z: int)
    requires
        sound_bodies(a, z),
        sound_bodies(b, z),
    ensures
        sound_bodies(a + b, z),
{
    assert forall|m: int| 0 <= m < (a + b).len() implies polygon_path((#[trigger] (a + b)[m]).path)
        && (a + b)[m].z_index >= z by {
        if m < a.len() {
            assert((a + b)[m] == a[m]);
        } else {
            assert((a + b)[m] == b[m - a.len()]);
        }
    }
}

proof fn lemma_group_plan_sound(group: Group, z: int)
    ensures
        sound_bodies(group_plan(group, z), z),
    decreases group, 2nat, 0nat,
{
    let len = group.children@.len();
    if paths_among(group.children@).len() == 0 {
        lemma_subgroups_sound(group, z, len);
    } else {
        lemma_path_bodies_sound(group, z, len);
    }
}

proof fn lemma_subgroups_sound(group: Group, z: int, k: nat)
    ensures
        sound_bodies(subgroups_prefix(group, z, k), z),
    decreases group, 0nat, k,
{
    if k > 0 && k <= group.children@.len() {
        lemma_subgroups_sound(group, z, (k - 1) as nat);
        let rest = subgroups_prefix(group, z, (k - 1) as nat);
        match group.children@[k - 1] {
            SvgNode::G(g) => {
                assert(decreases_to!(group => group.children));
                assert(decreases_to!(group.children => group.children@));
                assert(decreases_to!(group.children@ => group.children@[k - 1]));
                lemma_group_plan_sound(g, z + 1);
                let sub = group_plan(g, z + 1);
                assert forall|m: int| 0 <= m < sub.len() implies polygon_path(
                    (#[trigger] sub[m]).path,
                ) && sub[m].z_index >= z by {}
                lemma_sound_add(rest, sub, z);
            },
            _ => {},
        }
    }
}

proof fn lemma_path_bodies_sound(group: Group, z: int, k: nat)
    ensures
        sound_bodies(path_bodies_prefix(group, z, k), z),
    decreases group, 1nat, k,
{
    if k > 0 && k <= group.children@.len() {
        lemma_path_bodies_sound(group, z, (k - 1) as nat);
        let rest = path_bodies_prefix(group, z, (k - 1) as nat);
        let all = path_bodies_prefix(group, z, k);
        assert forall|m: int| 0 <= m < all.len() implies polygon_path((#[trigger] all[m]).path)
            && all[m].z_index >= z by {
            if m < rest.len() {
                assert(all[m] == rest[m]);
            }
        }
    }
}

/// Every body planned for a group is made of a path that makes a polygon (a path without
/// data, with a curve or an error, or with fewer than three vertices never becomes a body),
/// and is drawn at the group's level or deeper.
pub proof fn law_group_bodies_are_polygons(group: Group, z: int)
    ensures
        sound_bodies(group_plan(group, z), z),
{
    lemma_group_plan_sound(group, z);
}

proof fn lemma_top_sound(nodes: Seq<SvgNode>, k: nat)
    ensures
        sound_bodies(top_plan_prefix(nodes, k), 0),
    decreases k,
{
    if k > 0 && k <= nodes.len() {
        lemma_top_sound(nodes, (k - 1) as nat);
        let rest = top_plan_prefix(nodes, (k - 1) as nat);
        let all = top_plan_prefix(nodes, k);
        match nodes[k - 1] {
            SvgNode::G(g) => {
                lemma_group_plan_sound(g, 1);
                let sub = group_plan(g, 1);
                assert forall|m: int| 0 <= m < sub.len() implies polygon_path(
                    (#[trigger] sub[m]).path,
                ) && sub[m].z_index >= 0 by {}
                lemma_sound_add(rest, sub, 0);
            },
            _ => {
                assert forall|m: int| 0 <= m < all.len() implies polygon_path(
                    (#[trigger] all[m]).path,
                ) && all[m].z_index >= 0 by {
                    if m < rest.len() {
                        assert(all[m] == rest[m]);
                    }
                }
            },
        }
    }
}

/// Every body planned for a document is made of a path that makes a polygon.
pub proof fn law_svg_bodies_are_polygons(svg: Svg)
    ensures
        sound_bodies(svg_plan(svg), 0),
{
    lemma_top_sound(svg.children@, svg.children@.len());
}

} // verus!
