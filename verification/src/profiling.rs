use vstd::prelude::*;

verus! {

/// Timing statistics of a named profiling scope, with the scopes that ran inside it.
/// Times are in microseconds.
pub struct ProfileNode {
    pub name: String,
    pub call_count: u32,
    pub total_time_us: u64,
    pub min_time_us: u64,
    pub max_time_us: u64,
    pub avg_time_us: u64,
    pub children: Vec<ProfileNode>,
}

/// `a + b`, or `u32::MAX` where that is larger.
pub open spec fn sat_add_u32(a: u32, b: u32) -> u32 {
    if a + b > u32::MAX {
        u32::MAX
    } else {
        (a + b) as u32
    }
}

/// `a + b`, or `u64::MAX` where that is larger.
pub open spec fn sat_add_u64(a: u64, b: u64) -> u64 {
    if a + b > u64::MAX {
        u64::MAX
    } else {
        (a + b) as u64
    }
}

/// The statistics of `r` are those of `a` with the runs of `b` added: counts and totals
/// summed, the extremes combined; the name and the average are those of `a`.
pub open spec fn stats_combined(a: ProfileNode, b: ProfileNode, r: ProfileNode) -> bool {
    &&& r.name == a.name
    &&& r.call_count == sat_add_u32(a.call_count, b.call_count)
    &&& r.total_time_us == sat_add_u64(a.total_time_us, b.total_time_us)
    &&& r.min_time_us == (if b.min_time_us < a.min_time_us {
        b.min_time_us
    } else {
        a.min_time_us
    })
    &&& r.max_time_us == (if b.max_time_us > a.max_time_us {
        b.max_time_us
    } else {
        a.max_time_us
    })
    &&& r.avg_time_us == a.avg_time_us
}

/// Whether some node of `s` is named `name`.
pub open spec fn has_named(s: Seq<ProfileNode>, name: Seq<char>) -> bool {
    exists|k: int| 0 <= k < s.len() && (#[trigger] s[k]).name@ == name
}

/// The first node of `s` named `name`.
pub open spec fn first_named(s: Seq<ProfileNode>, name: Seq<char>) -> int
    recommends
        has_named(s, name),
{
    choose|k: int|
        0 <= k < s.len() && (#[trigger] s[k]).name@ == name && forall|j: int|
            0 <= j < k ==> (#[trigger] s[j]).name@ != name
}

/// `r` is node `b` merged into node `a`: statistics combined, children merged.
pub open spec fn node_merged(a: ProfileNode, b: ProfileNode, r: ProfileNode) -> bool
    decreases b, 0nat,
{
    stats_combined(a, b, r) && children_merged(a.children@, b.children@, r.children@)
}

/// `r` is `cs` with node `x` merged in: into the first node of the same name, or appended
/// where there is none.
pub open spec fn merged_one(cs: Seq<ProfileNode>, x: ProfileNode, r: Seq<ProfileNode>) -> bool
    decreases x, 1nat,
{
    if has_named(cs, x.name@) {
        let k = first_named(cs, x.name@);
        &&& r.len() == cs.len()
        &&& forall|j: int| 0 <= j < cs.len() && j != k ==> r[j] == cs[j]
        &&& node_merged(cs[k], x, r[k])
    } else {
        r == cs.push(x)
    }
}

/// `mid` holds no fewer nodes than `cs`: merging never drops a node.
pub open spec fn no_fewer_nodes(cs: Seq<ProfileNode>, mid: Seq<ProfileNode>) -> bool {
    mid.len() >= cs.len()
}

/// `r` is `cs` with the nodes of `inc` merged in, first to last, as `merged_one` says.
pub open spec fn children_merged(cs: Seq<ProfileNode>, inc: Seq<ProfileNode>, r: Seq<ProfileNode>) -> bool
    decreases inc, 2nat,
{
    if inc.len() == 0 {
        r == cs
    } else {
        exists|mid: Seq<ProfileNode>|
            #![trigger no_fewer_nodes(cs, mid)]
            no_fewer_nodes(cs, mid) && children_merged(cs, inc.subrange(0, inc.len() - 1), mid)
                && merged_one(mid, inc[inc.len() - 1], r)
    }
}

/// Merges node `x` into `children`, as `merged_one` says.
fn merge_node(children: &mut Vec<ProfileNode>, x: ProfileNode)
    ensures
        merged_one(old(children)@, x, final(children)@),
    decreases x,
{
    let mut k: usize = 0;
    let mut found = false;
    while k < children.len()
        invariant
            k <= children.len(),
            forall|j: int| 0 <= j < k ==> (#[trigger] children@[j]).name@ != x.name@,
            found ==> k < children.len() && children@[k as int].name@ == x.name@,
        ensures
            found ==> k < children.len() && children@[k as int].name@ == x.name@,
            !found ==> k == children.len(),
            forall|j: int| 0 <= j < k ==> (#[trigger] children@[j]).name@ != x.name@,
        decreases children.len() - k + (if found { 0int } else { 1int }),
    {
        if children[k].name == x.name {
            found = true;
            break;
        }
        k = k + 1;
    }
    let ghost old_children = children@;
    if found {
        proof {
            assert(has_named(old_children, x.name@));
            assert(first_named(old_children, x.name@) == k) by {
                let f = first_named(old_children, x.name@);
                if f < k {
                    assert(old_children[f].name@ != x.name@);
                } else if f > k {
                    assert(old_children[k as int].name@ == x.name@);
                }
            }
        }
        let mut existing = children.remove(k);
        let ghost e0 = existing;
        let ProfileNode { name: _, call_count, total_time_us, min_time_us, max_time_us, avg_time_us: _, children: x_children } = x;
        existing.call_count = existing.call_count.saturating_add(call_count);
        existing.total_time_us = existing.total_time_us.saturating_add(total_time_us);
        if min_time_us < existing.min_time_us {
            existing.min_time_us = min_time_us;
        }
        if max_time_us > existing.max_time_us {
            existing.max_time_us = max_time_us;
        }
        merge_children(&mut existing.children, x_children);
        children.insert(k, existing);
        proof {
            assert(children@[k as int] == existing);
            assert forall|j: int| 0 <= j < old_children.len() && j != k implies children@[j]
                == old_children[j] by {
                if j < k {
                } else {
                }
            }
        }
    } else {
        proof {
            assert(!has_named(old_children, x.name@));
        }
        children.push(x);
    }
}

/// Merges the nodes of `incoming` into `children`, first to last, as `children_merged` says.
fn merge_children(children: &mut Vec<ProfileNode>, incoming: Vec<ProfileNode>)
    ensures
        children_merged(old(children)@, incoming@, final(children)@),
    decreases incoming@,
{
    let ghost orig = incoming@;
    let ghost start = children@;
    assert(orig.len() == incoming.len());
    let mut inc = incoming;
    let mut i: usize = 0;
    proof {
        assert(orig.subrange(0, 0) =~= seq![]);
    }
    while inc.len() > 0
        invariant
            orig == incoming@,
            orig.len() <= usize::MAX,
            i <= orig.len(),
            inc@ == orig.subrange(i as int, orig.len() as int),
            children_merged(start, orig.subrange(0, i as int), children@),
            children@.len() >= start.len(),
        decreases inc.len(),
    {
        let x = inc.remove(0);
        proof {
            assert(x == orig[i as int]);
            assert(decreases_to!(incoming@ => x));
        }
        let ghost mid = children@;
        merge_node(children, x);
        proof {
            let next = orig.subrange(0, i + 1);
            assert(next.subrange(0, next.len() - 1) =~= orig.subrange(0, i as int));
            assert(next[next.len() - 1] == x);
            assert(children_merged(start, next.subrange(0, next.len() - 1), mid));
            assert(merged_one(mid, next[next.len() - 1], children@));
            assert(no_fewer_nodes(start, mid));
            assert(children_merged(start, next, children@));
        }
        i = i + 1;
    }
    proof {
        assert(orig.subrange(0, i as int) =~= orig);
    }
}

/// `r` is `a` with its average, and the averages of all nodes below it, computed from its
/// total and its call count; a node that was never called keeps its average.
pub open spec fn averaged(a: ProfileNode, r: ProfileNode) -> bool
    decreases a,
{
    &&& r.name == a.name
    &&& r.call_count == a.call_count
    &&& r.total_time_us == a.total_time_us
    &&& r.min_time_us == a.min_time_us
    &&& r.max_time_us == a.max_time_us
    &&& r.avg_time_us == (if a.call_count > 0 {
        a.total_time_us / (a.call_count as u64)
    } else {
        a.avg_time_us
    })
    &&& r.children@.len() == a.children@.len()
    &&& forall|i: int|
        0 <= i < a.children@.len() ==> averaged(
            #[trigger] a.children@[i],
            r.children@[i],
        )
}

/// Computes the average time of `node` and of every node below it.
fn finalize_averages(node: &mut ProfileNode)
    ensures
        averaged(*old(node), *final(node)),
    decreases *old(node),
{
    if node.call_count > 0 {
        node.avg_time_us = node.total_time_us / (node.call_count as u64);
    }
    let mut pending: Vec<ProfileNode> = Vec::new();
    std::mem::swap(&mut pending, &mut node.children);
    let ghost orig = pending@;
    proof {
        assert(orig == old(node).children@);
        assert(orig.len() == pending.len());
    }
    let mut done: Vec<ProfileNode> = Vec::new();
    let mut i: usize = 0;
    while pending.len() > 0
        invariant
            orig == old(node).children@,
            orig.len() <= usize::MAX,
            i <= orig.len(),
            pending@ == orig.subrange(i as int, orig.len() as int),
            done.len() == i,
            forall|j: int| 0 <= j < i ==> averaged(#[trigger] orig[j], done@[j]),
        decreases pending.len(),
    {
        let mut child = pending.remove(0);
        proof {
            assert(child == orig[i as int]);
            assert(decreases_to!(*old(node) => old(node).children));
            assert(decreases_to!(old(node).children => old(node).children@));
            assert(decreases_to!(old(node).children@ => old(node).children@[i as int]));
        }
        finalize_averages(&mut child);
        done.push(child);
        i = i + 1;
    }
    node.children = done;
}

/// A profiling scope that has begun and not yet finished.
pub struct OpenScope {
    pub name: String,
    pub start_time_us: u64,
    pub children: Vec<ProfileNode>,
}

/// The profiling of frames: while a frame is open, scopes can begin and finish inside it,
/// nested; a finished scope is merged, by name, into the scope around it or into the frame.
/// When the frame ends it becomes a tree of `ProfileNode`s. Times are in microseconds,
/// read by the caller from its clock.
pub struct Profiler {
    frame_active: bool,
    frame_name: String,
    frame_start_us: u64,
    stack: Vec<OpenScope>,
    root_children: Vec<ProfileNode>,
    last_frame: Option<ProfileNode>,
}

impl Profiler {
    /// Whether a frame is open.
    pub closed spec fn frame_active(&self) -> bool {
        self.frame_active
    }

    /// The name of the open frame.
    pub closed spec fn frame_name(&self) -> Seq<char> {
        self.frame_name@
    }

    /// When the open frame began.
    pub closed spec fn frame_start(&self) -> u64 {
        self.frame_start_us
    }

    /// The scopes that have begun and not finished, outermost first.
    pub closed spec fn scopes(&self) -> Seq<OpenScope> {
        self.stack@
    }

    /// The scopes that finished directly inside the open frame.
    pub closed spec fn finished(&self) -> Seq<ProfileNode> {
        self.root_children@
    }

    /// The profile of the last frame that ended, until it is taken.
    pub closed spec fn last_frame(&self) -> Option<ProfileNode> {
        self.last_frame
    }

    /// A profiler with no frame open and no profile kept.
    pub fn new() -> (p: Self)
        ensures
            !p.frame_active(),
            p.frame_name() == Seq::<char>::empty(),
            p.frame_start() == 0,
            p.scopes() == Seq::<OpenScope>::empty(),
            p.finished() == Seq::<ProfileNode>::empty(),
            p.last_frame() == None::<ProfileNode>,
    {
        Profiler {
            frame_active: false,
            frame_name: String::new(),
            frame_start_us: 0,
            stack: Vec::new(),
            root_children: Vec::new(),
            last_frame: None,
        }
    }
}

/// The node that a finished scope adds to the profile: one call, taking `elapsed`, with the
/// scopes that finished inside it.
pub open spec fn finished_scope(scope: OpenScope, elapsed: u64) -> ProfileNode {
    ProfileNode {
        name: scope.name,
        call_count: 1,
        total_time_us: elapsed,
        min_time_us: elapsed,
        max_time_us: elapsed,
        avg_time_us: elapsed,
        children: scope.children,
    }
}

/// `a - b`, or zero where that is negative.
pub open spec fn sat_sub_u64(a: u64, b: u64) -> u64 {
    if a < b {
        0
    } else {
        (a - b) as u64
    }
}

/// A profiling scope: begun by `new`, finished by `finish`.
pub struct ProfileGuard {
    active: bool,
}

impl ProfileGuard {
    /// Whether the scope was begun inside an open frame (and so is recorded).
    pub closed spec fn is_active(&self) -> bool {
        self.active
    }

    /// Begins a scope called `name` at time `now_us`. Outside a frame nothing is recorded.
    pub fn new(profiler: &mut Profiler, name: &str, now_us: u64) -> (g: Self)
        ensures
            g.is_active() == old(profiler).frame_active(),
            old(profiler).frame_active() ==> {
                &&& final(profiler).scopes().len() == old(profiler).scopes().len() + 1
                &&& final(profiler).scopes().drop_last() == old(profiler).scopes()
                &&& final(profiler).scopes().last().name@ == name@
                &&& final(profiler).scopes().last().start_time_us == now_us
                &&& final(profiler).scopes().last().children@ == Seq::<ProfileNode>::empty()
            },
            !old(profiler).frame_active() ==> final(profiler).scopes() == old(profiler).scopes(),
            final(profiler).frame_active() == old(profiler).frame_active(),
            final(profiler).frame_name() == old(profiler).frame_name(),
            final(profiler).frame_start() == old(profiler).frame_start(),
            final(profiler).finished() == old(profiler).finished(),
            final(profiler).last_frame() == old(profiler).last_frame(),
    {
        if !profiler.frame_active {
            return ProfileGuard { active: false };
        }
        let scope = OpenScope {
            name: String::from_str(name),
            start_time_us: now_us,
            children: Vec::new(),
        };
        let ghost before = profiler.stack@;
        profiler.stack.push(scope);
        proof {
            assert(profiler.stack@.drop_last() =~= before);
        }
        ProfileGuard { active: true }
    }

    /// Finishes the scope at time `now_us`: the innermost open scope is closed and merged,
    /// as `merged_one` says, into the scope around it, or into the frame where it is the
    /// outermost. A scope that was not recorded changes nothing.
    pub fn finish(self, profiler: &mut Profiler, now_us: u64)
        ensures
            (!self.is_active() || old(profiler).scopes().len() == 0) ==> final(profiler).scopes()
                == old(profiler).scopes() && final(profiler).finished() == old(
                profiler,
            ).finished(),
            self.is_active() && old(profiler).scopes().len() > 0 ==> {
                let popped = old(profiler).scopes().last();
                let node = finished_scope(popped, sat_sub_u64(now_us, popped.start_time_us));
                let rest = old(profiler).scopes().drop_last();
                if rest.len() > 0 {
                    &&& final(profiler).scopes().len() == rest.len()
                    &&& final(profiler).scopes().drop_last() == rest.drop_last()
                    &&& final(profiler).scopes().last().name == rest.last().name
                    &&& final(profiler).scopes().last().start_time_us
                        == rest.last().start_time_us
                    &&& merged_one(
                        rest.last().children@,
                        node,
                        final(profiler).scopes().last().children@,
                    )
                    &&& final(profiler).finished() == old(profiler).finished()
                } else {
                    &&& final(profiler).scopes() == rest
                    &&& merged_one(old(profiler).finished(), node, final(profiler).finished())
                }
            },
            final(profiler).frame_active() == old(profiler).frame_active(),
            final(profiler).frame_name() == old(profiler).frame_name(),
            final(profiler).frame_start() == old(profiler).frame_start(),
            final(profiler).last_frame() == old(profiler).last_frame(),
    {
        if !self.active {
            return;
        }
        let ghost before = profiler.stack@;
        let popped = profiler.stack.pop();
        let scope = match popped {
            Some(scope) => scope,
            None => {
                return;
            },
        };
        let elapsed = now_us.saturating_sub(scope.start_time_us);
        let ghost node_spec = finished_scope(scope, elapsed);
        let OpenScope { name, start_time_us: _, children } = scope;
        let node = ProfileNode {
            name,
            call_count: 1,
            total_time_us: elapsed,
            min_time_us: elapsed,
            max_time_us: elapsed,
            avg_time_us: elapsed,
            children,
        };
        assert(node == node_spec);
        let parent = profiler.stack.pop();
        match parent {
            Some(mut parent) => {
                let ghost rest = profiler.stack@;
                let ghost parent0 = parent;
                merge_node(&mut parent.children, node);
                profiler.stack.push(parent);
                proof {
                    assert(profiler.stack@.drop_last() =~= rest);
                    assert(before.drop_last().drop_last() =~= rest);
                    assert(before.drop_last().last() == parent0);
                }
            },
            None => {
                merge_node(&mut profiler.root_children, node);
            },
        }
    }
}

/// Opens a frame called `name` at time `now_us`: the scopes and the profile of any earlier
/// frame are dropped.
pub fn begin_frame(profiler: &mut Profiler, name: &str, now_us: u64)
    ensures
        final(profiler).frame_active(),
        final(profiler).frame_name() == name@,
        final(profiler).frame_start() == now_us,
        final(profiler).scopes() == Seq::<OpenScope>::empty(),
        final(profiler).finished() == Seq::<ProfileNode>::empty(),
        final(profiler).last_frame() == None::<ProfileNode>,
{
    profiler.frame_active = true;
    profiler.frame_name = String::from_str(name);
    profiler.frame_start_us = now_us;
    profiler.stack.clear();
    profiler.root_children.clear();
    profiler.last_frame = None;
}

/// Closes the frame at time `now_us`. A frame with a name becomes the profile of the last
/// frame: one call, taking the time since the frame began, with the scopes that finished in
/// it, all averages computed. Without a name (no frame was opened) the profile is dropped.
pub fn end_frame(profiler: &mut Profiler, now_us: u64)
    ensures
        !final(profiler).frame_active(),
        final(profiler).frame_name() == Seq::<char>::empty(),
        final(profiler).scopes() == Seq::<OpenScope>::empty(),
        old(profiler).frame_name().len() == 0 ==> {
            &&& final(profiler).last_frame() == None::<ProfileNode>
            &&& final(profiler).finished() == old(profiler).finished()
            &&& final(profiler).frame_start() == old(profiler).frame_start()
        },
        old(profiler).frame_name().len() > 0 ==> {
            let elapsed = sat_sub_u64(now_us, old(profiler).frame_start());
            &&& final(profiler).last_frame() matches Some(frame) && {
                &&& frame.name@ == old(profiler).frame_name()
                &&& frame.call_count == 1
                &&& frame.total_time_us == elapsed
                &&& frame.min_time_us == elapsed
                &&& frame.max_time_us == elapsed
                &&& frame.avg_time_us == elapsed
                &&& frame.children@.len() == old(profiler).finished().len()
                &&& forall|i: int|
                    0 <= i < frame.children@.len() ==> averaged(
                        #[trigger] old(profiler).finished()[i],
                        frame.children@[i],
                    )
            }
            &&& final(profiler).finished() == Seq::<ProfileNode>::empty()
            &&& final(profiler).frame_start() == 0
        },
{
    profiler.frame_active = false;
    profiler.stack.clear();
    let mut frame_name = String::new();
    std::mem::swap(&mut frame_name, &mut profiler.frame_name);
    if frame_name.unicode_len() == 0 {
        profiler.last_frame = None;
        return;
    }
    let elapsed = now_us.saturating_sub(profiler.frame_start_us);
    let mut children: Vec<ProfileNode> = Vec::new();
    std::mem::swap(&mut children, &mut profiler.root_children);
    let mut frame = ProfileNode {
        name: frame_name,
        call_count: 1,
        total_time_us: elapsed,
        min_time_us: elapsed,
        max_time_us: elapsed,
        avg_time_us: elapsed,
        children,
    };
    let ghost frame0 = frame;
    finalize_averages(&mut frame);
    proof {
        assert(averaged(frame0, frame));
    }
    profiler.last_frame = Some(frame);
    profiler.frame_start_us = 0;
}

/// Takes the profile of the last frame that ended, leaving none.
pub fn take_last_frame(profiler: &mut Profiler) -> (frame: Option<ProfileNode>)
    ensures
        frame == old(profiler).last_frame(),
        final(profiler).last_frame() == None::<ProfileNode>,
        final(profiler).frame_active() == old(profiler).frame_active(),
        final(profiler).frame_name() == old(profiler).frame_name(),
        final(profiler).frame_start() == old(profiler).frame_start(),
        final(profiler).scopes() == old(profiler).scopes(),
        final(profiler).finished() == old(profiler).finished(),
{
    profiler.last_frame.take()
}

/// No two nodes of `s` have the same name.
pub open spec fn unique_names(s: Seq<ProfileNode>) -> bool {
    forall|a: int, b: int| 0 <= a < b < s.len() ==> (#[trigger] s[a]).name@ != (#[trigger] s[b]).name@
}

/// Merging a node aggregates by name: if the nodes had different names, they still do
/// afterwards, and a node of the merged name is among them.
pub proof fn law_merge_one_keeps_names_unique(
    cs: Seq<ProfileNode>,
    x: ProfileNode,
    r: Seq<ProfileNode>,
)
    requires
        unique_names(cs),
        merged_one(cs, x, r),
    ensures
        unique_names(r),
        has_named(r, x.name@),
        forall|n: Seq<char>| has_named(cs, n) ==> has_named(r, n),
        forall|n: Seq<char>| has_named(r, n) ==> has_named(cs, n) || n == x.name@,
{
    if has_named(cs, x.name@) {
        let k = first_named(cs, x.name@);
        assert(r[k].name == cs[k].name);
        assert forall|j: int| 0 <= j < r.len() implies (#[trigger] r[j]).name@ == cs[j].name@ by {
            if j != k {
                assert(r[j] == cs[j]);
            }
        }
        assert forall|n: Seq<char>| has_named(cs, n) implies has_named(r, n) by {
            let j = choose|j: int| 0 <= j < cs.len() && (#[trigger] cs[j]).name@ == n;
            assert(r[j].name@ == n);
        }
        assert forall|n: Seq<char>| has_named(r, n) implies has_named(cs, n) || n == x.name@ by {
            let j = choose|j: int| 0 <= j < r.len() && (#[trigger] r[j]).name@ == n;
            assert(cs[j].name@ == n);
        }
        assert(r[k].name@ == x.name@);
    } else {
        assert(r == cs.push(x));
        assert(r[cs.len() as int].name@ == x.name@);
        assert forall|n: Seq<char>| has_named(cs, n) implies has_named(r, n) by {
            let j = choose|j: int| 0 <= j < cs.len() && (#[trigger] cs[j]).name@ == n;
            assert(r[j] == cs[j]);
        }
        assert forall|n: Seq<char>| has_named(r, n) implies has_named(cs, n) || n == x.name@ by {
            let j = choose|j: int| 0 <= j < r.len() && (#[trigger] r[j]).name@ == n;
            if j < cs.len() {
                assert(r[j] == cs[j]);
            }
        }
        assert forall|a: int, b: int| 0 <= a < b < r.len() implies (#[trigger] r[a]).name@ != (
        #[trigger] r[b]).name@ by {
            if b == cs.len() {
                assert(r[a] == cs[a]);
            } else {
                assert(r[a] == cs[a] && r[b] == cs[b]);
            }
        }
    }
}

/// Merging a list of nodes aggregates by name: nodes that had different names still do.
pub proof fn law_merge_keeps_names_unique(
    cs: Seq<ProfileNode>,
    inc: Seq<ProfileNode>,
    r: Seq<ProfileNode>,
)
    requires
        unique_names(cs),
        children_merged(cs, inc, r),
    ensures
        unique_names(r),
    decreases inc.len(),
{
    if inc.len() > 0 {
        let mid = choose|mid: Seq<ProfileNode>|
            #![trigger no_fewer_nodes(cs, mid)]
            no_fewer_nodes(cs, mid) && children_merged(cs, inc.subrange(0, inc.len() - 1), mid)
                && merged_one(mid, inc[inc.len() - 1], r);
        law_merge_keeps_names_unique(cs, inc.subrange(0, inc.len() - 1), mid);
        law_merge_one_keeps_names_unique(mid, inc[inc.len() - 1], r);
    }
}

} // verus!
