//! How far the selected commit is ahead of and behind other commits: both sides are painted down the
//! cached commit graph in order of generation, until only commits reachable from both are left.
use vstd::prelude::*;

use crate::app::SelectionRelation;
use crate::history::DecorationKind;
use crate::ids::ObjectId;
use crate::lanes::{first_index, lemma_first_index};

verus! {

/// A commit of the cached graph: its parents, its commit time and its generation number, if the
/// commit-graph file gave one.
#[derive(Debug)]
pub struct GraphCommit {
    pub id: ObjectId,
    pub parents: Vec<ObjectId>,
    pub commit_time: i64,
    pub generation: Option<u32>,
}

/// The value of a [`GraphCommit`].
pub struct GraphNode {
    pub id: ObjectId,
    pub parents: Seq<ObjectId>,
    pub commit_time: i64,
    pub generation: Option<u32>,
}

impl View for GraphCommit {
    type V = GraphNode;

    open spec fn view(&self) -> GraphNode {
        GraphNode {
            id: self.id,
            parents: self.parents@,
            commit_time: self.commit_time,
            generation: self.generation,
        }
    }
}

/// The generation number that stands for a commit without one.
pub const GENERATION_NUMBER_INFINITY: u32 = 0xffff_ffff;

/// The values of a list of commits.
pub open spec fn nodes(commits: Seq<GraphCommit>) -> Seq<GraphNode> {
    commits.map_values(|c: GraphCommit| c@)
}

/// The identities of the commits.
pub open spec fn node_ids(g: Seq<GraphNode>) -> Seq<ObjectId> {
    g.map_values(|c: GraphNode| c.id)
}

/// The position of the commit `id` in the graph.
pub open spec fn node_index(g: Seq<GraphNode>, id: ObjectId) -> Option<int> {
    first_index(node_ids(g), id)
}

/// The generation of a commit, with the largest number for a commit without one.
pub open spec fn generation_of(c: GraphNode) -> int {
    match c.generation {
        Some(n) => n as int,
        None => GENERATION_NUMBER_INFINITY as int,
    }
}

/// Commit `x` comes before commit `y` in painting order: a higher generation, or the same generation
/// and a later commit time.
pub open spec fn painted_before(x: GraphNode, y: GraphNode) -> bool {
    generation_of(x) > generation_of(y) || (generation_of(x) == generation_of(y) && x.commit_time
        > y.commit_time)
}

/// The commit at position `y` is a parent of the commit at position `x`.
pub open spec fn edge(g: Seq<GraphNode>, x: int, y: int) -> bool {
    &&& 0 <= x < g.len()
    &&& 0 <= y < g.len()
    &&& exists|k: int| 0 <= k < g[x].parents.len() && node_index(g, #[trigger] g[x].parents[k]) == Some(y)
}

/// A walk from commit to parent through the graph.
pub open spec fn is_path(g: Seq<GraphNode>, p: Seq<int>) -> bool {
    &&& p.len() >= 1
    &&& forall|k: int| 0 <= k < p.len() ==> 0 <= #[trigger] p[k] < g.len()
    &&& forall|k: int| 0 <= k < p.len() - 1 ==> edge(g, #[trigger] p[k], p[k + 1])
}

/// The commit at position `y` is reachable from one of the commits at positions `starts`.
pub open spec fn reaches(g: Seq<GraphNode>, starts: Seq<int>, y: int) -> bool {
    exists|p: Seq<int>| #[trigger] is_path(g, p) && starts.contains(p[0]) && p.last() == y
}

/// Every parent has a lower generation than its child, as generation numbers promise.
pub open spec fn generations_decrease(g: Seq<GraphNode>) -> bool {
    forall|x: int, y: int| #[trigger] edge(g, x, y) ==> generation_of(g[y]) < generation_of(g[x])
}

/// Every parent comes after its child in painting order: a lower generation, or the same generation
/// (commits without a generation number share the largest) and an earlier commit time. Such a graph
/// has no cycle.
pub open spec fn order_decreases(g: Seq<GraphNode>) -> bool {
    forall|x: int, y: int| #[trigger] edge(g, x, y) ==> painted_before(g[x], g[y])
}

/// The number of commits among the first `k` that `a` reaches and `b` does not.
pub open spec fn exclusive_upto(g: Seq<GraphNode>, a: Seq<int>, b: Seq<int>, k: int) -> nat
    decreases k,
{
    if k <= 0 {
        0
    } else {
        exclusive_upto(g, a, b, k - 1) + if reaches(g, a, k - 1) && !reaches(g, b, k - 1) {
            1nat
        } else {
            0nat
        }
    }
}

/// The number of commits of the graph that `a` reaches and `b` does not.
pub open spec fn exclusive(g: Seq<GraphNode>, a: Seq<int>, b: Seq<int>) -> nat {
    exclusive_upto(g, a, b, g.len() as int)
}

// ---------------------------------------------------------------------------------------------
// Paths.
// ---------------------------------------------------------------------------------------------

/// A walk extended by a parent of its last commit.
pub proof fn lemma_path_push(g: Seq<GraphNode>, p: Seq<int>, y: int)
    requires
        is_path(g, p),
        edge(g, p.last(), y),
    ensures
        is_path(g, p.push(y)),
        p.push(y)[0] == p[0],
        p.push(y).last() == y,
{
    let q = p.push(y);
    assert forall|k: int| 0 <= k < q.len() - 1 implies edge(g, #[trigger] q[k], q[k + 1]) by {
        if k < p.len() - 1 {
            assert(q[k] == p[k] && q[k + 1] == p[k + 1]);
        } else {
            assert(q[k] == p.last());
        }
    }
}

/// Reachability extends along an edge.
pub proof fn lemma_reaches_parent(g: Seq<GraphNode>, starts: Seq<int>, x: int, y: int)
    requires
        reaches(g, starts, x),
        edge(g, x, y),
    ensures
        reaches(g, starts, y),
{
    let p = choose|p: Seq<int>| #[trigger] is_path(g, p) && starts.contains(p[0]) && p.last() == x;
    lemma_path_push(g, p, y);
}

/// A start reaches itself.
pub proof fn lemma_reaches_start(g: Seq<GraphNode>, starts: Seq<int>, k: int)
    requires
        0 <= k < starts.len(),
        0 <= starts[k] < g.len(),
    ensures
        reaches(g, starts, starts[k]),
{
    let p = seq![starts[k]];
    assert(is_path(g, p));
    assert(starts.contains(p[0]));
}

/// Along a walk the generations decrease, so every earlier commit of the walk comes before its last.
pub proof fn lemma_path_generations(g: Seq<GraphNode>, p: Seq<int>, k: int)
    requires
        is_path(g, p),
        generations_decrease(g),
        0 <= k < p.len() - 1,
    ensures
        generation_of(g[p[k]]) > generation_of(g[p.last()]),
    decreases p.len() - k,
{
    assert(edge(g, p[k], p[k + 1]));
    if k + 1 < p.len() - 1 {
        lemma_path_generations(g, p, k + 1);
    }
}

/// Along a walk whose steps follow painting order, every earlier commit comes before the last.
pub proof fn lemma_path_order(g: Seq<GraphNode>, p: Seq<int>, k: int)
    requires
        is_path(g, p),
        order_decreases(g),
        0 <= k < p.len() - 1,
    ensures
        painted_before(g[p[k]], g[p.last()]),
    decreases p.len() - k,
{
    assert(edge(g, p[k], p[k + 1]));
    if k + 1 < p.len() - 1 {
        lemma_path_order(g, p, k + 1);
    }
}

/// Where generations decrease from child to parent, so does painting order.
pub proof fn lemma_decreasing_generations_are_in_order(g: Seq<GraphNode>)
    requires
        generations_decrease(g),
    ensures
        order_decreases(g),
{
    assert forall|x: int, y: int| #[trigger] edge(g, x, y) implies painted_before(g[x], g[y]) by {}
}

/// What lies on a walk from `a` to a commit that `b` does not reach is not reached by `b` either.
pub proof fn lemma_path_avoids(g: Seq<GraphNode>, b: Seq<int>, p: Seq<int>, k: int)
    requires
        is_path(g, p),
        0 <= k < p.len(),
        !reaches(g, b, p.last()),
    ensures
        !reaches(g, b, p[k]),
    decreases p.len() - k,
{
    if k < p.len() - 1 {
        lemma_path_avoids(g, b, p, k + 1);
        if reaches(g, b, p[k]) {
            assert(edge(g, p[k], p[k + 1]));
            lemma_reaches_parent(g, b, p[k], p[k + 1]);
        }
    }
}

// ---------------------------------------------------------------------------------------------
// Counting.
// ---------------------------------------------------------------------------------------------

/// The number of `true` entries.
pub open spec fn count_true(s: Seq<bool>) -> nat
    decreases s.len(),
{
    if s.len() == 0 {
        0
    } else {
        count_true(s.drop_last()) + if s.last() {
            1nat
        } else {
            0nat
        }
    }
}

/// Changing one entry changes the count by what that entry contributes.
pub proof fn lemma_count_update(s: Seq<bool>, i: int, b: bool)
    requires
        0 <= i < s.len(),
    ensures
        count_true(s.update(i, b)) == count_true(s) - (if s[i] {
            1int
        } else {
            0int
        }) + (if b {
            1int
        } else {
            0int
        }),
    decreases s.len(),
{
    let t = s.update(i, b);
    if i < s.len() - 1 {
        assert(t.drop_last() =~= s.drop_last().update(i, b));
        lemma_count_update(s.drop_last(), i, b);
    } else {
        assert(t.drop_last() =~= s.drop_last());
    }
}

/// The count is at most the length.
pub proof fn lemma_count_le_len(s: Seq<bool>)
    ensures
        count_true(s) <= s.len(),
    decreases s.len(),
{
    if s.len() > 0 {
        lemma_count_le_len(s.drop_last());
    }
}

/// The count is at most the length, below it where some entry is `false`, and positive where some
/// entry is `true`.
pub proof fn lemma_count_bounds(s: Seq<bool>, i: int)
    requires
        0 <= i < s.len(),
    ensures
        count_true(s) <= s.len(),
        !s[i] ==> count_true(s) < s.len(),
        s[i] ==> count_true(s) >= 1,
    decreases s.len(),
{
    lemma_count_le_len(s);
    lemma_count_le_len(s.drop_last());
    if i < s.len() - 1 {
        lemma_count_bounds(s.drop_last(), i);
        assert(s.drop_last()[i] == s[i]);
    }
}

// ---------------------------------------------------------------------------------------------
// Painting.
// ---------------------------------------------------------------------------------------------

/// The marks a commit carries while painting: reachable from the selected commit, reachable from the
/// other side, and reachable from both, which need not be painted further.
#[derive(Clone, Copy, Debug, PartialEq, Eq, Structural)]
pub struct Flags {
    pub visible: bool,
    pub hidden: bool,
    pub stale: bool,
}

/// `a` carries every mark of `b`.
pub open spec fn covers(a: Flags, b: Flags) -> bool {
    (b.visible ==> a.visible) && (b.hidden ==> a.hidden) && (b.stale ==> a.stale)
}

/// The commit carries some mark.
pub open spec fn flagged(f: Flags) -> bool {
    f.visible || f.hidden || f.stale
}

/// The marks a commit does not carry yet.
pub open spec fn lacking(f: Flags) -> nat {
    (if f.visible { 0nat } else { 1nat }) + (if f.hidden { 0nat } else { 1nat }) + (if f.stale {
        0nat
    } else {
        1nat
    })
}

/// The marks all commits do not carry yet.
pub open spec fn missing(fs: Seq<Flags>) -> nat
    decreases fs.len(),
{
    if fs.len() == 0 {
        0
    } else {
        missing(fs.drop_last()) + lacking(fs.last())
    }
}

/// Adding marks to one commit lowers what is missing, strictly where a mark is new.
pub proof fn lemma_missing_update(fs: Seq<Flags>, i: int, f: Flags)
    requires
        0 <= i < fs.len(),
        covers(f, fs[i]),
    ensures
        missing(fs.update(i, f)) <= missing(fs),
        !covers(fs[i], f) ==> missing(fs.update(i, f)) < missing(fs),
        covers(fs[i], f) ==> missing(fs.update(i, f)) == missing(fs),
    decreases fs.len(),
{
    let t = fs.update(i, f);
    if i < fs.len() - 1 {
        assert(t.drop_last() =~= fs.drop_last().update(i, f));
        lemma_missing_update(fs.drop_last(), i, f);
    } else {
        assert(t.drop_last() =~= fs.drop_last());
    }
}

/// The commits that are waiting to be painted and are not yet known to be reachable from both sides.
pub open spec fn live(queued: Seq<bool>, flags: Seq<Flags>) -> Seq<bool> {
    Seq::new(queued.len(), |x: int| queued[x] && !flags[x].stale)
}

/// What holds of the marks throughout painting from the commits `a` against the commits `b`.
pub open spec fn painting(g: Seq<GraphNode>, a: Seq<int>, b: Seq<int>, flags: Seq<Flags>, queued: Seq<bool>) -> bool {
    &&& flags.len() == g.len()
    &&& queued.len() == g.len()
    &&& forall|x: int| 0 <= x < g.len() && #[trigger] queued[x] ==> flagged(flags[x])
    &&& forall|x: int| 0 <= x < g.len() && (#[trigger] flags[x]).stale ==> flags[x].visible && flags[x].hidden
    &&& forall|x: int| 0 <= x < g.len() && (#[trigger] flags[x]).visible ==> reaches(g, a, x)
    &&& forall|x: int| 0 <= x < g.len() && (#[trigger] flags[x]).hidden ==> reaches(g, b, x)
    &&& forall|k: int| 0 <= k < a.len() ==> 0 <= #[trigger] a[k] < g.len() && flags[a[k]].visible
    &&& forall|k: int| 0 <= k < b.len() ==> 0 <= #[trigger] b[k] < g.len() && flags[b[k]].hidden
}

/// Every commit that was painted and not marked again passed its marks on to its parents.
pub open spec fn passed_on(g: Seq<GraphNode>, flags: Seq<Flags>, queued: Seq<bool>, except: int) -> bool {
    forall|x: int, y: int|
        #![trigger edge(g, x, y), flags[x], flags[y]]
        x != except && edge(g, x, y) && flagged(flags[x]) && !queued[x] ==> covers(flags[y], flags[x])
}

/// Every painted commit that was not marked again carries the marks of every side that reaches it.
pub open spec fn settled(g: Seq<GraphNode>, a: Seq<int>, b: Seq<int>, flags: Seq<Flags>, queued: Seq<bool>) -> bool {
    forall|x: int|
        0 <= x < g.len() && flagged(#[trigger] flags[x]) && !queued[x] ==> (reaches(g, a, x) ==> flags[x].visible)
            && (reaches(g, b, x) ==> flags[x].hidden)
}

/// A mark passes down a walk whose commits before the last were painted.
pub proof fn lemma_mark_reaches_end(
    g: Seq<GraphNode>,
    flags: Seq<Flags>,
    queued: Seq<bool>,
    p: Seq<int>,
    hidden: bool,
    k: int,
)
    requires
        is_path(g, p),
        flags.len() == g.len(),
        queued.len() == g.len(),
        passed_on(g, flags, queued, -1),
        if hidden {
            flags[p[0]].hidden
        } else {
            flags[p[0]].visible
        },
        forall|j: int| 0 <= j < p.len() - 1 ==> !queued[#[trigger] p[j]],
        0 <= k < p.len(),
    ensures
        if hidden {
            flags[p[k]].hidden
        } else {
            flags[p[k]].visible
        },
    decreases k,
{
    if k > 0 {
        lemma_mark_reaches_end(g, flags, queued, p, hidden, k - 1);
        assert(edge(g, p[k - 1], p[k]));
        assert(!queued[p[k - 1]]);
    }
}

/// The position of the commit `id` in the graph.
fn find_node(commits: &Vec<GraphCommit>, id: ObjectId) -> (r: Option<usize>)
    ensures
        match r {
            Some(i) => node_index(nodes(commits@), id) == Some(i as int) && i < commits@.len(),
            None => node_index(nodes(commits@), id) == None::<int>,
        },
{
    let ghost ids = node_ids(nodes(commits@));
    proof {
        lemma_first_index(ids, id);
    }
    let mut i: usize = 0;
    while i < commits.len()
        invariant
            ids == node_ids(nodes(commits@)),
            i <= commits@.len(),
            forall|j: int| 0 <= j < i ==> ids[j] != id,
        decreases commits@.len() - i,
    {
        if commits[i].id == id {
            proof {
                assert(ids[i as int] == id);
                crate::lanes::lemma_first_index_of(ids, id, i as int);
            }
            return Some(i);
        }
        i += 1;
    }
    None
}

/// The generation of a commit, with the largest number for a commit without one.
fn generation(c: &GraphCommit) -> (r: u32)
    ensures
        r == generation_of(c@),
{
    match c.generation {
        Some(n) => n,
        None => GENERATION_NUMBER_INFINITY,
    }
}

/// The waiting commit that is painted next: none comes before it in painting order.
fn next_to_paint(commits: &Vec<GraphCommit>, queued: &Vec<bool>) -> (r: Option<usize>)
    requires
        queued@.len() == commits@.len(),
    ensures
        match r {
            Some(m) => m < commits@.len() && queued@[m as int] && forall|q: int|
                0 <= q < commits@.len() && #[trigger] queued@[q] ==> !painted_before(
                    nodes(commits@)[q],
                    nodes(commits@)[m as int],
                ),
            None => forall|q: int| 0 <= q < commits@.len() ==> !#[trigger] queued@[q],
        },
{
    let ghost g = nodes(commits@);
    let mut best: Option<usize> = None;
    let mut x: usize = 0;
    while x < commits.len()
        invariant
            g == nodes(commits@),
            queued@.len() == commits@.len(),
            x <= commits@.len(),
            match best {
                Some(m) => m < x && queued@[m as int] && forall|q: int|
                    0 <= q < x && #[trigger] queued@[q] ==> !painted_before(g[q], g[m as int]),
                None => forall|q: int| 0 <= q < x ==> !#[trigger] queued@[q],
            },
        decreases commits@.len() - x,
    {
        if queued[x] {
            match best {
                None => {
                    best = Some(x);
                },
                Some(m) => {
                    let gx = generation(&commits[x]);
                    let gm = generation(&commits[m]);
                    if gx > gm || (gx == gm && commits[x].commit_time > commits[m].commit_time) {
                        best = Some(x);
                    }
                },
            }
        }
        x += 1;
    }
    best
}

/// At the end of painting, a commit carries one mark without the other exactly when that side alone
/// reaches it.
pub proof fn lemma_final_marks(
    g: Seq<GraphNode>,
    a: Seq<int>,
    b: Seq<int>,
    flags: Seq<Flags>,
    queued: Seq<bool>,
    x: int,
)
    requires
        painting(g, a, b, flags, queued),
        passed_on(g, flags, queued, -1),
        settled(g, a, b, flags, queued),
        forall|y: int| 0 <= y < g.len() && #[trigger] queued[y] ==> flags[y].stale,
        0 <= x < g.len(),
    ensures
        (flags[x].visible && !flags[x].hidden) <==> (reaches(g, a, x) && !reaches(g, b, x)),
        (flags[x].hidden && !flags[x].visible) <==> (reaches(g, b, x) && !reaches(g, a, x)),
{
    lemma_one_side(g, a, b, flags, queued, x, false);
    lemma_one_side(g, a, b, flags, queued, x, true);
}

/// One side of [`lemma_final_marks`]: `hidden` picks the side of `b`.
proof fn lemma_one_side(
    g: Seq<GraphNode>,
    a: Seq<int>,
    b: Seq<int>,
    flags: Seq<Flags>,
    queued: Seq<bool>,
    x: int,
    hidden: bool,
)
    requires
        painting(g, a, b, flags, queued),
        passed_on(g, flags, queued, -1),
        settled(g, a, b, flags, queued),
        forall|y: int| 0 <= y < g.len() && #[trigger] queued[y] ==> flags[y].stale,
        0 <= x < g.len(),
    ensures
        !hidden ==> ((flags[x].visible && !flags[x].hidden) <==> (reaches(g, a, x) && !reaches(g, b, x))),
        hidden ==> ((flags[x].hidden && !flags[x].visible) <==> (reaches(g, b, x) && !reaches(g, a, x))),
{
    let own = if hidden { b } else { a };
    let other = if hidden { a } else { b };
    if reaches(g, own, x) && !reaches(g, other, x) {
        let p = choose|p: Seq<int>| #[trigger] is_path(g, p) && own.contains(p[0]) && p.last() == x;
        assert forall|j: int| 0 <= j < p.len() - 1 implies !queued[#[trigger] p[j]] by {
            lemma_path_avoids(g, other, p, j);
            if queued[p[j]] {
                assert(flags[p[j]].stale);
            }
        }
        let k0 = choose|k: int| 0 <= k < own.len() && own[k] == p[0];
        assert(if hidden { flags[p[0]].hidden } else { flags[p[0]].visible });
        lemma_mark_reaches_end(g, flags, queued, p, hidden, p.len() - 1);
    }
}

/// A cached commit graph, as painting reads it.
pub struct HistoryGraph {
    pub commits: Vec<GraphCommit>,
    /// The counts painted so far, by selected commit and upstream.
    pub relations: Vec<(ObjectId, ObjectId, (usize, usize))>,
    /// The local branches pointing at each commit, with the upstreams they track.
    pub tracking: Vec<(ObjectId, Vec<SelectionRef>)>,
}

/// The positions of the selected commit and of the others, if the graph holds all of them.
pub open spec fn paint_tips(g: Seq<GraphNode>, first: ObjectId, others: Seq<ObjectId>) -> Option<(int, Seq<int>)> {
    match node_index(g, first) {
        None => None,
        Some(f) => if forall|k: int| 0 <= k < others.len() ==> (#[trigger] node_index(g, others[k])).is_some() {
            Some((f, others.map_values(|o: ObjectId| node_index(g, o).unwrap())))
        } else {
            None
        },
    }
}

/// How many commits only the selected commit reaches, and how many only the others reach.
pub open spec fn ahead_behind(g: Seq<GraphNode>, first: ObjectId, others: Seq<ObjectId>) -> Option<(nat, nat)> {
    match paint_tips(g, first, others) {
        None => None,
        Some((f, hs)) => Some((exclusive(g, seq![f], hs), exclusive(g, hs, seq![f]))),
    }
}

impl HistoryGraph {
    /// An empty graph.
    pub fn new() -> (h: HistoryGraph)
        ensures
            h.commits@.len() == 0,
            h.relations@.len() == 0,
            h.tracking@.len() == 0,
    {
        HistoryGraph { commits: Vec::new(), relations: Vec::new(), tracking: Vec::new() }
    }

    /// Adds a commit, or replaces the one with the same identity.
    pub fn insert(&mut self, commit: GraphCommit)
        ensures
            nodes(final(self).commits@) == match node_index(nodes(old(self).commits@), commit.id) {
                Some(i) => nodes(old(self).commits@).update(i, commit@),
                None => nodes(old(self).commits@).push(commit@),
            },
            final(self).relations == old(self).relations,
    {
        let ghost before = nodes(self.commits@);
        let ghost c = commit@;
        match find_node(&self.commits, commit.id) {
            Some(i) => {
                self.commits.set(i, commit);
                assert(nodes(self.commits@) =~= before.update(i as int, c));
            },
            None => {
                self.commits.push(commit);
                assert(nodes(self.commits@) =~= before.push(c));
            },
        }
    }

    /// How many commits only `first` reaches and how many only `others` reach, painting down the graph
    /// in order of generation, then of commit time, until only commits that both sides reach are
    /// waiting; `None` where the graph lacks one of them. Where every parent comes after its child in
    /// that order (a lower generation, or the same generation and an earlier commit time, commits
    /// without a generation number counting as the largest) the counts are exact.
    pub fn paint(&self, first: ObjectId, others: &Vec<ObjectId>) -> (r: Option<(usize, usize)>)
        ensures
            r.is_some() == paint_tips(nodes(self.commits@), first, others@).is_some(),
            generations_decrease(nodes(self.commits@)) ==> match r {
                Some((ahead, behind)) => ahead_behind(nodes(self.commits@), first, others@) == Some(
                    (ahead as nat, behind as nat),
                ),
                None => true,
            },
            order_decreases(nodes(self.commits@)) ==> match r {
                Some((ahead, behind)) => ahead_behind(nodes(self.commits@), first, others@) == Some(
                    (ahead as nat, behind as nat),
                ),
                None => true,
            },
    {
        let ghost g = nodes(self.commits@);
        let n = self.commits.len();
        let fi = match find_node(&self.commits, first) {
            Some(i) => i,
            None => return None,
        };
        let mut hs: Vec<usize> = Vec::new();
        let mut k: usize = 0;
        while k < others.len()
            invariant
                g == nodes(self.commits@),
                n == g.len(),
                k <= others@.len(),
                hs@.len() == k,
                forall|j: int| 0 <= j < k ==> node_index(g, #[trigger] others@[j]) == Some(hs@[j] as int) && hs@[j] < n,
            decreases others@.len() - k,
        {
            match find_node(&self.commits, others[k]) {
                Some(i) => hs.push(i),
                None => {
                    proof {
                        assert(node_index(g, others@[k as int]).is_none());
                    }
                    return None;
                },
            }
            k += 1;
        }
        let ghost a = seq![fi as int];
        let ghost b = others@.map_values(|o: ObjectId| node_index(g, o).unwrap());
        proof {
            assert forall|j: int| 0 <= j < others@.len() implies (#[trigger] node_index(g, others@[j])).is_some() by {}
            assert(paint_tips(g, first, others@) == Some((fi as int, b)));
            assert forall|j: int| 0 <= j < b.len() implies #[trigger] b[j] == hs@[j] as int && hs@[j] < n by {}
        }
        let none = Flags { visible: false, hidden: false, stale: false };
        let mut flags: Vec<Flags> = vec![none; n];
        let mut queued: Vec<bool> = vec![false; n];
        let mut pending: usize = 0;
        proof {
            assert(live(queued@, flags@) =~= queued@);
            lemma_count_zero(queued@);
        }
        // Seed the selected commit, then the others.
        proof {
            lemma_reaches_start(g, a, 0);
            lemma_count_bounds(live(queued@, flags@), fi as int);
        }
        let ghost live_start = live(queued@, flags@);
        flags.set(fi, Flags { visible: true, hidden: false, stale: false });
        queued.set(fi, true);
        pending += 1;
        proof {
            assert(live(queued@, flags@) =~= live_start.update(fi as int, true));
            lemma_count_update(live_start, fi as int, true);
        }
        let mut s: usize = 0;
        while s < hs.len()
            invariant
                g == nodes(self.commits@),
                n == g.len(),
                fi < n,
                a == seq![fi as int],
                hs@.len() == b.len(),
                forall|j: int| 0 <= j < b.len() ==> #[trigger] b[j] == hs@[j] as int && hs@[j] < n,
                s <= hs@.len(),
                flags@.len() == n,
                queued@.len() == n,
                forall|x: int| 0 <= x < n && #[trigger] queued@[x] ==> flagged(flags@[x]),
                forall|x: int| 0 <= x < n ==> !(#[trigger] flags@[x]).stale,
                forall|x: int| 0 <= x < n && flagged(#[trigger] flags@[x]) ==> queued@[x],
                forall|x: int| 0 <= x < n && (#[trigger] flags@[x]).visible ==> reaches(g, a, x),
                forall|x: int| 0 <= x < n && (#[trigger] flags@[x]).hidden ==> reaches(g, b, x),
                flags@[fi as int].visible,
                forall|j: int| 0 <= j < s ==> flags@[#[trigger] b[j]].hidden,
                pending == count_true(live(queued@, flags@)),
            decreases hs@.len() - s,
        {
            let idx = hs[s];
            proof {
                assert(b[s as int] == idx as int);
                lemma_reaches_start(g, b, s as int);
            }
            let ghost before_live = live(queued@, flags@);
            let old_flags = flags[idx];
            flags.set(idx, Flags { visible: old_flags.visible, hidden: true, stale: false });
            if !queued[idx] {
                proof {
                    lemma_count_bounds(before_live, idx as int);
                }
                queued.set(idx, true);
                pending += 1;
            }
            proof {
                assert(live(queued@, flags@) =~= before_live.update(idx as int, true));
                lemma_count_update(before_live, idx as int, true);
            }
            s += 1;
        }
        proof {
            assert(painting(g, a, b, flags@, queued@));
            assert(passed_on(g, flags@, queued@, -1));
            assert(settled(g, a, b, flags@, queued@));
        }
        let mut next = next_to_paint(&self.commits, &queued);
        while pending != 0 && next.is_some()
            invariant
                g == nodes(self.commits@),
                n == g.len(),
                a == seq![fi as int],
                painting(g, a, b, flags@, queued@),
                passed_on(g, flags@, queued@, -1),
                order_decreases(g) ==> settled(g, a, b, flags@, queued@),
                pending == count_true(live(queued@, flags@)),
                match next {
                    Some(m) => m < n && queued@[m as int] && forall|q: int|
                        0 <= q < n && #[trigger] queued@[q] ==> !painted_before(g[q], g[m as int]),
                    None => forall|q: int| 0 <= q < n ==> !#[trigger] queued@[q],
                },
            decreases missing(flags@), count_true(queued@),
        {
            let x = match next {
                Some(m) => m,
                None => 0,
            };
            let ghost m0 = missing(flags@);
            let ghost q0 = count_true(queued@);
            proof {
                if order_decreases(g) {
                    lemma_painted_marks_arrived(g, a, b, flags@, queued@, x as int);
                }
            }
            let ghost live0 = live(queued@, flags@);
            let ghost queued0 = queued@;
            let mut prop = flags[x];
            queued.set(x, false);
            if !prop.stale {
                proof {
                    lemma_count_bounds(live0, x as int);
                }
                pending -= 1;
            }
            if prop.visible && prop.hidden {
                prop.stale = true;
            }
            let ghost flags0 = flags@;
            flags.set(x, prop);
            proof {
                assert(live(queued@, flags@) =~= live0.update(x as int, false));
                lemma_count_update(live0, x as int, false);
                lemma_count_update(queued0, x as int, false);
                assert(queued@ =~= queued0.update(x as int, false));
                lemma_missing_update(flags0, x as int, prop);
                assert(flags@ =~= flags0.update(x as int, prop));
            }
            let ghost m1 = missing(flags@);
            let ghost q1 = queued@;
            let mut k: usize = 0;
            let parent_count = self.commits[x].parents.len();
            while k < parent_count
                invariant
                    g == nodes(self.commits@),
                    n == g.len(),
                    x < n,
                    a == seq![fi as int],
                    parent_count == g[x as int].parents.len(),
                    k <= parent_count,
                    painting(g, a, b, flags@, queued@),
                    passed_on(g, flags@, queued@, x as int),
                    flags@[x as int] == prop,
                    !queued@[x as int],
                    flagged(prop),
                    forall|j: int|
                        0 <= j < k ==> match node_index(g, #[trigger] g[x as int].parents[j]) {
                            Some(y) => 0 <= y < n && covers(flags@[y], prop),
                            None => true,
                        },
                    order_decreases(g) ==> settled(g, a, b, flags@, queued@),
                    pending == count_true(live(queued@, flags@)),
                    missing(flags@) <= m1,
                    missing(flags@) == m1 ==> queued@ == q1,
                decreases parent_count - k,
            {
                let parent = self.commits[x].parents[k];
                assert(g[x as int].parents[k as int] == parent);
                let ghost flags_k = flags@;
                match find_node(&self.commits, parent) {
                    None => {},
                    Some(pi) => {
                        let previous = flags[pi];
                        let covered = (!prop.visible || previous.visible) && (!prop.hidden || previous.hidden) && (
                        !prop.stale || previous.stale);
                        if !covered {
                            let marked = Flags {
                                visible: previous.visible || prop.visible,
                                hidden: previous.hidden || prop.hidden,
                                stale: previous.stale || prop.stale,
                            };
                            let ghost live1 = live(queued@, flags@);
                            let ghost flags1 = flags@;
                            let ghost queued1 = queued@;
                            proof {
                                assert(edge(g, x as int, pi as int));
                                if prop.visible {
                                    lemma_reaches_parent(g, a, x as int, pi as int);
                                }
                                if prop.hidden {
                                    lemma_reaches_parent(g, b, x as int, pi as int);
                                }
                                lemma_missing_update(flags1, pi as int, marked);
                            }
                            flags.set(pi, marked);
                            if queued[pi] {
                                if !previous.stale && marked.stale {
                                    proof {
                                        lemma_count_bounds(live1, pi as int);
                                    }
                                    pending -= 1;
                                }
                            } else {
                                queued.set(pi, true);
                                if !marked.stale {
                                    proof {
                                        lemma_count_bounds(live1, pi as int);
                                    }
                                    pending += 1;
                                }
                            }
                            proof {
                                assert(flags@ =~= flags1.update(pi as int, marked));
                                let now = queued@[pi as int] && !marked.stale;
                                assert(live(queued@, flags@) =~= live1.update(pi as int, now));
                                lemma_count_update(live1, pi as int, now);
                            }
                        }
                    },
                }
                k += 1;
            }
            proof {
                assert forall|y: int| #[trigger] edge(g, x as int, y) implies covers(flags@[y], flags@[x as int]) by {
                    let j = choose|j: int|
                        0 <= j < g[x as int].parents.len() && node_index(g, #[trigger] g[x as int].parents[j]) == Some(
                            y,
                        );
                }
            }
            next = next_to_paint(&self.commits, &queued);
        }
        proof {
            assert forall|y: int| 0 <= y < n && #[trigger] queued@[y] implies flags@[y].stale by {
                if !flags@[y].stale {
                    assert(live(queued@, flags@)[y]);
                    lemma_count_bounds(live(queued@, flags@), y);
                }
            }
        }
        let mut ahead: usize = 0;
        let mut behind: usize = 0;
        let mut x: usize = 0;
        while x < n
            invariant
                g == nodes(self.commits@),
                n == g.len(),
                a == seq![fi as int],
                painting(g, a, b, flags@, queued@),
                passed_on(g, flags@, queued@, -1),
                order_decreases(g) ==> settled(g, a, b, flags@, queued@),
                forall|y: int| 0 <= y < n && #[trigger] queued@[y] ==> flags@[y].stale,
                x <= n,
                ahead <= x,
                behind <= x,
                order_decreases(g) ==> ahead == exclusive_upto(g, a, b, x as int) && behind == exclusive_upto(
                    g,
                    b,
                    a,
                    x as int,
                ),
            decreases n - x,
        {
            proof {
                if order_decreases(g) {
                    lemma_final_marks(g, a, b, flags@, queued@, x as int);
                }
            }
            let f = flags[x];
            if f.visible && !f.hidden {
                ahead += 1;
            }
            if f.hidden && !f.visible {
                behind += 1;
            }
            x += 1;
        }
        proof {
            if generations_decrease(g) {
                lemma_decreasing_generations_are_in_order(g);
            }
        }
        Some((ahead, behind))
    }
}

/// A reference pointing at the selected commit, with the upstream it tracks: `None` for a reference
/// that tracks nothing, `Some(None)` for an upstream that does not resolve.
#[derive(Debug, PartialEq, Eq)]
pub struct SelectionRef {
    pub name: Vec<u8>,
    pub upstream: Option<Option<ObjectId>>,
}

/// The upstream of the first reference whose upstream resolves.
pub open spec fn first_upstream(refs: Seq<SelectionRef>) -> Option<ObjectId>
    decreases refs.len(),
{
    if refs.len() == 0 {
        None
    } else {
        match refs[0].upstream {
            Some(Some(u)) => Some(u),
            _ => first_upstream(refs.drop_first()),
        }
    }
}

/// Some reference tracks an upstream, resolved or not.
pub open spec fn tracks_upstream(refs: Seq<SelectionRef>) -> bool {
    exists|k: int| 0 <= k < refs.len() && (#[trigger] refs[k]).upstream.is_some()
}

/// The counts painted before for `id` against `upstream`.
pub open spec fn cached_relation(cache: Seq<(ObjectId, ObjectId, (usize, usize))>, id: ObjectId, upstream: ObjectId) -> Option<
    (usize, usize),
>
    decreases cache.len(),
{
    if cache.len() == 0 {
        None
    } else if cache[0].0 == id && cache[0].1 == upstream {
        Some(cache[0].2)
    } else {
        cached_relation(cache.drop_first(), id, upstream)
    }
}

/// A painted relation is remembered, and counts exactly where every parent comes after its child in
/// painting order, as where generations decrease along parents.
pub open spec fn tracking_recorded(
    g: Seq<GraphNode>,
    before: Seq<(ObjectId, ObjectId, (usize, usize))>,
    after: Seq<(ObjectId, ObjectId, (usize, usize))>,
    id: ObjectId,
    u: ObjectId,
    r: Option<SelectionRelation>,
) -> bool {
    match r {
        Some(SelectionRelation::Tracking { ahead, behind }) => {
            &&& after == before.push((id, u, (ahead, behind)))
            &&& order_decreases(g) ==> ahead_behind(g, id, seq![u]) == Some((ahead as nat, behind as nat))
        },
        _ => true,
    }
}

/// The commits only the selected commit reaches, counted exactly where every parent comes after its
/// child in painting order, as where generations decrease along parents.
pub open spec fn visible_counted(g: Seq<GraphNode>, id: ObjectId, hidden: Seq<ObjectId>, r: Option<SelectionRelation>) -> bool {
    match r {
        Some(SelectionRelation::Visible(visible)) => order_decreases(g) ==> match ahead_behind(g, id, hidden) {
            Some((a, _)) => a == visible as nat,
            None => false,
        },
        _ => true,
    }
}

/// The upstream of the first reference whose upstream resolves, and whether any reference tracks one.
fn upstream_of(refs: &Vec<SelectionRef>) -> (r: (Option<ObjectId>, bool))
    ensures
        r.0 == first_upstream(refs@),
        r.1 == tracks_upstream(refs@),
{
    let mut first: Option<ObjectId> = None;
    let mut any_tracking = false;
    let mut k: usize = refs.len();
    while k > 0
        invariant
            k <= refs@.len(),
            first == first_upstream(refs@.subrange(k as int, refs@.len() as int)),
            any_tracking == exists|j: int| k <= j < refs@.len() && (#[trigger] refs@[j]).upstream.is_some(),
        decreases k,
    {
        k -= 1;
        let ghost rest = refs@.subrange(k + 1, refs@.len() as int);
        assert(refs@.subrange(k as int, refs@.len() as int).drop_first() =~= rest);
        match refs[k].upstream {
            Some(Some(u)) => {
                first = Some(u);
            },
            _ => {},
        }
        if refs[k].upstream.is_some() {
            any_tracking = true;
        }
    }
    assert(refs@.subrange(0, refs@.len() as int) =~= refs@);
    (first, any_tracking)
}

/// The counts painted before for `id` against `upstream`.
fn find_relation(cache: &Vec<(ObjectId, ObjectId, (usize, usize))>, id: ObjectId, upstream: ObjectId) -> (r: Option<
    (usize, usize),
>)
    ensures
        r == cached_relation(cache@, id, upstream),
{
    let mut k: usize = cache.len();
    let mut found: Option<(usize, usize)> = None;
    while k > 0
        invariant
            k <= cache@.len(),
            found == cached_relation(cache@.subrange(k as int, cache@.len() as int), id, upstream),
        decreases k,
    {
        k -= 1;
        assert(cache@.subrange(k as int, cache@.len() as int).drop_first() =~= cache@.subrange(k + 1, cache@.len() as int));
        let (a, b, counts) = cache[k];
        if a == id && b == upstream {
            found = Some(counts);
        }
    }
    assert(cache@.subrange(0, cache@.len() as int) =~= cache@);
    found
}

impl HistoryGraph {
    /// How the selected commit relates to its upstream or to the hidden history: the ahead and behind
    /// counts against the upstream of the first reference whose upstream resolves, painted once and
    /// remembered; else, where no reference tracks anything but some reference points at the commit and
    /// history is hidden, how many commits only it reaches. `None` where painting finds a commit
    /// missing, or there is nothing to relate.
    pub fn selection_relation(&mut self, id: ObjectId, refs: &Vec<SelectionRef>, hidden: &Vec<ObjectId>) -> (r: Option<
        SelectionRelation,
    >)
        ensures
            final(self).commits == old(self).commits,
            match first_upstream(refs@) {
                Some(u) => match cached_relation(old(self).relations@, id, u) {
                    Some((ahead, behind)) => r == Some(SelectionRelation::Tracking { ahead, behind })
                        && final(self).relations == old(self).relations,
                    None => {
                        &&& r.is_some() == paint_tips(nodes(old(self).commits@), id, seq![u]).is_some()
                        &&& r.is_none() ==> final(self).relations == old(self).relations
                        &&& tracking_recorded(
                            nodes(old(self).commits@),
                            old(self).relations@,
                            final(self).relations@,
                            id,
                            u,
                            r,
                        )
                        &&& r.is_some() ==> (r matches Some(SelectionRelation::Tracking { .. }))
                    },
                },
                None => {
                    &&& final(self).relations == old(self).relations
                    &&& (tracks_upstream(refs@) || refs@.len() == 0 || hidden@.len() == 0) ==> r.is_none()
                    &&& !(tracks_upstream(refs@) || refs@.len() == 0 || hidden@.len() == 0) ==> {
                        &&& r.is_some() == paint_tips(nodes(old(self).commits@), id, hidden@).is_some()
                        &&& r.is_some() ==> (r matches Some(SelectionRelation::Visible(_)))
                        &&& visible_counted(nodes(old(self).commits@), id, hidden@, r)
                    }
                },
            },
    {
        let (upstream, any_tracking) = upstream_of(refs);
        match upstream {
            Some(u) => {
                match find_relation(&self.relations, id, u) {
                    Some((ahead, behind)) => Some(SelectionRelation::Tracking { ahead, behind }),
                    None => {
                        let tips = vec![u];
                        assert(tips@ == seq![u]);
                        match self.paint(id, &tips) {
                            Some((ahead, behind)) => {
                                self.relations.push((id, u, (ahead, behind)));
                                Some(SelectionRelation::Tracking { ahead, behind })
                            },
                            None => None,
                        }
                    },
                }
            },
            None => {
                if any_tracking || refs.len() == 0 || hidden.len() == 0 {
                    return None;
                }
                match self.paint(id, hidden) {
                    Some((visible, _)) => Some(SelectionRelation::Visible(visible)),
                    None => None,
                }
            },
        }
    }
}

// ---------------------------------------------------------------------------------------------
// The references of the selected commit.
// ---------------------------------------------------------------------------------------------

/// A reference that decorates a commit.
#[derive(Debug, PartialEq, Eq)]
pub struct Decoration {
    pub name: Vec<u8>,
    pub kind: DecorationKind,
}

/// The value of a [`SelectionRef`].
pub struct RefView {
    pub name: Seq<u8>,
    pub upstream: Option<Option<ObjectId>>,
}

impl View for SelectionRef {
    type V = RefView;

    open spec fn view(&self) -> RefView {
        RefView { name: self.name@, upstream: self.upstream }
    }
}

/// The values of a list of references.
pub open spec fn ref_views(refs: Seq<SelectionRef>) -> Seq<RefView> {
    refs.map_values(|r: SelectionRef| r@)
}

/// `a` sorts before `b` as byte strings.
pub open spec fn bytes_lt(a: Seq<u8>, b: Seq<u8>) -> bool
    decreases a.len(),
{
    if a.len() == 0 {
        b.len() > 0
    } else if b.len() == 0 {
        false
    } else if a[0] != b[0] {
        a[0] < b[0]
    } else {
        bytes_lt(a.drop_first(), b.drop_first())
    }
}

/// `x` sorts before `y`, by the bytes of the identities.
pub open spec fn id_lt(x: ObjectId, y: ObjectId) -> bool {
    x.high < y.high || (x.high == y.high && (x.middle < y.middle || (x.middle == y.middle && x.low < y.low)))
}

/// `a` sorts before `b`: no upstream first, then an unresolved one, then resolved ones by identity.
pub open spec fn upstream_lt(a: Option<Option<ObjectId>>, b: Option<Option<ObjectId>>) -> bool {
    match (a, b) {
        (None, Some(_)) => true,
        (Some(None), Some(Some(_))) => true,
        (Some(Some(x)), Some(Some(y))) => id_lt(x, y),
        _ => false,
    }
}

/// `a` sorts before `b`: by name, then by upstream.
pub open spec fn ref_lt(a: RefView, b: RefView) -> bool {
    bytes_lt(a.name, b.name) || (a.name == b.name && upstream_lt(a.upstream, b.upstream))
}

/// The references are in sorted order.
pub open spec fn refs_sorted(refs: Seq<RefView>) -> bool {
    forall|a: int, b: int| 0 <= a < b < refs.len() ==> !ref_lt(#[trigger] refs[b], #[trigger] refs[a])
}

/// Sorting byte strings is transitive.
pub proof fn lemma_bytes_lt_transitive(a: Seq<u8>, b: Seq<u8>, c: Seq<u8>)
    requires
        bytes_lt(a, b),
        bytes_lt(b, c),
    ensures
        bytes_lt(a, c),
    decreases a.len(),
{
    if a.len() > 0 && b.len() > 0 && c.len() > 0 && a[0] == b[0] && b[0] == c[0] {
        lemma_bytes_lt_transitive(a.drop_first(), b.drop_first(), c.drop_first());
    }
}

/// No byte string sorts before itself.
pub proof fn lemma_bytes_lt_irreflexive(a: Seq<u8>)
    ensures
        !bytes_lt(a, a),
    decreases a.len(),
{
    if a.len() > 0 {
        lemma_bytes_lt_irreflexive(a.drop_first());
    }
}

/// No reference sorts before itself.
pub proof fn lemma_ref_lt_irreflexive(a: RefView)
    ensures
        !ref_lt(a, a),
{
    lemma_bytes_lt_irreflexive(a.name);
}

/// Sorting references is transitive.
pub proof fn lemma_ref_lt_transitive(a: RefView, b: RefView, c: RefView)
    requires
        ref_lt(a, b),
        ref_lt(b, c),
    ensures
        ref_lt(a, c),
{
    if bytes_lt(a.name, b.name) && bytes_lt(b.name, c.name) {
        lemma_bytes_lt_transitive(a.name, b.name, c.name);
    }
}

/// Whether `a` sorts before `b` as byte strings.
fn bytes_less(a: &Vec<u8>, b: &Vec<u8>) -> (r: bool)
    ensures
        r == bytes_lt(a@, b@),
{
    let mut i: usize = 0;
    assert(a@.subrange(0, a@.len() as int) =~= a@);
    assert(b@.subrange(0, b@.len() as int) =~= b@);
    while i < a.len() && i < b.len() && a[i] == b[i]
        invariant
            i <= a@.len(),
            i <= b@.len(),
            bytes_lt(a@, b@) == bytes_lt(a@.subrange(i as int, a@.len() as int), b@.subrange(i as int, b@.len() as int)),
        decreases a@.len() - i,
    {
        assert(a@.subrange(i as int, a@.len() as int).drop_first() =~= a@.subrange(i + 1, a@.len() as int));
        assert(b@.subrange(i as int, b@.len() as int).drop_first() =~= b@.subrange(i + 1, b@.len() as int));
        i += 1;
    }
    if i == a.len() {
        i < b.len()
    } else if i == b.len() {
        false
    } else {
        a[i] < b[i]
    }
}

/// Whether reference `a` sorts before reference `b`.
fn ref_less(a: &SelectionRef, b: &SelectionRef) -> (r: bool)
    ensures
        r == ref_lt(a@, b@),
{
    if bytes_less(&a.name, &b.name) {
        return true;
    }
    if a.name.len() != b.name.len() || !crate::history::same_bytes(a.name.as_slice(), b.name.as_slice()) {
        return false;
    }
    match (a.upstream, b.upstream) {
        (None, Some(_)) => true,
        (Some(None), Some(Some(_))) => true,
        (Some(Some(x)), Some(Some(y))) => x.high < y.high || (x.high == y.high && (x.middle < y.middle || (x.middle
            == y.middle && x.low < y.low))),
        _ => false,
    }
}

/// The decorations recorded for `id`.
pub open spec fn decorations_of(decorations: Seq<(ObjectId, Vec<Decoration>)>, id: ObjectId) -> Seq<Decoration>
    decreases decorations.len(),
{
    if decorations.len() == 0 {
        seq![]
    } else if decorations[0].0 == id {
        decorations[0].1@
    } else {
        decorations_of(decorations.drop_first(), id)
    }
}

/// The branches with their upstreams recorded for `id`.
pub open spec fn tracking_of(tracking: Seq<(ObjectId, Vec<SelectionRef>)>, id: ObjectId) -> Seq<SelectionRef>
    decreases tracking.len(),
{
    if tracking.len() == 0 {
        seq![]
    } else if tracking[0].0 == id {
        tracking[0].1@
    } else {
        tracking_of(tracking.drop_first(), id)
    }
}

/// The upstream of the first branches branch named `name`.
pub open spec fn tracked_upstream(branches: Seq<SelectionRef>, name: Seq<u8>) -> Option<Option<ObjectId>>
    decreases branches.len(),
{
    if branches.len() == 0 {
        None
    } else if branches[0].name@ == name {
        branches[0].upstream
    } else {
        tracked_upstream(branches.drop_first(), name)
    }
}

/// The reference a decoration makes: a local branch with the upstream it tracks, anything else
/// without.
pub open spec fn decoration_ref(d: Decoration, branches: Seq<SelectionRef>) -> RefView {
    RefView {
        name: d.name@,
        upstream: if d.kind == DecorationKind::Local {
            tracked_upstream(branches, d.name@)
        } else {
            None
        },
    }
}

/// The references the decorations of `id` make.
pub open spec fn decoration_refs(
    decorations: Seq<(ObjectId, Vec<Decoration>)>,
    tracking: Seq<(ObjectId, Vec<SelectionRef>)>,
    id: ObjectId,
) -> Seq<RefView> {
    decorations_of(decorations, id).map_values(|d: Decoration| decoration_ref(d, tracking_of(tracking, id)))
}

/// The decorations recorded for `id`, found by a scan from the front.
fn find_decorations(decorations: &Vec<(ObjectId, Vec<Decoration>)>, id: ObjectId) -> (r: Option<usize>)
    ensures
        match r {
            Some(k) => k < decorations@.len() && decorations_of(decorations@, id) == decorations@[k as int].1@,
            None => decorations_of(decorations@, id) == Seq::<Decoration>::empty(),
        },
{
    let mut k: usize = decorations.len();
    let mut found: Option<usize> = None;
    while k > 0
        invariant
            k <= decorations@.len(),
            match found {
                Some(j) => k <= j < decorations@.len() && decorations_of(
                    decorations@.subrange(k as int, decorations@.len() as int),
                    id,
                ) == decorations@[j as int].1@,
                None => decorations_of(decorations@.subrange(k as int, decorations@.len() as int), id) == Seq::<
                    Decoration,
                >::empty(),
            },
        decreases k,
    {
        k -= 1;
        assert(decorations@.subrange(k as int, decorations@.len() as int).drop_first() =~= decorations@.subrange(
            k + 1,
            decorations@.len() as int,
        ));
        if decorations[k].0 == id {
            found = Some(k);
        }
    }
    assert(decorations@.subrange(0, decorations@.len() as int) =~= decorations@);
    found
}

/// The branches recorded for `id`, found by a scan from the front.
fn find_tracking(tracking: &Vec<(ObjectId, Vec<SelectionRef>)>, id: ObjectId) -> (r: Option<usize>)
    ensures
        match r {
            Some(k) => k < tracking@.len() && tracking_of(tracking@, id) == tracking@[k as int].1@,
            None => tracking_of(tracking@, id) == Seq::<SelectionRef>::empty(),
        },
{
    let mut k: usize = tracking.len();
    let mut found: Option<usize> = None;
    while k > 0
        invariant
            k <= tracking@.len(),
            match found {
                Some(j) => k <= j < tracking@.len() && tracking_of(
                    tracking@.subrange(k as int, tracking@.len() as int),
                    id,
                ) == tracking@[j as int].1@,
                None => tracking_of(tracking@.subrange(k as int, tracking@.len() as int), id) == Seq::<
                    SelectionRef,
                >::empty(),
            },
        decreases k,
    {
        k -= 1;
        assert(tracking@.subrange(k as int, tracking@.len() as int).drop_first() =~= tracking@.subrange(
            k + 1,
            tracking@.len() as int,
        ));
        if tracking[k].0 == id {
            found = Some(k);
        }
    }
    assert(tracking@.subrange(0, tracking@.len() as int) =~= tracking@);
    found
}

/// The upstream of the first of `branches` named `name`.
fn upstream_named(branches: &Vec<SelectionRef>, name: &Vec<u8>) -> (r: Option<Option<ObjectId>>)
    ensures
        r == tracked_upstream(branches@, name@),
{
    let mut k: usize = branches.len();
    let mut found: Option<Option<ObjectId>> = None;
    while k > 0
        invariant
            k <= branches@.len(),
            found == tracked_upstream(branches@.subrange(k as int, branches@.len() as int), name@),
        decreases k,
    {
        k -= 1;
        assert(branches@.subrange(k as int, branches@.len() as int).drop_first() =~= branches@.subrange(
            k + 1,
            branches@.len() as int,
        ));
        if branches[k].name.len() == name.len() && crate::history::same_bytes(branches[k].name.as_slice(), name.as_slice()) {
            found = branches[k].upstream;
        }
    }
    assert(branches@.subrange(0, branches@.len() as int) =~= branches@);
    found
}

impl HistoryGraph {
    /// The references pointing at `id`, each local branch with the upstream it tracks, sorted by name
    /// and then by upstream.
    pub fn selection_refs(&self, id: ObjectId, decorations: &Vec<(ObjectId, Vec<Decoration>)>) -> (r: Vec<SelectionRef>)
        ensures
            refs_sorted(ref_views(r@)),
            ref_views(r@).to_multiset() == decoration_refs(decorations@, self.tracking@, id).to_multiset(),
    {
        let ghost wanted = decoration_refs(decorations@, self.tracking@, id);
        let empty: Vec<SelectionRef> = Vec::new();
        let branches: &Vec<SelectionRef> = match find_tracking(&self.tracking, id) {
            Some(k) => &self.tracking[k].1,
            None => &empty,
        };
        let none: Vec<Decoration> = Vec::new();
        let decs: &Vec<Decoration> = match find_decorations(decorations, id) {
            Some(k) => &decorations[k].1,
            None => &none,
        };
        let mut out: Vec<SelectionRef> = Vec::new();
        let mut i: usize = 0;
        assert(ref_views(out@) =~= wanted.subrange(0, 0));
        while i < decs.len()
            invariant
                i <= decs@.len(),
                decs@ == decorations_of(decorations@, id),
                branches@ == tracking_of(self.tracking@, id),
                wanted == decoration_refs(decorations@, self.tracking@, id),
                refs_sorted(ref_views(out@)),
                ref_views(out@).to_multiset() == wanted.subrange(0, i as int).to_multiset(),
            decreases decs@.len() - i,
        {
            let d = &decs[i];
            let local = match d.kind {
                DecorationKind::Local => true,
                _ => false,
            };
            let upstream = if local {
                upstream_named(branches, &d.name)
            } else {
                None
            };
            let item = SelectionRef { name: crate::bytes::copy_bytes(d.name.as_slice()), upstream };
            assert(item@ == wanted[i as int]);
            let mut at: usize = 0;
            while at < out.len() && !ref_less(&item, &out[at])
                invariant
                    at <= out@.len(),
                    forall|k: int| 0 <= k < at ==> !ref_lt(item@, #[trigger] ref_views(out@)[k]),
                decreases out@.len() - at,
            {
                at += 1;
            }
            let ghost before = ref_views(out@);
            out.insert(at, item);
            proof {
                let views = ref_views(out@);
                assert(views =~= before.insert(at as int, wanted[i as int]));
                vstd::seq_lib::to_multiset_insert(before, at as int, wanted[i as int]);
                assert(wanted.subrange(0, i + 1) =~= wanted.subrange(0, i as int).push(wanted[i as int]));
                vstd::seq_lib::to_multiset_build(wanted.subrange(0, i as int), wanted[i as int]);
                assert forall|a: int, b: int| 0 <= a < b < views.len() implies !ref_lt(#[trigger] views[b], #[trigger] views[a]) by {
                    if a < at && b == at {
                        assert(views[a] == before[a]);
                        assert(!ref_lt(wanted[i as int], before[a]));
                    } else if a == at {
                        let bb = b - 1;
                        if ref_lt(views[b], views[a]) {
                            assert(views[b] == before[bb]);
                            assert(ref_lt(wanted[i as int], before[at as int]));
                            if bb > at {
                                assert(!ref_lt(before[bb], before[at as int]));
                            }
                            lemma_ref_lt_transitive(before[bb], wanted[i as int], before[at as int]);
                            lemma_ref_lt_irreflexive(before[at as int]);
                        }
                    } else if b < at {
                        assert(views[a] == before[a] && views[b] == before[b]);
                    } else if a < at {
                        assert(views[a] == before[a] && views[b] == before[b - 1]);
                    } else {
                        assert(views[a] == before[a - 1] && views[b] == before[b - 1]);
                    }
                }
            }
            i += 1;
        }
        assert(wanted.subrange(0, decs@.len() as int) =~= wanted);
        out
    }
}

/// The value of a [`Decoration`].
pub open spec fn decoration_view(d: Decoration) -> (Seq<u8>, DecorationKind) {
    (d.name@, d.kind)
}

/// The decorations recorded for `id`, if any entry names it.
pub open spec fn decoration_entry(decorations: Seq<(ObjectId, Vec<Decoration>)>, id: ObjectId) -> Option<
    Seq<(Seq<u8>, DecorationKind)>,
>
    decreases decorations.len(),
{
    if decorations.len() == 0 {
        None
    } else if decorations[0].0 == id {
        Some(decorations[0].1@.map_values(|d: Decoration| decoration_view(d)))
    } else {
        decoration_entry(decorations.drop_first(), id)
    }
}

/// The decorations recorded for `id`, if any entry names it, as a position.
pub(crate) fn decoration_entry_at(decorations: &Vec<(ObjectId, Vec<Decoration>)>, id: ObjectId) -> (r: Option<usize>)
    ensures
        match r {
            Some(k) => k < decorations@.len() && decoration_entry(decorations@, id) == Some(
                decorations@[k as int].1@.map_values(|d: Decoration| decoration_view(d)),
            ),
            None => decoration_entry(decorations@, id).is_none(),
        },
{
    let mut k: usize = decorations.len();
    let mut found: Option<usize> = None;
    while k > 0
        invariant
            k <= decorations@.len(),
            match found {
                Some(j) => k <= j < decorations@.len() && decoration_entry(
                    decorations@.subrange(k as int, decorations@.len() as int),
                    id,
                ) == Some(decorations@[j as int].1@.map_values(|d: Decoration| decoration_view(d))),
                None => decoration_entry(decorations@.subrange(k as int, decorations@.len() as int), id).is_none(),
            },
        decreases k,
    {
        k -= 1;
        assert(decorations@.subrange(k as int, decorations@.len() as int).drop_first() =~= decorations@.subrange(
            k + 1,
            decorations@.len() as int,
        ));
        if decorations[k].0 == id {
            found = Some(k);
        }
    }
    assert(decorations@.subrange(0, decorations@.len() as int) =~= decorations@);
    found
}

/// Whether two lists of decorations hold the same names and kinds in the same order.
fn same_decorations(a: &Vec<Decoration>, b: &Vec<Decoration>) -> (r: bool)
    ensures
        r == (a@.map_values(|d: Decoration| decoration_view(d)) == b@.map_values(|d: Decoration| decoration_view(d))),
{
    let ghost va = a@.map_values(|d: Decoration| decoration_view(d));
    let ghost vb = b@.map_values(|d: Decoration| decoration_view(d));
    if a.len() != b.len() {
        assert(va.len() != vb.len());
        return false;
    }
    let mut k: usize = 0;
    while k < a.len()
        invariant
            a@.len() == b@.len(),
            k <= a@.len(),
            va == a@.map_values(|d: Decoration| decoration_view(d)),
            vb == b@.map_values(|d: Decoration| decoration_view(d)),
            forall|j: int| 0 <= j < k ==> va[j] == vb[j],
        decreases a@.len() - k,
    {
        let same_name = a[k].name.len() == b[k].name.len() && crate::history::same_bytes(
            a[k].name.as_slice(),
            b[k].name.as_slice(),
        );
        if !same_name || a[k].kind != b[k].kind {
            assert(va[k as int] != vb[k as int]);
            return false;
        }
        k += 1;
    }
    assert(va =~= vb);
    true
}

/// Whether the decorations of some row differ between two snapshots of the references: a row that
/// gained, lost or changed its decorations must be drawn again.
pub fn visible_decorations_changed(
    old: &Vec<(ObjectId, Vec<Decoration>)>,
    new: &Vec<(ObjectId, Vec<Decoration>)>,
    rows: &Vec<crate::commit::CommitRow>,
) -> (r: bool)
    ensures
        r == exists|k: int|
            0 <= k < rows@.len() && decoration_entry(old@, #[trigger] rows@[k].id) != decoration_entry(new@, rows@[k].id),
{
    let mut k: usize = 0;
    while k < rows.len()
        invariant
            k <= rows@.len(),
            forall|j: int| 0 <= j < k ==> decoration_entry(old@, #[trigger] rows@[j].id) == decoration_entry(new@, rows@[j].id),
        decreases rows@.len() - k,
    {
        let id = rows[k].id;
        let differs = match (decoration_entry_at(old, id), decoration_entry_at(new, id)) {
            (None, None) => false,
            (Some(a), Some(b)) => !same_decorations(&old[a].1, &new[b].1),
            _ => true,
        };
        if differs {
            return true;
        }
        k += 1;
    }
    false
}

/// The count of a sequence without `true` entries is zero.
pub proof fn lemma_count_zero(s: Seq<bool>)
    requires
        forall|i: int| 0 <= i < s.len() ==> !s[i],
    ensures
        count_true(s) == 0,
    decreases s.len(),
{
    if s.len() > 0 {
        lemma_count_zero(s.drop_last());
    }
}

/// When the next commit is painted, the walks from either side to it have all been painted, so it
/// carries the marks of every side that reaches it.
pub proof fn lemma_painted_marks_arrived(
    g: Seq<GraphNode>,
    a: Seq<int>,
    b: Seq<int>,
    flags: Seq<Flags>,
    queued: Seq<bool>,
    x: int,
)
    requires
        order_decreases(g),
        painting(g, a, b, flags, queued),
        passed_on(g, flags, queued, -1),
        0 <= x < g.len(),
        queued[x],
        forall|q: int| 0 <= q < g.len() && #[trigger] queued[q] ==> !painted_before(g[q], g[x]),
    ensures
        reaches(g, a, x) ==> flags[x].visible,
        reaches(g, b, x) ==> flags[x].hidden,
{
    if reaches(g, a, x) {
        let p = choose|p: Seq<int>| #[trigger] is_path(g, p) && a.contains(p[0]) && p.last() == x;
        assert forall|j: int| 0 <= j < p.len() - 1 implies !queued[#[trigger] p[j]] by {
            lemma_path_order(g, p, j);
        }
        lemma_mark_reaches_end(g, flags, queued, p, false, p.len() - 1);
    }
    if reaches(g, b, x) {
        let p = choose|p: Seq<int>| #[trigger] is_path(g, p) && b.contains(p[0]) && p.last() == x;
        assert forall|j: int| 0 <= j < p.len() - 1 implies !queued[#[trigger] p[j]] by {
            lemma_path_order(g, p, j);
        }
        lemma_mark_reaches_end(g, flags, queued, p, true, p.len() - 1);
    }
}

} // verus!
