//! Render graph — multi-pass abstraction for configurable render pipelines.
//!
//! Passes are named, carry dependency names, and can be enabled or disabled.
//! The execution order is a depth-first post-order walk that runs every
//! enabled pass after the enabled passes it depends on.

use vstd::prelude::*;

verus! {

/// Type of render pass.
#[derive(Debug, Clone, Copy, PartialEq, Eq, Structural)]
pub enum PassType {
    /// Shadow depth pass.
    Shadow,
    /// Geometry/PBR pass (writes color + depth).
    Geometry,
    /// SSAO pass (reads depth + normals).
    Ssao,
    /// Bloom pass (reads HDR color).
    Bloom,
    /// Tone mapping / final composite.
    PostProcess,
    /// Debug overlay (lines, wireframes).
    Debug,
    /// Sprite/UI overlay.
    Ui,
    /// Compute dispatch (particles, culling).
    Compute,
    /// Custom pass.
    Custom,
}

/// A named render pass in the graph.
#[derive(Debug, Clone)]
pub struct RenderPassNode {
    /// Unique name for this pass.
    pub name: String,
    /// Passes that must execute before this one.
    pub dependencies: Vec<String>,
    /// Pass type (determines how it's executed).
    pub pass_type: PassType,
    /// Whether this pass is enabled.
    pub enabled: bool,
}

/// Mathematical model of a pass: its name, the names it depends on, its type
/// and whether it is enabled.
pub struct PassSpec {
    pub name: Seq<char>,
    pub deps: Seq<Seq<char>>,
    pub pass_type: PassType,
    pub enabled: bool,
}

impl View for RenderPassNode {
    type V = PassSpec;

    open spec fn view(&self) -> PassSpec {
        PassSpec {
            name: self.name@,
            deps: self.dependencies@.map_values(|d: String| d@),
            pass_type: self.pass_type,
            enabled: self.enabled,
        }
    }
}

/// Render graph — ordered collection of render passes.
pub struct RenderGraph {
    nodes: Vec<RenderPassNode>,
}

impl View for RenderGraph {
    type V = Seq<PassSpec>;

    closed spec fn view(&self) -> Seq<PassSpec> {
        self.nodes@.map_values(|n: RenderPassNode| n@)
    }
}

/// The pass that a name refers to: the most recently added pass with that
/// name (a later pass with the same name shadows an earlier one).
pub open spec fn lookup(g: Seq<PassSpec>, name: Seq<char>) -> Option<int>
    decreases g.len(),
{
    if g.len() == 0 {
        None
    } else if g.last().name == name {
        Some(g.len() - 1)
    } else {
        lookup(g.drop_last(), name)
    }
}

/// A fresh, enabled pass with no dependencies.
pub open spec fn fresh_pass(name: Seq<char>, pass_type: PassType) -> PassSpec {
    PassSpec { name, deps: Seq::empty(), pass_type, enabled: true }
}

/// `pass` with one more dependency name appended.
pub open spec fn with_dependency(pass: PassSpec, dep: Seq<char>) -> PassSpec {
    PassSpec { deps: pass.deps.push(dep), ..pass }
}

/// `pass` with its enabled flag set to `enabled`.
pub open spec fn with_enabled(pass: PassSpec, enabled: bool) -> PassSpec {
    PassSpec { enabled, ..pass }
}

/// Number of enabled passes.
pub open spec fn count_enabled(g: Seq<PassSpec>) -> nat
    decreases g.len(),
{
    if g.len() == 0 {
        0
    } else {
        count_enabled(g.drop_last()) + if g.last().enabled { 1nat } else { 0nat }
    }
}

/// What `lookup` returns: the last index that carries the name, or `None`
/// when no pass carries it.
pub proof fn lemma_lookup(g: Seq<PassSpec>, name: Seq<char>)
    ensures
        match lookup(g, name) {
            Some(i) => 0 <= i < g.len() && g[i].name == name && forall|m: int|
                i < m < g.len() ==> #[trigger] g[m].name != name,
            None => forall|m: int| 0 <= m < g.len() ==> #[trigger] g[m].name != name,
        },
    decreases g.len(),
{
    if g.len() > 0 && g.last().name != name {
        lemma_lookup(g.drop_last(), name);
        assert forall|m: int| 0 <= m < g.len() - 1 implies g.drop_last()[m] == g[m] by {}
    }
}


/// Number of `false` entries (passes not yet visited).
pub open spec fn unvisited(v: Seq<bool>) -> nat
    decreases v.len(),
{
    if v.len() == 0 {
        0
    } else {
        unvisited(v.drop_last()) + if v.last() { 0nat } else { 1nat }
    }
}

/// Depth-first visit of pass `i` from state `st` (visited flags, order so
/// far): an enabled pass not yet visited is marked, its dependencies are
/// visited in the order they were added, and then the pass is appended.
/// `fuel` bounds the recursion depth; the graph's own walk never exhausts it.
pub open spec fn dfs_visit(g: Seq<PassSpec>, i: int, st: (Seq<bool>, Seq<usize>), fuel: nat) -> (
    Seq<bool>,
    Seq<usize>,
)
    decreases fuel, g[i].deps.len() + 1,
{
    if fuel == 0 || !(0 <= i < g.len()) || i >= st.0.len() || st.0[i] || !g[i].enabled {
        st
    } else {
        let after = dfs_deps(g, i, 0, (st.0.update(i, true), st.1), fuel);
        (after.0, after.1.push(i as usize))
    }
}

/// Visits the dependencies of pass `i` from the `j`-th on; a name that no
/// pass carries is skipped.
pub open spec fn dfs_deps(g: Seq<PassSpec>, i: int, j: int, st: (Seq<bool>, Seq<usize>), fuel: nat) -> (
    Seq<bool>,
    Seq<usize>,
)
    decreases fuel, g[i].deps.len() - j,
{
    if fuel == 0 || !(0 <= i < g.len()) || j < 0 || j >= g[i].deps.len() {
        st
    } else {
        let next = match lookup(g, g[i].deps[j]) {
            Some(b) => dfs_visit(g, b, st, (fuel - 1) as nat),
            None => st,
        };
        dfs_deps(g, i, j + 1, next, fuel)
    }
}

/// Starts a visit from every pass `k, k+1, ...` in the order they were added.
pub open spec fn dfs_from(g: Seq<PassSpec>, k: int, st: (Seq<bool>, Seq<usize>)) -> (
    Seq<bool>,
    Seq<usize>,
)
    decreases g.len() - k,
{
    if k >= g.len() {
        st
    } else {
        dfs_from(g, k + 1, dfs_visit(g, k, st, (g.len() + 1) as nat))
    }
}

/// The execution order, as pass indices.
pub open spec fn schedule(g: Seq<PassSpec>) -> Seq<usize> {
    dfs_from(g, 0, (Seq::new(g.len(), |x: int| false), Seq::empty())).1
}

/// `rank` strictly decreases along every dependency between enabled passes.
pub open spec fn is_ranking(g: Seq<PassSpec>, rank: spec_fn(int) -> int) -> bool {
    forall|a: int, j: int|
        0 <= a < g.len() && g[a].enabled && 0 <= j < g[a].deps.len() ==> match lookup(
            g,
            #[trigger] g[a].deps[j],
        ) {
            Some(b) => g[b].enabled ==> rank(b) < rank(a),
            None => true,
        }
}

/// The dependencies among enabled passes form no cycle (they admit a ranking).
pub open spec fn dependencies_acyclic(g: Seq<PassSpec>) -> bool {
    exists|rank: spec_fn(int) -> int| is_ranking(g, rank)
}

/// In `order`, every pass comes after each enabled pass that it depends on.
pub open spec fn runs_after_dependencies(g: Seq<PassSpec>, order: Seq<usize>) -> bool {
    forall|k: int, j: int|
        0 <= k < order.len() && 0 <= j < g[order[k] as int].deps.len() ==> match lookup(
            g,
            #[trigger] g[order[k] as int].deps[j],
        ) {
            Some(b) => g[b].enabled ==> order.take(k).contains(b as usize),
            None => true,
        }
}

/// Well-formed walk state: flags for every pass, and an order of distinct,
/// visited, enabled passes; only enabled passes are ever marked.
pub open spec fn walk_state(g: Seq<PassSpec>, visited: Seq<bool>, order: Seq<usize>) -> bool {
    &&& visited.len() == g.len()
    &&& order.no_duplicates()
    &&& forall|k: int|
        0 <= k < order.len() ==> #[trigger] order[k] < g.len() && visited[order[k] as int]
            && g[order[k] as int].enabled
    &&& forall|x: int| 0 <= x < g.len() && #[trigger] visited[x] ==> g[x].enabled
}

/// How a visit changes the walk state: the order grows at its end, flags only
/// get set, each newly set flag's pass is in the order, and the passes
/// appended were not visited before.
pub open spec fn walk_grows(
    v0: Seq<bool>,
    o0: Seq<usize>,
    v1: Seq<bool>,
    o1: Seq<usize>,
) -> bool {
    &&& v0.len() == v1.len()
    &&& o0.len() <= o1.len()
    &&& o1.take(o0.len() as int) == o0
    &&& forall|x: int| 0 <= x < v0.len() && #[trigger] v0[x] ==> v1[x]
    &&& forall|x: int| 0 <= x < v0.len() && #[trigger] v1[x] && !v0[x] ==> o1.contains(x as usize)
    &&& forall|k: int| o0.len() <= k < o1.len() ==> !v0[#[trigger] o1[k] as int]
}

proof fn lemma_unvisited_le_len(v: Seq<bool>)
    ensures
        unvisited(v) <= v.len(),
    decreases v.len(),
{
    if v.len() > 0 {
        lemma_unvisited_le_len(v.drop_last());
    }
}

proof fn lemma_unvisited_mark(v: Seq<bool>, i: int)
    requires
        0 <= i < v.len(),
        !v[i],
    ensures
        unvisited(v.update(i, true)) + 1 == unvisited(v),
    decreases v.len(),
{
    if i < v.len() - 1 {
        lemma_unvisited_mark(v.drop_last(), i);
        assert(v.update(i, true).drop_last() =~= v.drop_last().update(i, true));
    } else {
        assert(v.update(i, true).drop_last() =~= v.drop_last());
    }
}

proof fn lemma_unvisited_mono(a: Seq<bool>, b: Seq<bool>)
    requires
        a.len() == b.len(),
        forall|x: int| 0 <= x < a.len() && #[trigger] a[x] ==> b[x],
    ensures
        unvisited(b) <= unvisited(a),
    decreases a.len(),
{
    if a.len() > 0 {
        lemma_unvisited_mono(a.drop_last(), b.drop_last());
        assert(a.last() ==> b.last());
    }
}

/// Indices of the enabled passes.
pub open spec fn enabled_passes(g: Seq<PassSpec>) -> Set<int> {
    Set::new(|x: int| 0 <= x < g.len() && g[x].enabled)
}

proof fn lemma_count_enabled_set(g: Seq<PassSpec>)
    ensures
        enabled_passes(g).finite(),
        enabled_passes(g).len() == count_enabled(g),
    decreases g.len(),
{
    if g.len() == 0 {
        assert(enabled_passes(g) =~= Set::<int>::empty());
    } else {
        let h = g.drop_last();
        lemma_count_enabled_set(h);
        if g.last().enabled {
            assert(enabled_passes(g) =~= enabled_passes(h).insert(g.len() - 1));
        } else {
            assert(enabled_passes(g) =~= enabled_passes(h));
        }
    }
}

/// A duplicate-free order that holds exactly the enabled passes has one
/// entry per enabled pass.
proof fn lemma_order_len(g: Seq<PassSpec>, order: Seq<usize>)
    requires
        g.len() <= usize::MAX,
        order.no_duplicates(),
        forall|k: int| 0 <= k < order.len() ==> #[trigger] order[k] < g.len() && g[order[k] as int].enabled,
        forall|x: int| 0 <= x < g.len() && #[trigger] g[x].enabled ==> order.contains(x as usize),
    ensures
        order.len() == count_enabled(g),
{
    let ints = order.map_values(|u: usize| u as int);
    assert(ints.no_duplicates()) by {
        assert forall|a: int, b: int| 0 <= a < ints.len() && 0 <= b < ints.len() && a != b
            implies ints[a] != ints[b] by {
            assert(order[a] != order[b]);
        }
    }
    ints.unique_seq_to_set();
    assert(ints.to_set() =~= enabled_passes(g)) by {
        assert forall|x: int| ints.to_set().contains(x) implies enabled_passes(g).contains(x) by {
            let k = choose|k: int| 0 <= k < ints.len() && ints[k] == x;
            assert(order[k] < g.len());
        }
        assert forall|x: int| enabled_passes(g).contains(x) implies ints.to_set().contains(x) by {
            assert(order.contains(x as usize));
            let k = choose|k: int| 0 <= k < order.len() && order[k] == x as usize;
            assert(ints[k] == x);
        }
    }
    lemma_count_enabled_set(g);
}

/// Law: adding a pass makes its name refer to it, even when an earlier pass
/// carries the same name.
pub proof fn law_added_pass_is_found(g: Seq<PassSpec>, name: Seq<char>, pass_type: PassType)
    ensures
        lookup(g.push(fresh_pass(name, pass_type)), name) == Some(g.len() as int),
{
}

/// Law: a name that the added pass does not carry keeps referring to the
/// same pass.
pub proof fn law_add_pass_keeps_other_names(
    g: Seq<PassSpec>,
    name: Seq<char>,
    pass_type: PassType,
    other: Seq<char>,
)
    requires
        other != name,
    ensures
        lookup(g.push(fresh_pass(name, pass_type)), other) == lookup(g, other),
{
    assert(g.push(fresh_pass(name, pass_type)).drop_last() =~= g);
}

/// Law: changing a pass's dependencies or enabled flag (anything but its
/// name) never changes which pass any name refers to.
pub proof fn law_update_keeps_lookup(g: Seq<PassSpec>, i: int, p: PassSpec, name: Seq<char>)
    requires
        0 <= i < g.len(),
        p.name == g[i].name,
    ensures
        lookup(g.update(i, p), name) == lookup(g, name),
    decreases g.len(),
{
    let h = g.update(i, p);
    if i < g.len() - 1 {
        assert(h.drop_last() =~= g.drop_last().update(i, p));
        law_update_keeps_lookup(g.drop_last(), i, p, name);
    } else {
        assert(h.drop_last() =~= g.drop_last());
    }
}

/// The graph after the pass that `name` refers to gets the enabled flag
/// `enabled`; a name that no pass carries leaves the graph as it is.
pub open spec fn set_enabled_in(g: Seq<PassSpec>, name: Seq<char>, enabled: bool) -> Seq<PassSpec> {
    match lookup(g, name) {
        Some(i) => g.update(i, with_enabled(g[i], enabled)),
        None => g,
    }
}

/// `1` for an enabled flag, `0` otherwise.
pub open spec fn flag_count(enabled: bool) -> int {
    if enabled { 1 } else { 0 }
}

proof fn lemma_count_enabled_update(g: Seq<PassSpec>, i: int, p: PassSpec)
    requires
        0 <= i < g.len(),
    ensures
        count_enabled(g.update(i, p)) == count_enabled(g) - flag_count(g[i].enabled) + flag_count(
            p.enabled,
        ),
    decreases g.len(),
{
    let h = g.update(i, p);
    if i < g.len() - 1 {
        assert(h.drop_last() =~= g.drop_last().update(i, p));
        lemma_count_enabled_update(g.drop_last(), i, p);
    } else {
        assert(h.drop_last() =~= g.drop_last());
    }
}

/// Law: setting a pass's enabled flag back to what it was undoes the change
/// (and a name that no pass carries changes nothing).
pub proof fn law_set_enabled_undo(g: Seq<PassSpec>, name: Seq<char>, enabled: bool)
    ensures
        match lookup(g, name) {
            Some(i) => set_enabled_in(set_enabled_in(g, name, enabled), name, g[i].enabled) == g,
            None => set_enabled_in(g, name, enabled) == g,
        },
{
    if let Some(i) = lookup(g, name) {
        lemma_lookup(g, name);
        let p = with_enabled(g[i], enabled);
        law_update_keeps_lookup(g, i, p, name);
        assert(g.update(i, p).update(i, with_enabled(p, g[i].enabled)) =~= g);
    }
}

/// Law: enabling or disabling a pass changes the number of enabled passes
/// by exactly the change of its flag.
pub proof fn law_set_enabled_count(g: Seq<PassSpec>, name: Seq<char>, enabled: bool)
    ensures
        match lookup(g, name) {
            Some(i) => count_enabled(set_enabled_in(g, name, enabled)) == count_enabled(g)
                - flag_count(g[i].enabled) + flag_count(enabled),
            None => count_enabled(set_enabled_in(g, name, enabled)) == count_enabled(g),
        },
{
    if let Some(i) = lookup(g, name) {
        lemma_lookup(g, name);
        lemma_count_enabled_update(g, i, with_enabled(g[i], enabled));
    }
}

impl RenderGraph {
    /// Index of the pass that `name` refers to.
    fn find(&self, key: &String) -> (r: Option<usize>)
        ensures
            match r {
                Some(k) => lookup(self@, key@) == Some(k as int) && k < self@.len(),
                None => lookup(self@, key@) is None,
            },
    {
        let ghost name = key@;
        let n = self.nodes.len();
        let mut k = n;
        proof {
            lemma_lookup(self@, name);
        }
        while k > 0
            invariant
                k <= n == self.nodes@.len() == self@.len(),
                key@ == name,
                forall|m: int| k <= m < n ==> #[trigger] self@[m].name != name,
                match lookup(self@, name) {
                    Some(i) => 0 <= i < n && self@[i].name == name && forall|m: int|
                        i < m < n ==> #[trigger] self@[m].name != name,
                    None => forall|m: int| 0 <= m < n ==> #[trigger] self@[m].name != name,
                },
            decreases k,
        {
            k = k - 1;
            if self.nodes[k].name == *key {
                assert(self@[k as int].name == name);
                return Some(k);
            }
            assert(self@[k as int].name != name);
        }
        None
    }

    /// An empty graph.
    pub fn new() -> (g: Self)
        ensures
            g@ == Seq::<PassSpec>::empty(),
    {
        let g = RenderGraph { nodes: Vec::new() };
        assert(g@ =~= Seq::<PassSpec>::empty());
        g
    }

    /// Add a pass to the graph.
    pub fn add_pass(&mut self, name: &str, pass_type: PassType) -> (r: &mut Self)
        ensures
            r@ == old(self)@.push(fresh_pass(name@, pass_type)),
            *final(self) == *final(r),
    {
        let node = RenderPassNode {
            name: name.to_owned(),
            dependencies: Vec::new(),
            pass_type,
            enabled: true,
        };
        proof {
            assert(node@.deps =~= Seq::<Seq<char>>::empty());
        }
        self.nodes.push(node);
        proof {
            assert(self@ =~= old(self)@.push(fresh_pass(name@, pass_type)));
        }
        self
    }

    /// Add a dependency: `pass` depends on `dependency` (dependency runs first).
    /// A name that no pass carries leaves the graph unchanged.
    pub fn add_dependency(&mut self, pass: &str, dependency: &str) -> (r: &mut Self)
        ensures
            r@ == match lookup(old(self)@, pass@) {
                Some(i) => old(self)@.update(i, with_dependency(old(self)@[i], dependency@)),
                None => old(self)@,
            },
            *final(self) == *final(r),
    {
        let key = pass.to_owned();
        if let Some(idx) = self.find(&key) {
            let dep = dependency.to_owned();
            self.nodes[idx].dependencies.push(dep);
            proof {
                let i = idx as int;
                assert(self@[i].deps =~= old(self)@[i].deps.push(dependency@));
                assert(self@ =~= old(self)@.update(i, with_dependency(old(self)@[i], dependency@)));
            }
        }
        self
    }

    /// Enable or disable a pass. A name that no pass carries changes nothing.
    pub fn set_enabled(&mut self, name: &str, enabled: bool)
        ensures
            final(self)@ == set_enabled_in(old(self)@, name@, enabled),
    {
        let key = name.to_owned();
        if let Some(idx) = self.find(&key) {
            self.nodes[idx].enabled = enabled;
            proof {
                let i = idx as int;
                assert(self@ =~= old(self)@.update(i, with_enabled(old(self)@[i], enabled)));
            }
        }
    }

    /// Depth-first visit of pass `index`: marks it, visits its dependencies,
    /// then appends it to `order`.
    fn visit(
        &self,
        index: usize,
        visited: &mut Vec<bool>,
        order: &mut Vec<usize>,
        Ghost(fuel): Ghost<nat>,
        Ghost(rank): Ghost<spec_fn(int) -> int>,
    )
        requires
            index < self@.len(),
            walk_state(self@, old(visited)@, old(order)@),
            fuel > unvisited(old(visited)@),
            is_ranking(self@, rank) ==> runs_after_dependencies(self@, old(order)@),
            is_ranking(self@, rank) && self@[index as int].enabled && !old(visited)@[index as int]
                ==> forall|x: int|
                0 <= x < self@.len() && #[trigger] old(visited)@[x] && !old(order)@.contains(
                    x as usize,
                ) ==> rank(x) > rank(index as int),
        ensures
            (final(visited)@, final(order)@) == dfs_visit(
                self@,
                index as int,
                (old(visited)@, old(order)@),
                fuel,
            ),
            walk_state(self@, final(visited)@, final(order)@),
            walk_grows(old(visited)@, old(order)@, final(visited)@, final(order)@),
            self@[index as int].enabled ==> final(visited)@[index as int],
            is_ranking(self@, rank) ==> runs_after_dependencies(self@, final(order)@),
        decreases fuel,
    {
        let ghost g = self@;
        let ghost i = index as int;
        let ghost v0 = visited@;
        let ghost o0 = order@;
        if visited[index] || !self.nodes[index].enabled {
            proof {
                assert(order@.take(o0.len() as int) =~= o0);
            }
            return;
        }
        visited.set(index, true);
        let ghost v1 = visited@;
        proof {
            lemma_unvisited_mark(v0, i);
            assert(order@.take(o0.len() as int) =~= o0);
        }
        let deps_len = self.nodes[index].dependencies.len();
        let mut j: usize = 0;
        while j < deps_len
            invariant
                g == self@,
                i == index as int,
                0 <= i < g.len(),
                g[i].enabled,
                !v0[i],
                v0.len() == g.len(),
                v1 == v0.update(i, true),
                deps_len == g[i].deps.len(),
                j <= deps_len,
                fuel > unvisited(v0),
                unvisited(v1) + 1 == unvisited(v0),
                walk_state(g, visited@, order@),
                walk_grows(v1, o0, visited@, order@),
                !order@.contains(index),
                dfs_deps(g, i, 0, (v1, o0), fuel) == dfs_deps(g, i, j as int, (visited@, order@), fuel),
                forall|jj: int|
                    0 <= jj < j ==> match lookup(g, #[trigger] g[i].deps[jj]) {
                        Some(b) => g[b].enabled ==> visited@[b],
                        None => true,
                    },
                forall|x: int|
                    0 <= x < g.len() && #[trigger] visited@[x] && !order@.contains(x as usize)
                        ==> x == i || (v0[x] && !o0.contains(x as usize)),
                is_ranking(g, rank) ==> runs_after_dependencies(g, order@),
                is_ranking(g, rank) ==> forall|x: int|
                    0 <= x < g.len() && #[trigger] v0[x] && !o0.contains(x as usize) ==> rank(x)
                        > rank(i),
            decreases deps_len - j,
        {
            let ghost vj = visited@;
            let ghost oj = order@;
            proof {
                lemma_unvisited_mono(v1, vj);
                assert(v1[i]);
                assert(vj[i]);
            }
            let dep = &self.nodes[index].dependencies[j];
            assert(dep@ == g[i].deps[j as int]);
            match self.find(dep) {
                Some(b) => {
                    proof {
                        if is_ranking(g, rank) && g[b as int].enabled && !vj[b as int] {
                            assert(rank(b as int) < rank(i));
                            assert forall|x: int|
                                0 <= x < g.len() && #[trigger] vj[x] && !oj.contains(
                                    x as usize,
                                ) implies rank(x) > rank(b as int) by {
                                if x != i {
                                    assert(v0[x] && !o0.contains(x as usize));
                                }
                            }
                        }
                    }
                    self.visit(b, visited, order, Ghost((fuel - 1) as nat), Ghost(rank));
                    proof {
                        // the walk state keeps growing from `v1`
                        let v2 = visited@;
                        let o2 = order@;
                        assert(o2.take(oj.len() as int) == oj);
                        assert(o2.take(o0.len() as int) =~= oj.take(o0.len() as int));
                        assert forall|x: int| 0 <= x < g.len() && #[trigger] v2[x] && !v1[x]
                            implies o2.contains(x as usize) by {
                            if !vj[x] {
                            } else {
                                assert(oj.contains(x as usize));
                                let m = choose|m: int| 0 <= m < oj.len() && oj[m] == x as usize;
                                assert(o2[m] == oj[m]);
                            }
                        }
                        assert forall|k: int| o0.len() <= k < o2.len()
                            implies !v1[#[trigger] o2[k] as int] by {
                            if k < oj.len() {
                                assert(o2[k] == oj[k]);
                            }
                        }
                        assert(!o2.contains(index)) by {
                            if o2.contains(index) {
                                let m = choose|m: int| 0 <= m < o2.len() && o2[m] == index;
                                if m < oj.len() {
                                    assert(o2[m] == oj[m]);
                                }
                            }
                        }
                        assert forall|x: int|
                            0 <= x < g.len() && #[trigger] v2[x] && !o2.contains(x as usize)
                            implies x == i || (v0[x] && !o0.contains(x as usize)) by {
                            if vj[x] {
                                if oj.contains(x as usize) {
                                    let m = choose|m: int| 0 <= m < oj.len() && oj[m] == x as usize;
                                    assert(o2[m] == oj[m]);
                                }
                            }
                        }
                        assert forall|jj: int| 0 <= jj < j + 1 implies match lookup(
                            g,
                            #[trigger] g[i].deps[jj],
                        ) {
                            Some(bb) => g[bb].enabled ==> v2[bb],
                            None => true,
                        } by {
                            if jj < j {
                                lemma_lookup(g, g[i].deps[jj]);
                                match lookup(g, g[i].deps[jj]) {
                                    Some(bb) => {
                                        if g[bb].enabled {
                                            assert(vj[bb]);
                                        }
                                    },
                                    None => {},
                                }
                            }
                        }
                    }
                },
                None => {},
            }
            j = j + 1;
        }
        let ghost vf = visited@;
        let ghost of = order@;
        proof {
            assert(v1[i]);
            assert(vf[i]);
            assert forall|x: int| 0 <= x < v0.len() && #[trigger] v0[x] implies vf[x] by {
                assert(v1[x]);
            }
        }
        order.push(index);
        proof {
            let o3 = order@;
            assert(o3 =~= of.push(index));
            // every enabled dependency of `index` is already in the order
            if is_ranking(g, rank) {
                assert forall|k: int, jj: int|
                    0 <= k < o3.len() && 0 <= jj < g[o3[k] as int].deps.len() implies match lookup(
                        g,
                        #[trigger] g[o3[k] as int].deps[jj],
                    ) {
                        Some(b) => g[b].enabled ==> o3.take(k).contains(b as usize),
                        None => true,
                    } by {
                    if k < of.len() {
                        assert(o3[k] == of[k]);
                        assert(o3.take(k) =~= of.take(k));
                    } else {
                        assert(o3[k] == index);
                        assert(o3.take(k) =~= of);
                        lemma_lookup(g, g[i].deps[jj]);
                        match lookup(g, g[i].deps[jj]) {
                            Some(b) => {
                                if g[b].enabled {
                                    assert(vf[b]);
                                    assert(rank(b) < rank(i));
                                    if !of.contains(b as usize) {
                                        assert(b == i || (v0[b] && !o0.contains(b as usize)));
                                        if b != i {
                                            assert(rank(b) > rank(i));
                                        }
                                    }
                                }
                            },
                            None => {},
                        }
                    }
                }
            }
            assert(o3.take(o0.len() as int) =~= of.take(o0.len() as int));
            assert forall|x: int| 0 <= x < g.len() && #[trigger] vf[x] && !v0[x]
                implies o3.contains(x as usize) by {
                if x == i {
                    assert(o3[of.len() as int] == index);
                } else {
                    assert(of.contains(x as usize));
                    let m = choose|m: int| 0 <= m < of.len() && of[m] == x as usize;
                    assert(o3[m] == of[m]);
                }
            }
            assert forall|k: int| o0.len() <= k < o3.len() implies !v0[#[trigger] o3[k] as int] by {
                if k < of.len() {
                    assert(o3[k] == of[k]);
                }
            }
            assert forall|k: int| 0 <= k < o3.len() implies #[trigger] o3[k] < g.len()
                && vf[o3[k] as int] && g[o3[k] as int].enabled by {
                if k < of.len() {
                    assert(o3[k] == of[k]);
                }
            }
            assert(o3.no_duplicates()) by {
                assert forall|a: int, b: int| 0 <= a < o3.len() && 0 <= b < o3.len() && a != b
                    implies o3[a] != o3[b] by {
                    if a < of.len() && b < of.len() {
                        assert(o3[a] == of[a] && o3[b] == of[b]);
                    } else if a < of.len() {
                        assert(o3[a] == of[a]);
                    } else if b < of.len() {
                        assert(o3[b] == of[b]);
                    }
                }
            }
        }
    }

    /// Get the topologically sorted execution order (respecting dependencies).
    /// Returns pass names in execution order. Disabled passes are excluded.
    pub fn execution_order(&self) -> (r: Vec<&str>)
        ensures
            r@.len() == schedule(self@).len(),
            forall|k: int|
                0 <= k < r@.len() ==> (#[trigger] r@[k])@ == self@[schedule(self@)[k] as int].name,
            schedule(self@).no_duplicates(),
            forall|k: int|
                0 <= k < schedule(self@).len() ==> #[trigger] schedule(self@)[k] < self@.len()
                    && self@[schedule(self@)[k] as int].enabled,
            forall|x: int|
                0 <= x < self@.len() && #[trigger] self@[x].enabled ==> schedule(self@).contains(
                    x as usize,
                ),
            dependencies_acyclic(self@) ==> runs_after_dependencies(self@, schedule(self@)),
            r@.len() == count_enabled(self@),
    {
        let ghost g = self@;
        let n = self.nodes.len();
        let mut visited: Vec<bool> = Vec::with_capacity(n);
        while visited.len() < n
            invariant
                visited.len() <= n,
                forall|x: int| 0 <= x < visited.len() ==> !(#[trigger] visited@[x]),
            decreases n - visited.len(),
        {
            visited.push(false);
        }
        let ghost init = (visited@, Seq::<usize>::empty());
        proof {
            assert(visited@ =~= Seq::new(g.len(), |x: int| false));
        }
        let mut order: Vec<usize> = Vec::with_capacity(n);
        let ghost rank = choose|rank: spec_fn(int) -> int| is_ranking(g, rank);
        let mut i: usize = 0;
        while i < n
            invariant
                g == self@,
                n == g.len(),
                i <= n,
                init == (Seq::new(g.len(), |x: int| false), Seq::<usize>::empty()),
                walk_state(g, visited@, order@),
                dfs_from(g, 0, init) == dfs_from(g, i as int, (visited@, order@)),
                forall|x: int| 0 <= x < n && #[trigger] visited@[x] ==> order@.contains(x as usize),
                forall|x: int| 0 <= x < i && #[trigger] g[x].enabled ==> visited@[x],
                is_ranking(g, rank) ==> runs_after_dependencies(g, order@),
            decreases n - i,
        {
            proof {
                lemma_unvisited_le_len(visited@);
            }
            let ghost vi = visited@;
            let ghost oi = order@;
            if !visited[i] && self.nodes[i].enabled {
                self.visit(i, &mut visited, &mut order, Ghost((n + 1) as nat), Ghost(rank));
                proof {
                    let v2 = visited@;
                    let o2 = order@;
                    assert forall|x: int| 0 <= x < n && #[trigger] v2[x] implies o2.contains(
                        x as usize,
                    ) by {
                        if vi[x] {
                            let m = choose|m: int| 0 <= m < oi.len() && oi[m] == x as usize;
                            assert(o2.take(oi.len() as int)[m] == oi[m]);
                        }
                    }
                }
            }
            i = i + 1;
        }
        proof {
            lemma_order_len(g, order@);
        }
        let mut names: Vec<&str> = Vec::with_capacity(order.len());
        let mut k: usize = 0;
        while k < order.len()
            invariant
                g == self@,
                walk_state(g, visited@, order@),
                k <= order.len(),
                names@.len() == k,
                forall|m: int| 0 <= m < k ==> (#[trigger] names@[m])@ == g[order@[m] as int].name,
            decreases order.len() - k,
        {
            let idx = order[k];
            names.push(self.nodes[idx].name.as_str());
            k = k + 1;
        }
        names
    }

    /// Get a pass node by name.
    pub fn get_pass(&self, name: &str) -> (r: Option<&RenderPassNode>)
        ensures
            match lookup(self@, name@) {
                Some(i) => r is Some && r->0@ == self@[i],
                None => r is None,
            },
    {
        let key = name.to_owned();
        match self.find(&key) {
            Some(idx) => Some(&self.nodes[idx]),
            None => None,
        }
    }

    /// Number of enabled passes.
    pub fn enabled_count(&self) -> (n: usize)
        ensures
            n == count_enabled(self@),
    {
        let mut count: usize = 0;
        let mut i: usize = 0;
        while i < self.nodes.len()
            invariant
                i <= self.nodes@.len() == self@.len(),
                count == count_enabled(self@.take(i as int)),
                count <= i,
            decreases self.nodes@.len() - i,
        {
            proof {
                assert(self@.take(i + 1).drop_last() =~= self@.take(i as int));
            }
            if self.nodes[i].enabled {
                count = count + 1;
            }
            i = i + 1;
        }
        proof {
            assert(self@.take(i as int) =~= self@);
        }
        count
    }

    /// Create a standard forward rendering graph:
    /// shadow → geometry → debug → ui → post_process.
    pub fn forward() -> (g: Self)
        ensures
            g@ == seq![
                fresh_pass("shadow"@, PassType::Shadow),
                with_dependency(fresh_pass("geometry"@, PassType::Geometry), "shadow"@),
                with_dependency(fresh_pass("debug"@, PassType::Debug), "geometry"@),
                with_dependency(fresh_pass("ui"@, PassType::Ui), "debug"@),
                with_dependency(fresh_pass("post_process"@, PassType::PostProcess), "ui"@),
            ],
    {
        proof {
            reveal_strlit("shadow");
            reveal_strlit("geometry");
            reveal_strlit("debug");
            reveal_strlit("ui");
            reveal_strlit("post_process");
            reveal_with_fuel(lookup, 6);
        }
        let mut graph = Self::new();
        graph.add_pass("shadow", PassType::Shadow).add_pass("geometry", PassType::Geometry);
        graph.add_dependency("geometry", "shadow").add_pass("debug", PassType::Debug);
        graph.add_dependency("debug", "geometry").add_pass("ui", PassType::Ui);
        graph.add_dependency("ui", "debug").add_pass("post_process", PassType::PostProcess);
        graph.add_dependency("post_process", "ui");
        proof {
            assert(graph@ =~= seq![
                fresh_pass("shadow"@, PassType::Shadow),
                with_dependency(fresh_pass("geometry"@, PassType::Geometry), "shadow"@),
                with_dependency(fresh_pass("debug"@, PassType::Debug), "geometry"@),
                with_dependency(fresh_pass("ui"@, PassType::Ui), "debug"@),
                with_dependency(fresh_pass("post_process"@, PassType::PostProcess), "ui"@),
            ]);
        }
        graph
    }

    /// Create a forward rendering graph with bloom + SSAO.
    pub fn forward_with_effects() -> (g: Self)
        ensures
            g@ == seq![
                fresh_pass("shadow"@, PassType::Shadow),
                with_dependency(fresh_pass("geometry"@, PassType::Geometry), "shadow"@),
                with_dependency(fresh_pass("ssao"@, PassType::Ssao), "geometry"@),
                with_dependency(fresh_pass("bloom"@, PassType::Bloom), "geometry"@),
                with_dependency(fresh_pass("debug"@, PassType::Debug), "geometry"@),
                with_dependency(fresh_pass("ui"@, PassType::Ui), "debug"@),
                with_dependency(
                    with_dependency(
                        with_dependency(fresh_pass("post_process"@, PassType::PostProcess), "ssao"@),
                        "bloom"@,
                    ),
                    "ui"@,
                ),
            ],
    {
        proof {
            reveal_strlit("shadow");
            reveal_strlit("geometry");
            reveal_strlit("ssao");
            reveal_strlit("bloom");
            reveal_strlit("debug");
            reveal_strlit("ui");
            reveal_strlit("post_process");
            reveal_with_fuel(lookup, 8);
        }
        let mut graph = Self::new();
        graph.add_pass("shadow", PassType::Shadow).add_pass("geometry", PassType::Geometry);
        graph.add_dependency("geometry", "shadow").add_pass("ssao", PassType::Ssao);
        graph.add_dependency("ssao", "geometry").add_pass("bloom", PassType::Bloom);
        graph.add_dependency("bloom", "geometry").add_pass("debug", PassType::Debug);
        graph.add_dependency("debug", "geometry").add_pass("ui", PassType::Ui);
        graph.add_dependency("ui", "debug").add_pass("post_process", PassType::PostProcess);
        graph.add_dependency("post_process", "ssao").add_dependency("post_process", "bloom");
        graph.add_dependency("post_process", "ui");
        proof {
            assert(graph@ =~= seq![
                fresh_pass("shadow"@, PassType::Shadow),
                with_dependency(fresh_pass("geometry"@, PassType::Geometry), "shadow"@),
                with_dependency(fresh_pass("ssao"@, PassType::Ssao), "geometry"@),
                with_dependency(fresh_pass("bloom"@, PassType::Bloom), "geometry"@),
                with_dependency(fresh_pass("debug"@, PassType::Debug), "geometry"@),
                with_dependency(fresh_pass("ui"@, PassType::Ui), "debug"@),
                with_dependency(
                    with_dependency(
                        with_dependency(fresh_pass("post_process"@, PassType::PostProcess), "ssao"@),
                        "bloom"@,
                    ),
                    "ui"@,
                ),
            ]);
        }
        graph
    }

    /// Number of passes.
    pub fn pass_count(&self) -> (n: usize)
        ensures
            n == self@.len(),
    {
        self.nodes.len()
    }
}

impl Default for RenderGraph {
    fn default() -> (g: Self)
        ensures
            g@ == Seq::<PassSpec>::empty(),
    {
        Self::new()
    }
}

} // verus!
