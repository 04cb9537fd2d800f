//! The ecosystem graph, projected from repositories and their resolved
//! dependency edges: one node per repository, one `depends_on` edge per
//! dependency resolved to a discovered repository. The graph itself is a
//! `petgraph` graph.

use vstd::prelude::*;
use crate::model::Repository;
use crate::text::{copy_string, str_eq, strings_view, contains_string, opt_chars};
use crate::resolve::{last_index_of, ids_view, applied_pos, paths_view, find_last, lemma_last_index_bounds};
use crate::analysis::{seq_lt, str_lt, lemma_seq_lt_irreflexive, lemma_seq_lt_transitive, lemma_seq_lt_total};
use crate::probe::{first_occurrences, distinct_candidates};

verus! {

#[verifier::external_type_specification]
#[verifier::external_body]
#[verifier::reject_recursive_types(N)]
#[verifier::reject_recursive_types(E)]
#[verifier::reject_recursive_types(Ty)]
#[verifier::reject_recursive_types(Ix)]
pub struct ExGraph<N, E, Ty, Ix>(petgraph::graph::Graph<N, E, Ty, Ix>);

#[verifier::external_type_specification]
#[verifier::external_body]
pub struct ExDirected(petgraph::Directed);

/// The node weights of a graph, in node index order.
pub uninterp spec fn graph_nodes(g: petgraph::graph::Graph<String, (String, bool), petgraph::Directed, u32>) -> Seq<Seq<char>>;

/// The edges of a graph in edge index order: source node, target node,
/// and the weight (dependency name, whether it is a path dependency).
pub uninterp spec fn graph_edges(g: petgraph::graph::Graph<String, (String, bool), petgraph::Directed, u32>) -> Seq<
    (int, int, Seq<char>, bool),
>;

/// `Graph::new`: an empty directed graph.
#[verifier::external_body]
fn new_graph() -> (g: petgraph::graph::Graph<String, (String, bool), petgraph::Directed, u32>)
    ensures
        graph_nodes(g) == Seq::<Seq<char>>::empty(),
        graph_edges(g) == Seq::<(int, int, Seq<char>, bool)>::empty(),
{
    petgraph::graph::Graph::new()
}

/// `Graph::add_node`: appends a node and returns its index. It panics at
/// `u32::MAX` nodes, which `requires` rules out.
#[verifier::external_body]
fn add_node(g: &mut petgraph::graph::Graph<String, (String, bool), petgraph::Directed, u32>, weight: String) -> (r: usize)
    requires
        graph_nodes(*old(g)).len() < 0xffff_ffff,
    ensures
        r == graph_nodes(*old(g)).len(),
        graph_nodes(*final(g)) == graph_nodes(*old(g)).push(weight@),
        graph_edges(*final(g)) == graph_edges(*old(g)),
{
    g.add_node(weight).index()
}

/// `Graph::add_edge`: appends an edge from node `a` to node `b`. It
/// panics when a node does not exist or at `u32::MAX` edges, which
/// `requires` rules out.
#[verifier::external_body]
fn add_edge(
    g: &mut petgraph::graph::Graph<String, (String, bool), petgraph::Directed, u32>,
    a: usize,
    b: usize,
    weight: (String, bool),
)
    requires
        a < graph_nodes(*old(g)).len(),
        b < graph_nodes(*old(g)).len(),
        graph_edges(*old(g)).len() < 0xffff_ffff,
    ensures
        graph_nodes(*final(g)) == graph_nodes(*old(g)),
        graph_edges(*final(g)) == graph_edges(*old(g)).push((a as int, b as int, weight.0@, weight.1)),
{
    g.add_edge(petgraph::graph::NodeIndex::new(a), petgraph::graph::NodeIndex::new(b), weight);
}

/// `Graph::node_count`.
#[verifier::external_body]
fn graph_node_count(g: &petgraph::graph::Graph<String, (String, bool), petgraph::Directed, u32>) -> (r: usize)
    ensures
        r == graph_nodes(*g).len(),
{
    g.node_count()
}

/// `Graph::edge_count`.
#[verifier::external_body]
fn graph_edge_count(g: &petgraph::graph::Graph<String, (String, bool), petgraph::Directed, u32>) -> (r: usize)
    ensures
        r == graph_edges(*g).len(),
{
    g.edge_count()
}

/// `Graph::node_weights`, copied out in node index order.
#[verifier::external_body]
fn node_list(g: &petgraph::graph::Graph<String, (String, bool), petgraph::Directed, u32>) -> (r: Vec<String>)
    ensures
        strings_view(r@) == graph_nodes(*g),
{
    g.node_weights().cloned().collect()
}

/// `Graph::raw_edges`, copied out in edge index order as (source, target,
/// dependency name, path dependency).
#[verifier::external_body]
fn edge_list(g: &petgraph::graph::Graph<String, (String, bool), petgraph::Directed, u32>) -> (r: Vec<
    (usize, usize, String, bool),
>)
    ensures
        edge_tuples(r@) == graph_edges(*g),
{
    g.raw_edges().iter().map(|e| (e.source().index(), e.target().index(), e.weight.0.clone(), e.weight.1)).collect()
}

pub open spec fn edge_tuples(v: Seq<(usize, usize, String, bool)>) -> Seq<(int, int, Seq<char>, bool)> {
    v.map_values(|e: (usize, usize, String, bool)| (e.0 as int, e.1 as int, e.2@, e.3))
}

/// A resolved dependency between two repositories.
#[derive(Debug, Clone)]
pub struct DependencyEdge {
    pub dependency_name: String,
    pub is_path_dependency: bool,
}

/// The edges repository `i`'s first `n` dependencies contribute: one for
/// each dependency resolved to a repository of the set, from the node of
/// `i`'s id to the node of the target id (the last node with that id).
pub open spec fn repo_edges(repos: Seq<Repository>, i: int, n: int) -> Seq<(int, int, Seq<char>, bool)>
    decreases n,
{
    if n <= 0 {
        seq![]
    } else {
        let d = repos[i].dependencies@[n - 1];
        repo_edges(repos, i, n - 1) + match opt_chars(d.resolved_repo) {
            Some(t) => match last_index_of(ids_view(repos), t, repos.len() as int) {
                Some(to) => seq![(applied_pos(repos, i), to, d.name@, d.is_path_dependency)],
                None => seq![],
            },
            None => seq![],
        }
    }
}

pub open spec fn edges_upto(repos: Seq<Repository>, m: int) -> Seq<(int, int, Seq<char>, bool)>
    decreases m,
{
    if m <= 0 {
        seq![]
    } else {
        edges_upto(repos, m - 1) + repo_edges(repos, m - 1, repos[m - 1].dependencies@.len() as int)
    }
}

/// The dependency edges of a set of repositories, in repository then
/// dependency order.
pub open spec fn dependency_edges(repos: Seq<Repository>) -> Seq<(int, int, Seq<char>, bool)> {
    edges_upto(repos, repos.len() as int)
}

/// The graph of repositories and their resolved dependencies.
pub struct EcosystemGraph {
    graph: petgraph::graph::Graph<String, (String, bool), petgraph::Directed, u32>,
}

impl EcosystemGraph {
    /// The node of every repository, by id, in index order.
    pub closed spec fn nodes(&self) -> Seq<Seq<char>> {
        graph_nodes(self.graph)
    }

    /// The edges, in index order.
    pub closed spec fn edges(&self) -> Seq<(int, int, Seq<char>, bool)> {
        graph_edges(self.graph)
    }

    /// Every edge joins two nodes of the graph.
    #[verifier::type_invariant]
    closed spec fn well_formed(self) -> bool {
        forall|e: int|
            0 <= e < graph_edges(self.graph).len() ==> 0 <= #[trigger] graph_edges(self.graph)[e].0 < graph_nodes(
                self.graph,
            ).len() && 0 <= graph_edges(self.graph)[e].1 < graph_nodes(self.graph).len()
    }

}

pub open spec fn repo_ids(repos: Seq<Repository>) -> Seq<Seq<char>> {
    repos.map_values(|r: Repository| r.id@)
}

proof fn lemma_repo_edges_grow(repos: Seq<Repository>, i: int, n: int, big: int)
    requires
        0 <= n <= big,
    ensures
        repo_edges(repos, i, n).len() <= repo_edges(repos, i, big).len(),
    decreases big - n,
{
    if n < big {
        lemma_repo_edges_grow(repos, i, n, big - 1);
    }
}

proof fn lemma_edges_upto_grow(repos: Seq<Repository>, m: int, big: int)
    requires
        0 <= m <= big,
    ensures
        edges_upto(repos, m).len() <= edges_upto(repos, big).len(),
    decreases big - m,
{
    if m < big {
        lemma_edges_upto_grow(repos, m, big - 1);
    }
}

proof fn lemma_edges_bound(repos: Seq<Repository>, i: int, j: int)
    requires
        0 <= i < repos.len(),
        0 <= j < repos[i].dependencies@.len(),
    ensures
        edges_upto(repos, i).len() + repo_edges(repos, i, j + 1).len() <= dependency_edges(repos).len(),
{
    lemma_repo_edges_grow(repos, i, j + 1, repos[i].dependencies@.len() as int);
    lemma_edges_upto_grow(repos, i + 1, repos.len() as int);
}

impl EcosystemGraph {
    /// One node per repository (its id), one edge per dependency resolved
    /// to a repository of the set.
    pub fn from_repositories(repositories: &[Repository]) -> (g: Self)
        requires
            repositories@.len() < 0xffff_ffff,
            dependency_edges(repositories@).len() < 0xffff_ffff,
        ensures
            g.nodes() == repo_ids(repositories@),
            g.edges() == dependency_edges(repositories@),
    {
        let ghost repos = repositories@;
        let mut graph = new_graph();
        let mut ids: Vec<Option<String>> = Vec::new();
        let mut i: usize = 0;
        while i < repositories.len()
            invariant
                i <= repos.len(),
                repos == repositories@,
                repos.len() < 0xffff_ffff,
                graph_nodes(graph) == repo_ids(repos).take(i as int),
                graph_edges(graph) == Seq::<(int, int, Seq<char>, bool)>::empty(),
                paths_view(ids@) == ids_view(repos).take(i as int),
            decreases repos.len() - i,
        {
            add_node(&mut graph, copy_string(&repositories[i].id));
            let ghost before = paths_view(ids@);
            ids.push(Some(copy_string(&repositories[i].id)));
            assert(paths_view(ids@) =~= before.push(Some(repos[i as int].id@)));
            assert(repo_ids(repos).take(i + 1) =~= repo_ids(repos).take(i as int).push(repos[i as int].id@));
            assert(ids_view(repos).take(i + 1) =~= ids_view(repos).take(i as int).push(Some(repos[i as int].id@)));
            i = i + 1;
        }
        assert(repo_ids(repos).take(i as int) =~= repo_ids(repos));
        assert(ids_view(repos).take(i as int) =~= ids_view(repos));
        let mut m: usize = 0;
        while m < repositories.len()
            invariant
                m <= repos.len(),
                repos == repositories@,
                graph_nodes(graph) == repo_ids(repos),
                paths_view(ids@) == ids_view(repos),
                ids@.len() == repos.len(),
                graph_edges(graph) == edges_upto(repos, m as int),
                dependency_edges(repos).len() < 0xffff_ffff,
                forall|e: int|
                    0 <= e < graph_edges(graph).len() ==> 0 <= #[trigger] graph_edges(graph)[e].0 < repos.len() && 0
                        <= graph_edges(graph)[e].1 < repos.len(),
            decreases repos.len() - m,
        {
            proof {
                lemma_last_index_bounds(ids_view(repos), repos[m as int].id@, repos.len() as int);
                assert(ids_view(repos)[m as int] == Some(repos[m as int].id@));
            }
            let from = match find_last(&ids, repositories[m].id.as_str()) {
                Some(p) => p,
                None => m,
            };
            assert(from as int == applied_pos(repos, m as int));
            let deps = &repositories[m].dependencies;
            let mut j: usize = 0;
            while j < deps.len()
                invariant
                    m < repos.len(),
                    deps@ == repos[m as int].dependencies@,
                    j <= deps@.len(),
                    from as int == applied_pos(repos, m as int),
                    from < repos.len(),
                    repos == repositories@,
                    graph_nodes(graph) == repo_ids(repos),
                    paths_view(ids@) == ids_view(repos),
                    ids@.len() == repos.len(),
                    graph_edges(graph) == edges_upto(repos, m as int) + repo_edges(repos, m as int, j as int),
                    dependency_edges(repos).len() < 0xffff_ffff,
                    forall|e: int|
                        0 <= e < graph_edges(graph).len() ==> 0 <= #[trigger] graph_edges(graph)[e].0 < repos.len() && 0
                            <= graph_edges(graph)[e].1 < repos.len(),
                decreases deps@.len() - j,
            {
                proof {
                    lemma_edges_bound(repos, m as int, j as int);
                }
                let d = &deps[j];
                let ghost before = graph_edges(graph);
                match &d.resolved_repo {
                    Some(t) => {
                        proof {
                            lemma_last_index_bounds(ids_view(repos), t@, repos.len() as int);
                        }
                        match find_last(&ids, t.as_str()) {
                            Some(to) => {
                                add_edge(&mut graph, from, to, (copy_string(&d.name), d.is_path_dependency));
                                assert(graph_edges(graph) =~= edges_upto(repos, m as int) + repo_edges(repos, m as int, j + 1));
                            },
                            None => {
                                assert(graph_edges(graph) =~= edges_upto(repos, m as int) + repo_edges(repos, m as int, j + 1));
                            },
                        }
                    },
                    None => {
                        assert(graph_edges(graph) =~= edges_upto(repos, m as int) + repo_edges(repos, m as int, j + 1));
                    },
                }
                j = j + 1;
            }
            assert(graph_edges(graph) =~= edges_upto(repos, m + 1));
            m = m + 1;
        }
        EcosystemGraph { graph }
    }

    pub fn node_count(&self) -> (r: usize)
        ensures
            r == self.nodes().len(),
    {
        graph_node_count(&self.graph)
    }

    pub fn edge_count(&self) -> (r: usize)
        ensures
            r == self.edges().len(),
    {
        graph_edge_count(&self.graph)
    }
}

/// `id` is one of the ranked ids.
pub open spec fn id_listed(v: Seq<(Seq<char>, int)>, id: Seq<char>) -> bool {
    exists|i: int| 0 <= i < v.len() && #[trigger] v[i].0 == id
}

/// How many edges lead to a node named `id`.
pub open spec fn in_degree(nodes: Seq<Seq<char>>, edges: Seq<(int, int, Seq<char>, bool)>, id: Seq<char>) -> nat
    decreases edges.len(),
{
    if edges.len() == 0 {
        0
    } else {
        in_degree(nodes, edges.drop_last(), id) + if nodes[edges.last().1] == id {
            1nat
        } else {
            0nat
        }
    }
}

/// Ranking order: more incoming edges first, then by id.
pub open spec fn ranks_before(a: (Seq<char>, int), b: (Seq<char>, int)) -> bool {
    a.1 > b.1 || (a.1 == b.1 && seq_lt(a.0, b.0))
}

pub open spec fn ranked(v: Seq<(Seq<char>, int)>) -> bool {
    forall|i: int, j: int| 0 <= i < j < v.len() ==> ranks_before(#[trigger] v[i], #[trigger] v[j])
}

pub open spec fn counts_view(v: Seq<(String, usize)>) -> Seq<(Seq<char>, int)> {
    v.map_values(|x: (String, usize)| (x.0@, x.1 as int))
}

/// The number of edges among `edges` leading to a node named `id`.
fn count_in_edges(nodes: &Vec<String>, edges: &Vec<(usize, usize, String, bool)>, id: &str) -> (r: usize)
    requires
        forall|e: int| 0 <= e < edges@.len() ==> #[trigger] edges@[e].1 < nodes@.len(),
    ensures
        r == in_degree(strings_view(nodes@), edge_tuples(edges@), id@),
{
    let ghost nv = strings_view(nodes@);
    let ghost ev = edge_tuples(edges@);
    let mut c: usize = 0;
    let mut k: usize = 0;
    assert(ev.take(0) =~= Seq::<(int, int, Seq<char>, bool)>::empty());
    while k < edges.len()
        invariant
            k <= edges@.len(),
            nv == strings_view(nodes@),
            ev == edge_tuples(edges@),
            forall|e: int| 0 <= e < edges@.len() ==> #[trigger] edges@[e].1 < nodes@.len(),
            c == in_degree(nv, ev.take(k as int), id@),
            c <= k,
        decreases edges@.len() - k,
    {
        assert(ev.take(k + 1).drop_last() =~= ev.take(k as int));
        assert(ev.take(k + 1).last() == ev[k as int]);
        let to = edges[k].1;
        assert(nv[to as int] == nodes@[to as int]@);
        if str_eq(nodes[to].as_str(), id) {
            c = c + 1;
        }
        k = k + 1;
    }
    assert(ev.take(k as int) =~= ev);
    c
}

/// Inserts an id not yet ranked, keeping the ranking order.
fn insert_ranked(v: &mut Vec<(String, usize)>, x: (String, usize))
    requires
        ranked(counts_view(old(v)@)),
        forall|i: int| 0 <= i < old(v)@.len() ==> #[trigger] counts_view(old(v)@)[i].0 != x.0@,
    ensures
        ranked(counts_view(final(v)@)),
        forall|y: (Seq<char>, int)| counts_view(final(v)@).contains(y) <==> (counts_view(old(v)@).contains(y) || y == (x.0@, x.1 as int)),
{
    let ghost v0 = counts_view(v@);
    let ghost xv = (x.0@, x.1 as int);
    let mut p: usize = 0;
    while p < v.len() && (v[p].1 > x.1 || (v[p].1 == x.1 && str_lt(v[p].0.as_str(), x.0.as_str())))
        invariant
            p <= v@.len(),
            v0 == counts_view(v@),
            xv == (x.0@, x.1 as int),
            forall|i: int| 0 <= i < p ==> ranks_before(#[trigger] v0[i], xv),
        decreases v@.len() - p,
    {
        assert(v0[p as int] == (v@[p as int].0@, v@[p as int].1 as int));
        p = p + 1;
    }
    proof {
        if p < v0.len() {
            assert(v0[p as int] == (v@[p as int].0@, v@[p as int].1 as int));
            if v0[p as int].1 == xv.1 {
                lemma_seq_lt_total(v0[p as int].0, xv.0);
            }
            assert forall|j: int| p <= j < v0.len() implies ranks_before(xv, #[trigger] v0[j]) by {
                if j > p {
                    assert(ranks_before(v0[p as int], v0[j]));
                    if xv.1 == v0[p as int].1 && v0[p as int].1 == v0[j].1 {
                        lemma_seq_lt_transitive(xv.0, v0[p as int].0, v0[j].0);
                    }
                }
            }
        }
    }
    v.insert(p, x);
    let ghost v1 = counts_view(v@);
    assert(v1 =~= v0.insert(p as int, xv));
    assert forall|i: int, j: int| 0 <= i < j < v1.len() implies ranks_before(#[trigger] v1[i], #[trigger] v1[j]) by {
        if j < p {
        } else if j == p {
        } else if i < p {
            assert(v1[j] == v0[j - 1]);
            if v1[i].1 == xv.1 && xv.1 == v1[j].1 {
                lemma_seq_lt_transitive(v1[i].0, xv.0, v1[j].0);
            }
        } else if i == p {
            assert(v1[j] == v0[j - 1]);
        } else {
            assert(v1[i] == v0[i - 1]);
            assert(v1[j] == v0[j - 1]);
        }
    }
    assert forall|y: (Seq<char>, int)| v1.contains(y) <==> (v0.contains(y) || y == xv) by {
        if v1.contains(y) {
            let i = choose|i: int| 0 <= i < v1.len() && v1[i] == y;
            if i < p {
                assert(v0[i] == y);
            } else if i > p {
                assert(v0[i - 1] == y);
            }
        }
        if v0.contains(y) {
            let i = choose|i: int| 0 <= i < v0.len() && v0[i] == y;
            if i < p {
                assert(v1[i] == y);
            } else {
                assert(v1[i + 1] == y);
            }
        }
        if y == xv {
            assert(v1[p as int] == y);
        }
    }
}

impl EcosystemGraph {
    /// Repositories that at least one discovered repository depends on,
    /// with how many dependency edges lead to them: the `top_n` most
    /// depended on, by count (descending) then id.
    pub fn most_depended_on(&self, top_n: usize) -> (r: Vec<(String, usize)>)
        ensures
            r@.len() <= top_n,
            ranked(counts_view(r@)),
            forall|i: int|
                0 <= i < r@.len() ==> #[trigger] counts_view(r@)[i].1 == in_degree(self.nodes(), self.edges(), counts_view(r@)[i].0)
                    && counts_view(r@)[i].1 > 0,
            forall|id: Seq<char>|
                #![trigger in_degree(self.nodes(), self.edges(), id)]
                in_degree(self.nodes(), self.edges(), id) > 0 ==> counts_view(r@).contains(
                    (id, in_degree(self.nodes(), self.edges(), id) as int),
                ) || (r@.len() == top_n && forall|i: int|
                    0 <= i < r@.len() ==> ranks_before(
                        #[trigger] counts_view(r@)[i],
                        (id, in_degree(self.nodes(), self.edges(), id) as int),
                    )),
    {
        proof {
            use_type_invariant(self);
        }
        let nodes = node_list(&self.graph);
        let edges = edge_list(&self.graph);
        let ghost nv = strings_view(nodes@);
        let ghost ev = edge_tuples(edges@);
        assert(nv == self.nodes());
        assert(ev == self.edges());
        assert(nv.len() == nodes@.len());
        assert(ev.len() == edges@.len());
        assert forall|e: int| 0 <= e < edges@.len() implies #[trigger] edges@[e].1 < nodes@.len() by {
            assert(ev[e] == (edges@[e].0 as int, edges@[e].1 as int, edges@[e].2@, edges@[e].3));
            assert(0 <= graph_edges(self.graph)[e].0 < graph_nodes(self.graph).len());
        }
        let mut all: Vec<(String, usize)> = Vec::new();
        let mut k: usize = 0;
        while k < edges.len()
            invariant
                k <= edges@.len(),
                nv == strings_view(nodes@),
                ev == edge_tuples(edges@),
                forall|e: int| 0 <= e < edges@.len() ==> #[trigger] edges@[e].1 < nodes@.len(),
                ranked(counts_view(all@)),
                forall|i: int|
                    0 <= i < all@.len() ==> #[trigger] counts_view(all@)[i].1 == in_degree(nv, ev, counts_view(all@)[i].0)
                        && counts_view(all@)[i].1 > 0,
                forall|e: int| 0 <= e < k ==> id_listed(counts_view(all@), nv[#[trigger] ev[e].1]),
            decreases edges@.len() - k,
        {
            let to = edges[k].1;
            let id = &nodes[to];
            assert(ev[k as int].1 == to as int);
            assert(nv[to as int] == id@);
            let mut present = false;
            let mut q: usize = 0;
            while q < all.len()
                invariant
                    q <= all@.len(),
                    present ==> exists|i: int| 0 <= i < all@.len() && #[trigger] counts_view(all@)[i].0 == id@,
                    !present ==> forall|i: int| 0 <= i < q ==> #[trigger] counts_view(all@)[i].0 != id@,
                decreases all@.len() - q,
            {
                assert(counts_view(all@)[q as int].0 == all@[q as int].0@);
                if str_eq(all[q].0.as_str(), id.as_str()) {
                    present = true;
                }
                q = q + 1;
            }
            if !present {
                let n = count_in_edges(&nodes, &edges, id.as_str());
                proof {
                    lemma_in_degree_positive(nv, ev, k as int);
                }
                let ghost before = counts_view(all@);
                insert_ranked(&mut all, (copy_string(id), n));
                let ghost after = counts_view(all@);
                assert forall|i: int|
                    0 <= i < all@.len() implies #[trigger] after[i].1 == in_degree(nv, ev, after[i].0) && after[i].1 > 0 by {
                    assert(after.contains(after[i]));
                    if after[i] != (id@, n as int) {
                        assert(before.contains(after[i]));
                        let j = choose|j: int| 0 <= j < before.len() && before[j] == after[i];
                        assert(before[j].1 == in_degree(nv, ev, before[j].0));
                    }
                }
                assert forall|e: int| 0 <= e < k + 1 implies id_listed(after, nv[#[trigger] ev[e].1]) by {
                    if e < k {
                        assert(id_listed(before, nv[ev[e].1]));
                        let i = choose|i: int| 0 <= i < before.len() && #[trigger] before[i].0 == nv[ev[e].1];
                        assert(after.contains(before[i]));
                        let j = choose|j: int| 0 <= j < after.len() && after[j] == before[i];
                        assert(after[j].0 == nv[ev[e].1]);
                    } else {
                        assert(after.contains((id@, n as int)));
                        let j = choose|j: int| 0 <= j < after.len() && after[j] == (id@, n as int);
                        assert(after[j].0 == nv[ev[e].1]);
                    }
                }
            }
            k = k + 1;
        }
        let mut out: Vec<(String, usize)> = Vec::new();
        let mut t: usize = 0;
        while t < all.len() && t < top_n
            invariant
                t <= all@.len(),
                t <= top_n,
                counts_view(out@) == counts_view(all@).take(t as int),
            decreases all@.len() - t,
        {
            let ghost before = counts_view(out@);
            let name = copy_string(&all[t].0);
            out.push((name, all[t].1));
            assert(counts_view(out@) =~= before.push(counts_view(all@)[t as int]));
            assert(counts_view(out@) =~= counts_view(all@).take(t + 1));
            t = t + 1;
        }
        let ghost av = counts_view(all@);
        let ghost ov = counts_view(out@);
        assert forall|i: int| 0 <= i < ov.len() implies #[trigger] ov[i].1 == in_degree(nv, ev, ov[i].0) && ov[i].1 > 0 by {
            assert(ov[i] == av[i]);
        }
        assert forall|id: Seq<char>|
            #![trigger in_degree(nv, ev, id)]
            in_degree(nv, ev, id) > 0 implies ov.contains((id, in_degree(nv, ev, id) as int)) || (ov.len() == top_n
                && forall|i: int| 0 <= i < ov.len() ==> ranks_before(#[trigger] ov[i], (id, in_degree(nv, ev, id) as int))) by {
            let e = lemma_in_degree_witness(nv, ev, id);
            assert(id_listed(av, nv[ev[e].1]));
            let i = choose|i: int| 0 <= i < av.len() && #[trigger] av[i].0 == nv[ev[e].1];
            assert(av[i] == (id, in_degree(nv, ev, id) as int));
            if i < t {
                assert(ov[i] == av[i]);
            } else {
                assert forall|j: int| 0 <= j < ov.len() implies ranks_before(#[trigger] ov[j], (id, in_degree(nv, ev, id) as int)) by {
                    assert(ov[j] == av[j]);
                }
            }
        }
        out
    }
}

proof fn lemma_in_degree_positive(nodes: Seq<Seq<char>>, edges: Seq<(int, int, Seq<char>, bool)>, k: int)
    requires
        0 <= k < edges.len(),
    ensures
        in_degree(nodes, edges, nodes[edges[k].1]) > 0,
    decreases edges.len(),
{
    if k < edges.len() - 1 {
        assert(edges.drop_last()[k] == edges[k]);
        lemma_in_degree_positive(nodes, edges.drop_last(), k);
    }
}

proof fn lemma_in_degree_witness(nodes: Seq<Seq<char>>, edges: Seq<(int, int, Seq<char>, bool)>, id: Seq<char>) -> (e: int)
    requires
        in_degree(nodes, edges, id) > 0,
    ensures
        0 <= e < edges.len(),
        nodes[edges[e].1] == id,
    decreases edges.len(),
{
    if nodes[edges.last().1] == id {
        (edges.len() - 1) as int
    } else {
        let e = lemma_in_degree_witness(nodes, edges.drop_last(), id);
        assert(edges.drop_last()[e] == edges[e]);
        e
    }
}

/// A node of the exported graph.
#[derive(Debug)]
pub struct GraphNode {
    pub id: String,
}

/// An edge of the exported graph.
#[derive(Debug)]
pub struct GraphEdge {
    pub from: String,
    pub to: String,
    pub relationship: String,
    pub dependency_name: String,
    pub is_path_dependency: bool,
}

/// The graph as plain nodes and edges, for serialisation.
#[derive(Debug)]
pub struct GraphExport {
    pub nodes: Vec<GraphNode>,
    pub edges: Vec<GraphEdge>,
}

pub open spec fn export_nodes(v: Seq<GraphNode>) -> Seq<Seq<char>> {
    v.map_values(|n: GraphNode| n.id@)
}

pub open spec fn export_edges(v: Seq<GraphEdge>) -> Seq<(Seq<char>, Seq<char>, Seq<char>, Seq<char>, bool)> {
    v.map_values(|e: GraphEdge| (e.from@, e.to@, e.relationship@, e.dependency_name@, e.is_path_dependency))
}

/// The exported form of an edge.
pub open spec fn exported_edge(nodes: Seq<Seq<char>>, e: (int, int, Seq<char>, bool)) -> (
    Seq<char>,
    Seq<char>,
    Seq<char>,
    Seq<char>,
    bool,
) {
    (nodes[e.0], nodes[e.1], "depends_on"@, e.2, e.3)
}

impl EcosystemGraph {
    /// Every repository id once, and every edge as `depends_on` between
    /// the ids it joins.
    pub fn to_export(&self) -> (r: GraphExport)
        ensures
            export_nodes(r.nodes@) == first_occurrences(self.nodes()),
            export_edges(r.edges@) == self.edges().map_values(
                |e: (int, int, Seq<char>, bool)| exported_edge(self.nodes(), e),
            ),
    {
        proof {
            use_type_invariant(self);
        }
        let nodes = node_list(&self.graph);
        let edges = edge_list(&self.graph);
        let ghost nv = strings_view(nodes@);
        let ghost ev = edge_tuples(edges@);
        assert(nv.len() == nodes@.len());
        assert(ev.len() == edges@.len());
        let ids = distinct_candidates(&nodes);
        let mut out_nodes: Vec<GraphNode> = Vec::new();
        let mut k: usize = 0;
        while k < ids.len()
            invariant
                k <= ids@.len(),
                export_nodes(out_nodes@) == strings_view(ids@).take(k as int),
            decreases ids@.len() - k,
        {
            let ghost before = export_nodes(out_nodes@);
            out_nodes.push(GraphNode { id: copy_string(&ids[k]) });
            assert(export_nodes(out_nodes@) =~= before.push(ids@[k as int]@));
            assert(strings_view(ids@).take(k + 1) =~= strings_view(ids@).take(k as int).push(ids@[k as int]@));
            k = k + 1;
        }
        assert(strings_view(ids@).take(k as int) =~= strings_view(ids@));
        let ghost f = |e: (int, int, Seq<char>, bool)| exported_edge(nv, e);
        let mut out_edges: Vec<GraphEdge> = Vec::new();
        let mut e: usize = 0;
        while e < edges.len()
            invariant
                e <= edges@.len(),
                nv == strings_view(nodes@),
                ev == edge_tuples(edges@),
                nv == self.nodes(),
                ev == self.edges(),
                nv.len() == nodes@.len(),
                ev.len() == edges@.len(),
                forall|t: int| 0 <= t < ev.len() ==> 0 <= #[trigger] ev[t].0 < nv.len() && 0 <= ev[t].1 < nv.len(),
                f == (|e: (int, int, Seq<char>, bool)| exported_edge(nv, e)),
                export_edges(out_edges@) == ev.take(e as int).map_values(f),
            decreases edges@.len() - e,
        {
            let from = edges[e].0;
            let to = edges[e].1;
            assert(ev[e as int] == (from as int, to as int, edges@[e as int].2@, edges@[e as int].3));
            assert(0 <= ev[e as int].0 < nv.len() && 0 <= ev[e as int].1 < nv.len());
            assert(nv[from as int] == nodes@[from as int]@);
            assert(nv[to as int] == nodes@[to as int]@);
            let ge = GraphEdge {
                from: copy_string(&nodes[from]),
                to: copy_string(&nodes[to]),
                relationship: "depends_on".to_string(),
                dependency_name: copy_string(&edges[e].2),
                is_path_dependency: edges[e].3,
            };
            let ghost before = export_edges(out_edges@);
            out_edges.push(ge);
            assert(export_edges(out_edges@) =~= before.push(f(ev[e as int])));
            assert(ev.take(e + 1).map_values(f) =~= ev.take(e as int).map_values(f).push(f(ev[e as int])));
            e = e + 1;
        }
        assert(ev.take(e as int) =~= ev);
        GraphExport { nodes: out_nodes, edges: out_edges }
    }
}

} // verus!
