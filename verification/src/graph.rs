//! The dependency graph of the services and the order in which they start.
//!
//! A graph is modelled as a sequence indexed by service: entry `i` lists the
//! indices of the services that service `i` depends on.

use vstd::prelude::*;
use vstd::set_lib::*;

verus! {

/// One service as the graph sees it: its name and the names it depends on.
pub struct Node {
    pub name: String,
    pub depends_on: Vec<String>,
}

/// The services that could not be ordered because they wait on one another.
pub struct CycleError {
    pub services: Vec<String>,
}

/// Why no start order could be produced.
pub enum GraphError {
    /// Two services carry the same name.
    DuplicateName { name: String },
    /// A service depends on a name that no service carries.
    UnknownDependency { service: String, dependency: String },
    /// The dependencies form a cycle.
    Cycle(CycleError),
}

/// The views of a sequence of strings.
pub open spec fn texts(v: Seq<String>) -> Seq<Seq<char>> {
    Seq::new(v.len(), |i: int| v[i]@)
}

/// A sequence of machine indices as mathematical integers.
pub open spec fn ints(v: Seq<usize>) -> Seq<int> {
    Seq::new(v.len(), |i: int| v[i] as int)
}

/// Every dependency names a service of the graph.
pub open spec fn closed(g: Seq<Seq<int>>) -> bool {
    forall|i: int, k: int|
        0 <= i < g.len() && 0 <= k < g[i].len() ==> 0 <= #[trigger] g[i][k] < g.len()
}

/// Service `i` depends on service `d`.
pub open spec fn depends(g: Seq<Seq<int>>, i: int, d: int) -> bool {
    0 <= i < g.len() && g[i].contains(d)
}

/// `order` holds services of a graph of `n` services, none of them twice.
pub open spec fn distinct_services(order: Seq<int>, n: nat) -> bool {
    &&& order.no_duplicates()
    &&& forall|p: int| 0 <= p < order.len() ==> 0 <= #[trigger] order[p] < n
}

/// `order` holds each of the `n` services exactly once.
pub open spec fn arrangement(order: Seq<int>, n: nat) -> bool {
    &&& order.len() == n
    &&& distinct_services(order, n)
    &&& forall|i: int| 0 <= i < n ==> order.contains(i)
}

/// Every service in `order` stands behind each of its dependencies.
pub open spec fn dependencies_first(g: Seq<Seq<int>>, order: Seq<int>) -> bool {
    forall|p: int, k: int|
        0 <= p < order.len() && 0 <= order[p] < g.len() && 0 <= k < g[order[p]].len()
            ==> order.take(p).contains(#[trigger] g[order[p]][k])
}

/// `order` is a start order of `g`: all services, each one after everything it
/// depends on.
pub open spec fn start_order(g: Seq<Seq<int>>, order: Seq<int>) -> bool {
    &&& arrangement(order, g.len())
    &&& forall|p: int, q: int|
        0 <= p < order.len() && 0 <= q < order.len() && depends(g, order[p], order[q]) ==> q < p
}

/// `path` walks along dependencies from a service back to itself.
pub open spec fn is_cycle(g: Seq<Seq<int>>, path: Seq<int>) -> bool {
    &&& path.len() >= 2
    &&& path[0] == path[path.len() - 1]
    &&& forall|k: int| 0 <= k < path.len() - 1 ==> depends(g, #[trigger] path[k], path[k + 1])
}

/// Some service depends, directly or through others, on itself.
pub open spec fn cyclic(g: Seq<Seq<int>>) -> bool {
    exists|path: Seq<int>| is_cycle(g, path)
}

/// Service `i` depends on a member of `stuck`.
pub open spec fn waits_inside(g: Seq<Seq<int>>, stuck: Set<int>, i: int) -> bool {
    0 <= i < g.len() && exists|d: int| stuck.contains(d) && depends(g, i, d)
}

/// A nonempty set of services in which everyone waits for another member.
pub open spec fn deadlocked(g: Seq<Seq<int>>, stuck: Set<int>) -> bool {
    &&& exists|i: int| stuck.contains(i)
    &&& forall|i: int| stuck.contains(i) ==> #[trigger] waits_inside(g, stuck, i)
}

/// `stuck` lists, by ascending index, the services that `startable` leaves
/// out; `startable` is in dependency order, the members of `stuck` wait for one
/// another, and `services` holds their names.
pub open spec fn leftover_report(
    g: Seq<Seq<int>>,
    names: Seq<Seq<char>>,
    startable: Seq<int>,
    stuck: Seq<int>,
    services: Seq<Seq<char>>,
) -> bool {
    &&& distinct_services(startable, g.len())
    &&& dependencies_first(g, startable)
    &&& distinct_services(stuck, g.len())
    &&& forall|a: int, b: int| 0 <= a < b < stuck.len() ==> stuck[a] < stuck[b]
    &&& forall|i: int| 0 <= i < g.len() ==> (stuck.contains(i) <==> !startable.contains(i))
    &&& deadlocked(g, stuck.to_set())
    &&& services.len() == stuck.len()
    &&& forall|a: int| 0 <= a < stuck.len() ==> #[trigger] services[a] == names[stuck[a]]
}

/// What a cycle error reports: the services left over once everything that can
/// start has been put in order, by ascending index. Each of them waits for
/// another of them.
pub open spec fn cycle_report(
    g: Seq<Seq<int>>,
    names: Seq<Seq<char>>,
    services: Seq<Seq<char>>,
) -> bool {
    exists|startable: Seq<int>, stuck: Seq<int>|
        leftover_report(g, names, startable, stuck, services)
}

/// More than `n` values out of `0..n` hold one value twice.
pub proof fn lemma_pigeonhole(s: Seq<int>, n: nat)
    requires
        s.len() > n,
        forall|p: int| 0 <= p < s.len() ==> 0 <= #[trigger] s[p] < n,
    ensures
        exists|a: int, b: int| 0 <= a < b < s.len() && s[a] == s[b],
{
    if s.no_duplicates() {
        s.unique_seq_to_set();
        lemma_int_range(0, n as int);
        assert(s.to_set().subset_of(set_int_range(0, n as int))) by {
            assert forall|x: int| s.to_set().contains(x) implies set_int_range(
                0,
                n as int,
            ).contains(x) by {
                let p = choose|p: int| 0 <= p < s.len() && s[p] == x;
                assert(0 <= s[p] < n);
            }
        }
        lemma_len_subset(s.to_set(), set_int_range(0, n as int));
        assert(false);
    } else {
        let (i, j) = choose|i: int, j: int|
            0 <= i < s.len() && 0 <= j < s.len() && i != j && s[i] == s[j];
        if i < j {
            assert(0 <= i < j < s.len() && s[i] == s[j]);
        } else {
            assert(0 <= j < i < s.len() && s[j] == s[i]);
        }
    }
}

/// Distinct services of a graph of `n` are at most `n`, and fewer when one is
/// missing.
pub proof fn lemma_distinct_len(order: Seq<int>, n: nat, missing: int)
    requires
        distinct_services(order, n),
    ensures
        order.len() <= n,
        0 <= missing < n && !order.contains(missing) ==> order.len() < n,
{
    order.unique_seq_to_set();
    lemma_int_range(0, n as int);
    let all = set_int_range(0, n as int);
    assert(order.to_set().subset_of(all)) by {
        assert forall|x: int| order.to_set().contains(x) implies all.contains(x) by {
            let p = choose|p: int| 0 <= p < order.len() && order[p] == x;
            assert(0 <= order[p] < n);
        }
    }
    lemma_len_subset(order.to_set(), all);
    if 0 <= missing < n && !order.contains(missing) {
        let rest = all.remove(missing);
        assert(order.to_set().subset_of(rest));
        lemma_len_subset(order.to_set(), rest);
    }
}

/// Distinct services that leave none out are exactly `n`.
pub proof fn lemma_complete_len(order: Seq<int>, n: nat)
    requires
        distinct_services(order, n),
        forall|i: int| 0 <= i < n ==> order.contains(i),
    ensures
        order.len() == n,
{
    lemma_distinct_len(order, n, 0);
    order.unique_seq_to_set();
    lemma_int_range(0, n as int);
    let all = set_int_range(0, n as int);
    assert(all.subset_of(order.to_set())) by {
        assert forall|x: int| all.contains(x) implies order.to_set().contains(x) by {
            assert(order.contains(x));
        }
    }
    lemma_len_subset(all, order.to_set());
}

/// The service reached from `from` by following `steps` dependencies inside a
/// deadlocked set.
pub open spec fn follow(g: Seq<Seq<int>>, stuck: Set<int>, from: int, steps: nat) -> int
    decreases steps,
{
    if steps == 0 {
        from
    } else {
        let at = follow(g, stuck, from, (steps - 1) as nat);
        choose|d: int| stuck.contains(d) && depends(g, at, d)
    }
}

proof fn lemma_follow_stays(g: Seq<Seq<int>>, stuck: Set<int>, from: int, steps: nat)
    requires
        deadlocked(g, stuck),
        stuck.contains(from),
    ensures
        stuck.contains(follow(g, stuck, from, steps)),
        0 <= follow(g, stuck, from, steps) < g.len(),
        steps > 0 ==> depends(
            g,
            follow(g, stuck, from, (steps - 1) as nat),
            follow(g, stuck, from, steps),
        ),
    decreases steps,
{
    assert(waits_inside(g, stuck, from));
    if steps > 0 {
        lemma_follow_stays(g, stuck, from, (steps - 1) as nat);
        let at = follow(g, stuck, from, (steps - 1) as nat);
        assert(waits_inside(g, stuck, at));
    }
    assert(waits_inside(g, stuck, follow(g, stuck, from, steps)));
}

/// Where everyone in a set waits for another member, some member waits,
/// directly or through others, for itself.
pub proof fn lemma_deadlock_is_cyclic(g: Seq<Seq<int>>, stuck: Set<int>)
    requires
        deadlocked(g, stuck),
    ensures
        cyclic(g),
{
    let from = choose|i: int| stuck.contains(i);
    let n = g.len();
    let walk = Seq::new(n + 1, |k: int| follow(g, stuck, from, k as nat));
    assert forall|p: int| 0 <= p < walk.len() implies 0 <= #[trigger] walk[p] < n by {
        lemma_follow_stays(g, stuck, from, p as nat);
    }
    lemma_pigeonhole(walk, n);
    let (a, b) = choose|a: int, b: int| 0 <= a < b < walk.len() && walk[a] == walk[b];
    let path = walk.subrange(a, b + 1);
    assert forall|k: int| 0 <= k < path.len() - 1 implies depends(
        g,
        #[trigger] path[k],
        path[k + 1],
    ) by {
        lemma_follow_stays(g, stuck, from, (a + k + 1) as nat);
    }
    assert(is_cycle(g, path));
}

proof fn lemma_cycle_descends(g: Seq<Seq<int>>, path: Seq<int>, order: Seq<int>, k: int)
    requires
        is_cycle(g, path),
        start_order(g, order),
        1 <= k < path.len(),
    ensures
        0 <= path[k] < g.len(),
        0 <= path[0] < g.len(),
        order.index_of(path[k]) < order.index_of(path[0]),
    decreases k,
{
    assert(depends(g, path[0], path[1]));
    assert(depends(g, path[k - 1], path[k]));
    let d = path[k];
    if k < path.len() - 1 {
        assert(depends(g, path[k], path[k + 1]));
    }
    assert(0 <= d < g.len());
    assert(order.contains(d));
    assert(order.contains(path[k - 1]));
    assert(order.contains(path[0]));
    let p = order.index_of(path[k - 1]);
    let q = order.index_of(d);
    assert(depends(g, order[p], order[q]));
    if k > 1 {
        lemma_cycle_descends(g, path, order, k - 1);
    }
}

/// A graph with a cycle has no start order.
pub proof fn lemma_cycle_blocks_order(g: Seq<Seq<int>>, path: Seq<int>, order: Seq<int>)
    requires
        is_cycle(g, path),
    ensures
        !start_order(g, order),
{
    if start_order(g, order) {
        lemma_cycle_descends(g, path, order, path.len() - 1);
    }
}

/// A graph that has a start order has no cycle.
pub proof fn lemma_order_excludes_cycles(g: Seq<Seq<int>>, order: Seq<int>)
    requires
        start_order(g, order),
    ensures
        !cyclic(g),
{
    if cyclic(g) {
        let path = choose|path: Seq<int>| is_cycle(g, path);
        lemma_cycle_blocks_order(g, path, order);
    }
}

/// The names of the nodes, in order.
pub open spec fn node_names(nodes: Seq<Node>) -> Seq<Seq<char>> {
    Seq::new(nodes.len(), |i: int| nodes[i].name@)
}

/// The names that node `i` depends on, in order.
pub open spec fn wanted(nodes: Seq<Node>, i: int) -> Seq<Seq<char>> {
    texts(nodes[i].depends_on@)
}

/// Index `j` is the first node whose name an earlier node carries too.
pub open spec fn first_repeat(names: Seq<Seq<char>>, j: int) -> bool {
    &&& 0 <= j < names.len()
    &&& names.take(j).no_duplicates()
    &&& names.take(j).contains(names[j])
}

/// Dependency `k` of node `i` names no node, and it is the first to do so.
pub open spec fn first_unknown(nodes: Seq<Node>, i: int, k: int) -> bool {
    &&& 0 <= i < nodes.len()
    &&& 0 <= k < wanted(nodes, i).len()
    &&& !node_names(nodes).contains(wanted(nodes, i)[k])
    &&& forall|a: int, b: int|
        0 <= a < i && 0 <= b < wanted(nodes, a).len() ==> node_names(nodes).contains(
            #[trigger] wanted(nodes, a)[b],
        )
    &&& forall|b: int| 0 <= b < k ==> node_names(nodes).contains(#[trigger] wanted(nodes, i)[b])
}

/// No name is used twice and every dependency names a node.
pub open spec fn resolvable(nodes: Seq<Node>) -> bool {
    &&& node_names(nodes).no_duplicates()
    &&& forall|i: int, k: int|
        0 <= i < nodes.len() && 0 <= k < wanted(nodes, i).len() ==> node_names(nodes).contains(
            #[trigger] wanted(nodes, i)[k],
        )
}

/// The dependencies of the nodes by index.
pub open spec fn resolve(nodes: Seq<Node>) -> Seq<Seq<int>> {
    Seq::new(
        nodes.len(),
        |i: int|
            Seq::new(
                wanted(nodes, i).len(),
                |k: int| node_names(nodes).index_of(wanted(nodes, i)[k]),
            ),
    )
}

/// `e` reports the first fault in the names of `nodes`: the first name used
/// twice, or, where there is none, the first dependency that names no node.
pub open spec fn naming_fault(nodes: Seq<Node>, e: GraphError) -> bool {
    match e {
        GraphError::DuplicateName { name } => exists|j: int|
            first_repeat(node_names(nodes), j) && name@ == node_names(nodes)[j],
        GraphError::UnknownDependency { service, dependency } => {
            &&& node_names(nodes).no_duplicates()
            &&& exists|i: int, k: int|
                first_unknown(nodes, i, k) && service@ == node_names(nodes)[i] && dependency@
                    == wanted(nodes, i)[k]
        },
        GraphError::Cycle(_) => false,
    }
}

/// Whether every dependency of service `i` is marked in `placed`.
pub open spec fn ready(g: Seq<Seq<int>>, placed: Seq<bool>, i: int) -> bool {
    forall|k: int| 0 <= k < g[i].len() ==> placed[#[trigger] g[i][k]]
}

/// Where every service stands behind its dependencies, a service and one it
/// depends on never stand the other way round.
pub proof fn lemma_first_means_before(g: Seq<Seq<int>>, order: Seq<int>)
    requires
        distinct_services(order, g.len()),
        dependencies_first(g, order),
    ensures
        forall|p: int, q: int|
            0 <= p < order.len() && 0 <= q < order.len() && depends(g, order[p], order[q]) ==> q
                < p,
{
    assert forall|p: int, q: int|
        0 <= p < order.len() && 0 <= q < order.len() && depends(g, order[p], order[q]) implies q
        < p by {
        let row = g[order[p]];
        let k = choose|k: int| 0 <= k < row.len() && row[k] == order[q];
        assert(order.take(p).contains(g[order[p]][k]));
        let at = choose|at: int| 0 <= at < order.take(p).len() && order.take(p)[at] == order[q];
        assert(order[at] == order[q]);
    }
}

/// Placing a ready service behind the others keeps the order sound.
proof fn lemma_place_one(
    g: Seq<Seq<int>>,
    before: Seq<int>,
    marks: Seq<bool>,
    i: int,
    placed: Seq<bool>,
)
    requires
        closed(g),
        marks.len() == g.len(),
        0 <= i < g.len(),
        !marks[i],
        ready(g, marks, i),
        placed == marks.update(i, true),
        distinct_services(before, g.len()),
        dependencies_first(g, before),
        forall|a: int| 0 <= a < g.len() ==> (marks[a] <==> before.contains(a)),
    ensures
        distinct_services(before.push(i), g.len()),
        dependencies_first(g, before.push(i)),
        forall|a: int| 0 <= a < g.len() ==> (placed[a] <==> before.push(i).contains(a)),
{
    let after = before.push(i);
    assert forall|a: int| 0 <= a < g.len() implies (placed[a] <==> after.contains(a)) by {
        if a == i {
            assert(after[before.len() as int] == a);
        } else if marks[a] {
            let at = choose|at: int| 0 <= at < before.len() && before[at] == a;
            assert(after[at] == a);
        } else if after.contains(a) {
            let at = choose|at: int| 0 <= at < after.len() && after[at] == a;
            assert(before[at] == a);
        }
    }
    assert forall|p: int, k: int|
        0 <= p < after.len() && 0 <= after[p] < g.len() && 0 <= k
            < g[after[p]].len() implies after.take(p).contains(#[trigger] g[after[p]][k]) by {
        if p < before.len() {
            assert(before.take(p).contains(g[before[p]][k]));
            assert(after.take(p) =~= before.take(p));
        } else {
            assert(after.take(p) =~= before);
            assert(marks[g[i][k]]);
        }
    }
    assert forall|a: int, b: int|
        0 <= a < after.len() && 0 <= b < after.len() && a != b implies after[a] != after[b] by {
        if a < before.len() && b < before.len() {
            assert(before[a] != before[b]);
        } else if a < before.len() {
            assert(before.contains(before[a]));
        } else {
            assert(before.contains(before[b]));
        }
    }
}

/// Once no unplaced service is ready, the unplaced ones wait for one another.
proof fn lemma_leftover_deadlocked(g: Seq<Seq<int>>, placed: Seq<bool>, left: Seq<int>)
    requires
        closed(g),
        placed.len() == g.len(),
        left.len() > 0,
        forall|a: int| 0 <= a < left.len() ==> 0 <= #[trigger] left[a] < g.len(),
        forall|a: int| 0 <= a < g.len() ==> (left.contains(a) <==> !placed[a]),
        forall|i: int| 0 <= i < g.len() ==> placed[i] || !#[trigger] ready(g, placed, i),
    ensures
        deadlocked(g, left.to_set()),
{
    assert(left.to_set().contains(left[0]));
    assert forall|a: int| left.to_set().contains(a) implies #[trigger] waits_inside(
        g,
        left.to_set(),
        a,
    ) by {
        let at = choose|at: int| 0 <= at < left.len() && left[at] == a;
        assert(0 <= left[at] < g.len());
        assert(left.contains(a));
        assert(!placed[a]);
        assert(!ready(g, placed, a));
        let k = choose|k: int| 0 <= k < g[a].len() && !placed[g[a][k]];
        let d = g[a][k];
        assert(0 <= d < g.len());
        assert(left.contains(d));
        assert(g[a].contains(d));
        assert(left.to_set().contains(d) && depends(g, a, d));
    }
}

/// What a graph is to its users: the names and, by index, the dependencies.
pub struct GraphModel {
    pub names: Seq<Seq<char>>,
    pub deps: Seq<Seq<int>>,
}

/// The services by index, with their dependencies resolved to indices.
pub struct ServiceGraph {
    pub names: Vec<String>,
    pub deps: Vec<Vec<usize>>,
}

impl View for ServiceGraph {
    type V = GraphModel;

    open spec fn view(&self) -> GraphModel {
        GraphModel {
            names: texts(self.names@),
            deps: Seq::new(self.deps@.len(), |i: int| ints(self.deps@[i]@)),
        }
    }
}

impl ServiceGraph {
    /// One entry per service, distinct names, every dependency in range.
    pub open spec fn wf(&self) -> bool {
        &&& self.names@.len() == self.deps@.len()
        &&& self@.names.no_duplicates()
        &&& closed(self@.deps)
    }

    /// Resolves the names of `nodes`. Fails on the first name used twice, else
    /// on the first dependency that names no node.
    pub fn new(nodes: &Vec<Node>) -> (r: Result<ServiceGraph, GraphError>)
        ensures
            match r {
                Ok(g) => {
                    &&& resolvable(nodes@)
                    &&& g.wf()
                    &&& g@.names == node_names(nodes@)
                    &&& g@.deps == resolve(nodes@)
                },
                Err(e) => naming_fault(nodes@, e),
            },
    {
        let n = nodes.len();
        let ghost all = node_names(nodes@);
        let mut j: usize = 0;
        while j < n
            invariant
                n == nodes.len(),
                all == node_names(nodes@),
                j <= n,
                all.take(j as int).no_duplicates(),
            decreases n - j,
        {
            let mut i: usize = 0;
            while i < j
                invariant
                    n == nodes.len(),
                    all == node_names(nodes@),
                    i <= j < n,
                    all.take(j as int).no_duplicates(),
                    forall|a: int| 0 <= a < i ==> all[a] != all[j as int],
                decreases j - i,
            {
                if nodes[i].name == nodes[j].name {
                    proof {
                        assert(all[i as int] == all[j as int]);
                        assert(all.take(j as int)[i as int] == all[j as int]);
                        assert(all.take(j as int).contains(all[j as int]));
                        assert(first_repeat(all, j as int));
                    }
                    return Err(GraphError::DuplicateName { name: nodes[j].name.clone() });
                }
                i += 1;
            }
            proof {
                let before = all.take(j as int);
                let upto = all.take(j + 1);
                assert forall|a: int, b: int|
                    0 <= a < upto.len() && 0 <= b < upto.len() && a != b implies #[trigger] upto[a]
                    != #[trigger] upto[b] by {
                    if a < j && b < j {
                        assert(before[a] != before[b]);
                    }
                }
            }
            j += 1;
        }
        assert(all.take(n as int) =~= all);
        let mut names: Vec<String> = Vec::new();
        let mut deps: Vec<Vec<usize>> = Vec::new();
        let mut i: usize = 0;
        while i < n
            invariant
                n == nodes.len(),
                all == node_names(nodes@),
                all.no_duplicates(),
                i <= n,
                names@.len() == i,
                deps@.len() == i,
                forall|a: int| 0 <= a < i ==> (#[trigger] names@[a])@ == all[a],
                forall|a: int| 0 <= a < i ==> ints((#[trigger] deps@[a])@) == resolve(nodes@)[a],
                forall|a: int, b: int|
                    0 <= a < i && 0 <= b < wanted(nodes@, a).len() ==> all.contains(
                        #[trigger] wanted(nodes@, a)[b],
                    ),
            decreases n - i,
        {
            let want = &nodes[i].depends_on;
            let mut row: Vec<usize> = Vec::new();
            let mut k: usize = 0;
            while k < want.len()
                invariant
                    n == nodes.len(),
                    all == node_names(nodes@),
                    all.no_duplicates(),
                    i < n,
                    want == &nodes@[i as int].depends_on,
                    k <= want.len(),
                    row@.len() == k,
                    forall|b: int|
                        0 <= b < k ==> 0 <= #[trigger] row@[b] < n && all[row@[b] as int] == wanted(
                            nodes@,
                            i as int,
                        )[b],
                    forall|a: int, b: int|
                        0 <= a < i && 0 <= b < wanted(nodes@, a).len() ==> all.contains(
                            #[trigger] wanted(nodes@, a)[b],
                        ),
                decreases want.len() - k,
            {
                match find_node(nodes, &want[k]) {
                    Some(d) => {
                        row.push(d);
                    },
                    None => {
                        proof {
                            assert(wanted(nodes@, i as int)[k as int] == want@[k as int]@);
                            assert(!all.contains(want@[k as int]@)) by {
                                if all.contains(want@[k as int]@) {
                                    let d = choose|d: int|
                                        0 <= d < all.len() && all[d] == want@[k as int]@;
                                    assert(nodes@[d].name@ == want@[k as int]@);
                                }
                            }
                            assert forall|b: int| 0 <= b < k implies all.contains(
                                #[trigger] wanted(nodes@, i as int)[b],
                            ) by {
                                assert(all[row@[b] as int] == wanted(nodes@, i as int)[b]);
                            }
                            assert(first_unknown(nodes@, i as int, k as int));
                        }
                        return Err(
                            GraphError::UnknownDependency {
                                service: nodes[i].name.clone(),
                                dependency: want[k].clone(),
                            },
                        );
                    },
                }
                k += 1;
            }
            proof {
                let target = resolve(nodes@)[i as int];
                assert(ints(row@).len() == target.len());
                assert forall|b: int| 0 <= b < k implies ints(row@)[b] == target[b] by {
                    let name = wanted(nodes@, i as int)[b];
                    assert(all[row@[b] as int] == name);
                    all.index_of_first_ensures(name);
                    assert(all.contains(name));
                    assert(all[all.index_of(name)] == name);
                }
                assert(ints(row@) =~= target);
                assert forall|b: int| 0 <= b < wanted(nodes@, i as int).len() implies all.contains(
                    #[trigger] wanted(nodes@, i as int)[b],
                ) by {
                    assert(all[row@[b] as int] == wanted(nodes@, i as int)[b]);
                }
            }
            names.push(nodes[i].name.clone());
            deps.push(row);
            i += 1;
        }
        let g = ServiceGraph { names, deps };
        proof {
            assert(g@.names =~= all);
            assert(g@.deps =~= resolve(nodes@));
            assert forall|a: int, b: int| 0 <= a < g@.deps.len() && 0 <= b < g@.deps[a].len() implies 0
                <= #[trigger] g@.deps[a][b] < g@.deps.len() by {
                let name = wanted(nodes@, a)[b];
                assert(all.contains(name));
                assert(g@.deps[a][b] == all.index_of(name));
            }
        }
        Ok(g)
    }

    /// Whether every dependency of service `i` is marked in `placed`.
    fn is_ready(&self, i: usize, placed: &Vec<bool>) -> (r: bool)
        requires
            self.wf(),
            i < self.deps@.len(),
            placed@.len() == self.deps@.len(),
        ensures
            r == ready(self@.deps, placed@, i as int),
    {
        let row = &self.deps[i];
        let mut k: usize = 0;
        while k < row.len()
            invariant
                self.wf(),
                i < self.deps@.len(),
                placed@.len() == self.deps@.len(),
                row == &self.deps@[i as int],
                k <= row@.len(),
                forall|b: int| 0 <= b < k ==> placed@[#[trigger] self@.deps[i as int][b]],
            decreases row@.len() - k,
        {
            assert(self@.deps[i as int][k as int] == row@[k as int]);
            assert(0 <= self@.deps[i as int][k as int] < self@.deps.len());
            if !placed[row[k]] {
                return false;
            }
            k += 1;
        }
        true
    }

    /// The first service that is not marked in `placed` while all its
    /// dependencies are.
    fn find_ready(&self, placed: &Vec<bool>) -> (r: Option<usize>)
        requires
            self.wf(),
            placed@.len() == self.deps@.len(),
        ensures
            match r {
                Some(i) => i < placed@.len() && !placed@[i as int] && ready(
                    self@.deps,
                    placed@,
                    i as int,
                ),
                None => forall|i: int|
                    0 <= i < placed@.len() ==> placed@[i] || !#[trigger] ready(
                        self@.deps,
                        placed@,
                        i,
                    ),
            },
    {
        let mut i: usize = 0;
        while i < placed.len()
            invariant
                self.wf(),
                placed@.len() == self.deps@.len(),
                i <= placed@.len(),
                forall|a: int|
                    0 <= a < i ==> placed@[a] || !#[trigger] ready(self@.deps, placed@, a),
            decreases placed@.len() - i,
        {
            if !placed[i] && self.is_ready(i, placed) {
                return Some(i);
            }
            i += 1;
        }
        None
    }

    /// Places services one at a time, each once all its dependencies are
    /// placed, until none can be placed. Returns the order and the marks.
    fn place_all(&self) -> (r: (Vec<usize>, Vec<bool>))
        requires
            self.wf(),
        ensures
            r.1@.len() == self@.deps.len(),
            distinct_services(ints(r.0@), self@.deps.len()),
            dependencies_first(self@.deps, ints(r.0@)),
            forall|i: int| 0 <= i < r.1@.len() ==> (r.1@[i] <==> ints(r.0@).contains(i)),
            forall|i: int|
                0 <= i < r.1@.len() ==> r.1@[i] || !#[trigger] ready(self@.deps, r.1@, i),
    {
        let n = self.deps.len();
        let ghost g = self@.deps;
        let mut placed: Vec<bool> = Vec::new();
        while placed.len() < n
            invariant
                placed@.len() <= n,
                forall|i: int| 0 <= i < placed@.len() ==> !placed@[i],
            decreases n - placed@.len(),
        {
            placed.push(false);
        }
        let mut order: Vec<usize> = Vec::new();
        let mut moving = true;
        while moving
            invariant
                self.wf(),
                g == self@.deps,
                n == g.len(),
                placed@.len() == n,
                distinct_services(ints(order@), n as nat),
                dependencies_first(g, ints(order@)),
                forall|i: int| 0 <= i < n ==> (placed@[i] <==> ints(order@).contains(i)),
                !moving ==> forall|i: int|
                    0 <= i < n ==> placed@[i] || !#[trigger] ready(g, placed@, i),
            decreases n - order@.len(), if moving { 1int } else { 0int },
        {
            match self.find_ready(&placed) {
                Some(i) => {
                    let ghost before = ints(order@);
                    let ghost marks = placed@;
                    proof {
                        lemma_distinct_len(before, n as nat, i as int);
                    }
                    placed.set(i, true);
                    order.push(i);
                    proof {
                        assert(ints(order@) =~= before.push(i as int));
                        lemma_place_one(g, before, marks, i as int, placed@);
                    }
                },
                None => {
                    moving = false;
                },
            }
        }
        (order, placed)
    }

    /// The services that `placed` leaves unmarked, by ascending index, and
    /// their names.
    fn leftover(&self, placed: &Vec<bool>) -> (r: (Vec<usize>, Vec<String>))
        requires
            self.wf(),
            placed@.len() == self@.deps.len(),
        ensures
            distinct_services(ints(r.0@), placed@.len()),
            forall|a: int, b: int| 0 <= a < b < r.0@.len() ==> ints(r.0@)[a] < ints(r.0@)[b],
            forall|a: int| 0 <= a < placed@.len() ==> (ints(r.0@).contains(a) <==> !placed@[a]),
            texts(r.1@).len() == r.0@.len(),
            forall|a: int|
                0 <= a < r.0@.len() ==> #[trigger] texts(r.1@)[a] == self@.names[ints(r.0@)[a]],
    {
        let n = placed.len();
        let mut stuck: Vec<usize> = Vec::new();
        let mut services: Vec<String> = Vec::new();
        let mut i: usize = 0;
        while i < n
            invariant
                self.wf(),
                n == self@.deps.len(),
                placed@.len() == n,
                i <= n,
                services@.len() == stuck@.len(),
                forall|a: int| 0 <= a < stuck@.len() ==> 0 <= #[trigger] stuck@[a] < i,
                forall|a: int, b: int| 0 <= a < b < stuck@.len() ==> stuck@[a] < stuck@[b],
                forall|a: int| 0 <= a < i ==> (ints(stuck@).contains(a) <==> !placed@[a]),
                forall|a: int|
                    0 <= a < stuck@.len() ==> (#[trigger] services@[a])@
                        == self@.names[stuck@[a] as int],
            decreases n - i,
        {
            if !placed[i] {
                let ghost before = ints(stuck@);
                stuck.push(i);
                services.push(self.names[i].clone());
                proof {
                    let after = ints(stuck@);
                    assert(after =~= before.push(i as int));
                    assert forall|a: int| 0 <= a < i + 1 implies (after.contains(a)
                        <==> !placed@[a]) by {
                        if a == i {
                            assert(after[before.len() as int] == a);
                        } else if before.contains(a) {
                            let at = choose|at: int| 0 <= at < before.len() && before[at] == a;
                            assert(after[at] == a);
                        } else if after.contains(a) {
                            let at = choose|at: int| 0 <= at < after.len() && after[at] == a;
                            assert(before[at] == a);
                        }
                    }
                }
            } else {
                proof {
                    let now = ints(stuck@);
                    if now.contains(i as int) {
                        let at = choose|at: int| 0 <= at < now.len() && now[at] == i;
                        assert(stuck@[at] < i);
                    }
                }
            }
            i += 1;
        }
        proof {
            let left = ints(stuck@);
            assert forall|a: int, b: int| 0 <= a < left.len() && 0 <= b < left.len() && a
                != b implies left[a] != left[b] by {
                if a < b {
                    assert(stuck@[a] < stuck@[b]);
                } else {
                    assert(stuck@[b] < stuck@[a]);
                }
            }
            assert forall|a: int| 0 <= a < left.len() implies 0 <= #[trigger] left[a] < n by {
                assert(stuck@[a] < n);
            }
            assert forall|a: int| 0 <= a < stuck@.len() implies #[trigger] texts(services@)[a]
                == self@.names[left[a]] by {
                assert(services@[a]@ == self@.names[stuck@[a] as int]);
            }
        }
        (stuck, services)
    }

    /// A start order of the services by index, or the services that a cycle
    /// keeps from starting. There is an order exactly when no service depends
    /// on itself, directly or through others.
    pub fn order(&self) -> (r: Result<Vec<usize>, CycleError>)
        requires
            self.wf(),
        ensures
            r is Ok <==> !cyclic(self@.deps),
            match r {
                Ok(order) => start_order(self@.deps, ints(order@)),
                Err(e) => cycle_report(self@.deps, self@.names, texts(e.services@)),
            },
    {
        let (order, placed) = self.place_all();
        let (stuck, services) = self.leftover(&placed);
        let ghost g = self@.deps;
        let ghost startable = ints(order@);
        let ghost left = ints(stuck@);
        if stuck.len() == 0 {
            proof {
                assert forall|a: int| 0 <= a < g.len() implies startable.contains(a) by {
                    if !placed@[a] {
                        assert(left.contains(a));
                    }
                }
                lemma_complete_len(startable, g.len());
                lemma_first_means_before(g, startable);
                lemma_order_excludes_cycles(g, startable);
            }
            Ok(order)
        } else {
            proof {
                lemma_leftover_deadlocked(g, placed@, left);
                lemma_deadlock_is_cyclic(g, left.to_set());
                assert forall|i: int| 0 <= i < g.len() implies (left.contains(i)
                    <==> !startable.contains(i)) by {
                    assert(placed@[i] <==> startable.contains(i));
                    assert(left.contains(i) <==> !placed@[i]);
                }
                assert(leftover_report(g, self@.names, startable, left, texts(services@)));
            }
            Err(CycleError { services })
        }
    }

    /// The names of the services that `order` lists by index.
    pub fn names_in(&self, order: &Vec<usize>) -> (names: Vec<String>)
        requires
            forall|p: int| 0 <= p < order@.len() ==> #[trigger] order@[p] < self.names@.len(),
        ensures
            texts(names@) == named(self@.names, ints(order@)),
    {
        let mut names: Vec<String> = Vec::new();
        let mut p: usize = 0;
        while p < order.len()
            invariant
                p <= order@.len(),
                names@.len() == p,
                forall|q: int| 0 <= q < order@.len() ==> #[trigger] order@[q] < self.names@.len(),
                forall|q: int|
                    0 <= q < p ==> (#[trigger] names@[q])@ == self.names@[order@[q] as int]@,
            decreases order@.len() - p,
        {
            names.push(self.names[order[p]].clone());
            p += 1;
        }
        proof {
            assert(texts(names@) =~= named(self@.names, ints(order@)));
        }
        names
    }

    /// The number of services.
    pub fn len(&self) -> (n: usize)
        ensures
            n == self.names@.len(),
    {
        self.names.len()
    }

    /// The index of the service called `name`.
    pub fn index_of(&self, name: &String) -> (r: Option<usize>)
        ensures
            match r {
                Some(i) => 0 <= i < self@.names.len() && self@.names[i as int] == name@,
                None => !self@.names.contains(name@),
            },
    {
        let mut i: usize = 0;
        while i < self.names.len()
            invariant
                i <= self.names@.len(),
                forall|a: int| 0 <= a < i ==> self@.names[a] != name@,
            decreases self.names@.len() - i,
        {
            if self.names[i] == *name {
                return Some(i);
            }
            i += 1;
        }
        None
    }
}

/// The names of the services that `order` lists by index.
pub open spec fn named(names: Seq<Seq<char>>, order: Seq<int>) -> Seq<Seq<char>> {
    Seq::new(order.len(), |p: int| names[order[p]])
}

/// A naming fault rules out that the nodes can be resolved.
pub proof fn lemma_fault_means_unresolvable(nodes: Seq<Node>, e: GraphError)
    requires
        naming_fault(nodes, e),
    ensures
        !resolvable(nodes),
{
    let all = node_names(nodes);
    match e {
        GraphError::DuplicateName { name } => {
            let j = choose|j: int| first_repeat(all, j) && name@ == all[j];
            let i = choose|i: int| 0 <= i < all.take(j).len() && all.take(j)[i] == all[j];
            assert(all[i] == all[j] && i != j);
        },
        GraphError::UnknownDependency { service, dependency } => {
            let (i, k) = choose|i: int, k: int|
                first_unknown(nodes, i, k) && service@ == all[i] && dependency@ == wanted(
                    nodes,
                    i,
                )[k];
            assert(!all.contains(wanted(nodes, i)[k]));
        },
        GraphError::Cycle(_) => {},
    }
}

/// The names of the services in an order in which they can start: every
/// service after all that it depends on, none left out. Fails on a name used
/// twice, on a dependency that names no service, and on a cycle.
pub fn start_names(nodes: &Vec<Node>) -> (r: Result<Vec<String>, GraphError>)
    ensures
        r is Ok <==> resolvable(nodes@) && !cyclic(resolve(nodes@)),
        match r {
            Ok(names) => exists|order: Seq<int>|
                start_order(resolve(nodes@), order) && #[trigger] named(
                    node_names(nodes@),
                    order,
                ) == texts(names@),
            Err(GraphError::Cycle(e)) => resolvable(nodes@) && cycle_report(
                resolve(nodes@),
                node_names(nodes@),
                texts(e.services@),
            ),
            Err(e) => naming_fault(nodes@, e),
        },
{
    match ServiceGraph::new(nodes) {
        Err(e) => {
            proof {
                lemma_fault_means_unresolvable(nodes@, e);
            }
            Err(e)
        },
        Ok(g) => match g.order() {
            Err(c) => Err(GraphError::Cycle(c)),
            Ok(order) => {
                proof {
                    assert forall|p: int| 0 <= p < order@.len() implies #[trigger] order@[p]
                        < g.names@.len() by {
                        assert(0 <= ints(order@)[p] < g@.deps.len());
                    }
                }
                let names = g.names_in(&order);
                proof {
                    assert(named(node_names(nodes@), ints(order@)) =~= texts(names@));
                }
                Ok(names)
            },
        },
    }
}

/// The first node called `name`.
fn find_node(nodes: &Vec<Node>, name: &String) -> (r: Option<usize>)
    ensures
        match r {
            Some(d) => 0 <= d < nodes.len() && nodes@[d as int].name@ == name@,
            None => forall|d: int| 0 <= d < nodes.len() ==> (#[trigger] nodes@[d]).name@ != name@,
        },
{
    let mut d: usize = 0;
    while d < nodes.len()
        invariant
            d <= nodes.len(),
            forall|a: int| 0 <= a < d ==> (#[trigger] nodes@[a]).name@ != name@,
        decreases nodes.len() - d,
    {
        if nodes[d].name == *name {
            return Some(d);
        }
        d += 1;
    }
    None
}

} // verus!
