use vstd::prelude::*;
use crate::math::Axis;
use crate::layout_graph::{GraphElement, LayoutDependency, SizeType};

verus! {

/// The slot of a graph element in per-element tables: twelve slots per node,
/// six size types per axis.
pub open spec fn elem_index(e: GraphElement) -> int {
    let a = match e.axis {
        Axis::X => 0int,
        Axis::Y => 1int,
    };
    let t = match e.size_type {
        SizeType::Regular => 0int,
        SizeType::Min => 1int,
        SizeType::Max => 2int,
        SizeType::Final => 3int,
        SizeType::EvenShareForFillChildren => 4int,
        SizeType::GridCells => 5int,
    };
    e.node * 12 + a * 6 + t
}

/// The state of the layout solver's schedule.
pub struct SolverView {
    /// The dependencies on each node's sizes, by the node depended on.
    pub dependents: Seq<Seq<LayoutDependency>>,
    /// How many dependencies of each element are still unsolved.
    pub n_unsolved: Seq<usize>,
    pub solved: Seq<bool>,
    /// The solved elements, in the order they were solved.
    pub queue: Seq<GraphElement>,
    /// Elements that got some of their inputs but still wait on others.
    pub deferred: Seq<GraphElement>,
    pub next_slot: int,
    pub next_dependent: int,
    pub next_deferred: int,
}

/// Every element the schedule refers to is a slot of its tables.
pub open spec fn elem_ok(e: GraphElement, n_nodes: int) -> bool {
    e.node < n_nodes
}

pub open spec fn solver_wf(s: SolverView, n_nodes: int) -> bool {
    &&& s.dependents.len() == n_nodes
    &&& s.n_unsolved.len() == n_nodes * 12
    &&& s.solved.len() == n_nodes * 12
    &&& forall|k: int, j: int| 0 <= k < n_nodes && 0 <= j < s.dependents[k].len() ==>
            elem_ok((#[trigger] s.dependents[k][j]).dependent, n_nodes) && elem_ok(s.dependents[k][j].depends_on, n_nodes)
    &&& forall|k: int| 0 <= k < s.queue.len() ==> elem_ok(#[trigger] s.queue[k], n_nodes)
    &&& forall|k: int| 0 <= k < s.deferred.len() ==> elem_ok(#[trigger] s.deferred[k], n_nodes)
    &&& 0 <= s.next_slot <= s.queue.len()
    &&& 0 <= s.next_deferred <= s.deferred.len()
    &&& 0 <= s.next_dependent
    &&& s.next_slot < s.queue.len() ==> s.next_dependent <= s.dependents[s.queue[s.next_slot].node as int].len()
    &&& s.next_slot == s.queue.len() ==> s.next_dependent == 0
}

/// How many dependencies of the current slot are left to look at.
pub open spec fn dependents_left(s: SolverView) -> int {
    if s.next_slot < s.queue.len() {
        s.dependents[s.queue[s.next_slot].node as int].len() - s.next_dependent
    } else {
        0
    }
}

/// Runs the schedule until an element has to be solved: the solved elements
/// are taken in order, and each dependency on one of them counts down its
/// dependent; an element whose count reaches zero is solved next, unless it
/// already is. When no solved element is left to look at, the first deferred
/// element that is still unsolved is solved with the inputs it has, its count
/// cleared. Returns the state at that point and the element to solve, with
/// whether it was deferred, or `None` when there is nothing left to solve.
pub open spec fn run(s: SolverView, n_nodes: int) -> (SolverView, Option<(GraphElement, bool)>)
    decreases s.queue.len() - s.next_slot, dependents_left(s), s.deferred.len() - s.next_deferred
        when solver_wf(s, n_nodes)
{
    if s.next_slot < s.queue.len() {
        let slot = s.queue[s.next_slot];
        let deps = s.dependents[slot.node as int];
        if s.next_dependent < deps.len() {
            let c = deps[s.next_dependent];
            let s1 = SolverView { next_dependent: s.next_dependent + 1, ..s };
            let k = elem_index(c.dependent);
            if c.depends_on != slot || s.n_unsolved[k] == 0 {
                run(s1, n_nodes)
            } else if s.n_unsolved[k] > 1 {
                run(SolverView {
                    n_unsolved: s.n_unsolved.update(k, (s.n_unsolved[k] - 1) as usize),
                    deferred: s.deferred.push(c.dependent),
                    ..s1
                }, n_nodes)
            } else {
                let s2 = SolverView { n_unsolved: s.n_unsolved.update(k, 0), ..s1 };
                if s.solved[k] { run(s2, n_nodes) } else { (s2, Some((c.dependent, false))) }
            }
        } else {
            run(SolverView { next_slot: s.next_slot + 1, next_dependent: 0, ..s }, n_nodes)
        }
    } else if s.next_deferred < s.deferred.len() {
        let slot = s.deferred[s.next_deferred];
        let s1 = SolverView { next_deferred: s.next_deferred + 1, ..s };
        let k = elem_index(slot);
        if s.solved[k] {
            run(s1, n_nodes)
        } else {
            (SolverView { n_unsolved: s1.n_unsolved.update(k, 0), ..s1 }, Some((slot, true)))
        }
    } else {
        (s, None)
    }
}

/// The schedule only hands out sizes that are not solved yet, and with no
/// unsolved dependency left counted.
pub proof fn lemma_run_yields_unsolved(s: SolverView, n_nodes: int)
    requires
        solver_wf(s, n_nodes),
    ensures
        run(s, n_nodes).1 matches Some((e, _)) ==> {
            &&& !s.solved[elem_index(e)]
            &&& run(s, n_nodes).0.n_unsolved[elem_index(e)] == 0
            &&& run(s, n_nodes).0.solved == s.solved
        },
    decreases s.queue.len() - s.next_slot, dependents_left(s), s.deferred.len() - s.next_deferred,
{
    if s.next_slot < s.queue.len() {
        let slot = s.queue[s.next_slot];
        let deps = s.dependents[slot.node as int];
        if s.next_dependent < deps.len() {
            let c = deps[s.next_dependent];
            let s1 = SolverView { next_dependent: s.next_dependent + 1, ..s };
            let k = elem_index(c.dependent);
            assert(elem_ok(s.dependents[slot.node as int][s.next_dependent].dependent, n_nodes));
            assert(0 <= k < n_nodes * 12) by (nonlinear_arith)
                requires k == c.dependent.node * 12 + (k - c.dependent.node * 12), 0 <= k - c.dependent.node * 12 < 12,
                    0 <= c.dependent.node < n_nodes;
            if c.depends_on != slot || s.n_unsolved[k] == 0 {
                lemma_run_yields_unsolved(s1, n_nodes);
            } else if s.n_unsolved[k] > 1 {
                let s2 = SolverView {
                    n_unsolved: s.n_unsolved.update(k, (s.n_unsolved[k] - 1) as usize),
                    deferred: s.deferred.push(c.dependent),
                    ..s1
                };
                assert forall|j: int| 0 <= j < s2.deferred.len() implies elem_ok(#[trigger] s2.deferred[j], n_nodes) by {
                    if j < s.deferred.len() {
                        assert(s2.deferred[j] == s.deferred[j]);
                    }
                }
                lemma_run_yields_unsolved(s2, n_nodes);
            } else {
                let s2 = SolverView { n_unsolved: s.n_unsolved.update(k, 0), ..s1 };
                if s.solved[k] {
                    lemma_run_yields_unsolved(s2, n_nodes);
                }
            }
        } else {
            let s1 = SolverView { next_slot: s.next_slot + 1, next_dependent: 0, ..s };
            if s1.next_slot < s1.queue.len() {
                assert(elem_ok(s.queue[s1.next_slot], n_nodes));
            }
            lemma_run_yields_unsolved(s1, n_nodes);
        }
    } else if s.next_deferred < s.deferred.len() {
        let slot = s.deferred[s.next_deferred];
        let s1 = SolverView { next_deferred: s.next_deferred + 1, ..s };
        let k = elem_index(slot);
        assert(elem_ok(s.deferred[s.next_deferred], n_nodes));
        assert(0 <= k < n_nodes * 12) by (nonlinear_arith)
            requires k == slot.node * 12 + (k - slot.node * 12), 0 <= k - slot.node * 12 < 12, 0 <= slot.node < n_nodes;
        if s.solved[k] {
            lemma_run_yields_unsolved(s1, n_nodes);
        }
    }
}

/// The schedule of the layout solver: which size to solve next, given the
/// dependencies between sizes. The sizes themselves are computed outside;
/// the solver is told when one is.
pub struct LayoutSolver {
    n_nodes: usize,
    dependents: Vec<Vec<LayoutDependency>>,
    n_unsolved: Vec<usize>,
    solved: Vec<bool>,
    queue: Vec<GraphElement>,
    deferred: Vec<GraphElement>,
    next_slot: usize,
    next_dependent: usize,
    next_deferred: usize,
}

fn elem_slot(e: GraphElement, n_nodes: usize) -> (r: usize)
    requires
        e.node < n_nodes,
        n_nodes * 12 <= usize::MAX,
    ensures
        r == elem_index(e),
        r < n_nodes * 12,
{
    let a: usize = match e.axis {
        Axis::X => 0,
        Axis::Y => 1,
    };
    let t: usize = match e.size_type {
        SizeType::Regular => 0,
        SizeType::Min => 1,
        SizeType::Max => 2,
        SizeType::Final => 3,
        SizeType::EvenShareForFillChildren => 4,
        SizeType::GridCells => 5,
    };
    proof {
        assert(e.node * 12 + 12 <= n_nodes * 12) by (nonlinear_arith)
            requires e.node < n_nodes;
    }
    e.node * 12 + a * 6 + t
}

impl LayoutSolver {
    pub closed spec fn view(&self) -> SolverView {
        SolverView {
            dependents: self.dependents@.map_values(|v: Vec<LayoutDependency>| v@),
            n_unsolved: self.n_unsolved@,
            solved: self.solved@,
            queue: self.queue@,
            deferred: self.deferred@,
            next_slot: self.next_slot as int,
            next_dependent: self.next_dependent as int,
            next_deferred: self.next_deferred as int,
        }
    }

    pub closed spec fn nodes(&self) -> int {
        self.n_nodes as int
    }

    pub open spec fn wf(&self) -> bool {
        &&& solver_wf(self.view(), self.nodes())
        &&& self.nodes() * 12 <= usize::MAX
    }

    /// A schedule for `n_nodes` nodes with no dependencies and nothing solved.
    pub fn new(n_nodes: usize) -> (r: Self)
        requires
            n_nodes * 12 <= usize::MAX,
        ensures
            r.wf(),
            r.nodes() == n_nodes,
            r.view().dependents == Seq::new(n_nodes as nat, |k: int| Seq::<LayoutDependency>::empty()),
            r.view().n_unsolved == Seq::new((n_nodes * 12) as nat, |k: int| 0usize),
            r.view().solved == Seq::new((n_nodes * 12) as nat, |k: int| false),
            r.view().queue.len() == 0,
            r.view().deferred.len() == 0,
            r.view().next_slot == 0,
            r.view().next_dependent == 0,
            r.view().next_deferred == 0,
    {
        let mut dependents: Vec<Vec<LayoutDependency>> = Vec::new();
        let mut k: usize = 0;
        while k < n_nodes
            invariant
                k <= n_nodes,
                dependents@.len() == k,
                forall|j: int| 0 <= j < k ==> (#[trigger] dependents@[j])@.len() == 0,
            decreases n_nodes - k,
        {
            dependents.push(Vec::new());
            k = k + 1;
        }
        let mut n_unsolved: Vec<usize> = Vec::new();
        let mut solved: Vec<bool> = Vec::new();
        let total = n_nodes * 12;
        let mut k: usize = 0;
        while k < total
            invariant
                k <= total,
                n_unsolved@.len() == k,
                solved@.len() == k,
                forall|j: int| 0 <= j < k ==> n_unsolved@[j] == 0 && !solved@[j],
            decreases total - k,
        {
            n_unsolved.push(0);
            solved.push(false);
            k = k + 1;
        }
        let r = LayoutSolver {
            n_nodes,
            dependents,
            n_unsolved,
            solved,
            queue: Vec::new(),
            deferred: Vec::new(),
            next_slot: 0,
            next_dependent: 0,
            next_deferred: 0,
        };
        proof {
            assert forall|j: int| 0 <= j < n_nodes implies #[trigger] r.view().dependents[j] == Seq::<LayoutDependency>::empty() by {
                assert(r.view().dependents[j] =~= Seq::<LayoutDependency>::empty());
            }
            assert(r.view().dependents =~= Seq::new(n_nodes as nat, |k: int| Seq::<LayoutDependency>::empty()));
            assert(r.view().n_unsolved =~= Seq::new((n_nodes * 12) as nat, |k: int| 0usize));
            assert(r.view().solved =~= Seq::new((n_nodes * 12) as nat, |k: int| false));
        }
        r
    }

    /// Records that `d.dependent` waits on `d.depends_on`: one more unsolved
    /// dependency for the dependent, and a dependent for the node depended on.
    pub fn push_dependency(&mut self, d: LayoutDependency)
        requires
            old(self).wf(),
            elem_ok(d.dependent, old(self).nodes()),
            elem_ok(d.depends_on, old(self).nodes()),
            old(self).view().n_unsolved[elem_index(d.dependent)] < usize::MAX,
        ensures
            final(self).wf(),
            final(self).nodes() == old(self).nodes(),
            final(self).view() == (SolverView {
                n_unsolved: old(self).view().n_unsolved.update(elem_index(d.dependent),
                    (old(self).view().n_unsolved[elem_index(d.dependent)] + 1) as usize),
                dependents: old(self).view().dependents.update(d.depends_on.node as int,
                    old(self).view().dependents[d.depends_on.node as int].push(d)),
                ..old(self).view()
            }),
    {
        let k = elem_slot(d.dependent, self.n_nodes);
        let count = self.n_unsolved[k];
        self.n_unsolved.set(k, count + 1);
        let node = d.depends_on.node;
        let mut list: Vec<LayoutDependency> = Vec::new();
        std::mem::swap(&mut list, &mut self.dependents[node]);
        list.push(d);
        self.dependents.set(node, list);
        proof {
            let v = self.view();
            let o = old(self).view();
            assert(v.dependents =~= o.dependents.update(node as int, o.dependents[node as int].push(d)));
            assert(v == (SolverView {
                n_unsolved: o.n_unsolved.update(elem_index(d.dependent), (o.n_unsolved[elem_index(d.dependent)] + 1) as usize),
                dependents: o.dependents.update(node as int, o.dependents[node as int].push(d)),
                ..o
            }));
            assert forall|a: int, j: int| 0 <= a < self.n_nodes && 0 <= j < v.dependents[a].len() implies
                elem_ok((#[trigger] v.dependents[a][j]).dependent, self.n_nodes as int) && elem_ok(v.dependents[a][j].depends_on, self.n_nodes as int) by {
                if a != node as int || j < o.dependents[a].len() {
                    assert(v.dependents[a][j] == o.dependents[a][j]);
                }
            }
        }
    }

    /// The size `e` was computed: it is solved and joins the queue, unless it
    /// already was solved.
    pub fn finish_solve(&mut self, e: GraphElement)
        requires
            old(self).wf(),
            elem_ok(e, old(self).nodes()),
        ensures
            final(self).wf(),
            final(self).nodes() == old(self).nodes(),
            old(self).view().solved[elem_index(e)] ==> final(self).view() == old(self).view(),
            !old(self).view().solved[elem_index(e)] ==> final(self).view() == (SolverView {
                solved: old(self).view().solved.update(elem_index(e), true),
                queue: old(self).view().queue.push(e),
                ..old(self).view()
            }),
    {
        let k = elem_slot(e, self.n_nodes);
        if self.solved[k] {
            return;
        }
        self.solved.set(k, true);
        self.queue.push(e);
        proof {
            let v = self.view();
            let o = old(self).view();
            assert(v.dependents =~= o.dependents);
            assert(v == (SolverView { solved: o.solved.update(elem_index(e), true), queue: o.queue.push(e), ..o }));
            assert forall|j: int| 0 <= j < v.queue.len() implies elem_ok(#[trigger] v.queue[j], self.n_nodes as int) by {
                if j < o.queue.len() {
                    assert(v.queue[j] == o.queue[j]);
                }
            }
        }
    }

    /// Whether `e` is solved.
    pub fn is_solved(&self, e: GraphElement) -> (r: bool)
        requires
            self.wf(),
            elem_ok(e, self.nodes()),
        ensures
            r == self.view().solved[elem_index(e)],
    {
        self.solved[elem_slot(e, self.n_nodes)]
    }

    /// How many dependencies of `e` are still unsolved.
    pub fn n_unsolved(&self, e: GraphElement) -> (r: usize)
        requires
            self.wf(),
            elem_ok(e, self.nodes()),
        ensures
            r == self.view().n_unsolved[elem_index(e)],
    {
        self.n_unsolved[elem_slot(e, self.n_nodes)]
    }

    /// Advances the schedule to the next size to solve (see [`run`]): returns
    /// it with whether it was deferred, or `None` when layout is done. The
    /// caller computes the size and reports it with [`LayoutSolver::finish_solve`].
    pub fn next_solve(&mut self) -> (r: Option<(GraphElement, bool)>)
        requires
            old(self).wf(),
        ensures
            final(self).wf(),
            final(self).nodes() == old(self).nodes(),
            (final(self).view(), r) == run(old(self).view(), old(self).nodes()),
    {
        let ghost n = self.nodes();
        let ghost goal = run(self.view(), n);
        loop
            invariant
                self.wf(),
                self.nodes() == n,
                n == old(self).nodes(),
                goal == run(old(self).view(), n),
                run(self.view(), n) == goal,
            decreases self.view().queue.len() - self.view().next_slot, dependents_left(self.view()),
                self.view().deferred.len() - self.view().next_deferred,
        {
            let ghost s = self.view();
            if self.next_slot < self.queue.len() {
                let slot = self.queue[self.next_slot];
                proof {
                    assert(elem_ok(s.queue[s.next_slot], n));
                }
                let n_deps = self.dependents[slot.node].len();
                proof {
                    assert(s.dependents[slot.node as int] == self.dependents@[slot.node as int]@);
                }
                if self.next_dependent < n_deps {
                    let c = self.dependents[slot.node][self.next_dependent];
                    proof {
                        assert(c == s.dependents[slot.node as int][s.next_dependent]);
                        assert(elem_ok(c.dependent, n));
                    }
                    self.next_dependent = self.next_dependent + 1;
                    let k = elem_slot(c.dependent, self.n_nodes);
                    let left = self.n_unsolved[k];
                    if c.depends_on != slot || left == 0 {
                        proof {
                            assert(self.view() == SolverView { next_dependent: s.next_dependent + 1, ..s });
                        }
                        continue;
                    }
                    if left > 1 {
                        self.n_unsolved.set(k, left - 1);
                        self.deferred.push(c.dependent);
                        proof {
                            let v = self.view();
                            assert(v.dependents =~= s.dependents);
                            assert(v == SolverView {
                                n_unsolved: s.n_unsolved.update(k as int, (s.n_unsolved[k as int] - 1) as usize),
                                deferred: s.deferred.push(c.dependent),
                                next_dependent: s.next_dependent + 1,
                                ..s
                            });
                            assert forall|j: int| 0 <= j < v.deferred.len() implies elem_ok(#[trigger] v.deferred[j], n) by {
                                if j < s.deferred.len() {
                                    assert(v.deferred[j] == s.deferred[j]);
                                }
                            }
                        }
                        continue;
                    }
                    self.n_unsolved.set(k, 0);
                    proof {
                        let v = self.view();
                        assert(v.dependents =~= s.dependents);
                        assert(v == SolverView { n_unsolved: s.n_unsolved.update(k as int, 0), next_dependent: s.next_dependent + 1, ..s });
                    }
                    if self.solved[k] {
                        continue;
                    }
                    return Some((c.dependent, false));
                } else {
                    self.next_slot = self.next_slot + 1;
                    self.next_dependent = 0;
                    proof {
                        assert(self.view() == SolverView { next_slot: s.next_slot + 1, next_dependent: 0, ..s });
                    }
                    continue;
                }
            } else if self.next_deferred < self.deferred.len() {
                let slot = self.deferred[self.next_deferred];
                proof {
                    assert(elem_ok(s.deferred[s.next_deferred], n));
                }
                self.next_deferred = self.next_deferred + 1;
                let k = elem_slot(slot, self.n_nodes);
                if self.solved[k] {
                    proof {
                        assert(self.view() == SolverView { next_deferred: s.next_deferred + 1, ..s });
                    }
                    continue;
                }
                self.n_unsolved.set(k, 0);
                proof {
                    let v = self.view();
                    assert(v.dependents =~= s.dependents);
                    assert(v == SolverView { n_unsolved: s.n_unsolved.update(k as int, 0), next_deferred: s.next_deferred + 1, ..s });
                }
                return Some((slot, true));
            } else {
                return None;
            }
        }
    }


    /// Marks `e` solved without queueing it: a size known up front (a pixel
    /// size), which [`LayoutSolver::push_solvable`] then queues.
    pub fn mark_solved(&mut self, e: GraphElement)
        requires
            old(self).wf(),
            elem_ok(e, old(self).nodes()),
        ensures
            final(self).wf(),
            final(self).nodes() == old(self).nodes(),
            final(self).view() == (SolverView { solved: old(self).view().solved.update(elem_index(e), true), ..old(self).view() }),
    {
        let k = elem_slot(e, self.n_nodes);
        self.solved.set(k, true);
        proof {
            let v = self.view();
            let o = old(self).view();
            assert(v.dependents =~= o.dependents);
            assert(v == (SolverView { solved: o.solved.update(elem_index(e), true), ..o }));
        }
    }

    /// Starts the schedule for an element once its node's dependencies are
    /// all pushed: a solved element has nothing to wait for and joins the
    /// queue; an unsolved one with no unsolved dependencies can be solved
    /// right away, which the result says.
    pub fn push_solvable(&mut self, e: GraphElement) -> (r: bool)
        requires
            old(self).wf(),
            elem_ok(e, old(self).nodes()),
        ensures
            final(self).wf(),
            final(self).nodes() == old(self).nodes(),
            old(self).view().solved[elem_index(e)] ==> !r && final(self).view() == (SolverView {
                n_unsolved: old(self).view().n_unsolved.update(elem_index(e), 0),
                queue: old(self).view().queue.push(e),
                ..old(self).view()
            }),
            !old(self).view().solved[elem_index(e)] ==> final(self).view() == old(self).view()
                && r == (old(self).view().n_unsolved[elem_index(e)] == 0),
    {
        let k = elem_slot(e, self.n_nodes);
        if self.solved[k] {
            self.n_unsolved.set(k, 0);
            self.queue.push(e);
            proof {
                let v = self.view();
                let o = old(self).view();
                assert(v.dependents =~= o.dependents);
                assert(v == (SolverView { n_unsolved: o.n_unsolved.update(elem_index(e), 0), queue: o.queue.push(e), ..o }));
                assert forall|j: int| 0 <= j < v.queue.len() implies elem_ok(#[trigger] v.queue[j], self.n_nodes as int) by {
                    if j < o.queue.len() {
                        assert(v.queue[j] == o.queue[j]);
                    }
                }
            }
            false
        } else {
            self.n_unsolved[k] == 0
        }
    }


    /// Forgets node `i`: nothing depends on its sizes any more, none of them
    /// waits on anything, and none is solved. Not while the schedule is in
    /// the middle of the dependents of a solved size.
    pub fn clear_node(&mut self, i: usize)
        requires
            old(self).wf(),
            i < old(self).nodes(),
            old(self).view().next_dependent == 0,
        ensures
            final(self).wf(),
            final(self).nodes() == old(self).nodes(),
            final(self).view() == (SolverView {
                dependents: old(self).view().dependents.update(i as int, Seq::empty()),
                n_unsolved: Seq::new(old(self).view().n_unsolved.len(), |k: int|
                    if i * 12 <= k < i * 12 + 12 { 0usize } else { old(self).view().n_unsolved[k] }),
                solved: Seq::new(old(self).view().solved.len(), |k: int|
                    if i * 12 <= k < i * 12 + 12 { false } else { old(self).view().solved[k] }),
                ..old(self).view()
            }),
    {
        let ghost o = self.view();
        self.dependents.set(i, Vec::new());
        proof {
            assert(i * 12 + 12 <= self.n_nodes * 12) by (nonlinear_arith)
                requires i < self.n_nodes;
        }
        let start = i * 12;
        let ghost deps_after = self.dependents@;
        proof {
            assert(self.view().dependents =~= o.dependents.update(i as int, Seq::empty()));
        }
        let mut k: usize = 0;
        while k < 12
            invariant
                k <= 12,
                start == i * 12,
                self.n_nodes * 12 <= usize::MAX,
                i < self.n_nodes,
                o.n_unsolved.len() == self.n_nodes * 12,
                o.solved.len() == self.n_nodes * 12,
                self.dependents@ == deps_after,
                self.view().dependents == o.dependents.update(i as int, Seq::empty()),
                self.queue@ == o.queue,
                self.deferred@ == o.deferred,
                self.next_slot == o.next_slot,
                self.next_dependent == o.next_dependent,
                self.next_deferred == o.next_deferred,
                start + 12 <= self.n_unsolved@.len(),
                self.n_unsolved@.len() == o.n_unsolved.len(),
                self.solved@.len() == o.solved.len(),
                forall|j: int| 0 <= j < self.n_unsolved@.len() ==> #[trigger] self.n_unsolved@[j]
                    == if start <= j < start + k { 0usize } else { o.n_unsolved[j] },
                forall|j: int| 0 <= j < self.solved@.len() ==> #[trigger] self.solved@[j]
                    == if start <= j < start + k { false } else { o.solved[j] },
            decreases 12 - k,
        {
            self.n_unsolved.set(start + k, 0);
            self.solved.set(start + k, false);
            k = k + 1;
        }
        proof {
            let v = self.view();
            assert(v.n_unsolved =~= Seq::new(o.n_unsolved.len(), |j: int| if i * 12 <= j < i * 12 + 12 { 0usize } else { o.n_unsolved[j] }));
            assert(v.solved =~= Seq::new(o.solved.len(), |j: int| if i * 12 <= j < i * 12 + 12 { false } else { o.solved[j] }));
            assert forall|a: int, j: int| 0 <= a < self.n_nodes && 0 <= j < v.dependents[a].len() implies
                elem_ok((#[trigger] v.dependents[a][j]).dependent, self.n_nodes as int) && elem_ok(v.dependents[a][j].depends_on, self.n_nodes as int) by {
                assert(a != i);
                assert(v.dependents[a][j] == o.dependents[a][j]);
            }
        }
    }

}

} // verus!
