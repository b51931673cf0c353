use vstd::prelude::*;

use crate::render::dag::{
    as_ints, edge_in, has_topological_order, is_reachable, is_square, is_topological_order, matrix_view,
    reaches, topological_sort, kahn_order,
};

verus! {

/// Unique identifier for a render pass node.
#[derive(Debug, Clone, Copy, PartialEq, Eq, Hash, Structural)]
pub struct PassId(pub u32);

/// Resource usage declaration for a pass.
#[derive(Debug, Clone, Copy, PartialEq, Eq, Hash, Structural)]
pub enum ResourceAccess {
    Read,
    Write,
    ReadWrite,
}

/// A named GPU resource (texture or buffer) tracked by the graph.
#[derive(Debug, Clone, PartialEq, Eq, Hash)]
pub struct ResourceId(pub String);

impl ResourceId {
    /// Creates the identifier for the resource called `name`.
    pub fn new(name: &str) -> (r: Self)
        ensures
            r.0@ == name@,
    {
        ResourceId(name.to_owned())
    }
}

/// Resource declaration for a pass.
#[derive(Debug, Clone)]
pub struct ResourceBinding {
    pub resource: ResourceId,
    pub access: ResourceAccess,
}

/// Context passed to each pass during execution.
#[derive(Debug)]
pub struct PassContext {
    pub pass_id: PassId,
    pub pass_name: String,
    pub frame_index: u64,
}

/// A render pass node in the graph. `F` is the type of the pass's
/// execution callback.
pub struct RenderPassNode<F> {
    pub id: PassId,
    pub name: String,
    pub reads: Vec<ResourceId>,
    pub writes: Vec<ResourceId>,
    execute_fn: Option<F>,
}

impl<F> RenderPassNode<F> {
    /// The pass's identifier.
    pub closed spec fn pass_id(&self) -> PassId {
        self.id
    }

    /// The pass's name.
    pub closed spec fn pass_name(&self) -> Seq<char> {
        self.name@
    }

    /// The resources the pass reads.
    pub closed spec fn reads_list(&self) -> Seq<ResourceId> {
        self.reads@
    }

    /// The resources the pass writes.
    pub closed spec fn writes_list(&self) -> Seq<ResourceId> {
        self.writes@
    }

    /// The pass has an execution callback.
    pub closed spec fn has_callback(&self) -> bool {
        self.execute_fn is Some
    }

    /// The pass's execution callback, if it has one.
    pub closed spec fn callback(&self) -> Option<F> {
        self.execute_fn
    }
}

/// Errors reported by [`RenderGraph::compile`].
#[derive(Debug, Clone)]
pub enum GraphError {
    CycleDetected,
    UnknownPass(PassId),
    NotCompiled,
    ResourceConflict { resource: String, pass_a: PassId, pass_b: PassId },
}

/// The names in a list of resource identifiers.
pub open spec fn resource_names(list: Seq<ResourceId>) -> Seq<Seq<char>> {
    Seq::new(list.len(), |k: int| list[k].0@)
}

/// The render graph: a DAG of passes with resource dependencies.
///
/// Passes are numbered in the order they are added; an explicit edge
/// `(a, b)` means `a` runs before `b`, and a pass that writes a resource
/// runs before every other pass that reads it.
pub struct RenderGraph<F> {
    passes: Vec<RenderPassNode<F>>,
    edges: Vec<(PassId, PassId)>,
    next_id: u32,
    execution_order: Option<Vec<PassId>>,
}

impl<F> RenderGraph<F> {
    /// The pass nodes, by id.
    pub closed spec fn nodes(&self) -> Seq<RenderPassNode<F>> {
        self.passes@
    }

    /// The explicit edges, in the order they were added.
    pub closed spec fn explicit_edges(&self) -> Seq<(PassId, PassId)> {
        self.edges@
    }

    /// The compiled execution order, if any.
    pub closed spec fn order(&self) -> Option<Seq<PassId>> {
        match self.execution_order {
            Some(v) => Some(v@),
            None => None,
        }
    }

    /// Passes are numbered `0..n` by position, and a compiled order names
    /// only existing passes.
    pub closed spec fn wf(&self) -> bool {
        &&& self.next_id as int == self.passes@.len()
        &&& forall|i: int| 0 <= i < self.passes@.len() ==> (#[trigger] self.passes@[i]).id == PassId(i as u32)
        &&& match self.execution_order {
            Some(o) => {
                &&& forall|i: int| 0 <= i < o@.len() ==> (#[trigger] o@[i]).0 < self.passes@.len()
                &&& is_topological_order(self.dependency_matrix(), Self::order_ids(o@))
            },
            None => true,
        }
    }

    /// Number of passes.
    pub open spec fn n(&self) -> int {
        self.nodes().len() as int
    }

    /// Pass `p` declares that it writes the resource called `name`.
    pub open spec fn writes_resource(&self, p: int, name: Seq<char>) -> bool {
        resource_names(self.nodes()[p].writes_list()).contains(name)
    }

    /// Pass `p` declares that it reads the resource called `name`.
    pub open spec fn reads_resource(&self, p: int, name: Seq<char>) -> bool {
        resource_names(self.nodes()[p].reads_list()).contains(name)
    }

    /// Some explicit edge goes from `u` to `v`.
    pub open spec fn explicit_edge(&self, u: int, v: int) -> bool {
        exists|k: int|
            0 <= k < self.explicit_edges().len() && (#[trigger] self.explicit_edges()[k]).0.0 == u
                && self.explicit_edges()[k].1.0 == v
    }

    /// `u` writes a resource that another pass `v` reads.
    pub open spec fn implicit_edge(&self, u: int, v: int) -> bool {
        u != v && exists|k: int|
            0 <= k < self.nodes()[u].writes_list().len() && self.reads_resource(
                v,
                #[trigger] self.nodes()[u].writes_list()[k].0@,
            )
    }

    /// `u` must run before `v`.
    pub open spec fn dependency(&self, u: int, v: int) -> bool {
        self.explicit_edge(u, v) || self.implicit_edge(u, v)
    }

    /// The dependency relation as an adjacency matrix.
    pub open spec fn dependency_matrix(&self) -> Seq<Seq<bool>> {
        Seq::new(self.n() as nat, |u: int| Seq::new(self.n() as nat, |v: int| self.dependency(u, v)))
    }

    /// Both ends of the explicit edge name existing passes.
    pub open spec fn edge_known(&self, e: (PassId, PassId)) -> bool {
        e.0.0 < self.n() && e.1.0 < self.n()
    }

    /// Every explicit edge names existing passes.
    pub open spec fn edges_known(&self) -> bool {
        forall|k: int| 0 <= k < self.explicit_edges().len() ==> self.edge_known(#[trigger] self.explicit_edges()[k])
    }

    /// `p` is the unknown end of the first explicit edge that has one
    /// (its source if that is unknown, else its target).
    pub open spec fn first_unknown_endpoint(&self, p: PassId) -> bool {
        exists|k: int|
            0 <= k < self.explicit_edges().len() && !self.edge_known(#[trigger] self.explicit_edges()[k])
                && (forall|j: int| 0 <= j < k ==> self.edge_known(#[trigger] self.explicit_edges()[j]))
                && p == (if self.explicit_edges()[k].0.0 < self.n() {
                self.explicit_edges()[k].1
            } else {
                self.explicit_edges()[k].0
            })
    }

    /// Two different passes write `name` and neither is ordered before the
    /// other.
    pub open spec fn write_conflict(&self, a: int, b: int, name: Seq<char>) -> bool {
        &&& 0 <= a < self.n()
        &&& 0 <= b < self.n()
        &&& a != b
        &&& self.writes_resource(a, name)
        &&& self.writes_resource(b, name)
        &&& !reaches(self.dependency_matrix(), a, b)
        &&& !reaches(self.dependency_matrix(), b, a)
    }

    /// Some pair of passes has a write conflict.
    pub open spec fn has_write_conflict(&self) -> bool {
        exists|a: int, b: int, name: Seq<char>| #[trigger] self.write_conflict(a, b, name)
    }

    /// The compiled order, as pass numbers.
    pub open spec fn order_ids(o: Seq<PassId>) -> Seq<int> {
        Seq::new(o.len(), |i: int| o[i].0 as int)
    }

    /// `g` has the same passes' resource lists and the same explicit edges
    /// as `self`: the same dependencies.
    pub open spec fn same_lists(&self, g: Self) -> bool {
        &&& g.nodes().len() == self.nodes().len()
        &&& g.explicit_edges() == self.explicit_edges()
        &&& forall|p: int| 0 <= p < self.n() ==> {
            &&& (#[trigger] g.nodes()[p]).reads_list() == self.nodes()[p].reads_list()
            &&& g.nodes()[p].writes_list() == self.nodes()[p].writes_list()
        }
    }

    /// The dependency matrix depends only on the resource lists and the
    /// explicit edges.
    proof fn lemma_same_lists_same_dependencies(&self)
        ensures
            forall|g: Self| #[trigger] g.dependency_matrix() == self.dependency_matrix() <== self.same_lists(g),
    {
        assert forall|g: Self| self.same_lists(g) implies #[trigger] g.dependency_matrix() == self.dependency_matrix() by {
            assert forall|u: int| 0 <= u < self.n() implies #[trigger] g.dependency_matrix()[u] == self.dependency_matrix()[u] by {
                assert forall|v: int| 0 <= v < self.n() implies g.dependency(u, v) == self.dependency(u, v) by {
                    assert(g.nodes()[u].writes_list() == self.nodes()[u].writes_list());
                    assert(g.nodes()[v].reads_list() == self.nodes()[v].reads_list());
                }
                assert(g.dependency_matrix()[u] =~= self.dependency_matrix()[u]);
            }
            assert(g.dependency_matrix() =~= self.dependency_matrix());
        }
    }

    /// In the compiled order, every pass runs after each pass it depends
    /// on: the source of an explicit edge before its target, and a pass
    /// that writes a resource before every other pass that reads it.
    pub proof fn law_compiled_order_respects_dependencies(&self, i: int, j: int)
        requires
            self.wf(),
            self.order() is Some,
            0 <= i < self.order()->0.len(),
            0 <= j < self.order()->0.len(),
            self.dependency(self.order()->0[i].0 as int, self.order()->0[j].0 as int),
        ensures
            i < j,
    {
        let o = self.order()->0;
        let ids = Self::order_ids(o);
        let g = self.dependency_matrix();
        assert(ids[i] == o[i].0 as int);
        assert(ids[j] == o[j].0 as int);
        assert(edge_in(g, ids[i], ids[j]));
    }

    /// In the compiled order, a pass that writes a resource runs before
    /// every other pass that reads it.
    pub proof fn law_writer_runs_before_reader(&self, i: int, j: int, name: Seq<char>)
        requires
            self.wf(),
            self.order() is Some,
            0 <= i < self.order()->0.len(),
            0 <= j < self.order()->0.len(),
            self.order()->0[i] != self.order()->0[j],
            self.writes_resource(self.order()->0[i].0 as int, name),
            self.reads_resource(self.order()->0[j].0 as int, name),
        ensures
            i < j,
    {
        let o = self.order()->0;
        let w = o[i].0 as int;
        let names = resource_names(self.nodes()[w].writes_list());
        let k = choose|k: int| 0 <= k < names.len() && names[k] == name;
        assert(self.nodes()[w].writes_list()[k].0@ == name);
        assert(w != o[j].0 as int);
        assert(self.implicit_edge(w, o[j].0 as int));
        self.law_compiled_order_respects_dependencies(i, j);
    }

    /// Creates an empty graph.
    pub fn new() -> (r: Self)
        ensures
            r.wf(),
            r.nodes() == Seq::<RenderPassNode<F>>::empty(),
            r.explicit_edges() == Seq::<(PassId, PassId)>::empty(),
            r.order() is None,
    {
        RenderGraph { passes: Vec::new(), edges: Vec::new(), next_id: 0, execution_order: None }
    }

    /// Adds a pass node with no resources and no callback, returns its id
    /// and invalidates any previous compilation.
    pub fn add_pass(&mut self, name: &str) -> (r: PassId)
        requires
            old(self).wf(),
            old(self).n() < u32::MAX,
        ensures
            final(self).wf(),
            r == PassId(old(self).n() as u32),
            final(self).nodes().len() == old(self).nodes().len() + 1,
            final(self).nodes().subrange(0, old(self).n()) == old(self).nodes(),
            final(self).nodes()[old(self).n()].pass_id() == r,
            final(self).nodes()[old(self).n()].pass_name() == name@,
            final(self).nodes()[old(self).n()].reads_list().len() == 0,
            final(self).nodes()[old(self).n()].writes_list().len() == 0,
            !final(self).nodes()[old(self).n()].has_callback(),
            final(self).explicit_edges() == old(self).explicit_edges(),
            final(self).order() is None,
    {
        let id = PassId(self.next_id);
        self.next_id = self.next_id + 1;
        self.passes.push(
            RenderPassNode {
                id,
                name: name.to_owned(),
                reads: Vec::new(),
                writes: Vec::new(),
                execute_fn: None,
            },
        );
        self.execution_order = None;
        assert(self.nodes().subrange(0, old(self).n()) =~= old(self).nodes());
        id
    }

    /// Builds the list of resource identifiers for the given names.
    fn resource_list(resources: &[&str]) -> (r: Vec<ResourceId>)
        ensures
            r@.len() == resources@.len(),
            forall|k: int| 0 <= k < r@.len() ==> (#[trigger] r@[k]).0@ == resources@[k]@,
    {
        let mut r: Vec<ResourceId> = Vec::new();
        let mut k: usize = 0;
        while k < resources.len()
            invariant
                k <= resources@.len(),
                r@.len() == k,
                forall|j: int| 0 <= j < k ==> (#[trigger] r@[j]).0@ == resources@[j]@,
            decreases resources@.len() - k,
        {
            r.push(ResourceId::new(resources[k]));
            k = k + 1;
        }
        r
    }

    /// Declares which resources a pass reads (ignored for an unknown pass);
    /// invalidates any previous compilation.
    pub fn set_pass_reads(&mut self, pass: PassId, resources: &[&str])
        requires
            old(self).wf(),
        ensures
            final(self).wf(),
            final(self).explicit_edges() == old(self).explicit_edges(),
            final(self).nodes().len() == old(self).nodes().len(),
            pass.0 < old(self).n() ==> {
                &&& final(self).order() is None
                &&& forall|p: int| 0 <= p < old(self).n() && p != pass.0 ==> #[trigger] final(self).nodes()[p] == old(self).nodes()[p]
                &&& final(self).nodes()[pass.0 as int].pass_id() == old(self).nodes()[pass.0 as int].pass_id()
                &&& final(self).nodes()[pass.0 as int].pass_name() == old(self).nodes()[pass.0 as int].pass_name()
                &&& final(self).nodes()[pass.0 as int].writes_list() == old(self).nodes()[pass.0 as int].writes_list()
                &&& final(self).nodes()[pass.0 as int].has_callback() == old(self).nodes()[pass.0 as int].has_callback()
                &&& resource_names(final(self).nodes()[pass.0 as int].reads_list()) == resource_names_of_strs(resources@)
            },
            pass.0 >= old(self).n() ==> *final(self) == *old(self),
    {
        if (pass.0 as usize) < self.passes.len() {
            let list = Self::resource_list(resources);
            let node = &mut self.passes[pass.0 as usize];
            node.reads = list;
            self.execution_order = None;
            assert(resource_names(self.nodes()[pass.0 as int].reads_list()) =~= resource_names_of_strs(resources@));
        }
    }

    /// Declares which resources a pass writes (ignored for an unknown
    /// pass); invalidates any previous compilation.
    pub fn set_pass_writes(&mut self, pass: PassId, resources: &[&str])
        requires
            old(self).wf(),
        ensures
            final(self).wf(),
            final(self).explicit_edges() == old(self).explicit_edges(),
            final(self).nodes().len() == old(self).nodes().len(),
            pass.0 < old(self).n() ==> {
                &&& final(self).order() is None
                &&& forall|p: int| 0 <= p < old(self).n() && p != pass.0 ==> #[trigger] final(self).nodes()[p] == old(self).nodes()[p]
                &&& final(self).nodes()[pass.0 as int].pass_id() == old(self).nodes()[pass.0 as int].pass_id()
                &&& final(self).nodes()[pass.0 as int].pass_name() == old(self).nodes()[pass.0 as int].pass_name()
                &&& final(self).nodes()[pass.0 as int].reads_list() == old(self).nodes()[pass.0 as int].reads_list()
                &&& final(self).nodes()[pass.0 as int].has_callback() == old(self).nodes()[pass.0 as int].has_callback()
                &&& resource_names(final(self).nodes()[pass.0 as int].writes_list()) == resource_names_of_strs(resources@)
            },
            pass.0 >= old(self).n() ==> *final(self) == *old(self),
    {
        if (pass.0 as usize) < self.passes.len() {
            let list = Self::resource_list(resources);
            let node = &mut self.passes[pass.0 as usize];
            node.writes = list;
            self.execution_order = None;
            assert(resource_names(self.nodes()[pass.0 as int].writes_list()) =~= resource_names_of_strs(resources@));
        }
    }

    /// Sets the execution callback of a pass (ignored for an unknown pass).
    pub fn set_pass_execute(&mut self, pass: PassId, f: F)
        requires
            old(self).wf(),
        ensures
            final(self).wf(),
            final(self).explicit_edges() == old(self).explicit_edges(),
            final(self).order() == old(self).order(),
            final(self).nodes().len() == old(self).nodes().len(),
            forall|p: int| 0 <= p < old(self).n() && p != pass.0 ==> #[trigger] final(self).nodes()[p] == old(self).nodes()[p],
            pass.0 < old(self).n() ==> {
                &&& final(self).nodes()[pass.0 as int].pass_id() == old(self).nodes()[pass.0 as int].pass_id()
                &&& final(self).nodes()[pass.0 as int].pass_name() == old(self).nodes()[pass.0 as int].pass_name()
                &&& final(self).nodes()[pass.0 as int].reads_list() == old(self).nodes()[pass.0 as int].reads_list()
                &&& final(self).nodes()[pass.0 as int].writes_list() == old(self).nodes()[pass.0 as int].writes_list()
                &&& final(self).nodes()[pass.0 as int].has_callback()
                &&& final(self).nodes()[pass.0 as int].callback() == Some(f)
            },
            pass.0 >= old(self).n() ==> final(self).nodes() == old(self).nodes(),
    {
        proof {
            self.lemma_same_lists_same_dependencies();
        }
        if (pass.0 as usize) < self.passes.len() {
            let node = &mut self.passes[pass.0 as usize];
            node.execute_fn = Some(f);
        }
        proof {
            assert(old(self).same_lists(*self));
        }
    }

    /// Adds an explicit dependency edge (`from` runs before `to`) and
    /// invalidates any previous compilation.
    pub fn add_edge(&mut self, from: PassId, to: PassId)
        requires
            old(self).wf(),
        ensures
            final(self).wf(),
            final(self).nodes() == old(self).nodes(),
            final(self).explicit_edges() == old(self).explicit_edges().push((from, to)),
            final(self).order() is None,
    {
        self.edges.push((from, to));
        self.execution_order = None;
    }

    /// Number of pass nodes.
    pub fn pass_count(&self) -> (r: usize)
        ensures
            r == self.n(),
    {
        self.passes.len()
    }

    /// Number of explicit edges (implicit resource edges are not counted).
    pub fn edge_count(&self) -> (r: usize)
        ensures
            r == self.explicit_edges().len(),
    {
        self.edges.len()
    }

    /// The compiled execution order, if compiled: every pass once, each
    /// after all the passes it depends on.
    pub fn execution_order(&self) -> (r: Option<&[PassId]>)
        requires
            self.wf(),
        ensures
            match r {
                Some(s) => self.order() == Some(s@) && is_topological_order(self.dependency_matrix(), Self::order_ids(s@)),
                None => self.order() is None,
            },
    {
        match &self.execution_order {
            Some(o) => Some(o.as_slice()),
            None => None,
        }
    }
}


/// `list` holds a resource called `name`.
fn names_contain(list: &Vec<ResourceId>, name: &String) -> (r: bool)
    ensures
        r == resource_names(list@).contains(name@),
{
    let mut k: usize = 0;
    while k < list.len()
        invariant
            k <= list@.len(),
            forall|j: int| 0 <= j < k ==> list@[j].0@ != name@,
        decreases list@.len() - k,
    {
        if list[k].0 == *name {
            assert(resource_names(list@)[k as int] == name@);
            return true;
        }
        k = k + 1;
    }
    proof {
        if resource_names(list@).contains(name@) {
            let j = choose|j: int| 0 <= j < resource_names(list@).len() && resource_names(list@)[j] == name@;
            assert(list@[j].0@ == name@);
        }
    }
    false
}

impl<F> RenderGraph<F> {
    /// Some explicit edge goes from `u` to `v`.
    fn has_explicit_edge(&self, u: usize, v: usize) -> (r: bool)
        ensures
            r == self.explicit_edge(u as int, v as int),
    {
        let mut k: usize = 0;
        while k < self.edges.len()
            invariant
                k <= self.explicit_edges().len(),
                forall|j: int|
                    0 <= j < k ==> !((#[trigger] self.explicit_edges()[j]).0.0 == u && self.explicit_edges()[j].1.0 == v),
            decreases self.explicit_edges().len() - k,
        {
            let e = self.edges[k];
            if e.0.0 as usize == u && e.1.0 as usize == v {
                assert(self.explicit_edges()[k as int] == e);
                return true;
            }
            k = k + 1;
        }
        false
    }

    /// `u` writes a resource that `v != u` reads.
    fn has_implicit_edge(&self, u: usize, v: usize) -> (r: bool)
        requires
            u < self.n(),
            v < self.n(),
        ensures
            r == self.implicit_edge(u as int, v as int),
    {
        if u == v {
            return false;
        }
        let writes = &self.passes[u].writes;
        let reads = &self.passes[v].reads;
        assert(writes@ == self.nodes()[u as int].writes_list());
        assert(reads@ == self.nodes()[v as int].reads_list());
        let mut k: usize = 0;
        while k < writes.len()
            invariant
                u < self.n(),
                v < self.n(),
                u != v,
                writes@ == self.nodes()[u as int].writes_list(),
                reads@ == self.nodes()[v as int].reads_list(),
                k <= writes@.len(),
                forall|j: int| 0 <= j < k ==> !self.reads_resource(v as int, #[trigger] writes@[j].0@),
            decreases writes@.len() - k,
        {
            if names_contain(reads, &writes[k].0) {
                assert(self.reads_resource(v as int, self.nodes()[u as int].writes_list()[k as int].0@));
                return true;
            }
            k = k + 1;
        }
        false
    }

    /// The dependency relation (explicit and implicit edges) as an
    /// adjacency matrix.
    fn build_adjacency(&self) -> (adj: Vec<Vec<bool>>)
        requires
            self.wf(),
        ensures
            matrix_view(adj@) == self.dependency_matrix(),
            is_square(matrix_view(adj@)),
            adj@.len() == self.n(),
    {
        let n = self.passes.len();
        let mut adj: Vec<Vec<bool>> = Vec::new();
        let mut u: usize = 0;
        while u < n
            invariant
                n == self.n(),
                u <= n,
                adj@.len() == u,
                forall|a: int| 0 <= a < u ==> (#[trigger] adj@[a])@ == self.dependency_matrix()[a],
            decreases n - u,
        {
            let mut row: Vec<bool> = Vec::new();
            let mut v: usize = 0;
            while v < n
                invariant
                    n == self.n(),
                    u < n,
                    v <= n,
                    row@.len() == v,
                    forall|b: int| 0 <= b < v ==> row@[b] == self.dependency(u as int, b),
                decreases n - v,
            {
                let d = self.has_explicit_edge(u, v) || self.has_implicit_edge(u, v);
                row.push(d);
                v = v + 1;
            }
            assert(row@ =~= self.dependency_matrix()[u as int]);
            adj.push(row);
            u = u + 1;
        }
        assert(matrix_view(adj@) =~= self.dependency_matrix());
        adj
    }
}


impl<F> RenderGraph<F> {
    /// Builds the execution order.
    ///
    /// 1. Every explicit edge must name existing passes, else the first
    ///    unknown end is reported.
    /// 2. A pass that writes a resource precedes every other pass reading it.
    /// 3. Two passes writing the same resource must be ordered (one reaches
    ///    the other), else the pair is reported as a conflict.
    /// 4. The passes are sorted topologically by Kahn's algorithm with a
    ///    first-in first-out queue: the passes without dependencies first,
    ///    in increasing id order, then, pass by pass in that order, the
    ///    passes it makes ready, in increasing id order; a cycle is an
    ///    error.
    ///
    /// The order is stored only on success.
    pub fn compile(&mut self) -> (r: Result<(), GraphError>)
        requires
            old(self).wf(),
        ensures
            final(self).wf(),
            final(self).nodes() == old(self).nodes(),
            final(self).explicit_edges() == old(self).explicit_edges(),
            !(r matches Err(GraphError::NotCompiled)),
            (r matches Err(GraphError::UnknownPass(_))) == !old(self).edges_known(),
            r matches Err(GraphError::UnknownPass(p)) ==> old(self).first_unknown_endpoint(p),
            old(self).edges_known() ==> ((r matches Err(GraphError::ResourceConflict { .. }))
                == old(self).has_write_conflict()),
            r matches Err(GraphError::ResourceConflict { resource, pass_a, pass_b })
                ==> old(self).write_conflict(pass_a.0 as int, pass_b.0 as int, resource@),
            old(self).edges_known() && !old(self).has_write_conflict() ==> (r is Ok
                == has_topological_order(old(self).dependency_matrix())),
            r is Ok ==> (final(self).order() matches Some(o) && is_topological_order(
                old(self).dependency_matrix(),
                Self::order_ids(o),
            ) && Self::order_ids(o) == kahn_order(old(self).dependency_matrix())),
            r is Err ==> final(self).order() == old(self).order(),
    {
        let n = self.passes.len();
        // 1. Explicit edges must name existing passes.
        let mut k: usize = 0;
        while k < self.edges.len()
            invariant
                self.wf(),
                n == self.n(),
                k <= self.explicit_edges().len(),
                forall|j: int| 0 <= j < k ==> self.edge_known(#[trigger] self.explicit_edges()[j]),
            decreases self.explicit_edges().len() - k,
        {
            let e = self.edges[k];
            assert(self.explicit_edges()[k as int] == e);
            if e.0.0 as usize >= n {
                return Err(GraphError::UnknownPass(e.0));
            }
            if e.1.0 as usize >= n {
                return Err(GraphError::UnknownPass(e.1));
            }
            k = k + 1;
        }
        // 2. Explicit and implicit edges.
        let adj = self.build_adjacency();
        let ghost g = self.dependency_matrix();
        // 3. Write-write conflicts.
        let mut a: usize = 0;
        while a < n
            invariant
                self.wf(),
                n == self.n(),
                self.edges_known(),
                matrix_view(adj@) == g,
                g == self.dependency_matrix(),
                is_square(g),
                adj@.len() == n,
                a <= n,
                forall|x: int, y: int, name: Seq<char>|
                    0 <= x < a && x < y < n && #[trigger] self.writes_resource(x, name)
                        && #[trigger] self.writes_resource(y, name) ==> reaches(g, x, y) || reaches(g, y, x),
            decreases n - a,
        {
            let wl = &self.passes[a].writes;
            assert(wl@ == self.nodes()[a as int].writes_list());
            let mut i: usize = 0;
            while i < wl.len()
                invariant
                    self.wf(),
                    n == self.n(),
                    self.edges_known(),
                    matrix_view(adj@) == g,
                    g == self.dependency_matrix(),
                    is_square(g),
                    adj@.len() == n,
                    a < n,
                    wl@ == self.nodes()[a as int].writes_list(),
                    i <= wl@.len(),
                    forall|x: int, y: int, name: Seq<char>|
                        0 <= x < a && x < y < n && #[trigger] self.writes_resource(x, name)
                            && #[trigger] self.writes_resource(y, name) ==> reaches(g, x, y) || reaches(g, y, x),
                    forall|j: int, y: int|
                        0 <= j < i && a < y < n && #[trigger] self.writes_resource(y, wl@[j].0@) ==> reaches(
                            g,
                            a as int,
                            y,
                        ) || reaches(g, y, a as int),
                decreases wl@.len() - i,
            {
                let mut b: usize = a + 1;
                while b < n
                    invariant
                        self.wf(),
                        n == self.n(),
                        self.edges_known(),
                        matrix_view(adj@) == g,
                        g == self.dependency_matrix(),
                        is_square(g),
                        adj@.len() == n,
                        a < n,
                        a < b <= n,
                        wl@ == self.nodes()[a as int].writes_list(),
                        i < wl@.len(),
                        forall|y: int|
                            a < y < b && #[trigger] self.writes_resource(y, wl@[i as int].0@) ==> reaches(
                                g,
                                a as int,
                                y,
                            ) || reaches(g, y, a as int),
                    decreases n - b,
                {
                    assert(self.passes@[b as int].writes@ == self.nodes()[b as int].writes_list());
                    if names_contain(&self.passes[b].writes, &wl[i].0) {
                        if !is_reachable(&adj, a, b) && !is_reachable(&adj, b, a) {
                            proof {
                                assert(resource_names(wl@)[i as int] == wl@[i as int].0@);
                                assert(self.writes_resource(a as int, wl@[i as int].0@));
                                assert(self.write_conflict(a as int, b as int, wl@[i as int].0@));
                            }
                            let resource = wl[i].0.clone();
                            return Err(
                                GraphError::ResourceConflict {
                                    resource,
                                    pass_a: PassId(a as u32),
                                    pass_b: PassId(b as u32),
                                },
                            );
                        }
                    }
                    b = b + 1;
                }
                i = i + 1;
            }
            proof {
                assert forall|x: int, y: int, name: Seq<char>|
                    0 <= x < a + 1 && x < y < n && #[trigger] self.writes_resource(x, name)
                        && #[trigger] self.writes_resource(y, name) implies reaches(g, x, y) || reaches(g, y, x) by {
                    if x == a as int {
                        let j = choose|j: int|
                            0 <= j < resource_names(wl@).len() && resource_names(wl@)[j] == name;
                        assert(wl@[j].0@ == name);
                    }
                }
            }
            a = a + 1;
        }
        proof {
            if self.has_write_conflict() {
                let (x, y, name) = choose|x: int, y: int, name: Seq<char>| #[trigger] self.write_conflict(x, y, name);
                if x < y {
                    assert(self.writes_resource(x, name) && self.writes_resource(y, name));
                } else {
                    assert(self.writes_resource(y, name) && self.writes_resource(x, name));
                }
            }
        }
        // 4. Topological sort.
        let order = topological_sort(&adj);
        if order.len() != n {
            return Err(GraphError::CycleDetected);
        }
        let mut ids: Vec<PassId> = Vec::new();
        let mut i: usize = 0;
        while i < n
            invariant
                self.wf(),
                self.edges_known(),
                !self.has_write_conflict(),
                g == self.dependency_matrix(),
                is_topological_order(g, as_ints(order@)),
                n == self.n(),
                n <= u32::MAX,
                order@.len() == n,
                forall|j: int| 0 <= j < n ==> (#[trigger] order@[j]) < n,
                i <= n,
                ids@.len() == i,
                forall|j: int| 0 <= j < i ==> (#[trigger] ids@[j]).0 as int == order@[j] as int,
            decreases n - i,
        {
            ids.push(PassId(order[i] as u32));
            i = i + 1;
        }
        assert(Self::order_ids(ids@) =~= as_ints(order@));
        assert(as_ints(order@) == kahn_order(g));
        self.execution_order = Some(ids);
        Ok(())
    }
}


impl<F> RenderGraph<F> {
    /// Pass `i` of the order `o` writes `name`, and no earlier one does.
    pub open spec fn first_writer_at(&self, o: Seq<PassId>, name: Seq<char>, i: int) -> bool {
        &&& 0 <= i < o.len()
        &&& self.writes_resource(o[i].0 as int, name)
        &&& forall|j: int| 0 <= j < i ==> !self.writes_resource((#[trigger] o[j]).0 as int, name)
    }

    /// Pass `i` of the order `o` reads `name`, and no later one does.
    pub open spec fn last_reader_at(&self, o: Seq<PassId>, name: Seq<char>, i: int) -> bool {
        &&& 0 <= i < o.len()
        &&& self.reads_resource(o[i].0 as int, name)
        &&& forall|j: int| i < j < o.len() ==> !self.reads_resource((#[trigger] o[j]).0 as int, name)
    }

    /// `w` is the first writer and `rd` the last reader of `name` in `o`.
    pub open spec fn lifetime_span(&self, o: Seq<PassId>, name: Seq<char>, w: PassId, rd: PassId) -> bool {
        &&& exists|i: int| #[trigger] self.first_writer_at(o, name, i) && o[i] == w
        &&& exists|i: int| #[trigger] self.last_reader_at(o, name, i) && o[i] == rd
    }

    /// No pass of `o` writes `name`, or none reads it.
    pub open spec fn no_writer_or_no_reader(&self, o: Seq<PassId>, name: Seq<char>) -> bool {
        ||| forall|i: int| 0 <= i < o.len() ==> !self.writes_resource((#[trigger] o[i]).0 as int, name)
        ||| forall|i: int| 0 <= i < o.len() ==> !self.reads_resource((#[trigger] o[i]).0 as int, name)
    }

    /// Returns `(first_writer, last_reader)` of a resource along the
    /// compiled order: the span in which its memory must stay allocated.
    /// `None` if the graph is not compiled, or no pass writes it, or no
    /// pass reads it.
    pub fn resource_lifetime(&self, resource: &str) -> (r: Option<(PassId, PassId)>)
        requires
            self.wf(),
        ensures
            self.order() is None ==> r is None,
            r matches Some(span) ==> self.order() is Some && self.lifetime_span(
                self.order()->0,
                resource@,
                span.0,
                span.1,
            ),
            self.order() matches Some(o) ==> (r is None ==> self.no_writer_or_no_reader(o, resource@)),
    {
        let order = match &self.execution_order {
            Some(o) => o,
            None => {
                return None;
            },
        };
        let ghost o = order@;
        let rid = ResourceId::new(resource);
        let mut first_writer: Option<PassId> = None;
        let mut last_reader: Option<PassId> = None;
        let mut i: usize = 0;
        while i < order.len()
            invariant
                self.wf(),
                self.order() == Some(o),
                order@ == o,
                rid.0@ == resource@,
                i <= o.len(),
                match first_writer {
                    Some(w) => exists|k: int| k < i && self.first_writer_at(o, resource@, k) && o[k] == w,
                    None => forall|j: int| 0 <= j < i ==> !self.writes_resource((#[trigger] o[j]).0 as int, resource@),
                },
                match last_reader {
                    Some(rd) => exists|k: int|
                        0 <= k < i && o[k] == rd && self.reads_resource(o[k].0 as int, resource@) && forall|j: int|
                            k < j < i ==> !self.reads_resource((#[trigger] o[j]).0 as int, resource@),
                    None => forall|j: int| 0 <= j < i ==> !self.reads_resource((#[trigger] o[j]).0 as int, resource@),
                },
            decreases o.len() - i,
        {
            let pid = order[i];
            assert(pid.0 < self.n());
            let node = &self.passes[pid.0 as usize];
            assert(node.writes@ == self.nodes()[pid.0 as int].writes_list());
            assert(node.reads@ == self.nodes()[pid.0 as int].reads_list());
            if names_contain(&node.writes, &rid.0) && first_writer.is_none() {
                first_writer = Some(pid);
                assert(self.first_writer_at(o, resource@, i as int));
            }
            if names_contain(&node.reads, &rid.0) {
                last_reader = Some(pid);
                assert(o[i as int] == pid);
            }
            i = i + 1;
        }
        proof {
            if let Some(rd) = last_reader {
                let k = choose|k: int|
                    0 <= k < i && o[k] == rd && self.reads_resource(o[k].0 as int, resource@) && forall|j: int|
                        k < j < i ==> !self.reads_resource((#[trigger] o[j]).0 as int, resource@);
                assert(self.last_reader_at(o, resource@, k));
            }
        }
        match (first_writer, last_reader) {
            (Some(w), Some(rd)) => {
                let r = Some((w, rd));
                proof {
                    let k1 = choose|k: int| self.first_writer_at(o, resource@, k) && o[k] == w;
                    let k2 = choose|k: int| self.last_reader_at(o, resource@, k) && o[k] == rd;
                    assert((r->0).0 == w && (r->0).1 == rd);
                    assert(self.first_writer_at(o, resource@, k1) && o[k1] == (r->0).0);
                    assert(self.last_reader_at(o, resource@, k2) && o[k2] == (r->0).1);
                    assert(self.lifetime_span(o, resource@, w, rd));
                }
                r
            },
            (None, _) => {
                assert(forall|j: int| 0 <= j < o.len() ==> !self.writes_resource((#[trigger] o[j]).0 as int, resource@));
                None
            },
            (_, None) => {
                assert(forall|j: int| 0 <= j < o.len() ==> !self.reads_resource((#[trigger] o[j]).0 as int, resource@));
                None
            },
        }
    }

    /// The contexts with which the passes run for frame `frame_index`, in
    /// compiled order (none if the graph is not compiled).
    pub fn execute_plan(&self, frame_index: u64) -> (r: Vec<PassContext>)
        requires
            self.wf(),
        ensures
            match self.order() {
                None => r@.len() == 0,
                Some(o) => {
                    &&& r@.len() == o.len()
                    &&& forall|i: int|
                        0 <= i < o.len() ==> {
                            &&& (#[trigger] r@[i]).pass_id == o[i]
                            &&& r@[i].pass_name@ == self.nodes()[o[i].0 as int].pass_name()
                            &&& r@[i].frame_index == frame_index
                        }
                },
            },
    {
        let mut r: Vec<PassContext> = Vec::new();
        let order = match &self.execution_order {
            Some(o) => o,
            None => {
                return r;
            },
        };
        let ghost o = order@;
        let mut i: usize = 0;
        while i < order.len()
            invariant
                self.wf(),
                self.order() == Some(o),
                order@ == o,
                i <= o.len(),
                r@.len() == i,
                forall|j: int|
                    0 <= j < i ==> {
                        &&& (#[trigger] r@[j]).pass_id == o[j]
                        &&& r@[j].pass_name@ == self.nodes()[o[j].0 as int].pass_name()
                        &&& r@[j].frame_index == frame_index
                    },
            decreases o.len() - i,
        {
            let pid = order[i];
            assert(pid.0 < self.n());
            let node = &self.passes[pid.0 as usize];
            assert(node.name@ == self.nodes()[pid.0 as int].pass_name());
            r.push(PassContext { pass_id: pid, pass_name: node.name.clone(), frame_index });
            i = i + 1;
        }
        r
    }

    /// Runs the compiled passes in execution order, calling each pass's
    /// callback (if it has one) with a context naming the pass and
    /// `frame_index`. Does nothing if the graph is not compiled.
    pub fn execute(&mut self, frame_index: u64)
        where F: FnMut(&PassContext)
        requires
            old(self).wf(),
            forall|f: F, ctx: &PassContext| call_requires(f, (ctx,)),
        ensures
            final(self).wf(),
            final(self).explicit_edges() == old(self).explicit_edges(),
            final(self).order() == old(self).order(),
            final(self).nodes() == old(self).nodes(),
            // Every pass of the compiled order that has a callback had it
            // called with a context naming the pass and the frame.
            old(self).order() matches Some(o) ==> forall|j: int|
                #![trigger o[j]]
                0 <= j < o.len() && old(self).nodes()[o[j].0 as int].callback() is Some ==> exists|c: PassContext|
                    {
                        &&& c.pass_id == o[j]
                        &&& c.pass_name@ == old(self).nodes()[o[j].0 as int].pass_name()
                        &&& c.frame_index == frame_index
                        &&& #[trigger] call_ensures(old(self).nodes()[o[j].0 as int].callback()->0, (&c,), ())
                    },
    {
        let plan = self.execute_plan(frame_index);
        let mut i: usize = 0;
        while i < plan.len()
            invariant
                self.wf(),
                self.explicit_edges() == old(self).explicit_edges(),
                self.order() == old(self).order(),
                self.nodes() == old(self).nodes(),
                forall|f: F, ctx: &PassContext| call_requires(f, (ctx,)),
                match old(self).order() {
                    None => plan@.len() == 0,
                    Some(o) => {
                        &&& plan@.len() == o.len()
                        &&& forall|j: int|
                            0 <= j < o.len() ==> {
                                &&& (#[trigger] plan@[j]).pass_id == o[j]
                                &&& plan@[j].pass_name@ == old(self).nodes()[o[j].0 as int].pass_name()
                                &&& plan@[j].frame_index == frame_index
                            }
                    },
                },
                i <= plan@.len(),
                forall|j: int|
                    0 <= j < i && old(self).nodes()[plan@[j].pass_id.0 as int].callback() is Some ==> call_ensures(
                        old(self).nodes()[plan@[j].pass_id.0 as int].callback()->0,
                        (&#[trigger] plan@[j],),
                        (),
                    ),
            decreases plan@.len() - i,
        {
            let ctx = &plan[i];
            proof {
                if let Some(o) = old(self).order() {
                    assert(plan@[i as int].pass_id == o[i as int]);
                    assert(o[i as int].0 < self.n());
                }
            }
            match self.callback_mut(ctx.pass_id) {
                Some(f) => {
                    let ghost f0 = *f;
                    f(ctx);
                    proof {
                        assert(*f == f0);
                    }
                },
                None => {},
            }
            i = i + 1;
        }
        proof {
            if let Some(o) = old(self).order() {
                assert forall|j: int|
                    #![trigger o[j]]
                    0 <= j < o.len() && old(self).nodes()[o[j].0 as int].callback() is Some implies exists|c: PassContext|
                        {
                            &&& c.pass_id == o[j]
                            &&& c.pass_name@ == old(self).nodes()[o[j].0 as int].pass_name()
                            &&& c.frame_index == frame_index
                            &&& #[trigger] call_ensures(old(self).nodes()[o[j].0 as int].callback()->0, (&c,), ())
                        } by {
                    let c = plan@[j];
                    assert(c.pass_id == o[j]);
                }
            }
        }
    }

    /// The execution callback of a pass, if the pass exists and has one.
    pub fn callback_mut(&mut self, pass: PassId) -> (r: Option<&mut F>)
        requires
            old(self).wf(),
        ensures
            r is Some == (pass.0 < old(self).n() && old(self).nodes()[pass.0 as int].has_callback()),
            final(self).wf(),
            final(self).explicit_edges() == old(self).explicit_edges(),
            final(self).order() == old(self).order(),
            final(self).nodes().len() == old(self).nodes().len(),
            forall|p: int|
                0 <= p < old(self).n() ==> {
                    &&& (#[trigger] final(self).nodes()[p]).pass_id() == old(self).nodes()[p].pass_id()
                    &&& final(self).nodes()[p].pass_name() == old(self).nodes()[p].pass_name()
                    &&& final(self).nodes()[p].reads_list() == old(self).nodes()[p].reads_list()
                    &&& final(self).nodes()[p].writes_list() == old(self).nodes()[p].writes_list()
                    &&& final(self).nodes()[p].has_callback() == old(self).nodes()[p].has_callback()
                },
            r is None ==> final(self).nodes() == old(self).nodes(),
            r matches Some(f) ==> old(self).nodes()[pass.0 as int].callback() == Some(*f),
            r matches Some(f) ==> (*final(f) == *f ==> final(self).nodes() == old(self).nodes()),
    {
        proof {
            self.lemma_same_lists_same_dependencies();
        }
        if (pass.0 as usize) < self.passes.len() {
            let node = &mut self.passes[pass.0 as usize];
            node.execute_fn.as_mut()
        } else {
            None
        }
    }
}

/// The names in a slice of string slices.
pub open spec fn resource_names_of_strs(list: Seq<&str>) -> Seq<Seq<char>> {
    Seq::new(list.len(), |k: int| list[k]@)
}

impl<F> Default for RenderGraph<F> {
    fn default() -> (r: Self)
        ensures
            r.wf(),
            r.nodes() == Seq::<RenderPassNode<F>>::empty(),
            r.explicit_edges() == Seq::<(PassId, PassId)>::empty(),
            r.order() is None,
    {
        Self::new()
    }
}

} // verus!
