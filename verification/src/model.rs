//! The topology model: nodes, per-region graphs, and the registry.

use vstd::prelude::*;

use vstd::string::StringExecFns;

use crate::config;
use crate::storage::{
    graph_add_edge, graph_add_node, graph_edge_endpoints, graph_edges, graph_new, graph_nodes,
    GraphStore,
};

verus! {

/// Traffic thresholds attached to every edge. The source schema carries no
/// per-connection metric data yet, so every edge gets the default thresholds.
#[derive(Debug, Clone, Copy, PartialEq, Eq, Structural)]
pub struct Metrics {
    pub normal: i64,
    pub warning: i64,
    pub danger: i64,
}

impl Metrics {
    /// The default thresholds used for every edge.
    pub fn empty() -> (m: Metrics)
        ensures
            m == default_metrics(),
    {
        Metrics { normal: 100, warning: 10, danger: 1 }
    }

    pub fn new(normal: i64, warning: i64, danger: i64) -> (m: Metrics)
        ensures
            m == (Metrics { normal, warning, danger }),
    {
        Metrics { normal, warning, danger }
    }
}

pub open spec fn default_metrics() -> Metrics {
    Metrics { normal: 100, warning: 10, danger: 1 }
}

/// An edge of a subgraph, in mathematical form: indices into the subgraph's
/// child list, plus the thresholds the edge carries.
#[verifier::ext_equal]
pub struct EdgeV {
    pub source: int,
    pub target: int,
    pub metrics: Metrics,
}

/// Mathematical form of a subgraph.
#[verifier::ext_equal]
pub struct ObsGraphV {
    pub name: Seq<char>,
    pub display_name: Option<Seq<char>>,
    pub entry_point: Seq<char>,
    pub root: bool,
    pub children: Seq<NodeV>,
    pub edges: Seq<EdgeV>,
}

/// Mathematical form of a topology node.
#[verifier::ext_equal]
pub enum NodeV {
    Leaf { name: Seq<char>, display_name: Option<Seq<char>> },
    Graph(ObsGraphV),
}

pub open spec fn node_v_name(n: NodeV) -> Seq<char> {
    match n {
        NodeV::Leaf { name, .. } => name,
        NodeV::Graph(g) => g.name,
    }
}

pub open spec fn graph_display_v(g: ObsGraphV) -> Seq<char> {
    match g.display_name {
        Some(d) => d,
        None => g.name,
    }
}

pub open spec fn node_display_v(n: NodeV) -> Seq<char> {
    match n {
        NodeV::Leaf { name, display_name } => match display_name {
            Some(d) => d,
            None => name,
        },
        NodeV::Graph(g) => graph_display_v(g),
    }
}

/// Well-formedness of a subgraph in mathematical form: every edge endpoint
/// is an index of the child list, and every child is itself well-formed.
pub open spec fn graph_wf_v(g: ObsGraphV) -> bool
    decreases g,
{
    &&& (forall|i: int|
        0 <= i < g.edges.len() ==> 0 <= #[trigger] g.edges[i].source < g.children.len()
            && 0 <= g.edges[i].target < g.children.len())
    &&& (forall|i: int| 0 <= i < g.children.len() ==> node_wf_v(#[trigger] g.children[i]))
}

pub open spec fn node_wf_v(n: NodeV) -> bool
    decreases n,
{
    match n {
        NodeV::Leaf { .. } => true,
        NodeV::Graph(g) => graph_wf_v(g),
    }
}

/// A topology node: a terminal service, or a named directed graph of child
/// nodes connected by threshold-weighted edges.
#[derive(Debug)]
pub enum Node {
    Leaf { name: String, display_name: Option<String> },
    Graph(ObsGraph),
}

/// A named directed graph of child topology nodes. The topology itself is
/// held in a `petgraph` store whose node indices are positions in `children`
/// and whose edge order matches `edge_metrics`.
#[derive(Debug)]
pub struct ObsGraph {
    name: String,
    display_name: Option<String>,
    entry_point: String,
    children: Vec<Node>,
    edge_metrics: Vec<Metrics>,
    graph: GraphStore,
    root: bool,
}

impl View for ObsGraph {
    type V = ObsGraphV;

    closed spec fn view(&self) -> ObsGraphV
        decreases self,
    {
        ObsGraphV {
            name: self.name@,
            display_name: config::opt_string_view(self.display_name),
            entry_point: self.entry_point@,
            root: self.root,
            children: node_views(self.children@),
            edges: Seq::new(
                self.edge_metrics@.len(),
                |i: int| EdgeV {
                    source: graph_edges(self.graph)[i].0 as int,
                    target: graph_edges(self.graph)[i].1 as int,
                    metrics: self.edge_metrics@[i],
                },
            ),
        }
    }
}

impl View for Node {
    type V = NodeV;

    closed spec fn view(&self) -> NodeV
        decreases self,
    {
        match self {
            Node::Leaf { name, display_name } => NodeV::Leaf {
                name: name@,
                display_name: config::opt_string_view(*display_name),
            },
            Node::Graph(g) => NodeV::Graph(g@),
        }
    }
}

/// The views of a sequence of nodes, in order.
pub open spec fn node_views(s: Seq<Node>) -> Seq<NodeV>
    decreases s,
{
    if s.len() == 0 {
        Seq::empty()
    } else {
        node_views(s.subrange(0, s.len() - 1)).push(s[s.len() - 1]@)
    }
}

pub proof fn lemma_node_views_pointwise(s: Seq<Node>)
    ensures
        node_views(s).len() == s.len(),
        forall|i: int| 0 <= i < s.len() ==> node_views(s)[i] == s[i]@,
    decreases s,
{
    if s.len() > 0 {
        let prefix = s.subrange(0, s.len() - 1);
        lemma_node_views_pointwise(prefix);
        assert(node_views(s) == node_views(prefix).push(s[s.len() - 1]@));
        assert forall|i: int| 0 <= i < s.len() implies node_views(s)[i] == s[i]@ by {
            if i < s.len() - 1 {
                assert(prefix[i] == s[i]);
            }
        }
    }
}

impl Node {
    /// Well-formedness: every subgraph below this node keeps its store in
    /// step with its child list and edge table. A leaf is always well
    /// formed.
    pub open spec fn wf(&self) -> bool
        decreases self,
    {
        match self {
            Node::Leaf { .. } => true,
            Node::Graph(g) => g.wf(),
        }
    }

    pub fn name(&self) -> (r: &str)
        ensures
            r@ == node_v_name(self@),
    {
        match self {
            Node::Leaf { name, .. } => name.as_str(),
            Node::Graph(g) => g.name(),
        }
    }

    pub fn display_name(&self) -> (r: &str)
        ensures
            r@ == node_display_v(self@),
    {
        match self {
            Node::Leaf { name, display_name } => match display_name {
                Some(d) => d.as_str(),
                None => name.as_str(),
            },
            Node::Graph(g) => g.display_name(),
        }
    }

    /// How a node's mathematical form is put together from its parts.
    pub proof fn lemma_view_shape(&self)
        ensures
            match self {
                Node::Leaf { name, display_name } => self@ == (NodeV::Leaf {
                    name: name@,
                    display_name: config::opt_string_view(*display_name),
                }),
                Node::Graph(g) => self@ == NodeV::Graph(g@),
            },
    {
    }

    /// A well-formed subgraph node holds a well-formed subgraph.
    pub proof fn lemma_graph_wf(&self)
        requires
            self.wf(),
        ensures
            match self {
                Node::Leaf { .. } => true,
                Node::Graph(g) => g.wf(),
            },
    {
    }

    /// Every well-formed node is well-formed in mathematical form too.
    pub proof fn lemma_wf_view(&self)
        requires
            self.wf(),
        ensures
            node_wf_v(self@),
        decreases self,
    {
        match self {
            Node::Leaf { .. } => {}
            Node::Graph(g) => {
                g.lemma_wf_view();
            }
        }
    }
}

impl ObsGraph {
    /// The store mirrors the child list and the edge table: node indices are
    /// child positions, edge order is `edge_metrics` order, and every edge
    /// endpoint is in range.
    pub closed spec fn wf(&self) -> bool
        decreases self,
    {
        &&& graph_nodes(self.graph).len() == self.children@.len()
        &&& graph_edges(self.graph).len() == self.edge_metrics@.len()
        &&& (forall|i: int|
            0 <= i < graph_edges(self.graph).len()
                ==> (#[trigger] graph_edges(self.graph)[i]).0 < self.children@.len()
                && graph_edges(self.graph)[i].1 < self.children@.len())
        &&& (forall|i: int| 0 <= i < self.children@.len() ==> (#[trigger] self.children@[i]).wf())
    }

    pub proof fn lemma_wf_view(&self)
        requires
            self.wf(),
        ensures
            graph_wf_v(self@),
        decreases self,
    {
        lemma_node_views_pointwise(self.children@);
        assert forall|i: int| 0 <= i < self@.children.len() implies node_wf_v(
            #[trigger] self@.children[i],
        ) by {
            self.children@[i].lemma_wf_view();
        }
    }

    fn make(name: String, entry_point: String, root: bool) -> (g: ObsGraph)
        ensures
            g@ == (ObsGraphV {
                name: name@,
                display_name: None,
                entry_point: entry_point@,
                root: root,
                children: Seq::empty(),
                edges: Seq::empty(),
            }),
            g.wf(),
    {
        let g = ObsGraph {
            name,
            display_name: None,
            entry_point,
            children: Vec::new(),
            edge_metrics: Vec::new(),
            graph: graph_new(),
            root,
        };
        proof {
            assert(node_views(g.children@) =~= Seq::<NodeV>::empty());
            assert(g@.edges =~= Seq::<EdgeV>::empty());
        }
        g
    }

    /// A new, empty, non-root subgraph.
    pub fn new(name: String, entry_point: String) -> (g: ObsGraph)
        ensures
            g@ == (ObsGraphV {
                name: name@,
                display_name: None,
                entry_point: entry_point@,
                root: false,
                children: Seq::empty(),
                edges: Seq::empty(),
            }),
            g.wf(),
    {
        Self::make(name, entry_point, false)
    }

    /// A new, empty root subgraph: only nodes built directly from the
    /// top-level region list are roots.
    pub fn root(name: String, entry_point: String) -> (g: ObsGraph)
        ensures
            g@ == (ObsGraphV {
                name: name@,
                display_name: None,
                entry_point: entry_point@,
                root: true,
                children: Seq::empty(),
                edges: Seq::empty(),
            }),
            g.wf(),
    {
        Self::make(name, entry_point, true)
    }

    pub fn name(&self) -> (r: &str)
        ensures
            r@ == self@.name,
    {
        self.name.as_str()
    }

    pub fn is_root(&self) -> (r: bool)
        ensures
            r == self@.root,
    {
        self.root
    }

    /// The display name, falling back to the name when none was declared.
    pub fn display_name(&self) -> (r: &str)
        ensures
            r@ == graph_display_v(self@),
    {
        match &self.display_name {
            Some(d) => d.as_str(),
            None => self.name.as_str(),
        }
    }

    pub fn entry_point(&self) -> (r: &str)
        ensures
            r@ == self@.entry_point,
    {
        self.entry_point.as_str()
    }

    pub fn set_display_name(&mut self, display_name: String)
        ensures
            final(self)@ == (ObsGraphV { display_name: Some(display_name@), ..old(self)@ }),
            old(self).wf() ==> final(self).wf(),
    {
        self.display_name = Some(display_name);
        proof {
            assert(self@ =~= (ObsGraphV { display_name: Some(self.display_name->0@), ..old(self)@ }));
        }
    }

    /// Appends a child node; its index is the prior child count.
    pub fn add_node(&mut self, n: Node) -> (i: usize)
        requires
            old(self).wf(),
            n.wf(),
        ensures
            final(self).wf(),
            final(self)@ == (ObsGraphV {
                children: old(self)@.children.push(n@),
                ..old(self)@
            }),
            i == old(self)@.children.len(),
    {
        proof {
            lemma_node_views_pointwise(old(self).children@);
        }
        let weight = self.children.len() as u64;
        let i = graph_add_node(&mut self.graph, weight);
        self.children.push(n);
        proof {
            lemma_node_views_pointwise(self.children@);
            assert(self.children@ == old(self).children@.push(n));
            assert(node_views(self.children@) =~= node_views(old(self).children@).push(n@));
            assert(self@.edges =~= old(self)@.edges);
        }
        i
    }

    /// Looks a direct child up by name, returning the first match with its
    /// index, or nothing when no direct child has the name.
    pub fn find_node_by_name(&self, name: &str) -> (r: Option<(usize, &Node)>)
        requires
            self.wf(),
        ensures
            match r {
                Some((i, n)) => {
                    &&& find_index(self@.children, name@) == Some(i as int)
                    &&& i < self@.children.len()
                    &&& n@ == self@.children[i as int]
                    &&& n.wf()
                },
                None => find_index(self@.children, name@) is None,
            },
    {
        proof {
            lemma_node_views_pointwise(self.children@);
        }
        let ghost children = self@.children;
        let mut i: usize = 0;
        while i < self.children.len()
            invariant
                self.wf(),
                children == self@.children,
                i <= self.children.len(),
                children.len() == self.children@.len(),
                forall|j: int| 0 <= j < i ==> node_v_name(#[trigger] children[j]) != name@,
            decreases self.children.len() - i,
        {
            proof {
                lemma_node_views_pointwise(self.children@);
            }
            let child = &self.children[i];
            if str_eq(child.name(), name) {
                proof {
                    lemma_find_index_first(children, name@, i as int);
                }
                return Some((i, child));
            }
            i += 1;
        }
        proof {
            lemma_find_index_props(children, name@);
        }
        None
    }

    /// Appends an edge between two child indices; its index is the prior
    /// edge count.
    pub fn add_edge(&mut self, src: usize, tgt: usize, metrics: Metrics) -> (i: usize)
        requires
            old(self).wf(),
            src < old(self)@.children.len(),
            tgt < old(self)@.children.len(),
        ensures
            final(self).wf(),
            final(self)@ == (ObsGraphV {
                edges: old(self)@.edges.push(
                    EdgeV { source: src as int, target: tgt as int, metrics },
                ),
                ..old(self)@
            }),
            i == old(self)@.edges.len(),
    {
        proof {
            lemma_node_views_pointwise(self.children@);
        }
        let weight = self.edge_metrics.len() as u64;
        let i = graph_add_edge(&mut self.graph, src, tgt, weight);
        self.edge_metrics.push(metrics);
        proof {
            assert(self@.edges =~= old(self)@.edges.push(
                EdgeV { source: src as int, target: tgt as int, metrics },
            ));
            assert(self@ =~= (ObsGraphV { edges: self@.edges, ..old(self)@ }));
        }
        i
    }

    /// Resolves both names against the direct children and, when both
    /// resolve, appends an edge; an unresolved endpoint adds nothing.
    pub fn add_edge_by_name(&mut self, src: &str, tgt: &str, metrics: Metrics) -> (r: Option<
        usize,
    >)
        requires
            old(self).wf(),
        ensures
            final(self).wf(),
            match (
                find_index(old(self)@.children, src@),
                find_index(old(self)@.children, tgt@),
            ) {
                (Some(a), Some(b)) => {
                    &&& r == Some(old(self)@.edges.len() as usize)
                    &&& final(self)@ == (ObsGraphV {
                        edges: old(self)@.edges.push(
                            EdgeV { source: a, target: b, metrics },
                        ),
                        ..old(self)@
                    })
                },
                _ => r is None && final(self)@ == old(self)@,
            },
    {
        let src_idx = match self.find_node_by_name(src) {
            Some((idx, _n)) => idx,
            None => {
                return None;
            },
        };
        let tgt_idx = match self.find_node_by_name(tgt) {
            Some((idx, _n)) => idx,
            None => {
                return None;
            },
        };
        Some(self.add_edge(src_idx, tgt_idx, metrics))
    }

    pub fn child_count(&self) -> (n: usize)
        ensures
            n == self@.children.len(),
    {
        proof {
            lemma_node_views_pointwise(self.children@);
        }
        self.children.len()
    }

    /// The child at an index, as a value (for termination measures).
    pub closed spec fn child_spec(&self, i: int) -> Node {
        self.children@[i]
    }

    /// A child stands below its graph in the structural order.
    pub proof fn lemma_child_smaller(&self, i: int)
        requires
            self.wf(),
            0 <= i < self@.children.len(),
        ensures
            decreases_to!(*self => self.child_spec(i)),
    {
        lemma_node_views_pointwise(self.children@);
        assert(decreases_to!(*self => self.children));
        assert(decreases_to!(self.children => self.children@));
        assert(decreases_to!(self.children@ => self.children@[i]));
    }

    pub fn child_at(&self, i: usize) -> (r: &Node)
        requires
            self.wf(),
            i < self@.children.len(),
        ensures
            r@ == self@.children[i as int],
            *r == self.child_spec(i as int),
            r.wf(),
    {
        proof {
            lemma_node_views_pointwise(self.children@);
        }
        &self.children[i]
    }

    /// The subgraph's edges as plain values, in edge order.
    pub fn edges(&self) -> (r: Vec<Edge>)
        requires
            self.wf(),
        ensures
            r@.len() == self@.edges.len(),
            forall|i: int| 0 <= i < r@.len() ==> #[trigger] r@[i]@ == self@.edges[i],
    {
        let endpoints = graph_edge_endpoints(&self.graph);
        let mut r: Vec<Edge> = Vec::new();
        let mut i: usize = 0;
        while i < endpoints.len()
            invariant
                self.wf(),
                endpoints@ == graph_edges(self.graph),
                i <= endpoints.len(),
                r@.len() == i,
                forall|j: int| 0 <= j < i ==> #[trigger] r@[j]@ == self@.edges[j],
            decreases endpoints.len() - i,
        {
            let (s, t) = endpoints[i];
            r.push(Edge { source: s, target: t, metrics: self.edge_metrics[i] });
            i += 1;
        }
        r
    }

    /// The underlying store.
    pub fn graph(&self) -> (r: &GraphStore)
        requires
            self.wf(),
        ensures
            graph_edges(*r).len() == self@.edges.len(),
            forall|i: int|
                0 <= i < self@.edges.len() ==> (#[trigger] graph_edges(*r)[i]).0
                    == self@.edges[i].source && graph_edges(*r)[i].1 == self@.edges[i].target,
    {
        &self.graph
    }
}

/// An edge as plain values: child indices and thresholds.
#[derive(Debug, Clone, Copy)]
pub struct Edge {
    pub source: usize,
    pub target: usize,
    pub metrics: Metrics,
}

impl View for Edge {
    type V = EdgeV;

    open spec fn view(&self) -> EdgeV {
        EdgeV { source: self.source as int, target: self.target as int, metrics: self.metrics }
    }
}

/// The index of the first node of the given name, if any.
pub open spec fn find_index(children: Seq<NodeV>, name: Seq<char>) -> Option<int>
    decreases children.len(),
{
    if children.len() == 0 {
        None
    } else if node_v_name(children[0]) == name {
        Some(0)
    } else {
        match find_index(children.subrange(1, children.len() as int), name) {
            Some(i) => Some(i + 1),
            None => None,
        }
    }
}

/// What `find_index` returns: the first position holding the name, or
/// nothing when no position holds it.
pub proof fn lemma_find_index_props(children: Seq<NodeV>, name: Seq<char>)
    ensures
        match find_index(children, name) {
            Some(i) => {
                &&& 0 <= i < children.len()
                &&& node_v_name(children[i]) == name
                &&& forall|j: int| 0 <= j < i ==> node_v_name(#[trigger] children[j]) != name
            },
            None => forall|j: int|
                0 <= j < children.len() ==> node_v_name(#[trigger] children[j]) != name,
        },
    decreases children.len(),
{
    if children.len() > 0 {
        let rest = children.subrange(1, children.len() as int);
        lemma_find_index_props(rest, name);
        assert(forall|j: int| 0 <= j < rest.len() ==> rest[j] == children[j + 1]);
        if node_v_name(children[0]) == name {
            assert(find_index(children, name) == Some(0int));
        } else {
            match find_index(rest, name) {
                Some(i) => {
                    assert(find_index(children, name) == Some(i + 1));
                    assert forall|j: int| 0 <= j < i + 1 implies node_v_name(
                        #[trigger] children[j],
                    ) != name by {
                        if j > 0 {
                            assert(rest[j - 1] == children[j]);
                        }
                    }
                },
                None => {
                    assert(find_index(children, name) is None);
                    assert forall|j: int| 0 <= j < children.len() implies node_v_name(
                        #[trigger] children[j],
                    ) != name by {
                        if j > 0 {
                            assert(rest[j - 1] == children[j]);
                        }
                    }
                },
            }
        }
    }
}

/// When position `i` holds the name and no earlier position does, the first
/// match is `i`.
pub proof fn lemma_find_index_first(children: Seq<NodeV>, name: Seq<char>, i: int)
    requires
        0 <= i < children.len(),
        node_v_name(children[i]) == name,
        forall|j: int| 0 <= j < i ==> node_v_name(#[trigger] children[j]) != name,
    ensures
        find_index(children, name) == Some(i),
{
    lemma_find_index_props(children, name);
    match find_index(children, name) {
        Some(k) => {
            if k < i {
                assert(node_v_name(children[k]) == name);
            } else if k > i {
                assert(node_v_name(children[i]) != name);
            }
        },
        None => {
            assert(node_v_name(children[i]) != name);
        },
    }
}

/// Whether two string slices hold the same characters.
pub fn str_eq(a: &str, b: &str) -> (r: bool)
    ensures
        r == (a@ == b@),
{
    let a_owned = a.to_owned();
    let b_owned = b.to_owned();
    a_owned == b_owned
}

fn clone_opt_string(o: &Option<String>) -> (r: Option<String>)
    ensures
        config::opt_string_view(r) == config::opt_string_view(*o),
{
    match o {
        Some(s) => Some(s.clone()),
        None => None,
    }
}

/// A name qualified by its parent's name, when it has one.
pub open spec fn qualified_name(name: Seq<char>, parent: Option<Seq<char>>) -> Seq<char> {
    match parent {
        Some(p) => p + "/"@ + name,
        None => name,
    }
}

/// Joins a node name to its parent's, parent first, slash-separated.
pub fn graph_name(name: &str, parent: Option<&str>) -> (r: String)
    ensures
        r@ == qualified_name(
            name@,
            match parent {
                Some(p) => Some(p@),
                None => None,
            },
        ),
{
    match parent {
        Some(p) => {
            let mut s = p.to_owned();
            s.append("/");
            s.append(name);
            s
        },
        None => name.to_owned(),
    }
}

/// The entry point declared by a record, or the default.
pub open spec fn entry_point_or_default(e: Option<Seq<char>>) -> Seq<char> {
    match e {
        Some(s) => s,
        None => "INTERNET"@,
    }
}

/// The connections declared by a record, or none.
pub open spec fn conns_of(r: config::RecordV) -> Seq<config::ConnectionV> {
    match r.connections {
        Some(c) => c,
        None => Seq::empty(),
    }
}

/// The edges one connection contributes: one per target that resolves,
/// in target order, skipped when the source or the target does not resolve
/// among the direct children.
pub open spec fn conn_edges(
    children: Seq<NodeV>,
    source: Seq<char>,
    targets: Seq<Seq<char>>,
) -> Seq<EdgeV>
    decreases targets.len(),
{
    if targets.len() == 0 {
        Seq::empty()
    } else {
        let prefix = conn_edges(children, source, targets.subrange(0, targets.len() - 1));
        match (find_index(children, source), find_index(children, targets[targets.len() - 1])) {
            (Some(a), Some(b)) => prefix.push(
                EdgeV { source: a, target: b, metrics: default_metrics() },
            ),
            _ => prefix,
        }
    }
}

/// The edges a record's connection list contributes, connection by
/// connection, in declaration order.
pub open spec fn build_edges(children: Seq<NodeV>, conns: Seq<config::ConnectionV>) -> Seq<EdgeV>
    decreases conns.len(),
{
    if conns.len() == 0 {
        Seq::empty()
    } else {
        let c = conns[conns.len() - 1];
        build_edges(children, conns.subrange(0, conns.len() - 1)) + conn_edges(
            children,
            c.source,
            c.targets,
        )
    }
}

/// What building one source record produces: a subgraph when the record has
/// a non-empty child list, a leaf otherwise (an empty child list counts as
/// none at all).
pub open spec fn build_node(r: config::RecordV, root: bool) -> NodeV
    decreases r,
{
    match r.nodes {
        Some(children) => if children.len() > 0 {
            NodeV::Graph(
                ObsGraphV {
                    name: r.name,
                    display_name: r.display_name,
                    entry_point: entry_point_or_default(r.entry_point),
                    root: root,
                    children: build_children(children),
                    edges: build_edges(build_children(children), conns_of(r)),
                },
            )
        } else {
            NodeV::Leaf { name: r.name, display_name: r.display_name }
        },
        None => NodeV::Leaf { name: r.name, display_name: r.display_name },
    }
}

/// The nodes built from a record list, in order, none of them roots.
pub open spec fn build_children(rs: Seq<config::RecordV>) -> Seq<NodeV>
    decreases rs,
{
    if rs.len() == 0 {
        Seq::empty()
    } else {
        build_children(rs.subrange(0, rs.len() - 1)).push(build_node(rs[rs.len() - 1], false))
    }
}

pub proof fn lemma_build_children_pointwise(rs: Seq<config::RecordV>)
    ensures
        build_children(rs).len() == rs.len(),
        forall|i: int| 0 <= i < rs.len() ==> build_children(rs)[i] == build_node(rs[i], false),
    decreases rs,
{
    if rs.len() > 0 {
        let prefix = rs.subrange(0, rs.len() - 1);
        lemma_build_children_pointwise(prefix);
        assert(build_children(rs) == build_children(prefix).push(build_node(rs[rs.len() - 1], false)));
        assert forall|i: int| 0 <= i < rs.len() implies build_children(rs)[i] == build_node(
            rs[i],
            false,
        ) by {
            if i < rs.len() - 1 {
                assert(prefix[i] == rs[i]);
            }
        }
    }
}

/// Builds one source record (and its descendants) into a topology node.
/// A record with a non-empty child list becomes a subgraph whose connections
/// are resolved against its direct children only; any other record becomes
/// a leaf. Only top-level regions are built with `root` set.
pub fn from_config_node(record: &config::Node, root: bool) -> (n: Node)
    ensures
        n.wf(),
        n@ == build_node(record@, root),
    decreases *record,
{
    match &record.nodes {
        None => {
            let n = leaf_from_record(record);
            proof {
                assert(n@ =~= build_node(record@, root));
            }
            n
        },
        Some(children_vec) => if children_vec.len() == 0 {
            let n = leaf_from_record(record);
            proof {
                config::lemma_record_views_pointwise(children_vec@);
                assert(n@ =~= build_node(record@, root));
            }
            n
        } else {
            let entry = match &record.entry_point {
            Some(e) => e.clone(),
            None => "INTERNET".to_owned(),
        };
        let mut g = if root {
            ObsGraph::root(record.name.clone(), entry)
        } else {
            ObsGraph::new(record.name.clone(), entry)
        };
        match &record.display_name {
            Some(d) => g.set_display_name(d.clone()),
            None => {},
        }
        let ghost base = g@;
        proof {
            assert(base.name == record@.name);
            assert(base.display_name == record@.display_name);
            assert(base.entry_point == entry_point_or_default(record@.entry_point));
            assert(base.root == root);
            assert(base.children =~= Seq::<NodeV>::empty());
            assert(base.edges =~= Seq::<EdgeV>::empty());
        }
        let ghost rvs = config::record_views(children_vec@);
            proof {
                config::lemma_record_views_pointwise(children_vec@);
                assert(record@.nodes == Some(rvs));
                assert(rvs.subrange(0, 0) =~= Seq::<config::RecordV>::empty());
                assert(build_children(rvs.subrange(0, 0)) =~= Seq::<NodeV>::empty());
            }
            let mut i: usize = 0;
            while i < children_vec.len()
                invariant
                    record.nodes == Some(*children_vec),
                    rvs == config::record_views(children_vec@),
                    i <= children_vec@.len(),
                    g.wf(),
                    g@ == (ObsGraphV {
                        children: build_children(rvs.subrange(0, i as int)),
                        ..base
                    }),
                decreases children_vec@.len() - i,
            {
                proof {
                    config::lemma_record_views_pointwise(children_vec@);
                    lemma_build_children_pointwise(rvs.subrange(0, i as int));
                    assert(decreases_to!(*record => record.nodes));
                    assert(decreases_to!(record.nodes => record.nodes->Some_0));
                    assert(record.nodes->Some_0 == *children_vec);
                    assert(decreases_to!(*children_vec => children_vec@));
                    assert(decreases_to!(children_vec@ => children_vec@[i as int]));
                }
                let child = from_config_node(&children_vec[i], false);
                g.add_node(child);
                proof {
                    let pre = rvs.subrange(0, i as int);
                    let cur = rvs.subrange(0, i + 1);
                    assert(cur.subrange(0, cur.len() - 1) =~= pre);
                    assert(cur[cur.len() - 1] == rvs[i as int]);
                    assert(build_children(cur) == build_children(pre).push(
                        build_node(rvs[i as int], false),
                    ));
                    assert(rvs[i as int] == children_vec@[i as int]@);
                    assert(g@ =~= (ObsGraphV {
                        children: build_children(cur),
                        ..base
                    }));
                }
                i += 1;
            }
            proof {
                assert(rvs.subrange(0, rvs.len() as int) =~= rvs);
            }
            let ghost full_children = build_children(rvs);
            proof {
                assert(g@.children == full_children);
            }
            if let Some(conns) = &record.connections {
                let ghost cvs = config::connection_views(conns@);
                proof {
                    assert(record@.connections == Some(cvs));
                    assert(conns_of(record@) == cvs);
                    assert(cvs.subrange(0, 0) =~= Seq::<config::ConnectionV>::empty());
                    assert(build_edges(full_children, cvs.subrange(0, 0)) =~= Seq::<EdgeV>::empty());
                }
                let mut ci: usize = 0;
                while ci < conns.len()
                    invariant
                        record.connections == Some(*conns),
                        cvs == config::connection_views(conns@),
                        ci <= conns@.len(),
                        g.wf(),
                        g@ == (ObsGraphV {
                            edges: build_edges(full_children, cvs.subrange(0, ci as int)),
                            children: full_children,
                            ..base
                        }),
                    decreases conns@.len() - ci,
                {
                    let c = &conns[ci];
                    let ghost tvs = crate::order::string_views(c.targets@);
                    proof {
                        assert(cvs[ci as int] == conns@[ci as int]@);
                        assert(cvs[ci as int].source == c.source@);
                        assert(cvs[ci as int].targets == tvs);
                        assert(tvs.subrange(0, 0) =~= Seq::<Seq<char>>::empty());
                        assert(conn_edges(full_children, c.source@, tvs.subrange(0, 0))
                            =~= Seq::<EdgeV>::empty());
                    }
                    let ghost edges_before = g@.edges;
                    let mut ti: usize = 0;
                    while ti < c.targets.len()
                        invariant
                            cvs == config::connection_views(conns@),
                            ci < conns@.len(),
                            *c == conns@[ci as int],
                            tvs == crate::order::string_views(c.targets@),
                            ti <= c.targets@.len(),
                            g.wf(),
                            edges_before == build_edges(full_children, cvs.subrange(0, ci as int)),
                            g@ == (ObsGraphV {
                                edges: edges_before + conn_edges(
                                    full_children,
                                    c.source@,
                                    tvs.subrange(0, ti as int),
                                ),
                                children: full_children,
                                ..base
                            }),
                        decreases c.targets@.len() - ti,
                    {
                        let m = Metrics::empty();
                        let _added = g.add_edge_by_name(
                            c.source.as_str(),
                            c.targets[ti].as_str(),
                            m,
                        );
                        proof {
                            let pre = tvs.subrange(0, ti as int);
                            let cur = tvs.subrange(0, ti + 1);
                            assert(cur.subrange(0, cur.len() - 1) =~= pre);
                            assert(cur[cur.len() - 1] == tvs[ti as int]);
                            assert(tvs[ti as int] == c.targets@[ti as int]@);
                            match (
                                find_index(full_children, c.source@),
                                find_index(full_children, tvs[ti as int]),
                            ) {
                                (Some(a), Some(b)) => {
                                    assert(conn_edges(full_children, c.source@, cur)
                                        == conn_edges(full_children, c.source@, pre).push(
                                        EdgeV { source: a, target: b, metrics: default_metrics() },
                                    ));
                                },
                                _ => {
                                    assert(conn_edges(full_children, c.source@, cur)
                                        == conn_edges(full_children, c.source@, pre));
                                },
                            }
                            assert(g@ =~= (ObsGraphV {
                                edges: edges_before + conn_edges(
                                    full_children,
                                    c.source@,
                                    cur,
                                ),
                                children: full_children,
                                ..base
                            }));
                        }
                        ti += 1;
                    }
                    proof {
                        let pre = cvs.subrange(0, ci as int);
                        let cur = cvs.subrange(0, ci + 1);
                        assert(cur.subrange(0, cur.len() - 1) =~= pre);
                        assert(cur[cur.len() - 1] == cvs[ci as int]);
                        assert(build_edges(full_children, cur) == build_edges(full_children, pre)
                            + conn_edges(
                            full_children,
                            cvs[ci as int].source,
                            cvs[ci as int].targets,
                        ));
                        assert(tvs.subrange(0, c.targets@.len() as int) =~= tvs);
                        assert(g@ =~= (ObsGraphV {
                            edges: build_edges(full_children, cur),
                            children: full_children,
                            ..base
                        }));
                    }
                    ci += 1;
                }
                proof {
                    assert(cvs.subrange(0, cvs.len() as int) =~= cvs);
                }
            }
            let n = Node::Graph(g);
            proof {
                config::lemma_record_views_pointwise(children_vec@);
                assert(rvs.len() > 0);
                assert(build_node(record@, root) == NodeV::Graph(
                    ObsGraphV {
                        name: record@.name,
                        display_name: record@.display_name,
                        entry_point: entry_point_or_default(record@.entry_point),
                        root: root,
                        children: build_children(rvs),
                        edges: build_edges(build_children(rvs), conns_of(record@)),
                    },
                ));
                assert(n@ =~= build_node(record@, root));
            }
            n
        },
    }
}

fn leaf_from_record(record: &config::Node) -> (n: Node)
    ensures
        n.wf(),
        n@ == (NodeV::Leaf { name: record@.name, display_name: record@.display_name }),
{
    Node::Leaf {
        name: record.name.clone(),
        display_name: clone_opt_string(&record.display_name),
    }
}

/// The names of the registered regions, in registration order.
pub open spec fn world_names(w: Seq<NodeV>) -> Seq<Seq<char>> {
    Seq::new(w.len(), |i: int| node_v_name(w[i]))
}

/// No two registered regions share a name.
pub open spec fn distinct_names(w: Seq<NodeV>) -> bool {
    forall|i: int, j: int|
        0 <= i < j < w.len() ==> node_v_name(#[trigger] w[i]) != node_v_name(#[trigger] w[j])
}

/// The registered region of the given name, if any.
pub open spec fn lookup_spec(w: Seq<NodeV>, name: Seq<char>) -> Option<NodeV> {
    match find_index(w, name) {
        Some(i) => Some(w[i]),
        None => None,
    }
}

/// What loading a region list produces: each region is built as a root and
/// registered under its name, unless the name is already taken — then the
/// newly built node is discarded and the first registration stands.
pub open spec fn extend_spec(w: Seq<NodeV>, rs: Seq<config::RecordV>) -> Seq<NodeV>
    decreases rs.len(),
{
    if rs.len() == 0 {
        w
    } else {
        let prev = extend_spec(w, rs.subrange(0, rs.len() - 1));
        let r = rs[rs.len() - 1];
        if find_index(prev, r.name) is Some {
            prev
        } else {
            prev.push(build_node(r, true))
        }
    }
}

/// How `find_index` behaves on one more node at the end: an earlier match
/// still wins; otherwise the new node is found exactly when it matches.
pub proof fn lemma_find_index_push(s: Seq<NodeV>, x: NodeV, name: Seq<char>)
    ensures
        find_index(s.push(x), name) == match find_index(s, name) {
            Some(i) => Some(i),
            None => if node_v_name(x) == name {
                Some(s.len() as int)
            } else {
                None::<int>
            },
        },
{
    lemma_find_index_props(s, name);
    let s2 = s.push(x);
    assert(forall|j: int| 0 <= j < s.len() ==> s2[j] == s[j]);
    match find_index(s, name) {
        Some(i) => {
            lemma_find_index_first(s2, name, i);
        },
        None => {
            if node_v_name(x) == name {
                lemma_find_index_first(s2, name, s.len() as int);
            } else {
                lemma_find_index_props(s2, name);
                match find_index(s2, name) {
                    Some(k) => {
                        if k < s.len() {
                            assert(node_v_name(s[k]) == name);
                        } else {
                            assert(node_v_name(x) == name);
                        }
                    },
                    None => {},
                }
            }
        },
    }
}

/// Registered names are never displaced: once a name is registered, loading
/// further regions leaves what the name looks up to unchanged (first write
/// wins).
pub proof fn lemma_extend_preserves_existing(
    w: Seq<NodeV>,
    rs: Seq<config::RecordV>,
    name: Seq<char>,
)
    requires
        find_index(w, name) is Some,
    ensures
        find_index(extend_spec(w, rs), name) == find_index(w, name),
        lookup_spec(extend_spec(w, rs), name) == lookup_spec(w, name),
    decreases rs.len(),
{
    lemma_find_index_props(w, name);
    if rs.len() > 0 {
        let pre = rs.subrange(0, rs.len() - 1);
        lemma_extend_preserves_existing(w, pre, name);
        let prev = extend_spec(w, pre);
        let r = rs[rs.len() - 1];
        lemma_find_index_props(prev, name);
        if !(find_index(prev, r.name) is Some) {
            lemma_find_index_push(prev, build_node(r, true), name);
        }
    }
}

/// A region bearing a name that is already registered leaves the registry
/// unchanged: the newly built node is discarded and loading goes on.
pub proof fn lemma_duplicate_region_skipped(w: Seq<NodeV>, r: config::RecordV)
    requires
        find_index(w, r.name) is Some,
    ensures
        extend_spec(w, seq![r]) == w,
{
    let rs = seq![r];
    assert(rs.subrange(0, 0) =~= Seq::<config::RecordV>::empty());
    assert(extend_spec(w, rs.subrange(0, 0)) == w);
    assert(rs[0] == r);
}

/// For a registry of distinctly named regions, a sorted listing that holds
/// the same collection of names holds exactly one entry per region, and
/// every listed name looks up successfully.
pub proof fn lemma_names_complete(w: Seq<NodeV>, names: Seq<Seq<char>>)
    requires
        distinct_names(w),
        names.to_multiset() == world_names(w).to_multiset(),
    ensures
        names.len() == w.len(),
        forall|i: int| 0 <= i < w.len() ==> names.contains(node_v_name(#[trigger] w[i])),
        forall|i: int| 0 <= i < names.len() ==> lookup_spec(w, #[trigger] names[i]) is Some,
{
    broadcast use vstd::seq_lib::group_to_multiset_ensures;

    assert(names.len() == names.to_multiset().len());
    assert(world_names(w).len() == world_names(w).to_multiset().len());
    assert forall|i: int| 0 <= i < w.len() implies names.contains(
        node_v_name(#[trigger] w[i]),
    ) by {
        assert(world_names(w)[i] == node_v_name(w[i]));
        assert(world_names(w).contains(node_v_name(w[i])));
        assert(names.to_multiset().count(node_v_name(w[i])) > 0);
    }
    assert forall|i: int| 0 <= i < names.len() implies lookup_spec(w, #[trigger] names[i])
        is Some by {
        assert(names.contains(names[i]));
        assert(world_names(w).to_multiset().count(names[i]) > 0);
        assert(world_names(w).contains(names[i]));
        let j = choose|j: int| 0 <= j < world_names(w).len() && world_names(w)[j] == names[i];
        assert(node_v_name(w[j]) == names[i]);
        lemma_find_index_props(w, names[i]);
        if find_index(w, names[i]) is None {
            assert(node_v_name(w[j]) != names[i]);
        }
    }
}

/// A connection whose source does not resolve among the direct children
/// contributes no edge at all.
pub proof fn lemma_unresolved_source_no_edges(
    children: Seq<NodeV>,
    source: Seq<char>,
    targets: Seq<Seq<char>>,
)
    requires
        find_index(children, source) is None,
    ensures
        conn_edges(children, source, targets) == Seq::<EdgeV>::empty(),
    decreases targets.len(),
{
    if targets.len() > 0 {
        lemma_unresolved_source_no_edges(children, source, targets.subrange(0, targets.len() - 1));
    }
}

/// A target that does not resolve among the direct children is skipped:
/// the connection contributes exactly what it would without that target,
/// so the remaining targets still resolve normally.
pub proof fn lemma_unresolved_target_skipped(
    children: Seq<NodeV>,
    source: Seq<char>,
    targets: Seq<Seq<char>>,
    k: int,
)
    requires
        0 <= k < targets.len(),
        find_index(children, targets[k]) is None,
    ensures
        conn_edges(children, source, targets) == conn_edges(children, source, targets.remove(k)),
    decreases targets.len(),
{
    let pre = targets.subrange(0, targets.len() - 1);
    if k == targets.len() - 1 {
        assert(targets.remove(k) =~= pre);
    } else {
        lemma_unresolved_target_skipped(children, source, pre, k);
        let removed = targets.remove(k);
        assert(removed.len() == targets.len() - 1);
        assert(removed.subrange(0, removed.len() - 1) =~= pre.remove(k));
        assert(removed[removed.len() - 1] == targets[targets.len() - 1]);
    }
}

/// The registry: all regions of the source document, one topology node per
/// region name, first registration winning.
#[derive(Debug)]
pub struct World {
    regions: Vec<Node>,
}

impl View for World {
    type V = Seq<NodeV>;

    closed spec fn view(&self) -> Seq<NodeV> {
        node_views(self.regions@)
    }
}

impl World {
    /// Every region is well-formed and no two share a name.
    pub closed spec fn wf(&self) -> bool {
        &&& (forall|i: int| 0 <= i < self.regions@.len() ==> (#[trigger] self.regions@[i]).wf())
        &&& distinct_names(self@)
    }

    pub fn new() -> (w: World)
        ensures
            w@ == Seq::<NodeV>::empty(),
            w.wf(),
    {
        let w = World { regions: Vec::new() };
        proof {
            assert(node_views(w.regions@) =~= Seq::<NodeV>::empty());
        }
        w
    }

    fn contains_name(&self, name: &str) -> (r: bool)
        requires
            self.wf(),
        ensures
            r == (find_index(self@, name@) is Some),
    {
        proof {
            lemma_node_views_pointwise(self.regions@);
        }
        let mut i: usize = 0;
        while i < self.regions.len()
            invariant
                self.wf(),
                i <= self.regions@.len(),
                forall|j: int| 0 <= j < i ==> node_v_name(#[trigger] self@[j]) != name@,
            decreases self.regions@.len() - i,
        {
            proof {
                lemma_node_views_pointwise(self.regions@);
            }
            if str_eq(self.regions[i].name(), name) {
                proof {
                    lemma_find_index_first(self@, name@, i as int);
                }
                return true;
            }
            i += 1;
        }
        proof {
            lemma_node_views_pointwise(self.regions@);
            lemma_find_index_props(self@, name@);
        }
        false
    }

    /// Registers every region of the document, building each as a root;
    /// a region whose name is already registered is skipped.
    pub fn extend_from_config(&mut self, config: &config::FileConfig)
        requires
            old(self).wf(),
        ensures
            final(self).wf(),
            final(self)@ == extend_spec(old(self)@, config@),
    {
        let ghost w0 = self@;
        let ghost rvs = config::record_views(config.regions@);
        proof {
            config::lemma_record_views_pointwise(config.regions@);
            assert(rvs.subrange(0, 0) =~= Seq::<config::RecordV>::empty());
            assert(extend_spec(w0, rvs.subrange(0, 0)) == w0);
        }
        let mut i: usize = 0;
        while i < config.regions.len()
            invariant
                rvs == config::record_views(config.regions@),
                rvs.len() == config.regions@.len(),
                i <= config.regions@.len(),
                self.wf(),
                self@ == extend_spec(w0, rvs.subrange(0, i as int)),
            decreases config.regions@.len() - i,
        {
            proof {
                config::lemma_record_views_pointwise(config.regions@);
            }
            let region = &config.regions[i];
            let ghost pre = rvs.subrange(0, i as int);
            let ghost cur = rvs.subrange(0, i + 1);
            proof {
                assert(cur.subrange(0, cur.len() - 1) =~= pre);
                assert(cur[cur.len() - 1] == rvs[i as int]);
                assert(rvs[i as int] == config.regions@[i as int]@);
            }
            if !self.contains_name(region.name.as_str()) {
                let n = from_config_node(region, true);
                proof {
                    lemma_node_views_pointwise(self.regions@);
                    lemma_find_index_props(self@, region.name@);
                    assert(node_v_name(n@) == region.name@);
                }
                let ghost before = self@;
                self.regions.push(n);
                proof {
                    lemma_node_views_pointwise(self.regions@);
                    assert(self@ =~= before.push(n@));
                    assert(self@ == extend_spec(w0, cur));
                    assert forall|a: int, b: int|
                        0 <= a < b < self@.len() implies node_v_name(#[trigger] self@[a])
                        != node_v_name(#[trigger] self@[b]) by {
                        if b < self@.len() - 1 {
                            assert(before[a] == self@[a] && before[b] == self@[b]);
                        } else {
                            assert(self@[b] == n@);
                        }
                    }
                }
            } else {
                proof {
                    assert(self@ == extend_spec(w0, cur));
                }
            }
            i += 1;
        }
        proof {
            assert(rvs.subrange(0, rvs.len() as int) =~= rvs);
        }
    }

    /// Looks a region up by exact name; absence is an absent result, not an
    /// error.
    pub fn graph(&self, name: &str) -> (r: Option<&Node>)
        requires
            self.wf(),
        ensures
            match r {
                Some(n) => lookup_spec(self@, name@) == Some(n@) && n.wf(),
                None => lookup_spec(self@, name@) is None,
            },
    {
        proof {
            lemma_node_views_pointwise(self.regions@);
        }
        let mut i: usize = 0;
        while i < self.regions.len()
            invariant
                self.wf(),
                i <= self.regions@.len(),
                forall|j: int| 0 <= j < i ==> node_v_name(#[trigger] self@[j]) != name@,
            decreases self.regions@.len() - i,
        {
            proof {
                lemma_node_views_pointwise(self.regions@);
            }
            let region = &self.regions[i];
            if str_eq(region.name(), name) {
                proof {
                    lemma_find_index_first(self@, name@, i as int);
                }
                return Some(region);
            }
            i += 1;
        }
        proof {
            lemma_node_views_pointwise(self.regions@);
            lemma_find_index_props(self@, name@);
        }
        None
    }

    /// All registered region names, ascending in code-point order.
    pub fn graph_names(&self) -> (r: Vec<String>)
        requires
            self.wf(),
        ensures
            crate::order::strings_sorted(crate::order::string_views(r@)),
            crate::order::string_views(r@).to_multiset() == world_names(self@).to_multiset(),
    {
        proof {
            lemma_node_views_pointwise(self.regions@);
        }
        let mut keys: Vec<String> = Vec::new();
        let mut i: usize = 0;
        while i < self.regions.len()
            invariant
                self.wf(),
                i <= self.regions@.len(),
                keys@.len() == i,
                forall|j: int|
                    0 <= j < i ==> (#[trigger] keys@[j])@ == node_v_name(self@[j]),
            decreases self.regions@.len() - i,
        {
            proof {
                lemma_node_views_pointwise(self.regions@);
            }
            keys.push(self.regions[i].name().to_owned());
            i += 1;
        }
        proof {
            lemma_node_views_pointwise(self.regions@);
            assert(crate::order::string_views(keys@) =~= world_names(self@));
        }
        crate::order::sort_strings(keys)
    }
}

} // verus!
