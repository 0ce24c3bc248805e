//! The wire schema consumed by the traffic dashboard, and the pure
//! translation of a topology node into it.

use vstd::prelude::*;

use crate::model::{
    graph_display_v, graph_wf_v, node_display_v, node_v_name, node_wf_v, EdgeV, Metrics, Node,
    NodeV, ObsGraphV,
};

verus! {

/// The renderer class the visualization draws a node with.
#[derive(Debug, Clone, Copy, PartialEq, Eq)]
pub enum VizceralRenderer {
    Global,
    Region,
    FocusedChild,
}

/// Notice severity levels, in ascending order of gravity.
#[derive(Debug, Clone, Copy, PartialEq, Eq)]
pub enum VizceralSeverity {
    Info,
    Warning,
    Error,
}

impl VizceralSeverity {
    /// The numeric code the wire schema carries for this severity.
    pub fn code(&self) -> (r: u8)
        ensures
            r == match self {
                VizceralSeverity::Info => 0u8,
                VizceralSeverity::Warning => 1u8,
                VizceralSeverity::Error => 2u8,
            },
    {
        match self {
            VizceralSeverity::Info => 0,
            VizceralSeverity::Warning => 1,
            VizceralSeverity::Error => 2,
        }
    }
}

#[derive(Debug, PartialEq)]
pub struct VizceralNotice {
    pub title: String,
    pub link: Option<String>,
    pub severity: Option<VizceralSeverity>,
}

#[derive(Debug, Clone, Copy, PartialEq)]
pub struct VizceralMetric {
    pub normal: Option<i64>,
    pub danger: Option<i64>,
    pub warning: Option<i64>,
}

#[derive(Debug, PartialEq)]
pub struct VizceralConnection {
    pub source: String,
    pub target: String,
    pub metrics: Option<VizceralMetric>,
    pub notices: Option<Vec<VizceralNotice>>,
    pub class: Option<String>,
}

/// One node of the wire document.
#[derive(Debug, PartialEq)]
pub struct VizceralNode {
    pub renderer: VizceralRenderer,
    pub name: String,
    pub display_name: Option<String>,
    pub entry_node: Option<String>,
    pub updated: Option<i64>,
    pub max_volume: Option<i64>,
    pub class: Option<String>,
    pub nodes: Option<Vec<VizceralNode>>,
    pub connections: Option<Vec<VizceralConnection>>,
    pub notices: Option<Vec<VizceralNotice>>,
}

#[verifier::ext_equal]
pub struct WireNoticeV {
    pub title: Seq<char>,
    pub link: Option<Seq<char>>,
    pub severity: Option<VizceralSeverity>,
}

#[verifier::ext_equal]
pub struct WireConnectionV {
    pub source: Seq<char>,
    pub target: Seq<char>,
    pub metrics: Option<VizceralMetric>,
    pub notices: Option<Seq<WireNoticeV>>,
    pub class: Option<Seq<char>>,
}

/// One node of the wire document, in mathematical form.
#[verifier::ext_equal]
pub struct WireNodeV {
    pub renderer: VizceralRenderer,
    pub name: Seq<char>,
    pub display_name: Option<Seq<char>>,
    pub entry_node: Option<Seq<char>>,
    pub updated: Option<i64>,
    pub max_volume: Option<i64>,
    pub class: Option<Seq<char>>,
    pub nodes: Option<Seq<WireNodeV>>,
    pub connections: Option<Seq<WireConnectionV>>,
    pub notices: Option<Seq<WireNoticeV>>,
}

impl View for VizceralNotice {
    type V = WireNoticeV;

    open spec fn view(&self) -> WireNoticeV {
        WireNoticeV {
            title: self.title@,
            link: crate::config::opt_string_view(self.link),
            severity: self.severity,
        }
    }
}

impl View for VizceralConnection {
    type V = WireConnectionV;

    open spec fn view(&self) -> WireConnectionV {
        WireConnectionV {
            source: self.source@,
            target: self.target@,
            metrics: self.metrics,
            notices: match self.notices {
                Some(v) => Some(Seq::new(v@.len(), |i: int| v@[i]@)),
                None => None,
            },
            class: crate::config::opt_string_view(self.class),
        }
    }
}

impl View for VizceralNode {
    type V = WireNodeV;

    open spec fn view(&self) -> WireNodeV
        decreases self,
    {
        WireNodeV {
            renderer: self.renderer,
            name: self.name@,
            display_name: crate::config::opt_string_view(self.display_name),
            entry_node: crate::config::opt_string_view(self.entry_node),
            updated: self.updated,
            max_volume: self.max_volume,
            class: crate::config::opt_string_view(self.class),
            nodes: match self.nodes {
                Some(v) => Some(wire_node_views(v@)),
                None => None,
            },
            connections: match self.connections {
                Some(v) => Some(Seq::new(v@.len(), |i: int| v@[i]@)),
                None => None,
            },
            notices: match self.notices {
                Some(v) => Some(Seq::new(v@.len(), |i: int| v@[i]@)),
                None => None,
            },
        }
    }
}

/// The views of a sequence of wire nodes, in order.
pub open spec fn wire_node_views(s: Seq<VizceralNode>) -> Seq<WireNodeV>
    decreases s,
{
    if s.len() == 0 {
        Seq::empty()
    } else {
        wire_node_views(s.subrange(0, s.len() - 1)).push(s[s.len() - 1]@)
    }
}

pub proof fn lemma_wire_node_views_pointwise(s: Seq<VizceralNode>)
    ensures
        wire_node_views(s).len() == s.len(),
        forall|i: int| 0 <= i < s.len() ==> wire_node_views(s)[i] == s[i]@,
    decreases s,
{
    if s.len() > 0 {
        let prefix = s.subrange(0, s.len() - 1);
        lemma_wire_node_views_pointwise(prefix);
        assert(wire_node_views(s) == wire_node_views(prefix).push(s[s.len() - 1]@));
        assert forall|i: int| 0 <= i < s.len() implies wire_node_views(s)[i] == s[i]@ by {
            if i < s.len() - 1 {
                assert(prefix[i] == s[i]);
            }
        }
    }
}

/// The wire form of one set of thresholds.
pub open spec fn translate_metric(m: Metrics) -> VizceralMetric {
    VizceralMetric { normal: Some(m.normal), danger: Some(m.danger), warning: Some(m.warning) }
}

/// The wire form of one edge: endpoints are emitted as the resolved
/// children's own names.
pub open spec fn translate_edge(g: ObsGraphV, e: EdgeV) -> WireConnectionV {
    WireConnectionV {
        source: node_v_name(g.children[e.source]),
        target: node_v_name(g.children[e.target]),
        metrics: Some(translate_metric(e.metrics)),
        notices: None,
        class: None,
    }
}

/// The wire form of a topology node: a leaf renders as a focused child; a
/// subgraph renders as the global view when it is a root and as a region
/// otherwise, carrying its children and connections in order.
pub open spec fn translate_spec(n: NodeV) -> WireNodeV
    decreases n,
{
    match n {
        NodeV::Leaf { name, display_name } => WireNodeV {
            renderer: VizceralRenderer::FocusedChild,
            name: name,
            display_name: Some(node_display_v(n)),
            entry_node: None,
            updated: None,
            max_volume: None,
            class: None,
            nodes: None,
            connections: None,
            notices: None,
        },
        NodeV::Graph(g) => WireNodeV {
            renderer: if g.root {
                VizceralRenderer::Global
            } else {
                VizceralRenderer::Region
            },
            name: g.name,
            display_name: Some(graph_display_v(g)),
            entry_node: Some(g.entry_point),
            updated: None,
            max_volume: None,
            class: None,
            nodes: Some(translate_children(g.children)),
            connections: Some(Seq::new(g.edges.len(), |i: int| translate_edge(g, g.edges[i]))),
            notices: None,
        },
    }
}

/// The wire forms of a node list, in order.
pub open spec fn translate_children(s: Seq<NodeV>) -> Seq<WireNodeV>
    decreases s,
{
    if s.len() == 0 {
        Seq::empty()
    } else {
        translate_children(s.subrange(0, s.len() - 1)).push(translate_spec(s[s.len() - 1]))
    }
}

pub proof fn lemma_translate_children_pointwise(s: Seq<NodeV>)
    ensures
        translate_children(s).len() == s.len(),
        forall|i: int| 0 <= i < s.len() ==> translate_children(s)[i] == translate_spec(s[i]),
    decreases s,
{
    if s.len() > 0 {
        let prefix = s.subrange(0, s.len() - 1);
        lemma_translate_children_pointwise(prefix);
        assert(translate_children(s) == translate_children(prefix).push(
            translate_spec(s[s.len() - 1]),
        ));
        assert forall|i: int| 0 <= i < s.len() implies translate_children(s)[i] == translate_spec(
            s[i],
        ) by {
            if i < s.len() - 1 {
                assert(prefix[i] == s[i]);
            }
        }
    }
}

impl VizceralMetric {
    /// The wire form of a threshold triple.
    pub fn from(m: &Metrics) -> (r: VizceralMetric)
        ensures
            r == translate_metric(*m),
    {
        VizceralMetric {
            normal: Some(m.normal),
            danger: Some(m.danger),
            warning: Some(m.warning),
        }
    }
}

impl VizceralNode {
    /// Translates a topology node into its wire form. Pure: the result is a
    /// function of the node's mathematical form alone, so repeated calls on
    /// the same node agree.
    pub fn from(n: &Node) -> (r: VizceralNode)
        requires
            n.wf(),
        ensures
            r@ == translate_spec(n@),
        decreases *n,
    {
        match n {
            Node::Leaf { name, display_name: _ } => {
                let r = VizceralNode {
                    renderer: VizceralRenderer::FocusedChild,
                    name: name.clone(),
                    display_name: Some(n.display_name().to_owned()),
                    entry_node: None,
                    updated: None,
                    max_volume: None,
                    class: None,
                    notices: None,
                    nodes: None,
                    connections: None,
                };
                proof {
                    n.lemma_view_shape();
                    assert(r@ =~= translate_spec(n@));
                }
                r
            },
            Node::Graph(g) => {
                proof {
                    n.lemma_view_shape();
                    n.lemma_graph_wf();
                    n.lemma_wf_view();
                }
                let count = g.child_count();
                let mut nodes: Vec<VizceralNode> = Vec::new();
                let mut i: usize = 0;
                while i < count
                    invariant
                        n.wf(),
                        g.wf(),
                        *n == Node::Graph(*g),
                        node_wf_v(n@),
                        count == g@.children.len(),
                        i <= count,
                        nodes@.len() == i,
                        forall|k: int|
                            0 <= k < i ==> #[trigger] nodes@[k]@ == translate_spec(
                                g@.children[k],
                            ),
                    decreases count - i,
                {
                    let child = g.child_at(i);
                    proof {
                        g.lemma_child_smaller(i as int);
                        assert(decreases_to!(*n => n->Graph_0));
                        assert(n->Graph_0 == *g);
                    }
                    let vn = VizceralNode::from(child);
                    nodes.push(vn);
                    i += 1;
                }
                let edges = g.edges();
                let mut conns: Vec<VizceralConnection> = Vec::new();
                let mut j: usize = 0;
                while j < edges.len()
                    invariant
                        g.wf(),
                        *n == Node::Graph(*g),
                        n@ == NodeV::Graph(g@),
                        node_wf_v(n@),
                        graph_wf_v(g@),
                        edges@.len() == g@.edges.len(),
                        forall|k: int|
                            0 <= k < edges@.len() ==> #[trigger] edges@[k]@ == g@.edges[k],
                        j <= edges@.len(),
                        conns@.len() == j,
                        forall|k: int|
                            0 <= k < j ==> #[trigger] conns@[k]@ == translate_edge(
                                g@,
                                g@.edges[k],
                            ),
                    decreases edges@.len() - j,
                {
                    let e = edges[j];
                    proof {
                        assert(edges@[j as int]@ == g@.edges[j as int]);
                        assert(graph_wf_v(g@));
                    }
                    let source = g.child_at(e.source).name().to_owned();
                    let target = g.child_at(e.target).name().to_owned();
                    let vc = VizceralConnection {
                        source,
                        target,
                        metrics: Some(VizceralMetric::from(&e.metrics)),
                        notices: None,
                        class: None,
                    };
                    proof {
                        assert(vc@ =~= translate_edge(g@, g@.edges[j as int]));
                    }
                    conns.push(vc);
                    j += 1;
                }
                let renderer = if g.is_root() {
                    VizceralRenderer::Global
                } else {
                    VizceralRenderer::Region
                };
                proof {
                    lemma_wire_node_views_pointwise(nodes@);
                    lemma_translate_children_pointwise(g@.children);
                    assert(wire_node_views(nodes@) =~= translate_children(g@.children));
                    assert(Seq::new(conns@.len(), |i: int| conns@[i]@) =~= Seq::new(
                        g@.edges.len(),
                        |i: int| translate_edge(g@, g@.edges[i]),
                    ));
                }
                let ghost nodesv = nodes@;
                let ghost connsv = conns@;
                let r = VizceralNode {
                    renderer,
                    name: g.name().to_owned(),
                    display_name: Some(g.display_name().to_owned()),
                    entry_node: Some(g.entry_point().to_owned()),
                    updated: None,
                    max_volume: None,
                    class: None,
                    notices: None,
                    nodes: Some(nodes),
                    connections: Some(conns),
                };
                proof {
                    assert(r.nodes->Some_0@ == nodesv);
                    assert(r.connections->Some_0@ == connsv);
                    assert(r@ =~= translate_spec(n@));
                }
                r
            },
        }
    }
}

/// The renderer class is decided by the node's kind alone: a leaf renders
/// as a focused child, a root subgraph as the global view, any other
/// subgraph as a region.
pub proof fn lemma_renderer_selection(n: NodeV)
    ensures
        match n {
            NodeV::Leaf { .. } => translate_spec(n).renderer == VizceralRenderer::FocusedChild,
            NodeV::Graph(g) => translate_spec(n).renderer == if g.root {
                VizceralRenderer::Global
            } else {
                VizceralRenderer::Region
            },
        },
{
}

/// Every source and target name in a translated subgraph's connection list
/// is the name of some entry of the same subgraph's node list.
pub proof fn lemma_connections_reference_nodes(g: ObsGraphV)
    ensures
        graph_wf_v(g) ==> {
            let w = translate_spec(NodeV::Graph(g));
            &&& w.nodes is Some
            &&& w.connections is Some
            &&& forall|k: int|
                0 <= k < w.connections->Some_0.len() ==> exists|i: int|
                    0 <= i < w.nodes->Some_0.len() && (#[trigger] w.connections->Some_0[k]).source
                        == w.nodes->Some_0[i].name
            &&& forall|k: int|
                0 <= k < w.connections->Some_0.len() ==> exists|i: int|
                    0 <= i < w.nodes->Some_0.len() && (#[trigger] w.connections->Some_0[k]).target
                        == w.nodes->Some_0[i].name
        },
{
    if graph_wf_v(g) {
        let w = translate_spec(NodeV::Graph(g));
        lemma_translate_children_pointwise(g.children);
        assert forall|k: int| 0 <= k < w.connections->Some_0.len() implies exists|i: int|
            0 <= i < w.nodes->Some_0.len() && (#[trigger] w.connections->Some_0[k]).source
                == w.nodes->Some_0[i].name by {
            let e = g.edges[k];
            assert(0 <= e.source < g.children.len());
            lemma_translate_name(g.children[e.source]);
            assert(w.nodes->Some_0[e.source].name == node_v_name(g.children[e.source]));
        }
        assert forall|k: int| 0 <= k < w.connections->Some_0.len() implies exists|i: int|
            0 <= i < w.nodes->Some_0.len() && (#[trigger] w.connections->Some_0[k]).target
                == w.nodes->Some_0[i].name by {
            let e = g.edges[k];
            assert(0 <= e.source < g.children.len() && 0 <= e.target < g.children.len());
            lemma_translate_name(g.children[e.target]);
            assert(w.nodes->Some_0[e.target].name == node_v_name(g.children[e.target]));
        }
    }
}

/// Translation is repeatable: any two wire documents produced from the same
/// topology node are structurally identical, since each equals the one
/// mathematical translation of that node.
pub proof fn lemma_translate_repeatable(n: NodeV, r1: WireNodeV, r2: WireNodeV)
    requires
        r1 == translate_spec(n),
        r2 == translate_spec(n),
    ensures
        r1 == r2,
{
}

/// Translation keeps a node's name.
pub proof fn lemma_translate_name(n: NodeV)
    ensures
        translate_spec(n).name == node_v_name(n),
{
}

} // verus!
