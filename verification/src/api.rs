//! The read-only query surface: region listing and by-name state lookup.

use vstd::prelude::*;
use vstd::string::StringExecFns;

use crate::model::{lookup_spec, world_names, NodeV, World};
use crate::order::{string_views, strings_sorted};
use crate::vizceral::{translate_spec, VizceralNode};

verus! {

/// Path parameters of the by-name state query.
#[derive(Debug)]
pub struct StateParams {
    pub name: String,
}

/// Body of the region-list reply.
#[derive(Debug, PartialEq)]
pub struct GraphList {
    pub graphs: Vec<String>,
}

/// The read-only topology shared by all request handlers after startup.
#[derive(Debug)]
pub struct GraphState {
    world: World,
}

impl View for GraphState {
    type V = Seq<NodeV>;

    closed spec fn view(&self) -> Seq<NodeV> {
        self.world@
    }
}

impl GraphState {
    pub closed spec fn wf(&self) -> bool {
        self.world.wf()
    }

    pub fn new(world: World) -> (s: GraphState)
        requires
            world.wf(),
        ensures
            s.wf(),
            s@ == world@,
    {
        GraphState { world }
    }

    /// All registered region names, ascending in code-point order.
    pub fn graph_names(&self) -> (r: Vec<String>)
        requires
            self.wf(),
        ensures
            strings_sorted(string_views(r@)),
            string_views(r@).to_multiset() == world_names(self@).to_multiset(),
    {
        self.world.graph_names()
    }

    /// The wire form of the named region, or nothing when the name is not
    /// registered.
    pub fn to_vizceral(&self, name: &str) -> (r: Option<VizceralNode>)
        requires
            self.wf(),
        ensures
            match r {
                Some(v) => lookup_spec(self@, name@) matches Some(nv) && v@ == translate_spec(nv),
                None => lookup_spec(self@, name@) is None,
            },
    {
        match self.world.graph(name) {
            Some(n) => Some(VizceralNode::from(n)),
            None => None,
        }
    }
}

/// Reply to the by-name state query.
#[derive(Debug, PartialEq)]
pub enum StateResponse {
    Found(VizceralNode),
    Missing(String),
}

/// Decides the by-name query: the translated region when the name is
/// registered, otherwise the not-found message the caller serves with a
/// not-found status.
pub fn state_for_name(state: &GraphState, name: &str) -> (r: StateResponse)
    requires
        state.wf(),
    ensures
        match r {
            StateResponse::Found(v) => lookup_spec(state@, name@) matches Some(nv) && v@
                == translate_spec(nv),
            StateResponse::Missing(msg) => lookup_spec(state@, name@) is None && msg@
                == "Couldn't find "@ + name@,
        },
{
    match state.to_vizceral(name) {
        Some(v) => StateResponse::Found(v),
        None => {
            let mut msg = "Couldn't find ".to_owned();
            msg.append(name);
            StateResponse::Missing(msg)
        },
    }
}

/// Decides the region-list query.
pub fn get_states(state: &GraphState) -> (r: GraphList)
    requires
        state.wf(),
    ensures
        strings_sorted(string_views(r.graphs@)),
        string_views(r.graphs@).to_multiset() == world_names(state@).to_multiset(),
{
    GraphList { graphs: state.graph_names() }
}

} // verus!
