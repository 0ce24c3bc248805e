//! The shape of the declarative source document: one region list,
//! recursively nested records with optional connection lists.

use vstd::prelude::*;

use crate::order::string_views;

verus! {

/// A whole source document: the list of top-level region records.
#[derive(Debug)]
pub struct FileConfig {
    pub regions: Vec<Node>,
}

/// One record of the source document: a named region or service, optionally
/// holding nested records and connection declarations.
#[derive(Debug)]
pub struct Node {
    pub name: String,
    pub display_name: Option<String>,
    pub entry_point: Option<String>,
    pub nodes: Option<Vec<Node>>,
    pub connections: Option<Vec<Connection>>,
}

/// A declared traffic relationship: one source fanning out to its targets.
#[derive(Debug)]
pub struct Connection {
    pub source: String,
    pub targets: Vec<String>,
}

/// Mathematical form of a `Connection`.
pub struct ConnectionV {
    pub source: Seq<char>,
    pub targets: Seq<Seq<char>>,
}

/// Mathematical form of a source record.
pub struct RecordV {
    pub name: Seq<char>,
    pub display_name: Option<Seq<char>>,
    pub entry_point: Option<Seq<char>>,
    pub nodes: Option<Seq<RecordV>>,
    pub connections: Option<Seq<ConnectionV>>,
}

impl View for Connection {
    type V = ConnectionV;

    open spec fn view(&self) -> ConnectionV {
        ConnectionV { source: self.source@, targets: string_views(self.targets@) }
    }
}

/// The views of a sequence of connections, in order.
pub open spec fn connection_views(s: Seq<Connection>) -> Seq<ConnectionV> {
    Seq::new(s.len(), |i: int| s[i]@)
}

pub open spec fn opt_string_view(s: Option<String>) -> Option<Seq<char>> {
    match s {
        Some(v) => Some(v@),
        None => None,
    }
}

impl View for Node {
    type V = RecordV;

    open spec fn view(&self) -> RecordV
        decreases self,
    {
        RecordV {
            name: self.name@,
            display_name: opt_string_view(self.display_name),
            entry_point: opt_string_view(self.entry_point),
            nodes: match self.nodes {
                Some(children) => Some(record_views(children@)),
                None => None,
            },
            connections: match self.connections {
                Some(conns) => Some(connection_views(conns@)),
                None => None,
            },
        }
    }
}

/// The views of a sequence of records, in order.
pub open spec fn record_views(s: Seq<Node>) -> Seq<RecordV>
    decreases s,
{
    if s.len() == 0 {
        Seq::empty()
    } else {
        record_views(s.subrange(0, s.len() - 1)).push(s[s.len() - 1]@)
    }
}

impl View for FileConfig {
    type V = Seq<RecordV>;

    open spec fn view(&self) -> Seq<RecordV> {
        record_views(self.regions@)
    }
}

/// `record_views` is pointwise: it has the length of its input and views
/// each element in place.
pub proof fn lemma_record_views_pointwise(s: Seq<Node>)
    ensures
        record_views(s).len() == s.len(),
        forall|i: int| 0 <= i < s.len() ==> record_views(s)[i] == s[i]@,
    decreases s,
{
    if s.len() > 0 {
        let prefix = s.subrange(0, s.len() - 1);
        lemma_record_views_pointwise(prefix);
        assert(record_views(s) == record_views(prefix).push(s[s.len() - 1]@));
        assert forall|i: int| 0 <= i < s.len() implies record_views(s)[i] == s[i]@ by {
            if i < s.len() - 1 {
                assert(prefix[i] == s[i]);
            }
        }
    }
}

} // verus!
