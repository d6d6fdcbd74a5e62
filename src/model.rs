use vstd::prelude::*;

use crate::text::{replace_all, replaced, same_text};

verus! {

/// A view of an optional string.
pub open spec fn opt_view(o: Option<String>) -> Option<Seq<char>> {
    match o {
        Some(s) => Some(s@),
        None => None,
    }
}

/// A view of a list of string pairs.
pub open spec fn pairs_view(s: Seq<(String, String)>) -> Seq<(Seq<char>, Seq<char>)> {
    s.map_values(|p: (String, String)| (p.0@, p.1@))
}

/// The value of the first entry of `cfg` under `key`.
pub open spec fn lookup(cfg: Seq<(Seq<char>, Seq<char>)>, key: Seq<char>) -> Option<Seq<char>>
    decreases cfg.len(),
{
    if cfg.len() == 0 {
        None
    } else if cfg[0].0 == key {
        Some(cfg[0].1)
    } else {
        lookup(cfg.drop_first(), key)
    }
}

/// No two entries of `cfg` share a key.
pub open spec fn keys_unique(cfg: Seq<(Seq<char>, Seq<char>)>) -> bool {
    forall|i: int, j: int|
        0 <= i < cfg.len() && 0 <= j < cfg.len() && i != j ==> (#[trigger] cfg[i]).0 != (
        #[trigger] cfg[j]).0
}

/// `cfg` with the placeholder `${input}` replaced by `input` in every value.
pub open spec fn substituted(cfg: Seq<(Seq<char>, Seq<char>)>, input: Seq<char>) -> Seq<
    (Seq<char>, Seq<char>),
> {
    cfg.map_values(
        |p: (Seq<char>, Seq<char>)| (p.0, replaced(p.1, "${input}"@, input)),
    )
}

pub fn copy_opt(o: &Option<String>) -> (r: Option<String>)
    ensures
        opt_view(r) == opt_view(*o),
{
    match o {
        Some(s) => Some(s.clone()),
        None => None,
    }
}

pub fn copy_pairs(v: &Vec<(String, String)>) -> (r: Vec<(String, String)>)
    ensures
        pairs_view(r@) == pairs_view(v@),
{
    let mut r: Vec<(String, String)> = Vec::new();
    let mut i: usize = 0;
    while i < v.len()
        invariant
            i <= v@.len(),
            r@.len() == i,
            forall|j: int|
                0 <= j < i ==> (#[trigger] r@[j]).0@ == v@[j].0@ && r@[j].1@ == v@[j].1@,
        decreases v.len() - i,
    {
        let k = v[i].0.clone();
        let x = v[i].1.clone();
        r.push((k, x));
        i = i + 1;
    }
    assert(pairs_view(r@) =~= pairs_view(v@));
    r
}

/// The value under `key` in `cfg`, as the first matching entry gives it.
pub fn config_value(cfg: &Vec<(String, String)>, key: &str) -> (r: Option<String>)
    ensures
        opt_view(r) == lookup(pairs_view(cfg@), key@),
{
    let mut i: usize = 0;
    assert(pairs_view(cfg@).subrange(0, cfg@.len() as int) =~= pairs_view(cfg@));
    while i < cfg.len()
        invariant
            i <= cfg@.len(),
            lookup(pairs_view(cfg@), key@) == lookup(
                pairs_view(cfg@).subrange(i as int, cfg@.len() as int),
                key@,
            ),
        decreases cfg.len() - i,
    {
        assert(pairs_view(cfg@).subrange(i as int, cfg@.len() as int).drop_first()
            =~= pairs_view(cfg@).subrange(i + 1, cfg@.len() as int));
        if same_text(cfg[i].0.as_str(), key) {
            return Some(cfg[i].1.clone());
        }
        i = i + 1;
    }
    None
}

/// Where a node is drawn: the IEEE-754 bit patterns of its two coordinates.
/// The engine never reads it.
#[derive(Clone, Copy, Debug, PartialEq, Eq, Structural)]
pub struct Position {
    pub x_bits: u32,
    pub y_bits: u32,
}

/// One processing step of a workflow graph.
#[derive(Clone, Debug)]
pub struct Node {
    pub id: String,
    /// The capability tag, such as `input` or `http-request`.
    pub kind: String,
    pub position: Position,
    /// Capability parameters, by name; `keys_unique` holds of them as read
    /// from a map, and substitution keeps it.
    pub config: Vec<(String, String)>,
    pub label: Option<String>,
}

pub struct NodeView {
    pub id: Seq<char>,
    pub kind: Seq<char>,
    pub position: Position,
    pub config: Seq<(Seq<char>, Seq<char>)>,
    pub label: Option<Seq<char>>,
}

impl View for Node {
    type V = NodeView;

    open spec fn view(&self) -> NodeView {
        NodeView {
            id: self.id@,
            kind: self.kind@,
            position: self.position,
            config: pairs_view(self.config@),
            label: opt_view(self.label),
        }
    }
}

impl Node {
    /// A copy of this node.
    pub fn duplicate(&self) -> (r: Node)
        ensures
            r@ == self@,
    {
        Node {
            id: self.id.clone(),
            kind: self.kind.clone(),
            position: self.position,
            config: copy_pairs(&self.config),
            label: copy_opt(&self.label),
        }
    }

    /// The configuration value under `key`.
    pub fn config_get(&self, key: &str) -> (r: Option<String>)
        ensures
            opt_view(r) == lookup(self@.config, key@),
    {
        config_value(&self.config, key)
    }

    /// Replaces the input placeholder by `input` in every configuration value.
    pub fn reset_config(&mut self, input: &String)
        ensures
            final(self)@ == (NodeView {
                config: substituted(old(self)@.config, input@),
                ..old(self)@
            }),
            keys_unique(old(self)@.config) ==> keys_unique(final(self)@.config),
    {
        proof {
            reveal_strlit("${input}");
        }
        let mut cfg: Vec<(String, String)> = Vec::new();
        let mut i: usize = 0;
        while i < self.config.len()
            invariant
                i <= self.config@.len(),
                pairs_view(cfg@) == substituted(
                    pairs_view(self.config@.subrange(0, i as int)),
                    input@,
                ),
            decreases self.config.len() - i,
        {
            proof {
                reveal_strlit("${input}");
            }
            let k = self.config[i].0.clone();
            let v = replace_all(self.config[i].1.as_str(), "${input}", input.as_str());
            let ghost before = cfg@;
            cfg.push((k, v));
            assert(pairs_view(cfg@) =~= pairs_view(before).push((k@, v@)));
            assert(self.config@.subrange(0, i + 1) =~= self.config@.subrange(0, i as int).push(
                self.config@[i as int],
            ));
            i = i + 1;
            assert(pairs_view(cfg@) =~= substituted(
                pairs_view(self.config@.subrange(0, i as int)),
                input@,
            ));
        }
        assert(self.config@.subrange(0, self.config@.len() as int) =~= self.config@);
        self.config = cfg;
    }
}

/// A directed arc from one node to another.
#[derive(Clone, Debug)]
pub struct Edge {
    pub source: String,
    pub target: String,
    /// Which output of the source the arc leaves from, where it has several.
    pub source_handle: Option<String>,
}

pub struct EdgeView {
    pub source: Seq<char>,
    pub target: Seq<char>,
    pub source_handle: Option<Seq<char>>,
}

impl View for Edge {
    type V = EdgeView;

    open spec fn view(&self) -> EdgeView {
        EdgeView {
            source: self.source@,
            target: self.target@,
            source_handle: opt_view(self.source_handle),
        }
    }
}

impl Edge {
    pub fn duplicate(&self) -> (r: Edge)
        ensures
            r@ == self@,
    {
        Edge {
            source: self.source.clone(),
            target: self.target.clone(),
            source_handle: copy_opt(&self.source_handle),
        }
    }
}

pub open spec fn nodes_view(s: Seq<Node>) -> Seq<NodeView> {
    s.map_values(|n: Node| n@)
}

pub open spec fn edges_view(s: Seq<Edge>) -> Seq<EdgeView> {
    s.map_values(|e: Edge| e@)
}

/// A named graph of nodes and edges; times are milliseconds since the epoch.
#[derive(Clone, Debug)]
pub struct Workflow {
    pub id: Option<String>,
    pub name: String,
    pub nodes: Vec<Node>,
    pub edges: Vec<Edge>,
    pub created_at: Option<i64>,
    pub updated_at: Option<i64>,
}

pub struct WorkflowView {
    pub id: Option<Seq<char>>,
    pub name: Seq<char>,
    pub nodes: Seq<NodeView>,
    pub edges: Seq<EdgeView>,
    pub created_at: Option<i64>,
    pub updated_at: Option<i64>,
}

impl View for Workflow {
    type V = WorkflowView;

    open spec fn view(&self) -> WorkflowView {
        WorkflowView {
            id: opt_view(self.id),
            name: self.name@,
            nodes: nodes_view(self.nodes@),
            edges: edges_view(self.edges@),
            created_at: self.created_at,
            updated_at: self.updated_at,
        }
    }
}

pub fn copy_nodes(v: &Vec<Node>) -> (r: Vec<Node>)
    ensures
        nodes_view(r@) == nodes_view(v@),
{
    let mut r: Vec<Node> = Vec::new();
    let mut i: usize = 0;
    while i < v.len()
        invariant
            i <= v@.len(),
            r@.len() == i,
            forall|j: int| 0 <= j < i ==> (#[trigger] r@[j])@ == v@[j]@,
        decreases v.len() - i,
    {
        r.push(v[i].duplicate());
        i = i + 1;
    }
    assert(nodes_view(r@) =~= nodes_view(v@));
    r
}

pub fn copy_edges(v: &Vec<Edge>) -> (r: Vec<Edge>)
    ensures
        edges_view(r@) == edges_view(v@),
{
    let mut r: Vec<Edge> = Vec::new();
    let mut i: usize = 0;
    while i < v.len()
        invariant
            i <= v@.len(),
            r@.len() == i,
            forall|j: int| 0 <= j < i ==> (#[trigger] r@[j])@ == v@[j]@,
        decreases v.len() - i,
    {
        r.push(v[i].duplicate());
        i = i + 1;
    }
    assert(edges_view(r@) =~= edges_view(v@));
    r
}

impl Workflow {
    pub fn duplicate(&self) -> (r: Workflow)
        ensures
            r@ == self@,
    {
        Workflow {
            id: copy_opt(&self.id),
            name: self.name.clone(),
            nodes: copy_nodes(&self.nodes),
            edges: copy_edges(&self.edges),
            created_at: self.created_at,
            updated_at: self.updated_at,
        }
    }

    /// Whether the graph holds a node of the terminal `output` kind.
    pub fn has_output_node(&self) -> (r: bool)
        ensures
            r == exists|i: int| 0 <= i < self@.nodes.len() && self@.nodes[i].kind == "output"@,
    {
        let mut i: usize = 0;
        while i < self.nodes.len()
            invariant
                i <= self.nodes@.len(),
                forall|j: int| 0 <= j < i ==> self@.nodes[j].kind != "output"@,
            decreases self.nodes.len() - i,
        {
            if same_text(self.nodes[i].kind.as_str(), "output") {
                assert(self@.nodes[i as int].kind == "output"@);
                return true;
            }
            i = i + 1;
        }
        false
    }
}

/// One progress entry: what happened, at which node.
#[derive(Clone, Debug)]
pub struct LogData {
    /// The event tag: `node_start`, `node_complete`, `input`, `output`,
    /// `ai_response_chunk`, or a capability's `...-error` / `...-info`.
    pub kind: String,
    pub node_id: String,
    pub node_type: Option<String>,
    pub result: Option<String>,
    pub data: Option<String>,
}

pub struct LogDataView {
    pub kind: Seq<char>,
    pub node_id: Seq<char>,
    pub node_type: Option<Seq<char>>,
    pub result: Option<Seq<char>>,
    pub data: Option<Seq<char>>,
}

impl View for LogData {
    type V = LogDataView;

    open spec fn view(&self) -> LogDataView {
        LogDataView {
            kind: self.kind@,
            node_id: self.node_id@,
            node_type: opt_view(self.node_type),
            result: opt_view(self.result),
            data: opt_view(self.data),
        }
    }
}

impl LogData {
    pub fn duplicate(&self) -> (r: LogData)
        ensures
            r@ == self@,
    {
        LogData {
            kind: self.kind.clone(),
            node_id: self.node_id.clone(),
            node_type: copy_opt(&self.node_type),
            result: copy_opt(&self.result),
            data: copy_opt(&self.data),
        }
    }
}

/// A progress entry with the time it was made, in milliseconds since the epoch.
#[derive(Clone, Debug)]
pub struct Log {
    pub timestamp: i64,
    pub data: LogData,
}

pub struct LogView {
    pub timestamp: i64,
    pub data: LogDataView,
}

impl View for Log {
    type V = LogView;

    open spec fn view(&self) -> LogView {
        LogView { timestamp: self.timestamp, data: self.data@ }
    }
}

impl Log {
    pub fn duplicate(&self) -> (r: Log)
        ensures
            r@ == self@,
    {
        Log { timestamp: self.timestamp, data: self.data.duplicate() }
    }
}

pub open spec fn logs_view(s: Seq<Log>) -> Seq<LogView> {
    s.map_values(|l: Log| l@)
}

pub fn copy_logs(v: &Vec<Log>) -> (r: Vec<Log>)
    ensures
        logs_view(r@) == logs_view(v@),
{
    let mut r: Vec<Log> = Vec::new();
    let mut i: usize = 0;
    while i < v.len()
        invariant
            i <= v@.len(),
            r@.len() == i,
            forall|j: int| 0 <= j < i ==> (#[trigger] r@[j])@ == v@[j]@,
        decreases v.len() - i,
    {
        r.push(v[i].duplicate());
        i = i + 1;
    }
    assert(logs_view(r@) =~= logs_view(v@));
    r
}

/// The record of one completed run.
#[derive(Clone, Debug)]
pub struct Execution {
    pub id: String,
    pub workflow_id: String,
    pub input: Vec<(String, String)>,
    pub logs: Vec<Log>,
    /// Milliseconds from the start of the run to its end.
    pub duration: i64,
    pub status: String,
    /// When the run started, in milliseconds since the epoch.
    pub timestamp: i64,
}

pub struct ExecutionView {
    pub id: Seq<char>,
    pub workflow_id: Seq<char>,
    pub input: Seq<(Seq<char>, Seq<char>)>,
    pub logs: Seq<LogView>,
    pub duration: i64,
    pub status: Seq<char>,
    pub timestamp: i64,
}

impl View for Execution {
    type V = ExecutionView;

    open spec fn view(&self) -> ExecutionView {
        ExecutionView {
            id: self.id@,
            workflow_id: self.workflow_id@,
            input: pairs_view(self.input@),
            logs: logs_view(self.logs@),
            duration: self.duration,
            status: self.status@,
            timestamp: self.timestamp,
        }
    }
}

impl Execution {
    pub fn duplicate(&self) -> (r: Execution)
        ensures
            r@ == self@,
    {
        Execution {
            id: self.id.clone(),
            workflow_id: self.workflow_id.clone(),
            input: copy_pairs(&self.input),
            logs: copy_logs(&self.logs),
            duration: self.duration,
            status: self.status.clone(),
            timestamp: self.timestamp,
        }
    }
}

/// The query of a run request: the seed input, if any.
#[derive(Clone, Debug)]
pub struct WorkflowReqParam {
    pub input: Option<String>,
}

} // verus!
