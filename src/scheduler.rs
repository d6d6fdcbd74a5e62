use vstd::prelude::*;

use crate::model::{
    copy_opt, edges_view, logs_view, nodes_view, opt_view, pairs_view, substituted, Edge, EdgeView,
    Log, LogData, LogDataView, LogView, Node, NodeView, Workflow,
};
use crate::text::same_text;

verus! {

/// A view of a list of strings.
pub open spec fn strs_view(s: Seq<String>) -> Seq<Seq<char>> {
    s.map_values(|x: String| x@)
}

/// The target of the last edge that leaves `id`: later edges overwrite
/// earlier ones in the successor map.
pub open spec fn successor(edges: Seq<EdgeView>, id: Seq<char>) -> Option<Seq<char>>
    decreases edges.len(),
{
    if edges.len() == 0 {
        None
    } else if edges.last().source == id {
        Some(edges.last().target)
    } else {
        successor(edges.drop_last(), id)
    }
}

/// Some edge enters `id`.
pub open spec fn is_target(edges: Seq<EdgeView>, id: Seq<char>) -> bool {
    exists|k: int| 0 <= k < edges.len() && edges[k].target == id
}

/// The ids, in node order, of the nodes that no edge enters: the first layer.
pub open spec fn entry_ids(nodes: Seq<NodeView>, edges: Seq<EdgeView>) -> Seq<Seq<char>>
    decreases nodes.len(),
{
    if nodes.len() == 0 {
        Seq::empty()
    } else if is_target(edges, nodes.last().id) {
        entry_ids(nodes.drop_last(), edges)
    } else {
        entry_ids(nodes.drop_last(), edges).push(nodes.last().id)
    }
}

/// The distinct targets of the edges that leave a member of `layer`, each
/// at the place of the first such edge in edge order.
pub open spec fn next_layer(edges: Seq<EdgeView>, layer: Seq<Seq<char>>) -> Seq<Seq<char>>
    decreases edges.len(),
{
    if edges.len() == 0 {
        Seq::empty()
    } else if layer.contains(edges.last().source) && !next_layer(edges.drop_last(), layer).contains(
        edges.last().target,
    ) {
        next_layer(edges.drop_last(), layer).push(edges.last().target)
    } else {
        next_layer(edges.drop_last(), layer)
    }
}

/// The index of the first node with id `id`.
pub open spec fn node_index(nodes: Seq<NodeView>, id: Seq<char>) -> Option<int>
    decreases nodes.len(),
{
    if nodes.len() == 0 {
        None
    } else {
        match node_index(nodes.drop_last(), id) {
            Some(k) => Some(k),
            None => if nodes.last().id == id {
                Some(nodes.len() - 1)
            } else {
                None
            },
        }
    }
}

/// The input most recently handed to `id`: the last entry under it.
pub open spec fn latest(pending: Seq<(Seq<char>, Seq<char>)>, id: Seq<char>) -> Option<Seq<char>>
    decreases pending.len(),
{
    if pending.len() == 0 {
        None
    } else if pending.last().0 == id {
        Some(pending.last().1)
    } else {
        latest(pending.drop_last(), id)
    }
}

/// The first position at or after `from` in `layer` whose id names a node.
pub open spec fn first_runnable(nodes: Seq<NodeView>, layer: Seq<Seq<char>>, from: int) -> Option<
    int,
>
    decreases layer.len() - from,
{
    if from < 0 || from >= layer.len() {
        None
    } else if node_index(nodes, layer[from]) is Some {
        Some(from)
    } else {
        first_runnable(nodes, layer, from + 1)
    }
}

/// `n` as it runs when `input` is pending for it.
pub open spec fn prepared(n: NodeView, input: Option<Seq<char>>) -> NodeView {
    match input {
        Some(i) => NodeView { config: substituted(n.config, i), ..n },
        None => n,
    }
}

/// The event that opens a node's run.
pub open spec fn start_view(n: NodeView) -> LogDataView {
    LogDataView {
        kind: "node_start"@,
        node_id: n.id,
        node_type: Some(n.kind),
        result: None,
        data: None,
    }
}

/// The event that closes a node's run.
pub open spec fn complete_view(n: NodeView) -> LogDataView {
    LogDataView {
        kind: "node_complete"@,
        node_id: n.id,
        node_type: Some(n.kind),
        result: None,
        data: None,
    }
}

/// What one node's run adds to the run's log: its start, what the
/// capability logged, and its completion.
pub open spec fn node_segment(n: NodeView, started: i64, logs: Seq<LogView>, finished: i64) -> Seq<
    LogView,
> {
    seq![LogView { timestamp: started, data: start_view(n) }] + logs + seq![
        LogView { timestamp: finished, data: complete_view(n) },
    ]
}

/// The layered traversal of one run, one node at a time.
///
/// `next_node` hands out the node to run next, with its pending input already
/// substituted; the caller runs the node's capability and reports the outcome
/// with `complete_node`, or stops with `abort` when the capability failed.
pub struct Scheduler {
    pub nodes: Vec<Node>,
    pub edges: Vec<Edge>,
    /// The current layer, by node id.
    pub layer: Vec<String>,
    /// The next position of the layer to look at.
    pub cursor: usize,
    /// Some node of the current layer has run.
    pub ran: bool,
    /// Inputs handed to nodes, by id; the last entry for an id wins.
    pub pending: Vec<(String, String)>,
    pub logs: Vec<Log>,
    /// The value of the last `output` node that completed.
    pub result: String,
    pub done: bool,
    /// The ids of the nodes handed out so far, in order.
    pub visited: Vec<String>,
    /// The run ended because a node came up a second time.
    pub cycle: bool,
}

pub struct SchedulerView {
    pub nodes: Seq<NodeView>,
    pub edges: Seq<EdgeView>,
    pub layer: Seq<Seq<char>>,
    pub cursor: int,
    pub ran: bool,
    pub pending: Seq<(Seq<char>, Seq<char>)>,
    pub logs: Seq<LogView>,
    pub result: Seq<char>,
    pub done: bool,
    pub visited: Seq<Seq<char>>,
    pub cycle: bool,
}

impl View for Scheduler {
    type V = SchedulerView;

    open spec fn view(&self) -> SchedulerView {
        SchedulerView {
            nodes: nodes_view(self.nodes@),
            edges: edges_view(self.edges@),
            layer: strs_view(self.layer@),
            cursor: self.cursor as int,
            ran: self.ran,
            pending: pairs_view(self.pending@),
            logs: logs_view(self.logs@),
            result: self.result@,
            done: self.done,
            visited: strs_view(self.visited@),
            cycle: self.cycle,
        }
    }
}

/// The state after the node at position `p` of `layer` is handed out.
pub open spec fn after_pick(v: SchedulerView, layer: Seq<Seq<char>>, p: int) -> SchedulerView {
    let k = node_index(v.nodes, layer[p]).unwrap();
    SchedulerView {
        nodes: v.nodes.update(k, prepared(v.nodes[k], latest(v.pending, layer[p]))),
        layer: layer,
        cursor: p + 1,
        ran: true,
        visited: v.visited.push(layer[p]),
        ..v
    }
}

/// Handing out position `p` of `layer`: the node, unless it was handed out
/// before, which ends the run as a cycle.
pub open spec fn pick_step(v: SchedulerView, layer: Seq<Seq<char>>, p: int) -> (
    SchedulerView,
    Option<NodeView>,
) {
    if v.visited.contains(layer[p]) {
        (SchedulerView { layer: layer, cursor: p + 1, done: true, cycle: true, ..v }, None)
    } else {
        (after_pick(v, layer, p), Some(picked(v, layer, p)))
    }
}

/// The node handed out at position `p` of `layer`.
pub open spec fn picked(v: SchedulerView, layer: Seq<Seq<char>>, p: int) -> NodeView {
    let k = node_index(v.nodes, layer[p]).unwrap();
    prepared(v.nodes[k], latest(v.pending, layer[p]))
}

/// The state and the node that `next_node` gives from state `v`.
pub open spec fn next_step(v: SchedulerView) -> (SchedulerView, Option<NodeView>) {
    if v.done {
        (v, None)
    } else {
        match first_runnable(v.nodes, v.layer, v.cursor) {
            Some(p) => pick_step(v, v.layer, p),
            None => {
                let nx = next_layer(v.edges, v.layer);
                if !v.ran || nx.len() == 0 {
                    (SchedulerView { done: true, ..v }, None)
                } else {
                    match first_runnable(v.nodes, nx, 0) {
                        Some(p) => pick_step(
                            SchedulerView { layer: nx, cursor: 0, ran: false, ..v },
                            nx,
                            p,
                        ),
                        None => (SchedulerView { layer: nx, cursor: 0, ran: false, done: true, ..v }, None),
                    }
                }
            },
        }
    }
}

/// The state after node `n` completed with `output`, having logged `logs`.
pub open spec fn after_complete(
    v: SchedulerView,
    n: NodeView,
    started: i64,
    logs: Seq<LogView>,
    output: Seq<char>,
    finished: i64,
) -> SchedulerView {
    SchedulerView {
        logs: v.logs + node_segment(n, started, logs, finished),
        pending: match successor(v.edges, n.id) {
            Some(t) => v.pending.push((t, output)),
            None => v.pending,
        },
        result: if n.kind == "output"@ {
            output
        } else {
            v.result
        },
        ..v
    }
}

/// The entries of `layer`, each paired with `seed`.
pub open spec fn seeded(layer: Seq<Seq<char>>, seed: Option<Seq<char>>) -> Seq<
    (Seq<char>, Seq<char>),
> {
    match seed {
        Some(s) => layer.map_values(|id: Seq<char>| (id, s)),
        None => Seq::empty(),
    }
}

fn node_index_exec(nodes: &Vec<Node>, id: &String) -> (r: Option<usize>)
    ensures
        r matches Some(k) ==> node_index(nodes_view(nodes@), id@) == Some(k as int),
        r is None ==> node_index(nodes_view(nodes@), id@) is None,
{
    let ghost nv = nodes_view(nodes@);
    let mut i: usize = 0;
    assert(nv.subrange(0, 0) =~= Seq::<NodeView>::empty());
    while i < nodes.len()
        invariant
            nv == nodes_view(nodes@),
            i <= nodes@.len(),
            node_index(nv.subrange(0, i as int), id@) is None,
        decreases nodes.len() - i,
    {
        assert(nv.subrange(0, i + 1).drop_last() =~= nv.subrange(0, i as int));
        if same_text(nodes[i].id.as_str(), id.as_str()) {
            proof {
                lemma_node_index_prefix(nv, id@, i as int + 1);
            }
            return Some(i);
        }
        i = i + 1;
    }
    assert(nv.subrange(0, i as int) =~= nv);
    None
}

proof fn lemma_node_index_prefix(nodes: Seq<NodeView>, id: Seq<char>, len: int)
    requires
        0 < len <= nodes.len(),
        node_index(nodes.subrange(0, len), id) matches Some(k) && k < len,
    ensures
        node_index(nodes, id) == node_index(nodes.subrange(0, len), id),
    decreases nodes.len() - len,
{
    if len < nodes.len() {
        assert(nodes.subrange(0, len + 1).drop_last() =~= nodes.subrange(0, len));
        lemma_node_index_prefix(nodes, id, len + 1);
    } else {
        assert(nodes.subrange(0, len) =~= nodes);
    }
}

fn latest_exec(pending: &Vec<(String, String)>, id: &String) -> (r: Option<String>)
    ensures
        opt_view(r) == latest(pairs_view(pending@), id@),
{
    let ghost pv = pairs_view(pending@);
    let mut i: usize = pending.len();
    assert(pv.subrange(0, pv.len() as int) =~= pv);
    while i > 0
        invariant
            pv == pairs_view(pending@),
            i <= pending@.len(),
            latest(pv, id@) == latest(pv.subrange(0, i as int), id@),
        decreases i,
    {
        assert(pv.subrange(0, i as int).drop_last() =~= pv.subrange(0, i - 1));
        if same_text(pending[i - 1].0.as_str(), id.as_str()) {
            return Some(pending[i - 1].1.clone());
        }
        i = i - 1;
    }
    None
}

fn successor_exec(edges: &Vec<Edge>, id: &String) -> (r: Option<String>)
    ensures
        opt_view(r) == successor(edges_view(edges@), id@),
{
    let ghost ev = edges_view(edges@);
    let mut i: usize = edges.len();
    assert(ev.subrange(0, ev.len() as int) =~= ev);
    while i > 0
        invariant
            ev == edges_view(edges@),
            i <= edges@.len(),
            successor(ev, id@) == successor(ev.subrange(0, i as int), id@),
        decreases i,
    {
        assert(ev.subrange(0, i as int).drop_last() =~= ev.subrange(0, i - 1));
        if same_text(edges[i - 1].source.as_str(), id.as_str()) {
            return Some(edges[i - 1].target.clone());
        }
        i = i - 1;
    }
    None
}

fn is_target_exec(edges: &Vec<Edge>, id: &String) -> (r: bool)
    ensures
        r == is_target(edges_view(edges@), id@),
{
    let mut i: usize = 0;
    while i < edges.len()
        invariant
            i <= edges@.len(),
            forall|k: int| 0 <= k < i ==> edges_view(edges@)[k].target != id@,
        decreases edges.len() - i,
    {
        if same_text(edges[i].target.as_str(), id.as_str()) {
            assert(edges_view(edges@)[i as int].target == id@);
            return true;
        }
        i = i + 1;
    }
    false
}

fn contains_exec(layer: &Vec<String>, id: &String) -> (r: bool)
    ensures
        r == strs_view(layer@).contains(id@),
{
    let mut i: usize = 0;
    while i < layer.len()
        invariant
            i <= layer@.len(),
            forall|k: int| 0 <= k < i ==> strs_view(layer@)[k] != id@,
        decreases layer.len() - i,
    {
        if same_text(layer[i].as_str(), id.as_str()) {
            assert(strs_view(layer@)[i as int] == id@);
            return true;
        }
        i = i + 1;
    }
    false
}

fn entry_ids_exec(nodes: &Vec<Node>, edges: &Vec<Edge>) -> (r: Vec<String>)
    ensures
        strs_view(r@) == entry_ids(nodes_view(nodes@), edges_view(edges@)),
{
    let ghost nv = nodes_view(nodes@);
    let ghost ev = edges_view(edges@);
    let mut r: Vec<String> = Vec::new();
    let mut i: usize = 0;
    assert(nv.subrange(0, 0) =~= Seq::<NodeView>::empty());
    assert(strs_view(r@) =~= Seq::<Seq<char>>::empty());
    while i < nodes.len()
        invariant
            nv == nodes_view(nodes@),
            ev == edges_view(edges@),
            i <= nodes@.len(),
            strs_view(r@) == entry_ids(nv.subrange(0, i as int), ev),
        decreases nodes.len() - i,
    {
        assert(nv.subrange(0, i + 1).drop_last() =~= nv.subrange(0, i as int));
        if !is_target_exec(edges, &nodes[i].id) {
            let ghost before = r@;
            r.push(nodes[i].id.clone());
            assert(strs_view(r@) =~= strs_view(before).push(nodes@[i as int].id@));
        }
        i = i + 1;
    }
    assert(nv.subrange(0, i as int) =~= nv);
    r
}

fn next_layer_exec(edges: &Vec<Edge>, layer: &Vec<String>) -> (r: Vec<String>)
    ensures
        strs_view(r@) == next_layer(edges_view(edges@), strs_view(layer@)),
{
    let ghost ev = edges_view(edges@);
    let mut r: Vec<String> = Vec::new();
    let mut i: usize = 0;
    assert(ev.subrange(0, 0) =~= Seq::<EdgeView>::empty());
    assert(strs_view(r@) =~= Seq::<Seq<char>>::empty());
    while i < edges.len()
        invariant
            ev == edges_view(edges@),
            i <= edges@.len(),
            strs_view(r@) == next_layer(ev.subrange(0, i as int), strs_view(layer@)),
        decreases edges.len() - i,
    {
        assert(ev.subrange(0, i + 1).drop_last() =~= ev.subrange(0, i as int));
        if contains_exec(layer, &edges[i].source) && !contains_exec(&r, &edges[i].target) {
            let ghost before = r@;
            r.push(edges[i].target.clone());
            assert(strs_view(r@) =~= strs_view(before).push(edges@[i as int].target@));
        }
        i = i + 1;
    }
    assert(ev.subrange(0, i as int) =~= ev);
    r
}

/// The event that opens node `n`'s run.
pub fn start_event(n: &Node) -> (r: LogData)
    ensures
        r@ == start_view(n@),
{
    LogData {
        kind: String::from_str("node_start"),
        node_id: n.id.clone(),
        node_type: Some(n.kind.clone()),
        result: None,
        data: None,
    }
}

/// The event that closes node `n`'s run.
pub fn complete_event(n: &Node) -> (r: LogData)
    ensures
        r@ == complete_view(n@),
{
    LogData {
        kind: String::from_str("node_complete"),
        node_id: n.id.clone(),
        node_type: Some(n.kind.clone()),
        result: None,
        data: None,
    }
}

impl Scheduler {
    /// A run of `workflow` about to start, with `seed` pending for every node
    /// of the first layer.
    pub fn new(workflow: Workflow, seed: Option<String>) -> (r: Scheduler)
        ensures
            r@.nodes == workflow@.nodes,
            r@.edges == workflow@.edges,
            r@.layer == entry_ids(workflow@.nodes, workflow@.edges),
            r@.cursor == 0,
            !r@.ran,
            r@.pending == seeded(r@.layer, opt_view(seed)),
            r@.logs == Seq::<LogView>::empty(),
            r@.result == Seq::<char>::empty(),
            !r@.done,
            r@.visited == Seq::<Seq<char>>::empty(),
            !r@.cycle,
    {
        let layer = entry_ids_exec(&workflow.nodes, &workflow.edges);
        let mut pending: Vec<(String, String)> = Vec::new();
        if let Some(s) = &seed {
            let mut i: usize = 0;
            while i < layer.len()
                invariant
                    i <= layer@.len(),
                    pending@.len() == i,
                    forall|j: int|
                        0 <= j < i ==> (#[trigger] pending@[j]).0@ == layer@[j]@ && pending@[j].1@
                            == s@,
                decreases layer.len() - i,
            {
                pending.push((layer[i].clone(), s.clone()));
                i = i + 1;
            }
            assert(pairs_view(pending@) =~= seeded(strs_view(layer@), opt_view(seed)));
        } else {
            assert(pairs_view(pending@) =~= seeded(strs_view(layer@), opt_view(seed)));
        }
        let r = Scheduler {
            nodes: workflow.nodes,
            edges: workflow.edges,
            layer,
            cursor: 0,
            ran: false,
            pending,
            logs: Vec::new(),
            result: String::new(),
            done: false,
            visited: Vec::new(),
            cycle: false,
        };
        assert(logs_view(r.logs@) =~= Seq::<LogView>::empty());
        assert(strs_view(r.visited@) =~= Seq::<Seq<char>>::empty());
        r
    }

    /// Hands out the node at position `p` of the current layer.
    fn pick(&mut self, p: usize, k: usize) -> (r: Option<Node>)
        requires
            p < old(self)@.layer.len(),
            node_index(old(self)@.nodes, old(self)@.layer[p as int]) == Some(k as int),
        ensures
            final(self)@ == pick_step(old(self)@, old(self)@.layer, p as int).0,
            opt_node_view(r) == pick_step(old(self)@, old(self)@.layer, p as int).1,
    {
        if contains_exec(&self.visited, &self.layer[p]) {
            assert(p < self.layer.len());
            self.cursor = p + 1;
            self.done = true;
            self.cycle = true;
            return None;
        }
        proof {
            lemma_node_index_bound(old(self)@.nodes, old(self)@.layer[p as int]);
        }
        let input = latest_exec(&self.pending, &self.layer[p]);
        let mut node = self.nodes[k].duplicate();
        match &input {
            Some(i) => node.reset_config(i),
            None => {},
        }
        let copy = node.duplicate();
        let ghost before = self.nodes@;
        self.nodes.set(k, node);
        assert(nodes_view(self.nodes@) =~= nodes_view(before).update(k as int, copy@));
        assert(p < self.layer.len());
        self.cursor = p + 1;
        self.ran = true;
        let ghost seen = self.visited@;
        self.visited.push(self.layer[p].clone());
        assert(strs_view(self.visited@) =~= strs_view(seen).push(self.layer@[p as int]@));
        Some(copy)
    }

    /// Moves on to the next node to run, and hands it out with its pending
    /// input substituted into its configuration; `None` when the run is over,
    /// which `cycle_detected` tells apart when a node came up a second time.
    pub fn next_node(&mut self) -> (r: Option<Node>)
        requires
            old(self)@.cursor <= old(self)@.layer.len(),
        ensures
            final(self)@ == next_step(old(self)@).0,
            opt_node_view(r) == next_step(old(self)@).1,
            final(self)@.cursor <= final(self)@.layer.len(),
    {
        if self.done {
            return None;
        }
        match self.find_runnable(self.cursor) {
            Some((p, k)) => {
                self.pick(p, k)
            },
            None => {
                let nx = next_layer_exec(&self.edges, &self.layer);
                if !self.ran || nx.len() == 0 {
                    self.done = true;
                    return None;
                }
                self.layer = nx;
                self.cursor = 0;
                self.ran = false;
                match self.find_runnable(0) {
                    Some((p, k)) => self.pick(p, k),
                    None => {
                        self.done = true;
                        None
                    },
                }
            },
        }
    }

    fn find_runnable(&self, from: usize) -> (r: Option<(usize, usize)>)
        requires
            from <= self@.layer.len(),
        ensures
            r is None ==> first_runnable(self@.nodes, self@.layer, from as int) is None,
            r matches Some((p, k)) ==> first_runnable(self@.nodes, self@.layer, from as int)
                == Some(p as int) && p < self@.layer.len() && node_index(
                self@.nodes,
                self@.layer[p as int],
            ) == Some(k as int),
    {
        let mut i: usize = from;
        while i < self.layer.len()
            invariant
                from <= i <= self@.layer.len(),
                first_runnable(self@.nodes, self@.layer, from as int) == first_runnable(
                    self@.nodes,
                    self@.layer,
                    i as int,
                ),
            decreases self.layer.len() - i,
        {
            match node_index_exec(&self.nodes, &self.layer[i]) {
                Some(k) => {
                    return Some((i, k));
                },
                None => {},
            }
            i = i + 1;
        }
        None
    }

    /// Records that `node` completed with `output`: its start at `started`,
    /// what its capability logged, and its completion at `finished` join the
    /// run's log; `output` becomes the pending input of the node's successor,
    /// and the run's result when `node` is an `output` node.
    pub fn complete_node(
        &mut self,
        node: &Node,
        started: i64,
        logs: Vec<Log>,
        output: String,
        finished: i64,
    )
        ensures
            final(self)@ == after_complete(
                old(self)@,
                node@,
                started,
                logs_view(logs@),
                output@,
                finished,
            ),
    {
        let mut seg: Vec<Log> = Vec::new();
        seg.push(Log { timestamp: started, data: start_event(node) });
        let mut i: usize = 0;
        while i < logs.len()
            invariant
                i <= logs@.len(),
                seg@.len() == 1 + i,
                seg@[0]@ == (LogView { timestamp: started, data: start_view(node@) }),
                forall|j: int| 0 <= j < i ==> (#[trigger] seg@[1 + j])@ == logs@[j]@,
            decreases logs.len() - i,
        {
            seg.push(logs[i].duplicate());
            i = i + 1;
        }
        seg.push(Log { timestamp: finished, data: complete_event(node) });
        let ghost segv = node_segment(node@, started, logs_view(logs@), finished);
        assert forall|j: int| 0 <= j < seg@.len() implies logs_view(seg@)[j] == segv[j] by {
            if 1 <= j < seg@.len() - 1 {
                assert(seg@[1 + (j - 1)]@ == logs@[j - 1]@);
            }
        }
        assert(logs_view(seg@) =~= segv);
        let ghost before = self.logs@;
        self.logs.append(&mut seg);
        assert(logs_view(self.logs@) =~= logs_view(before) + segv);
        match successor_exec(&self.edges, &node.id) {
            Some(t) => {
                let ghost before = self.pending@;
                self.pending.push((t, output.clone()));
                assert(pairs_view(self.pending@) =~= pairs_view(before).push((t@, output@)));
            },
            None => {},
        }
        if same_text(node.kind.as_str(), "output") {
            self.result = output;
        }
    }

    /// Stops the run after a capability failed.
    pub fn abort(&mut self)
        ensures
            final(self)@ == (SchedulerView { done: true, ..old(self)@ }),
    {
        self.done = true;
    }

    /// The run's result so far: the value of the last `output` node.
    pub fn result(&self) -> (r: String)
        ensures
            r@ == self@.result,
    {
        self.result.clone()
    }

    /// Whether the run ended because a node came up a second time.
    pub fn cycle_detected(&self) -> (r: bool)
        ensures
            r == self@.cycle,
    {
        self.cycle
    }

    pub fn is_done(&self) -> (r: bool)
        ensures
            r == self@.done,
    {
        self.done
    }
}

pub open spec fn opt_node_view(o: Option<Node>) -> Option<NodeView> {
    match o {
        Some(n) => Some(n@),
        None => None,
    }
}

proof fn lemma_node_index_bound(nodes: Seq<NodeView>, id: Seq<char>)
    ensures
        node_index(nodes, id) matches Some(k) ==> 0 <= k < nodes.len() && nodes[k].id == id,
    decreases nodes.len(),
{
    if nodes.len() > 0 {
        lemma_node_index_bound(nodes.drop_last(), id);
    }
}

} // verus!
