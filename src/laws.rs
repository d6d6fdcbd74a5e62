use vstd::prelude::*;

use crate::capability::or_empty;
use crate::error::AppError;
use crate::model::{lookup, substituted, ExecutionView, LogView, NodeView, Workflow, WorkflowView};
use crate::scheduler::{
    after_complete, after_pick, complete_view, entry_ids, first_runnable, is_target, latest, next_layer,
    next_step, node_index, node_segment, pick_step, picked, prepared, seeded, start_view,
    successor,
    SchedulerView,
};
use crate::model::EdgeView;
use crate::store::{
    delete_outcome, execution_view, ids_unique, lemma_wf_index_found, lemma_without_id, newest_first, reversed,
    save_outcome, wf_index,
};
use crate::text::replaced;

verus! {

/// When a node completes with `output` and an edge leaves it for `t`, the
/// next node `t` to run gets `output` as its input: the placeholder in its
/// configuration is replaced by `output`.
pub proof fn lemma_output_feeds_successor(
    v: SchedulerView,
    n: NodeView,
    started: i64,
    logs: Seq<LogView>,
    output: Seq<char>,
    finished: i64,
    target: NodeView,
)
    requires
        successor(v.edges, n.id) == Some(target.id),
    ensures
        latest(after_complete(v, n, started, logs, output, finished).pending, target.id) == Some(
            output,
        ),
        prepared(
            target,
            latest(after_complete(v, n, started, logs, output, finished).pending, target.id),
        ).config == substituted(target.config, output),
{
    let p = after_complete(v, n, started, logs, output, finished).pending;
    assert(p.drop_last() == v.pending);
}

proof fn lemma_lookup_substituted(cfg: Seq<(Seq<char>, Seq<char>)>, key: Seq<char>, s: Seq<char>)
    ensures
        lookup(substituted(cfg, s), key) == match lookup(cfg, key) {
            Some(x) => Some(replaced(x, "${input}"@, s)),
            None => None,
        },
    decreases cfg.len(),
{
    if cfg.len() > 0 {
        assert(substituted(cfg, s).drop_first() =~= substituted(cfg.drop_first(), s));
        lemma_lookup_substituted(cfg.drop_first(), key, s);
    }
}

/// A configuration value that is exactly the placeholder becomes the input.
pub proof fn lemma_placeholder_alone(s: Seq<char>)
    ensures
        replaced("${input}"@, "${input}"@, s) == s,
{
    reveal_strlit("${input}");
    let pat = "${input}"@;
    assert(pat.subrange(0, pat.len() as int) =~= pat);
    assert(pat.subrange(pat.len() as int, pat.len() as int) =~= Seq::<char>::empty());
    assert(replaced(Seq::<char>::empty(), pat, s) == Seq::<char>::empty());
    assert(s + Seq::<char>::empty() =~= s);
}

/// A node whose `key` parameter is just the placeholder, run with input `s`,
/// reads `s` there: an `input` or `output` node so configured hands its input
/// on unchanged, so a chain of them carries a seed input to the end.
pub proof fn lemma_pass_through(n: NodeView, key: Seq<char>, s: Seq<char>)
    requires
        lookup(n.config, key) == Some("${input}"@),
    ensures
        or_empty(lookup(prepared(n, Some(s)).config, key)) == s,
{
    lemma_lookup_substituted(n.config, key, s);
    lemma_placeholder_alone(s);
}

/// Creating the same id-less workflow twice, with both saves succeeding,
/// gives the two workflows distinct ids.
pub proof fn lemma_created_ids_distinct(
    s0: Seq<WorkflowView>,
    s1: Seq<WorkflowView>,
    s2: Seq<WorkflowView>,
    w: WorkflowView,
    id1: Seq<char>,
    now1: i64,
    r1: Result<Workflow, AppError>,
    id2: Seq<char>,
    now2: i64,
    r2: Result<Workflow, AppError>,
)
    requires
        w.id is None,
        save_outcome(s0, s1, w, id1, now1, r1),
        save_outcome(s1, s2, w, id2, now2, r2),
        r1 is Ok,
        r2 is Ok,
    ensures
        r1.unwrap()@.id is Some,
        r2.unwrap()@.id is Some,
        r1.unwrap()@.id != r2.unwrap()@.id,
{
    lemma_wf_index_found(s0, id1);
    lemma_wf_index_found(s1, id2);
    assert(s1[s1.len() - 1].id == Some(id1));
}

/// A successful save leaves the saved workflow first in the listing.
pub proof fn lemma_saved_listed_first(
    before: Seq<WorkflowView>,
    after: Seq<WorkflowView>,
    w: WorkflowView,
    new_id: Seq<char>,
    now: i64,
    r: Result<Workflow, AppError>,
)
    requires
        save_outcome(before, after, w, new_id, now, r),
        r is Ok,
    ensures
        reversed(after).len() > 0,
        reversed(after)[0] == r.unwrap()@,
{
}

/// Saving keeps the ids of the stored workflows present and distinct.
pub proof fn lemma_save_keeps_ids_unique(
    before: Seq<WorkflowView>,
    after: Seq<WorkflowView>,
    w: WorkflowView,
    new_id: Seq<char>,
    now: i64,
    r: Result<Workflow, AppError>,
)
    requires
        ids_unique(before),
        save_outcome(before, after, w, new_id, now, r),
    ensures
        ids_unique(after),
{
    match w.id {
        Some(id) => {
            lemma_wf_index_found(before, id);
            match wf_index(before, id) {
                Some(k) => {
                    let mid = before.remove(k);
                    assert forall|i: int| 0 <= i < mid.len() implies (#[trigger] mid[i]).id != Some(
                        id,
                    ) && mid[i].id is Some by {
                        if i < k {
                            assert(mid[i] == before[i]);
                        } else {
                            assert(mid[i] == before[i + 1]);
                        }
                    }
                    assert forall|i: int, j: int|
                        0 <= i < after.len() && 0 <= j < after.len() && i != j implies (
                        #[trigger] after[i]).id != (#[trigger] after[j]).id by {
                        if i < mid.len() && j < mid.len() {
                            let bi = if i < k {
                                i
                            } else {
                                i + 1
                            };
                            let bj = if j < k {
                                j
                            } else {
                                j + 1
                            };
                            assert(mid[i] == before[bi]);
                            assert(mid[j] == before[bj]);
                        } else if i < mid.len() {
                            assert(after[i] == mid[i]);
                        } else {
                            assert(after[j] == mid[j]);
                        }
                    }
                },
                None => {},
            }
        },
        None => {
            lemma_wf_index_found(before, new_id);
        },
    }
}

/// Deleting an id leaves no workflow of that id in the listing and keeps
/// every other workflow; deleting an id that is not stored is NotFound.
pub proof fn lemma_deleted_not_listed(
    before: Seq<WorkflowView>,
    after: Seq<WorkflowView>,
    id: Seq<char>,
    r: Result<(), AppError>,
)
    requires
        delete_outcome(before, after, id, r),
    ensures
        forall|i: int| 0 <= i < reversed(after).len() ==> reversed(after)[i].id != Some(id),
        forall|i: int|
            0 <= i < before.len() && (#[trigger] before[i]).id != Some(id) ==> reversed(
                after,
            ).contains(before[i]),
        wf_index(before, id) is None <==> r matches Err(AppError::NotFound(_)),
{
    lemma_wf_index_found(before, id);
    lemma_without_id(before, id);
    assert forall|i: int| 0 <= i < reversed(after).len() implies reversed(after)[i].id != Some(
        id,
    ) by {
        assert(reversed(after)[i] == after[after.len() - 1 - i]);
    }
    assert forall|i: int|
        0 <= i < before.len() && (#[trigger] before[i]).id != Some(id) implies reversed(
        after,
    ).contains(before[i]) by {
        let j = choose|j: int| 0 <= j < after.len() && after[j] == before[i];
        assert(reversed(after)[after.len() - 1 - j] == after[j]);
    }
}

/// The history of a workflow holds only its own records, and a record just
/// appended for it comes first.
pub proof fn lemma_history_newest_first(es: Seq<ExecutionView>, id: Seq<char>, e: ExecutionView)
    requires
        e.workflow_id == id,
    ensures
        forall|i: int|
            0 <= i < newest_first(es, id).len() ==> (#[trigger] newest_first(es, id)[i]).workflow_id
                == id,
        newest_first(es.push(e), id) == seq![e] + newest_first(es, id),
{
    lemma_history_only_matching(es, id);
    assert(es.push(e).drop_last() =~= es);
}

proof fn lemma_history_only_matching(es: Seq<ExecutionView>, id: Seq<char>)
    ensures
        forall|i: int|
            0 <= i < newest_first(es, id).len() ==> (#[trigger] newest_first(es, id)[i]).workflow_id
                == id,
    decreases es.len(),
{
    if es.len() > 0 {
        lemma_history_only_matching(es.drop_last(), id);
        if es.last().workflow_id == id {
            let rest = newest_first(es.drop_last(), id);
            assert forall|i: int| 0 <= i < newest_first(es, id).len() implies (#[trigger] newest_first(
                es,
                id,
            )[i]).workflow_id == id by {
                if i > 0 {
                    assert(newest_first(es, id)[i] == rest[i - 1]);
                } else {
                    assert(newest_first(es, id)[0] == es.last());
                }
            }
        } else {
            assert(newest_first(es, id) == newest_first(es.drop_last(), id));
        }
    }
}

/// One node's stretch of the run's log opens with its `node_start` entry and
/// closes with its `node_complete` entry.
pub proof fn lemma_segment_framed(n: NodeView, started: i64, logs: Seq<LogView>, finished: i64)
    ensures
        node_segment(n, started, logs, finished).len() == logs.len() + 2,
        node_segment(n, started, logs, finished)[0].data == start_view(n),
        node_segment(n, started, logs, finished)[0].data.kind == "node_start"@,
        node_segment(n, started, logs, finished).last().data == complete_view(n),
        node_segment(n, started, logs, finished).last().data.kind == "node_complete"@,
        node_segment(n, started, logs, finished)[0].data.node_id == n.id,
        node_segment(n, started, logs, finished).last().data.node_id == n.id,
{
}

/// A recorded run's duration is never negative, and the record is filed
/// with status `completed` and the run's log.
pub proof fn lemma_recorded_duration(
    id: Seq<char>,
    workflow_id: Option<Seq<char>>,
    logs: Seq<LogView>,
    start: i64,
    end: i64,
)
    ensures
        execution_view(id, workflow_id, logs, start, end).duration >= 0,
        start <= end && end - start <= i64::MAX ==> execution_view(id, workflow_id, logs, start, end).duration == end - start,
        execution_view(id, workflow_id, logs, start, end).status == "completed"@,
        execution_view(id, workflow_id, logs, start, end).logs == logs,
{
}

/// `nodes` joined by `edges` into one chain: edge `i` leads from node `i` to
/// node `i + 1`, and no two nodes share an id.
pub open spec fn is_chain(nodes: Seq<NodeView>, edges: Seq<EdgeView>) -> bool {
    &&& nodes.len() >= 1
    &&& edges.len() + 1 == nodes.len()
    &&& forall|i: int|
        0 <= i < edges.len() ==> (#[trigger] edges[i]).source == nodes[i].id && edges[i].target
            == nodes[i + 1].id
    &&& forall|i: int, j: int|
        0 <= i < nodes.len() && 0 <= j < nodes.len() && i != j ==> (#[trigger] nodes[i]).id != (
        #[trigger] nodes[j]).id
}

/// A run driven for `fuel` steps as `Scheduler::next_node` and
/// `Scheduler::complete_node` drive it, where a node handed out as `n`
/// completes with output `f(n)`.
pub open spec fn drive(v: SchedulerView, f: spec_fn(NodeView) -> Seq<char>, fuel: nat) -> SchedulerView
    decreases fuel,
{
    if fuel == 0 {
        v
    } else {
        match next_step(v).1 {
            None => next_step(v).0,
            Some(n) => drive(after_complete(next_step(v).0, n, 0, Seq::empty(), f(n), 0), f, (fuel - 1) as nat),
        }
    }
}

/// The output of node `i` of a chain whose first node gets `seed`: each node
/// runs with the output of the one before it as its input.
pub open spec fn chain_output(nodes: Seq<NodeView>, f: spec_fn(NodeView) -> Seq<char>, seed: Seq<char>, i: nat) -> Seq<char>
    decreases i,
{
    let input = if i == 0 {
        seed
    } else {
        chain_output(nodes, f, seed, (i - 1) as nat)
    };
    f(prepared(nodes[i as int], Some(input)))
}

proof fn lemma_chain_entry(nodes: Seq<NodeView>, edges: Seq<EdgeView>, m: int)
    requires
        is_chain(nodes, edges),
        1 <= m <= nodes.len(),
    ensures
        entry_ids(nodes.subrange(0, m), edges) == seq![nodes[0].id],
    decreases m,
{
    let pre = nodes.subrange(0, m);
    assert(pre.drop_last() =~= nodes.subrange(0, m - 1));
    if m == 1 {
        assert(entry_ids(nodes.subrange(0, 0), edges) == Seq::<Seq<char>>::empty()) by {
            assert(nodes.subrange(0, 0).len() == 0);
        }
        assert(!is_target(edges, nodes[0].id)) by {
            assert forall|k: int| 0 <= k < edges.len() implies edges[k].target != nodes[0].id by {
                assert(edges[k].target == nodes[k + 1].id);
            }
        }
        assert(Seq::<Seq<char>>::empty().push(nodes[0].id) =~= seq![nodes[0].id]);
    } else {
        lemma_chain_entry(nodes, edges, m - 1);
        assert(edges[m - 2].target == nodes[m - 1].id);
        assert(is_target(edges, pre.last().id));
    }
}

proof fn lemma_chain_next(nodes: Seq<NodeView>, edges: Seq<EdgeView>, j: int, m: int)
    requires
        is_chain(nodes, edges),
        0 <= j < nodes.len(),
        0 <= m <= edges.len(),
    ensures
        next_layer(edges.subrange(0, m), seq![nodes[j].id]) == if j < m {
            seq![nodes[j + 1].id]
        } else {
            Seq::<Seq<char>>::empty()
        },
    decreases m,
{
    let pre = edges.subrange(0, m);
    if m == 0 {
        assert(pre.len() == 0);
    } else {
        assert(pre.drop_last() =~= edges.subrange(0, m - 1));
        lemma_chain_next(nodes, edges, j, m - 1);
        let e = edges[m - 1];
        assert(pre.last() == e);
        if m - 1 == j {
            assert(seq![nodes[j].id].contains(e.source)) by {
                assert(seq![nodes[j].id][0] == e.source);
            }
            assert(!Seq::<Seq<char>>::empty().contains(e.target));
            assert(Seq::<Seq<char>>::empty().push(e.target) =~= seq![nodes[j + 1].id]);
        } else {
            assert(e.source == nodes[m - 1].id);
            assert(!seq![nodes[j].id].contains(e.source)) by {
                if seq![nodes[j].id].contains(e.source) {
                    let w = choose|w: int| 0 <= w < 1 && seq![nodes[j].id][w] == e.source;
                    assert(seq![nodes[j].id][w] == nodes[j].id);
                }
            }
        }
    }
}

proof fn lemma_chain_successor(nodes: Seq<NodeView>, edges: Seq<EdgeView>, j: int, m: int)
    requires
        is_chain(nodes, edges),
        0 <= j < nodes.len(),
        0 <= m <= edges.len(),
    ensures
        successor(edges.subrange(0, m), nodes[j].id) == if j < m {
            Some(nodes[j + 1].id)
        } else {
            None::<Seq<char>>
        },
    decreases m,
{
    let pre = edges.subrange(0, m);
    if m > 0 {
        assert(pre.drop_last() =~= edges.subrange(0, m - 1));
        lemma_chain_successor(nodes, edges, j, m - 1);
        assert(pre.last() == edges[m - 1]);
        assert(edges[m - 1].source == nodes[m - 1].id);
    }
}

/// Two node lists with the same ids, position by position.
pub open spec fn same_ids(a: Seq<NodeView>, b: Seq<NodeView>) -> bool {
    a.len() == b.len() && forall|i: int| 0 <= i < a.len() ==> (#[trigger] a[i]).id == b[i].id
}

proof fn lemma_index_by_ids(a: Seq<NodeView>, b: Seq<NodeView>, id: Seq<char>)
    requires
        same_ids(a, b),
    ensures
        node_index(a, id) == node_index(b, id),
    decreases a.len(),
{
    if a.len() > 0 {
        assert(a.drop_last()[0 as int].id == a[0].id || a.len() == 1);
        assert(same_ids(a.drop_last(), b.drop_last())) by {
            assert forall|i: int| 0 <= i < a.len() - 1 implies (#[trigger] a.drop_last()[i]).id
                == b.drop_last()[i].id by {
                assert(a.drop_last()[i] == a[i]);
                assert(b.drop_last()[i] == b[i]);
            }
        }
        lemma_index_by_ids(a.drop_last(), b.drop_last(), id);
        assert(a.last().id == b.last().id);
    }
}

proof fn lemma_chain_index(nodes: Seq<NodeView>, edges: Seq<EdgeView>, k: int, m: int)
    requires
        is_chain(nodes, edges),
        0 <= k < m <= nodes.len(),
    ensures
        node_index(nodes.subrange(0, m), nodes[k].id) == Some(k),
    decreases m,
{
    let pre = nodes.subrange(0, m);
    assert(pre.drop_last() =~= nodes.subrange(0, m - 1));
    if k < m - 1 {
        lemma_chain_index(nodes, edges, k, m - 1);
    } else {
        lemma_chain_absent(nodes, edges, k, m - 1);
    }
}

proof fn lemma_chain_absent(nodes: Seq<NodeView>, edges: Seq<EdgeView>, k: int, m: int)
    requires
        is_chain(nodes, edges),
        0 <= m <= k < nodes.len(),
    ensures
        node_index(nodes.subrange(0, m), nodes[k].id) is None,
    decreases m,
{
    let pre = nodes.subrange(0, m);
    if m > 0 {
        assert(pre.drop_last() =~= nodes.subrange(0, m - 1));
        lemma_chain_absent(nodes, edges, k, m - 1);
        assert(pre.last() == nodes[m - 1]);
    }
}

/// The state of a chain run after `k` nodes have completed.
pub open spec fn chain_state(
    v: SchedulerView,
    nodes: Seq<NodeView>,
    edges: Seq<EdgeView>,
    f: spec_fn(NodeView) -> Seq<char>,
    seed: Seq<char>,
    k: int,
) -> bool {
    &&& 1 <= k <= nodes.len()
    &&& same_ids(v.nodes, nodes)
    &&& forall|j: int| k <= j < nodes.len() ==> #[trigger] v.nodes[j] == nodes[j]
    &&& v.edges == edges
    &&& v.layer == seq![nodes[k - 1].id]
    &&& v.cursor == 1
    &&& v.ran
    &&& !v.done
    &&& k < nodes.len() ==> latest(v.pending, nodes[k].id) == Some(
        chain_output(nodes, f, seed, (k - 1) as nat),
    )
    &&& nodes[k - 1].kind == "output"@ ==> v.result == chain_output(nodes, f, seed, (k - 1) as nat)
    &&& v.visited.len() == k
    &&& forall|j: int| 0 <= j < k ==> #[trigger] v.visited[j] == nodes[j].id
    &&& !v.cycle
}

proof fn lemma_chain_step(
    v: SchedulerView,
    nodes: Seq<NodeView>,
    edges: Seq<EdgeView>,
    f: spec_fn(NodeView) -> Seq<char>,
    seed: Seq<char>,
    k: int,
)
    requires
        is_chain(nodes, edges),
        chain_state(v, nodes, edges, f, seed, k),
        k < nodes.len(),
    ensures
        next_step(v).1 == Some(prepared(nodes[k], Some(chain_output(nodes, f, seed, (k - 1) as nat)))),
        chain_state(
            after_complete(next_step(v).0, next_step(v).1.unwrap(), 0, Seq::empty(), f(next_step(v).1.unwrap()), 0),
            nodes,
            edges,
            f,
            seed,
            k + 1,
        ),
{
    assert(edges.subrange(0, edges.len() as int) =~= edges);
    assert(nodes.subrange(0, nodes.len() as int) =~= nodes);
    assert(first_runnable(v.nodes, v.layer, 1) is None);
    lemma_chain_next(nodes, edges, k - 1, edges.len() as int);
    let nx = next_layer(v.edges, v.layer);
    assert(nx == seq![nodes[k].id]);
    lemma_chain_index(nodes, edges, k, nodes.len() as int);
    lemma_index_by_ids(v.nodes, nodes, nodes[k].id);
    assert(nx[0] == nodes[k].id);
    assert(first_runnable(v.nodes, nx, 0) == Some(0int));
    assert(!v.visited.contains(nodes[k].id)) by {
        if v.visited.contains(nodes[k].id) {
            let j = choose|j: int| 0 <= j < v.visited.len() && v.visited[j] == nodes[k].id;
            assert(v.visited[j] == nodes[j].id);
        }
    }
    let v2 = SchedulerView { layer: nx, cursor: 0, ran: false, ..v };
    assert(next_step(v) == pick_step(v2, nx, 0));
    let input = chain_output(nodes, f, seed, (k - 1) as nat);
    let n = picked(v2, nx, 0);
    assert(n == prepared(nodes[k], Some(input)));
    let w = next_step(v).0;
    assert(w == after_pick(v2, nx, 0));
    let out = f(n);
    assert(out == chain_output(nodes, f, seed, k as nat));
    let u = after_complete(w, n, 0, Seq::empty(), out, 0);
    lemma_chain_successor(nodes, edges, k, edges.len() as int);
    assert(same_ids(u.nodes, nodes)) by {
        assert forall|i: int| 0 <= i < u.nodes.len() implies (#[trigger] u.nodes[i]).id == nodes[i].id by {
            if i != k {
                assert(u.nodes[i] == v.nodes[i]);
            }
        }
    }
    assert forall|j: int| k + 1 <= j < nodes.len() implies #[trigger] u.nodes[j] == nodes[j] by {
        assert(u.nodes[j] == v.nodes[j]);
    }
    assert(u.visited == v.visited.push(nodes[k].id));
    assert forall|j: int| 0 <= j < k + 1 implies #[trigger] u.visited[j] == nodes[j].id by {
        if j < k {
            assert(u.visited[j] == v.visited[j]);
        }
    }
    if k + 1 < nodes.len() {
        assert(u.pending.last() == (nodes[k + 1].id, out));
    }
}

/// Running a chain with seed input `seed` for as many steps as it has nodes
/// hands each node the output of the one before it, the first node `seed`,
/// and ends with the last node's output as the result when that node is an
/// `output` node.
pub proof fn lemma_chain_run(
    nodes: Seq<NodeView>,
    edges: Seq<EdgeView>,
    f: spec_fn(NodeView) -> Seq<char>,
    seed: Seq<char>,
    v0: SchedulerView,
)
    requires
        is_chain(nodes, edges),
        nodes.last().kind == "output"@,
        v0 == (SchedulerView {
            nodes: nodes,
            edges: edges,
            layer: entry_ids(nodes, edges),
            cursor: 0,
            ran: false,
            pending: seeded(entry_ids(nodes, edges), Some(seed)),
            logs: Seq::empty(),
            result: Seq::empty(),
            done: false,
            visited: Seq::empty(),
            cycle: false,
        }),
    ensures
        drive(v0, f, nodes.len() as nat).result == chain_output(
            nodes,
            f,
            seed,
            (nodes.len() - 1) as nat,
        ),
{
    assert(nodes.subrange(0, nodes.len() as int) =~= nodes);
    assert(edges.subrange(0, edges.len() as int) =~= edges);
    lemma_chain_entry(nodes, edges, nodes.len() as int);
    assert(v0.layer == seq![nodes[0].id]);
    lemma_chain_index(nodes, edges, 0, nodes.len() as int);
    assert(first_runnable(v0.nodes, v0.layer, 0) == Some(0int));
    assert(latest(v0.pending, nodes[0].id) == Some(seed)) by {
        assert(v0.pending.len() == 1);
        assert(v0.pending.last() == (nodes[0].id, seed));
    }
    assert(!v0.visited.contains(nodes[0].id));
    let n = picked(v0, v0.layer, 0);
    assert(next_step(v0) == pick_step(v0, v0.layer, 0));
    assert(n == prepared(nodes[0], Some(seed)));
    let out = f(n);
    assert(out == chain_output(nodes, f, seed, 0));
    let v1 = after_complete(next_step(v0).0, n, 0, Seq::empty(), out, 0);
    lemma_chain_successor(nodes, edges, 0, edges.len() as int);
    assert(same_ids(v1.nodes, nodes)) by {
        assert forall|i: int| 0 <= i < v1.nodes.len() implies (#[trigger] v1.nodes[i]).id == nodes[i].id by {
            if i != 0 {
                assert(v1.nodes[i] == v0.nodes[i]);
            }
        }
    }
    assert forall|j: int| 1 <= j < nodes.len() implies #[trigger] v1.nodes[j] == nodes[j] by {
        assert(v1.nodes[j] == v0.nodes[j]);
    }
    if 1 < nodes.len() {
        assert(v1.pending.last() == (nodes[1].id, out));
    }
    assert(v1.visited == seq![nodes[0].id]);
    assert(chain_state(v1, nodes, edges, f, seed, 1));
    assert(drive(v0, f, nodes.len() as nat) == drive(v1, f, (nodes.len() - 1) as nat));
    lemma_chain_drive(v1, nodes, edges, f, seed, 1);
}

proof fn lemma_chain_drive(
    v: SchedulerView,
    nodes: Seq<NodeView>,
    edges: Seq<EdgeView>,
    f: spec_fn(NodeView) -> Seq<char>,
    seed: Seq<char>,
    k: int,
)
    requires
        is_chain(nodes, edges),
        chain_state(v, nodes, edges, f, seed, k),
    ensures
        nodes.last().kind == "output"@ ==> drive(v, f, (nodes.len() - k) as nat).result
            == chain_output(nodes, f, seed, (nodes.len() - 1) as nat),
    decreases nodes.len() - k,
{
    if k < nodes.len() {
        lemma_chain_step(v, nodes, edges, f, seed, k);
        let n = next_step(v).1.unwrap();
        let u = after_complete(next_step(v).0, n, 0, Seq::empty(), f(n), 0);
        assert(drive(v, f, (nodes.len() - k) as nat) == drive(u, f, (nodes.len() - k - 1) as nat));
        lemma_chain_drive(u, nodes, edges, f, seed, k + 1);
    }
}

/// A node that fails softly (an error entry and an empty output, as
/// `plan_query` gives for a missing parameter) does not stop the run: it
/// completes like any other, and its successor gets the empty text as input.
pub proof fn lemma_soft_error_continues(
    v: SchedulerView,
    n: NodeView,
    started: i64,
    logs: Seq<LogView>,
    output: Seq<char>,
    finished: i64,
    t: Seq<char>,
)
    requires
        output.len() == 0,
        successor(v.edges, n.id) == Some(t),
    ensures
        after_complete(v, n, started, logs, output, finished).done == v.done,
        after_complete(v, n, started, logs, output, finished).cycle == v.cycle,
        latest(after_complete(v, n, started, logs, output, finished).pending, t) == Some(
            Seq::<char>::empty(),
        ),
        after_complete(v, n, started, logs, output, finished).logs == v.logs + node_segment(
            n,
            started,
            logs,
            finished,
        ),
{
    let p = after_complete(v, n, started, logs, output, finished).pending;
    assert(p.drop_last() == v.pending);
    assert(output =~= Seq::<char>::empty());
}

/// Moving on to the next node never touches the run's log.
pub proof fn lemma_next_step_keeps_logs(v: SchedulerView)
    ensures
        next_step(v).0.logs == v.logs,
        next_step(v).0.result == v.result,
{
}

/// One completed node: the node, when it started, what its capability
/// logged, its output, and when it finished.
pub type Completion = (NodeView, i64, Seq<LogView>, Seq<char>, i64);

/// The state after the completions `steps`, in order, from `v`.
pub open spec fn complete_all(v: SchedulerView, steps: Seq<Completion>) -> SchedulerView
    decreases steps.len(),
{
    if steps.len() == 0 {
        v
    } else {
        let c = steps.last();
        after_complete(complete_all(v, steps.drop_last()), c.0, c.1, c.2, c.3, c.4)
    }
}

/// The framed segments of `steps`, one after another.
pub open spec fn segments_of(steps: Seq<Completion>) -> Seq<LogView>
    decreases steps.len(),
{
    if steps.len() == 0 {
        Seq::empty()
    } else {
        let c = steps.last();
        segments_of(steps.drop_last()) + node_segment(c.0, c.1, c.2, c.4)
    }
}

/// A run's log is its starting log followed by one segment per completed
/// node, in the order they completed; each segment opens with the node's
/// `node_start` and closes with its `node_complete` (`lemma_segment_framed`).
pub proof fn lemma_run_log_shape(v: SchedulerView, steps: Seq<Completion>)
    ensures
        complete_all(v, steps).logs == v.logs + segments_of(steps),
    decreases steps.len(),
{
    if steps.len() == 0 {
        assert(v.logs + Seq::<LogView>::empty() =~= v.logs);
    } else {
        lemma_run_log_shape(v, steps.drop_last());
        let c = steps.last();
        assert(v.logs + segments_of(steps.drop_last()) + node_segment(c.0, c.1, c.2, c.4) =~= v.logs
            + segments_of(steps));
    }
}

/// A layer lists each node id at most once, however many edges lead to it;
/// so within one layer no node comes up twice.
pub proof fn lemma_next_layer_distinct(edges: Seq<EdgeView>, layer: Seq<Seq<char>>)
    ensures
        forall|i: int, j: int|
            0 <= i < j < next_layer(edges, layer).len() ==> (#[trigger] next_layer(edges, layer)[i])
                != (#[trigger] next_layer(edges, layer)[j]),
    decreases edges.len(),
{
    if edges.len() > 0 {
        lemma_next_layer_distinct(edges.drop_last(), layer);
        let rest = next_layer(edges.drop_last(), layer);
        let nx = next_layer(edges, layer);
        if layer.contains(edges.last().source) && !rest.contains(edges.last().target) {
            assert forall|i: int, j: int| 0 <= i < j < nx.len() implies (#[trigger] nx[i]) != (
            #[trigger] nx[j]) by {
                if j == rest.len() {
                    assert(nx[j] == edges.last().target);
                    assert(nx[i] == rest[i]);
                } else {
                    assert(nx[i] == rest[i]);
                    assert(nx[j] == rest[j]);
                }
            }
        }
    }
}

} // verus!
