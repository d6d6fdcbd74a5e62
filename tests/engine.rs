use flow_engine::capability::{plan_query, query_finished, run_builtin, run_condition, QueryOutcome};
use flow_engine::condition::evaluate_condition;
use flow_engine::model::{Edge, Log, Node, Position, Workflow};
use flow_engine::scheduler::Scheduler;
use flow_engine::store::{make_execution, ExecutionStore};
use flow_engine::text::replace_all;

fn node(id: &str, kind: &str, config: &[(&str, &str)]) -> Node {
    Node {
        id: id.to_string(),
        kind: kind.to_string(),
        position: Position { x_bits: 0, y_bits: 0 },
        config: config.iter().map(|(k, v)| (k.to_string(), v.to_string())).collect(),
        label: None,
    }
}

fn edge(s: &str, t: &str) -> Edge {
    Edge { source: s.to_string(), target: t.to_string(), source_handle: None }
}

fn workflow(nodes: Vec<Node>, edges: Vec<Edge>) -> Workflow {
    Workflow {
        id: None,
        name: "w".to_string(),
        nodes,
        edges,
        created_at: None,
        updated_at: None,
    }
}

/// Runs a graph of built-in capabilities to the end; returns the result, the
/// log and the ids of the nodes in the order they ran.
fn run(w: Workflow, seed: Option<&str>) -> (String, Vec<Log>, Vec<String>) {
    let (result, logs, order, cycle) = run_full(w, seed);
    assert!(!cycle);
    (result, logs, order)
}

fn run_full(w: Workflow, seed: Option<&str>) -> (String, Vec<Log>, Vec<String>, bool) {
    let mut s = Scheduler::new(w, seed.map(|x| x.to_string()));
    let mut order = Vec::new();
    let mut t: i64 = 0;
    while let Some(n) = s.next_node() {
        order.push(n.id.clone());
        let out = run_builtin(&n, t + 1).expect("built-in capability");
        s.complete_node(&n, t, out.logs, out.output, t + 2);
        t += 3;
    }
    (s.result(), s.logs.clone(), order, s.cycle_detected())
}

#[test]
fn condition_greater_than() {
    assert!(evaluate_condition("3>2"));
}

#[test]
fn condition_text_equality() {
    assert!(!evaluate_condition("a==b"));
    assert!(evaluate_condition(" a == a "));
}

#[test]
fn condition_literal_any_case() {
    assert!(evaluate_condition("TRUE"));
    assert!(!evaluate_condition("False"));
}

#[test]
fn condition_unparsable_is_false() {
    assert!(!evaluate_condition("hello world"));
    assert!(!evaluate_condition("x > 2"));
    assert!(!evaluate_condition(""));
}

#[test]
fn condition_inequality_and_less_than() {
    assert!(evaluate_condition("a!=b"));
    assert!(evaluate_condition("1.5 < 2"));
    assert!(!evaluate_condition("-3 > -2.5"));
    assert!(evaluate_condition("-0.25<0"));
}

#[test]
fn condition_reads_float_syntax() {
    assert!(evaluate_condition("1e3>2"));
    assert!(evaluate_condition("1E-2 < 0.02"));
    assert!(evaluate_condition(".5 < 1"));
    assert!(evaluate_condition("1. > 0.99"));
    assert!(evaluate_condition("-1.5e+1 < -14"));
    assert!(!evaluate_condition("0.10 > 0.1"));
    assert!(!evaluate_condition("0.10 < 0.1"));
    assert!(evaluate_condition("12345678901234567890123 > 1234567890123456789012"));
}

#[test]
fn condition_infinity_and_nan() {
    assert!(evaluate_condition("inf > 1e308"));
    assert!(evaluate_condition("-Infinity < -1e300"));
    assert!(!evaluate_condition("nan > 1"));
    assert!(!evaluate_condition("NaN < 1"));
    assert!(!evaluate_condition("inf > INF"));
}

#[test]
fn condition_malformed_numbers_are_false() {
    assert!(!evaluate_condition("1e > 0"));
    assert!(!evaluate_condition(". > -1"));
    assert!(!evaluate_condition("1.2.3 > 1"));
    assert!(!evaluate_condition("0x10 > 1"));
}

#[test]
fn condition_zero_signs_equal() {
    assert!(!evaluate_condition("-0 < 0"));
    assert!(!evaluate_condition("0.000 > -0e5"));
}

#[test]
fn condition_two_operators_is_false() {
    assert!(!evaluate_condition("a==b==c"));
    assert!(!evaluate_condition("1>2>3"));
}

#[test]
fn condition_node_outputs_text() {
    let n = node("c", "condition", &[("condition", "10 > 9")]);
    let out = run_condition(&n, 5);
    assert_eq!(out.output, "true");
    assert_eq!(out.logs.len(), 2);
    assert_eq!(out.logs[0].data.kind, "input");
    assert_eq!(out.logs[1].data.data.as_deref(), Some("true"));
}

#[test]
fn replace_placeholder() {
    assert_eq!(replace_all("a${input}b${input}", "${input}", "X"), "aXbX");
    assert_eq!(replace_all("${input", "${input}", "X"), "${input");
}

#[test]
fn chain_carries_seed_to_output() {
    let w = workflow(
        vec![
            node("in", "input", &[("input", "${input}")]),
            node("out", "output", &[("output", "${input}")]),
        ],
        vec![edge("in", "out")],
    );
    let (result, _, order) = run(w, Some("hello"));
    assert_eq!(result, "hello");
    assert_eq!(order, vec!["in".to_string(), "out".to_string()]);
}

#[test]
fn chain_applies_each_transform() {
    let w = workflow(
        vec![
            node("in", "input", &[("input", "${input}")]),
            node("mid", "input", &[("input", "<${input}>")]),
            node("out", "output", &[("output", "[${input}]")]),
        ],
        vec![edge("in", "mid"), edge("mid", "out")],
    );
    let (result, _, _) = run(w, Some("s"));
    assert_eq!(result, "[<s>]");
}

#[test]
fn condition_feeds_output() {
    let w = workflow(
        vec![
            node("in", "input", &[("input", "${input}")]),
            node("c", "condition", &[("condition", "${input} > 2")]),
            node("out", "output", &[("output", "${input}")]),
        ],
        vec![edge("in", "c"), edge("c", "out")],
    );
    assert_eq!(run(w.clone(), Some("3")).0, "true");
    assert_eq!(run(w, Some("1")).0, "false");
}

#[test]
fn last_edge_from_a_source_wins() {
    let w = workflow(
        vec![
            node("a", "input", &[("input", "x")]),
            node("b", "output", &[("output", "b:${input}")]),
            node("c", "output", &[("output", "c:${input}")]),
        ],
        vec![edge("a", "b"), edge("a", "c")],
    );
    let (result, _, order) = run(w, None);
    assert_eq!(order, vec!["a".to_string(), "b".to_string(), "c".to_string()]);
    assert_eq!(result, "c:x");
}

#[test]
fn dangling_edge_is_skipped() {
    let w = workflow(
        vec![node("a", "input", &[("input", "v")])],
        vec![edge("a", "ghost")],
    );
    let (_, logs, order) = run(w, None);
    assert_eq!(order, vec!["a".to_string()]);
    assert_eq!(logs.len(), 3);
}

#[test]
fn single_input_run_is_recorded_once() {
    let w = workflow(vec![node("only", "input", &[("input", "v")])], vec![]);
    let (result, logs, _) = run(w, None);
    assert_eq!(result, "");
    assert_eq!(logs.first().unwrap().data.kind, "node_start");
    assert_eq!(logs.last().unwrap().data.kind, "node_complete");
    assert_eq!(logs[1].data.kind, "input");
    let mut store = ExecutionStore::new(Vec::new());
    let e = make_execution("e1".to_string(), &Some("wf".to_string()), &logs, 100, 130);
    store.create(e);
    assert_eq!(store.executions.len(), 1);
    assert_eq!(store.executions[0].duration, 30);
    assert!(store.executions[0].duration >= 0);
    assert_eq!(store.executions[0].status, "completed");
    assert_eq!(store.executions[0].logs.len(), 3);
}

#[test]
fn unsaved_workflow_recorded_as_unknown() {
    let e = make_execution("e".to_string(), &None, &Vec::new(), 5, 5);
    assert_eq!(e.workflow_id, "unknown");
    assert_eq!(e.duration, 0);
}

#[test]
fn postgres_missing_query_logs_one_error() {
    let n = node("pg", "postgresql", &[("database", "d"), ("username", "u")]);
    match plan_query(&n, 7) {
        Err(out) => {
            assert_eq!(out.logs.len(), 1);
            assert_eq!(out.logs[0].data.kind, "postgresql-error");
            assert_eq!(out.output, "");
        }
        Ok(_) => panic!("expected an error entry"),
    }
}

#[test]
fn postgres_missing_database_first() {
    let n = node("pg", "postgresql", &[]);
    let out = plan_query(&n, 1).err().unwrap();
    assert_eq!(out.logs[0].data.data.as_deref(), Some("数据库名称为空"));
}

#[test]
fn postgres_plan_uses_defaults() {
    let n = node("pg", "postgresql", &[("database", "d"), ("username", "u"), ("query", "select 1")]);
    let p = plan_query(&n, 1).ok().unwrap();
    assert_eq!(p.connection, "host=localhost port=5432 dbname=d user=u password=");
    assert_eq!(p.query, "select 1");
    assert_eq!(p.announce.data.node_id, "pg");
    assert_eq!(p.announce.data.data.as_deref(), Some("正在连接到 PostgreSQL 数据库: u@localhost:5432/d"));
    let out = query_finished(&n, &p, QueryOutcome::TimedOut, 2);
    assert_eq!(out.logs.len(), 2);
    assert_eq!(out.output, "");
    let out = query_finished(&n, &p, QueryOutcome::Rows("{}".to_string()), 2);
    assert_eq!(out.output, "{}");
}

#[test]
fn cycle_ends_the_run() {
    let w = workflow(
        vec![
            node("start", "input", &[("input", "x")]),
            node("a", "input", &[("input", "${input}")]),
            node("b", "input", &[("input", "${input}")]),
        ],
        vec![edge("start", "a"), edge("a", "b"), edge("b", "a")],
    );
    let (_, _, order, cycle) = run_full(w, None);
    assert!(cycle);
    assert_eq!(order, vec!["start".to_string(), "a".to_string(), "b".to_string()]);
}

#[test]
fn acyclic_run_reports_no_cycle() {
    let w = workflow(
        vec![node("a", "input", &[]), node("b", "output", &[("output", "${input}")])],
        vec![edge("a", "b")],
    );
    let (_, _, _, cycle) = run_full(w, Some("s"));
    assert!(!cycle);
}

#[test]
fn clock_set_back_gives_zero_duration() {
    let e = make_execution("e".to_string(), &None, &Vec::new(), 50, 20);
    assert_eq!(e.duration, 0);
    let e = make_execution("e".to_string(), &None, &Vec::new(), i64::MIN, i64::MAX);
    assert_eq!(e.duration, i64::MAX);
}

#[test]
fn parallel_edges_run_target_once() {
    let w = workflow(
        vec![
            node("a", "input", &[("input", "v")]),
            node("d", "output", &[("output", "${input}")]),
        ],
        vec![edge("a", "d"), edge("a", "d")],
    );
    let (result, _, order) = run(w, None);
    assert_eq!(order, vec!["a".to_string(), "d".to_string()]);
    assert_eq!(result, "v");
}

#[test]
fn diamond_runs_join_once() {
    let w = workflow(
        vec![
            node("a", "input", &[("input", "x")]),
            node("b", "input", &[("input", "b${input}")]),
            node("c", "input", &[("input", "c${input}")]),
            node("d", "output", &[("output", "[${input}]")]),
        ],
        vec![edge("a", "b"), edge("a", "c"), edge("b", "d"), edge("c", "d")],
    );
    let (result, _, order) = run(w, None);
    assert_eq!(order, vec!["a".to_string(), "b".to_string(), "c".to_string(), "d".to_string()]);
    assert_eq!(result, "[cx]");
}
