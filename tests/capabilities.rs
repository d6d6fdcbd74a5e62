use flow_engine::capability::{
    model_request, node_kind, parse_headers, plan_read, plan_request, plan_write, read_finished,
    request_finished, run_builtin, script_finished, write_finished, ModelReply, NodeKind,
};
use flow_engine::model::{Node, Position};

fn node(kind: &str, config: &[(&str, &str)]) -> Node {
    Node {
        id: "n".to_string(),
        kind: kind.to_string(),
        position: Position { x_bits: 0, y_bits: 0 },
        config: config.iter().map(|(k, v)| (k.to_string(), v.to_string())).collect(),
        label: Some("label".to_string()),
    }
}

#[test]
fn kinds_by_tag() {
    assert_eq!(node_kind("http-request"), NodeKind::HttpRequest);
    assert_eq!(node_kind("ai-model"), NodeKind::AiModel);
    assert_eq!(node_kind("Input"), NodeKind::Unknown);
}

#[test]
fn unknown_kind_is_no_op() {
    let out = run_builtin(&node("mystery", &[]), 0).unwrap();
    assert!(out.logs.is_empty());
    assert_eq!(out.output, "");
    assert!(run_builtin(&node("postgresql", &[]), 0).is_none());
}

#[test]
fn input_without_value_outputs_empty() {
    let out = run_builtin(&node("input", &[]), 3).unwrap();
    assert_eq!(out.output, "");
    assert_eq!(out.logs[0].data.data, None);
    assert_eq!(out.logs[0].timestamp, 3);
}

#[test]
fn headers_one_per_line() {
    let h = parse_headers("  Accept: text/plain\r\nX-Key :  v:1 \nbroken line\n");
    assert_eq!(
        h,
        vec![
            ("Accept".to_string(), "text/plain".to_string()),
            ("X-Key".to_string(), "v:1".to_string()),
        ]
    );
    assert!(parse_headers("   ").is_empty());
}

#[test]
fn http_plan_defaults() {
    let p = plan_request(&node("http-request", &[("url", "http://x")]), 0).ok().unwrap();
    assert_eq!(p.method, "GET");
    assert!(p.headers.is_empty());
    assert_eq!(p.body, "");
    let e = plan_request(&node("http-request", &[]), 0).err().unwrap();
    assert_eq!(e.logs[0].data.kind, "http-request-error");
    assert_eq!(e.output, "");
}

#[test]
fn http_failure_becomes_text() {
    let n = node("http-request", &[("url", "u")]);
    let out = request_finished(&n, Err("refused".to_string()), 1);
    assert_eq!(out.output, "error: refused");
    let out = request_finished(&n, Ok("body".to_string()), 1);
    assert_eq!(out.output, "body");
    assert_eq!(out.logs[0].data.result.as_deref(), Some("body"));
}

#[test]
fn file_nodes() {
    assert_eq!(plan_read(&node("read-file", &[("path", "/p")]), 0).ok().unwrap(), "/p");
    assert_eq!(plan_read(&node("read-file", &[]), 0).err().unwrap().logs[0].data.kind, "read-file-error");
    assert_eq!(read_finished(&node("read-file", &[]), Err("gone".to_string()), 0).output, "error: gone");
    assert!(plan_write(&node("write-file", &[("path", "/p")]), 0).is_err());
    let (p, c) = plan_write(&node("write-file", &[("path", "/p"), ("content", "c")]), 0).ok().unwrap();
    assert_eq!((p.as_str(), c.as_str()), ("/p", "c"));
    let out = write_finished(&node("write-file", &[]), Ok(()), 0);
    assert_eq!(out.output, "");
    assert_eq!(out.logs[0].data.data.as_deref(), Some("文件写入成功"));
}

#[test]
fn script_result_is_output() {
    let out = script_finished(&node("lua-script", &[]), "42".to_string(), 9);
    assert_eq!(out.output, "42");
}

#[test]
fn model_defaults_and_chunks() {
    let n = node("ai-model", &[("model", "m")]);
    let req = model_request(&n);
    assert_eq!(req.model, "m");
    assert_eq!(req.api_key, "None");
    let mut reply = ModelReply::start(&n, "hi", 0);
    reply.add_chunk(&n, Some("Hel".to_string()), 1);
    reply.add_chunk(&n, None, 2);
    reply.add_chunk(&n, Some("lo".to_string()), 3);
    let out = reply.finish();
    assert_eq!(out.output, "Hello");
    assert_eq!(out.logs.len(), 4);
    assert_eq!(out.logs[0].data.data.as_deref(), Some("Input: hi\n\nOutput:"));
}
