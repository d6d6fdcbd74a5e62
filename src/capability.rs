use vstd::prelude::*;

use crate::condition::{condition_value, evaluate_condition};
use crate::model::{
    lookup, logs_view, opt_view, pairs_view, Log, LogData, LogDataView, LogView, Node, NodeView,
};
use crate::text::{chars_of, first_at, same_text, split_two, sub_chars, trim_bounds, trimmed};

verus! {

/// The capability a node's kind tag selects.
#[derive(Clone, Copy, Debug, PartialEq, Eq, Structural)]
pub enum NodeKind {
    Input,
    Output,
    Condition,
    HttpRequest,
    LuaScript,
    Postgresql,
    ReadFile,
    WriteFile,
    AiModel,
    /// A tag no capability answers to: the node runs as a no-op.
    Unknown,
}

pub open spec fn kind_of(tag: Seq<char>) -> NodeKind {
    if tag == "input"@ {
        NodeKind::Input
    } else if tag == "output"@ {
        NodeKind::Output
    } else if tag == "condition"@ {
        NodeKind::Condition
    } else if tag == "http-request"@ {
        NodeKind::HttpRequest
    } else if tag == "lua-script"@ {
        NodeKind::LuaScript
    } else if tag == "postgresql"@ {
        NodeKind::Postgresql
    } else if tag == "read-file"@ {
        NodeKind::ReadFile
    } else if tag == "write-file"@ {
        NodeKind::WriteFile
    } else if tag == "ai-model"@ {
        NodeKind::AiModel
    } else {
        NodeKind::Unknown
    }
}

/// The capability selected by the tag `tag`.
pub fn node_kind(tag: &str) -> (r: NodeKind)
    ensures
        r == kind_of(tag@),
{
    if same_text(tag, "input") {
        NodeKind::Input
    } else if same_text(tag, "output") {
        NodeKind::Output
    } else if same_text(tag, "condition") {
        NodeKind::Condition
    } else if same_text(tag, "http-request") {
        NodeKind::HttpRequest
    } else if same_text(tag, "lua-script") {
        NodeKind::LuaScript
    } else if same_text(tag, "postgresql") {
        NodeKind::Postgresql
    } else if same_text(tag, "read-file") {
        NodeKind::ReadFile
    } else if same_text(tag, "write-file") {
        NodeKind::WriteFile
    } else if same_text(tag, "ai-model") {
        NodeKind::AiModel
    } else {
        NodeKind::Unknown
    }
}

/// What a capability hands back: its log entries and its output text.
pub struct NodeOutput {
    pub logs: Vec<Log>,
    pub output: String,
}

pub open spec fn entry(
    kind: Seq<char>,
    n: NodeView,
    node_type: Option<Seq<char>>,
    result: Option<Seq<char>>,
    data: Option<Seq<char>>,
    at: i64,
) -> LogView {
    LogView {
        timestamp: at,
        data: LogDataView { kind: kind, node_id: n.id, node_type, result, data },
    }
}

fn make_entry(
    kind: &str,
    n: &Node,
    node_type: Option<String>,
    result: Option<String>,
    data: Option<String>,
    at: i64,
) -> (r: Log)
    ensures
        r@ == entry(kind@, n@, opt_view(node_type), opt_view(result), opt_view(data), at),
{
    Log {
        timestamp: at,
        data: LogData { kind: String::from_str(kind), node_id: n.id.clone(), node_type, result, data },
    }
}

/// `o`, or the empty text.
pub open spec fn or_empty(o: Option<Seq<char>>) -> Seq<char> {
    match o {
        Some(s) => s,
        None => Seq::empty(),
    }
}

fn unwrap_or_empty(o: Option<String>) -> (r: String)
    ensures
        r@ == or_empty(opt_view(o)),
{
    match o {
        Some(s) => s,
        None => String::new(),
    }
}

fn one_log(l: Log) -> (r: Vec<Log>)
    ensures
        logs_view(r@) == seq![l@],
{
    let mut v: Vec<Log> = Vec::new();
    v.push(l);
    assert(logs_view(v@) =~= seq![l@]);
    v
}

/// The `input` capability: hands on its configured `input` value.
pub fn run_input(node: &Node, at: i64) -> (r: NodeOutput)
    ensures
        logs_view(r.logs@) == seq![
            entry("input"@, node@, None, None, lookup(node@.config, "input"@), at),
        ],
        r.output@ == or_empty(lookup(node@.config, "input"@)),
{
    let value = node.config_get("input");
    let l = make_entry("input", node, None, None, crate::model::copy_opt(&value), at);
    NodeOutput { logs: one_log(l), output: unwrap_or_empty(value) }
}

/// The `output` capability: hands on its configured `output` value, which
/// becomes the run's result.
pub fn run_output(node: &Node, at: i64) -> (r: NodeOutput)
    ensures
        logs_view(r.logs@) == seq![
            entry("output"@, node@, None, None, lookup(node@.config, "output"@), at),
        ],
        r.output@ == or_empty(lookup(node@.config, "output"@)),
{
    let value = node.config_get("output");
    let l = make_entry("output", node, None, None, crate::model::copy_opt(&value), at);
    NodeOutput { logs: one_log(l), output: unwrap_or_empty(value) }
}

/// `"true"` or `"false"`.
pub open spec fn bool_text(b: bool) -> Seq<char> {
    if b {
        "true"@
    } else {
        "false"@
    }
}

/// The `condition` capability: evaluates its `condition` and outputs
/// `"true"` or `"false"`.
pub fn run_condition(node: &Node, at: i64) -> (r: NodeOutput)
    ensures
        ({
            let c = or_empty(lookup(node@.config, "condition"@));
            &&& logs_view(r.logs@) == seq![
                entry("input"@, node@, Some("condition"@), None, Some(c), at),
                entry("output"@, node@, Some("condition"@), None, Some(bool_text(condition_value(c))), at),
            ]
            &&& r.output@ == bool_text(condition_value(c))
        }),
{
    let c = unwrap_or_empty(node.config_get("condition"));
    let first = make_entry(
        "input",
        node,
        Some(String::from_str("condition")),
        None,
        Some(c.clone()),
        at,
    );
    let holds = evaluate_condition(c.as_str());
    let out = if holds {
        String::from_str("true")
    } else {
        String::from_str("false")
    };
    let second = make_entry(
        "output",
        node,
        Some(String::from_str("condition")),
        None,
        Some(out.clone()),
        at,
    );
    let mut logs: Vec<Log> = Vec::new();
    logs.push(first);
    logs.push(second);
    assert(logs_view(logs@) =~= seq![first@, second@]);
    NodeOutput { logs, output: out }
}

/// Runs a node whose capability needs no outside service: `input`,
/// `output`, `condition`, and the no-op of an unknown tag. `None` for the
/// other kinds.
pub fn run_builtin(node: &Node, at: i64) -> (r: Option<NodeOutput>)
    ensures
        r is Some <==> (kind_of(node@.kind) is Input || kind_of(node@.kind) is Output || kind_of(
            node@.kind,
        ) is Condition || kind_of(node@.kind) is Unknown),
        kind_of(node@.kind) is Input ==> (r matches Some(o) && o.output@ == or_empty(
            lookup(node@.config, "input"@),
        ) && logs_view(o.logs@) == seq![
            entry("input"@, node@, None, None, lookup(node@.config, "input"@), at),
        ]),
        kind_of(node@.kind) is Output ==> (r matches Some(o) && o.output@ == or_empty(
            lookup(node@.config, "output"@),
        ) && logs_view(o.logs@) == seq![
            entry("output"@, node@, None, None, lookup(node@.config, "output"@), at),
        ]),
        kind_of(node@.kind) is Condition ==> (r matches Some(o) && ({
            let c = or_empty(lookup(node@.config, "condition"@));
            &&& o.output@ == bool_text(condition_value(c))
            &&& logs_view(o.logs@) == seq![
                entry("input"@, node@, Some("condition"@), None, Some(c), at),
                entry("output"@, node@, Some("condition"@), None, Some(bool_text(condition_value(c))), at),
            ]
        })),
        kind_of(node@.kind) is Unknown ==> (r matches Some(o) && o.logs@.len() == 0
            && o.output@.len() == 0),
{
    match node_kind(node.kind.as_str()) {
        NodeKind::Input => Some(run_input(node, at)),
        NodeKind::Output => Some(run_output(node, at)),
        NodeKind::Condition => Some(run_condition(node, at)),
        NodeKind::Unknown => Some(NodeOutput { logs: Vec::new(), output: String::new() }),
        _ => None,
    }
}

/// What a `postgresql` node asks of the database.
pub struct QueryPlan {
    /// The connection string, `host=.. port=.. dbname=.. user=.. password=..`.
    pub connection: String,
    pub query: String,
    /// The entry that announces the connection attempt.
    pub announce: Log,
}

/// How a database round trip ended.
pub enum QueryOutcome {
    /// The query ran; the text is the JSON envelope of its result.
    Rows(String),
    /// The query failed; the text says why.
    Failed(String),
    /// The query did not finish within its time bound.
    TimedOut,
}

/// The entry that reports a `postgresql` node's error `text`.
pub open spec fn pg_error(n: NodeView, text: Seq<char>, at: i64) -> LogView {
    entry("postgresql-error"@, n, None, None, Some(text), at)
}

fn pg_error_output(node: &Node, text: String, at: i64) -> (r: NodeOutput)
    ensures
        logs_view(r.logs@) == seq![pg_error(node@, text@, at)],
        r.output@.len() == 0,
{
    let l = make_entry("postgresql-error", node, None, None, Some(text), at);
    NodeOutput { logs: one_log(l), output: String::new() }
}

/// The connection string for the given parameters.
pub open spec fn connection_text(
    host: Seq<char>,
    port: Seq<char>,
    db: Seq<char>,
    user: Seq<char>,
    password: Seq<char>,
) -> Seq<char> {
    "host="@ + host + " port="@ + port + " dbname="@ + db + " user="@ + user + " password="@
        + password
}

/// The text that announces a connection attempt.
pub open spec fn announce_text(
    user: Seq<char>,
    host: Seq<char>,
    port: Seq<char>,
    db: Seq<char>,
) -> Seq<char> {
    "正在连接到 PostgreSQL 数据库: "@ + user + "@"@ + host + ":"@ + port + "/"@ + db
}

/// `o`, or `d` when it is absent.
pub open spec fn or_default(o: Option<Seq<char>>, d: Seq<char>) -> Seq<char> {
    match o {
        Some(s) => s,
        None => d,
    }
}

fn value_or(node: &Node, key: &str, d: &str) -> (r: String)
    ensures
        r@ == or_default(lookup(node@.config, key@), d@),
{
    match node.config_get(key) {
        Some(v) => v,
        None => String::from_str(d),
    }
}

/// Reads a `postgresql` node's parameters. A missing `database`, `username`
/// or `query` (checked in that order) yields one error entry and an empty
/// output, which does not stop the run; otherwise the plan to connect, with
/// `host` defaulting to `localhost`, `port` to `5432` and `password` to
/// the empty text.
pub fn plan_query(node: &Node, at: i64) -> (r: Result<QueryPlan, NodeOutput>)
    ensures
        ({
            let cfg = node@.config;
            if lookup(cfg, "database"@) is None {
                r matches Err(o) && logs_view(o.logs@) == seq![
                    pg_error(node@, "数据库名称为空"@, at),
                ] && o.output@.len() == 0
            } else if lookup(cfg, "username"@) is None {
                r matches Err(o) && logs_view(o.logs@) == seq![
                    pg_error(node@, "用户名为空"@, at),
                ] && o.output@.len() == 0
            } else if lookup(cfg, "query"@) is None {
                r matches Err(o) && logs_view(o.logs@) == seq![
                    pg_error(node@, "SQL查询为空"@, at),
                ] && o.output@.len() == 0
            } else {
                r matches Ok(p) && p.query@ == lookup(cfg, "query"@).unwrap() && p.connection@
                    == connection_text(
                    or_default(lookup(cfg, "host"@), "localhost"@),
                    or_default(lookup(cfg, "port"@), "5432"@),
                    lookup(cfg, "database"@).unwrap(),
                    lookup(cfg, "username"@).unwrap(),
                    or_default(lookup(cfg, "password"@), ""@),
                ) && p.announce@ == entry(
                    "postgresql-info"@,
                    node@,
                    None,
                    None,
                    Some(
                        announce_text(
                            lookup(cfg, "username"@).unwrap(),
                            or_default(lookup(cfg, "host"@), "localhost"@),
                            or_default(lookup(cfg, "port"@), "5432"@),
                            lookup(cfg, "database"@).unwrap(),
                        ),
                    ),
                    at,
                )
            }
        }),
{
    let database = match node.config_get("database") {
        Some(d) => d,
        None => {
            return Err(pg_error_output(node, String::from_str("数据库名称为空"), at));
        },
    };
    let username = match node.config_get("username") {
        Some(u) => u,
        None => {
            return Err(pg_error_output(node, String::from_str("用户名为空"), at));
        },
    };
    let query = match node.config_get("query") {
        Some(q) => q,
        None => {
            return Err(pg_error_output(node, String::from_str("SQL查询为空"), at));
        },
    };
    let host = value_or(node, "host", "localhost");
    let port = value_or(node, "port", "5432");
    let password = value_or(node, "password", "");
    let connection = String::from_str("host=").concat(host.as_str()).concat(" port=").concat(
        port.as_str(),
    ).concat(" dbname=").concat(database.as_str()).concat(" user=").concat(
        username.as_str(),
    ).concat(" password=").concat(password.as_str());
    let target = String::from_str("正在连接到 PostgreSQL 数据库: ").concat(
        username.as_str(),
    ).concat("@").concat(host.as_str()).concat(":").concat(port.as_str()).concat("/").concat(
        database.as_str(),
    );
    let announce = make_entry("postgresql-info", node, None, None, Some(target), at);
    Ok(QueryPlan { connection, query, announce })
}

/// The entries and output of a `postgresql` node whose round trip ended with
/// `outcome`: the announcement, then one entry for the outcome. Only rows
/// give an output; neither outcome stops the run.
pub fn query_finished(node: &Node, plan: &QueryPlan, outcome: QueryOutcome, at: i64) -> (r:
    NodeOutput)
    ensures
        r.logs@.len() == 2,
        r.logs@[0]@ == plan.announce@,
        match outcome {
            QueryOutcome::Rows(j) => r.output@ == j@ && r.logs@[1]@ == entry(
                "output"@,
                node@,
                None,
                Some(j@),
                Some(j@),
                at,
            ),
            QueryOutcome::Failed(e) => r.output@.len() == 0 && r.logs@[1]@ == pg_error(
                node@,
                "查询执行失败: "@ + e@,
                at,
            ),
            QueryOutcome::TimedOut => r.output@.len() == 0 && r.logs@[1]@ == pg_error(
                node@,
                "查询超时"@,
                at,
            ),
        },
{
    let (last, output) = match outcome {
        QueryOutcome::Rows(j) => (
            make_entry("output", node, None, Some(j.clone()), Some(j.clone()), at),
            j,
        ),
        QueryOutcome::Failed(e) => (
            make_entry(
                "postgresql-error",
                node,
                None,
                None,
                Some(String::from_str("查询执行失败: ").concat(e.as_str())),
                at,
            ),
            String::new(),
        ),
        QueryOutcome::TimedOut => (
            make_entry(
                "postgresql-error",
                node,
                None,
                None,
                Some(String::from_str("查询超时")),
                at,
            ),
            String::new(),
        ),
    };
    let mut logs: Vec<Log> = Vec::new();
    logs.push(plan.announce.duplicate());
    logs.push(last);
    NodeOutput { logs, output }
}

/// The entry and output of a capability that failed softly with `text`.
fn error_output(node: &Node, kind: &str, text: &str, at: i64) -> (r: NodeOutput)
    ensures
        logs_view(r.logs@) == seq![entry(kind@, node@, None, None, Some(text@), at)],
        r.output@.len() == 0,
{
    let l = make_entry(kind, node, None, None, Some(String::from_str(text)), at);
    NodeOutput { logs: one_log(l), output: String::new() }
}

/// The entry and output of a capability whose outside work gave `outcome`:
/// the text it produced, or `error: ` and the reason it failed.
pub open spec fn outcome_entry(n: NodeView, outcome: Result<Seq<char>, Seq<char>>, at: i64) -> LogView {
    match outcome {
        Ok(t) => entry("output"@, n, None, Some(t), Some(t), at),
        Err(e) => entry("output"@, n, None, None, Some("error: "@ + e), at),
    }
}

pub open spec fn outcome_view(o: Result<String, String>) -> Result<Seq<char>, Seq<char>> {
    match o {
        Ok(t) => Ok(t@),
        Err(e) => Err(e@),
    }
}

pub open spec fn outcome_text(o: Result<Seq<char>, Seq<char>>) -> Seq<char> {
    match o {
        Ok(t) => t,
        Err(e) => "error: "@ + e,
    }
}

fn outcome_output(node: &Node, outcome: Result<String, String>, at: i64) -> (r: NodeOutput)
    ensures
        logs_view(r.logs@) == seq![outcome_entry(node@, outcome_view(outcome), at)],
        r.output@ == outcome_text(outcome_view(outcome)),
{
    match outcome {
        Ok(t) => {
            let l = make_entry("output", node, None, Some(t.clone()), Some(t.clone()), at);
            NodeOutput { logs: one_log(l), output: t }
        },
        Err(e) => {
            let text = String::from_str("error: ").concat(e.as_str());
            let l = make_entry("output", node, None, None, Some(text.clone()), at);
            NodeOutput { logs: one_log(l), output: text }
        },
    }
}

/// A `read-file` node's `path`; without one, an error entry and an empty
/// output.
pub fn plan_read(node: &Node, at: i64) -> (r: Result<String, NodeOutput>)
    ensures
        match lookup(node@.config, "path"@) {
            Some(p) => r matches Ok(x) && x@ == p,
            None => r matches Err(o) && logs_view(o.logs@) == seq![
                entry("read-file-error"@, node@, None, None, Some("path 为空"@), at),
            ] && o.output@.len() == 0,
        },
{
    match node.config_get("path") {
        Some(p) => Ok(p),
        None => Err(error_output(node, "read-file-error", "path 为空", at)),
    }
}

/// The entry and output of a `read-file` node once the read gave `outcome`:
/// the content, or the reason it failed.
pub fn read_finished(node: &Node, outcome: Result<String, String>, at: i64) -> (r: NodeOutput)
    ensures
        logs_view(r.logs@) == seq![outcome_entry(node@, outcome_view(outcome), at)],
        r.output@ == outcome_text(outcome_view(outcome)),
{
    outcome_output(node, outcome, at)
}

/// A `write-file` node's `path` and `content`; without both, an error entry
/// and an empty output.
pub fn plan_write(node: &Node, at: i64) -> (r: Result<(String, String), NodeOutput>)
    ensures
        match (lookup(node@.config, "path"@), lookup(node@.config, "content"@)) {
            (Some(p), Some(c)) => r matches Ok((x, y)) && x@ == p && y@ == c,
            _ => r matches Err(o) && logs_view(o.logs@) == seq![
                entry("write-file-error"@, node@, None, None, Some("path 或 content 为空"@), at),
            ] && o.output@.len() == 0,
        },
{
    match (node.config_get("path"), node.config_get("content")) {
        (Some(p), Some(c)) => Ok((p, c)),
        _ => Err(error_output(node, "write-file-error", "path 或 content 为空", at)),
    }
}

/// The entry and output of a `write-file` node once the write gave
/// `outcome`; the output is always empty.
pub fn write_finished(node: &Node, outcome: Result<(), String>, at: i64) -> (r: NodeOutput)
    ensures
        logs_view(r.logs@) == seq![
            match outcome {
                Ok(_) => entry("output"@, node@, None, Some("文件写入成功"@), Some("文件写入成功"@), at),
                Err(e) => entry("output"@, node@, None, None, Some("error: "@ + e@), at),
            },
        ],
        r.output@.len() == 0,
{
    let l = match outcome {
        Ok(_) => make_entry(
            "output",
            node,
            None,
            Some(String::from_str("文件写入成功")),
            Some(String::from_str("文件写入成功")),
            at,
        ),
        Err(e) => make_entry(
            "output",
            node,
            None,
            None,
            Some(String::from_str("error: ").concat(e.as_str())),
            at,
        ),
    };
    NodeOutput { logs: one_log(l), output: String::new() }
}

/// The entry and output of a `lua-script` node whose script evaluated to the
/// text `value`.
pub fn script_finished(node: &Node, value: String, at: i64) -> (r: NodeOutput)
    ensures
        logs_view(r.logs@) == seq![entry("output"@, node@, None, Some(value@), Some(value@), at)],
        r.output@ == value@,
{
    outcome_output(node, Ok(value), at)
}

/// What an `ai-model` node asks of the inference service.
pub struct ModelRequest {
    pub base_url: String,
    pub api_key: String,
    pub model: String,
    pub prompt: String,
}

/// An `ai-model` node's parameters, each with its default.
pub fn model_request(node: &Node) -> (r: ModelRequest)
    ensures
        r.base_url@ == or_default(lookup(node@.config, "baseUrl"@), "http://222.190.139.186:11436/v1"@),
        r.api_key@ == or_default(lookup(node@.config, "apiKey"@), "None"@),
        r.model@ == or_default(lookup(node@.config, "model"@), "qwen3:14b"@),
        r.prompt@ == or_default(lookup(node@.config, "prompt"@), "你好呀"@),
{
    ModelRequest {
        base_url: value_or(node, "baseUrl", "http://222.190.139.186:11436/v1"),
        api_key: value_or(node, "apiKey", "None"),
        model: value_or(node, "model", "qwen3:14b"),
        prompt: value_or(node, "prompt", "你好呀"),
    }
}

/// The entry of a streamed chunk.
pub open spec fn chunk_entry(n: NodeView, content: Option<Seq<char>>, at: i64) -> LogView {
    entry("ai_response_chunk"@, n, None, None, content, at)
}

/// An `ai-model` node's reply as it streams in: one entry per chunk, and the
/// chunks' text joined.
pub struct ModelReply {
    pub logs: Vec<Log>,
    pub output: String,
}

impl ModelReply {
    /// A reply that has only announced its prompt.
    pub fn start(node: &Node, prompt: &str, at: i64) -> (r: ModelReply)
        ensures
            logs_view(r.logs@) == seq![
                chunk_entry(node@, Some("Input: "@ + prompt@ + "\n\nOutput:"@), at),
            ],
            r.output@.len() == 0,
    {
        let text = String::from_str("Input: ").concat(prompt).concat("\n\nOutput:");
        let l = make_entry("ai_response_chunk", node, None, None, Some(text), at);
        ModelReply { logs: one_log(l), output: String::new() }
    }

    /// Takes in one streamed chunk: its entry is logged, its text appended.
    pub fn add_chunk(&mut self, node: &Node, content: Option<String>, at: i64)
        ensures
            logs_view(final(self).logs@) == logs_view(old(self).logs@).push(
                chunk_entry(node@, opt_view(content), at),
            ),
            final(self).output@ == old(self).output@ + or_empty(opt_view(content)),
    {
        let ghost before = self.logs@;
        let l = make_entry("ai_response_chunk", node, None, None, crate::model::copy_opt(&content), at);
        self.logs.push(l);
        assert(logs_view(self.logs@) =~= logs_view(before).push(l@));
        match content {
            Some(c) => self.output.append(c.as_str()),
            None => {
                assert(self.output@ =~= self.output@ + Seq::<char>::empty());
            },
        }
    }

    /// The reply as the node's entries and output.
    pub fn finish(self) -> (r: NodeOutput)
        ensures
            r.logs@ == self.logs@,
            r.output@ == self.output@,
    {
        NodeOutput { logs: self.logs, output: self.output }
    }
}

/// `line` without a trailing carriage return.
pub open spec fn strip_cr(line: Seq<char>) -> Seq<char> {
    if line.len() > 0 && line.last() == '\r' {
        line.drop_last()
    } else {
        line
    }
}

/// The lines of `s`, each line being `cur` followed by what `s` holds up to
/// its next line feed; a line feed may end with a carriage return before it.
pub open spec fn lines_from(s: Seq<char>, cur: Seq<char>) -> Seq<Seq<char>>
    decreases s.len(),
{
    if s.len() == 0 {
        if cur.len() == 0 {
            Seq::empty()
        } else {
            seq![cur]
        }
    } else if s[0] == '\n' {
        seq![strip_cr(cur)] + lines_from(s.drop_first(), Seq::empty())
    } else {
        lines_from(s.drop_first(), cur.push(s[0]))
    }
}

/// The header that `line` sets: the trimmed text before its first `:` and
/// the trimmed text after it; none without a `:`.
pub open spec fn header_of(line: Seq<char>) -> Seq<(Seq<char>, Seq<char>)> {
    match first_at(line, seq![':'], 0) {
        Some(i) => seq![(trimmed(line.subrange(0, i)), trimmed(line.subrange(i + 1, line.len() as int)))],
        None => Seq::empty(),
    }
}

/// The headers that `lines` set, in order.
pub open spec fn headers_of(lines: Seq<Seq<char>>) -> Seq<(Seq<char>, Seq<char>)>
    decreases lines.len(),
{
    if lines.len() == 0 {
        Seq::empty()
    } else {
        headers_of(lines.drop_last()) + header_of(lines.last())
    }
}

/// The headers of a `headers` parameter: one `Name: Value` per line.
pub open spec fn parsed_headers(text: Seq<char>) -> Seq<(Seq<char>, Seq<char>)> {
    headers_of(lines_from(trimmed(text), Seq::empty()))
}

proof fn lemma_headers_push(lines: Seq<Seq<char>>, l: Seq<char>)
    ensures
        headers_of(lines.push(l)) == headers_of(lines) + header_of(l),
{
    assert(lines.push(l).drop_last() =~= lines);
}

fn header_from_line(line: &Vec<char>, out: &mut Vec<(String, String)>)
    ensures
        pairs_view(final(out)@) == pairs_view(old(out)@) + header_of(line@),
{
    let colon: Vec<char> = vec![':'];
    assert(colon@ =~= seq![':']);
    match crate::text::find_from(line, &colon, 0) {
        Some(i) => {
            assert(crate::text::occurs_at(line@, colon@, i as int));
            assert(i + 1 <= line.len());
            let k = sub_chars(line, 0, i);
            let v = sub_chars(line, i + 1, line.len());
            let (a, b) = trim_bounds(&k);
            let (c, d) = trim_bounds(&v);
            let name = text_of(&k, a, b);
            let value = text_of(&v, c, d);
            let ghost before = out@;
            out.push((name, value));
            assert(pairs_view(out@) =~= pairs_view(before) + header_of(line@));
        },
        None => {
            assert(pairs_view(out@) =~= pairs_view(out@) + header_of(line@));
        },
    }
}

/// The characters `v[lo..hi]` as a string.
fn text_of(v: &Vec<char>, lo: usize, hi: usize) -> (r: String)
    requires
        lo <= hi <= v@.len(),
    ensures
        r@ == v@.subrange(lo as int, hi as int),
{
    let mut r = String::new();
    let mut i: usize = lo;
    while i < hi
        invariant
            lo <= i <= hi <= v@.len(),
            r@ == v@.subrange(lo as int, i as int),
        decreases hi - i,
    {
        let piece = char_text(v[i]);
        r.append(piece.as_str());
        i = i + 1;
        assert(r@ =~= v@.subrange(lo as int, i as int));
    }
    r
}

/// Relies on `char::to_string`: the one-character string of `c`.
#[verifier::external_body]
fn char_text(c: char) -> (r: String)
    ensures
        r@ == seq![c],
{
    c.to_string()
}

/// Splits a `headers` parameter into its headers.
pub fn parse_headers(text: &str) -> (r: Vec<(String, String)>)
    ensures
        pairs_view(r@) == parsed_headers(text@),
{
    let all = chars_of(text);
    let (a, b) = trim_bounds(&all);
    let s = sub_chars(&all, a, b);
    let ghost t = s@;
    let mut out: Vec<(String, String)> = Vec::new();
    let mut cur: Vec<char> = Vec::new();
    let ghost done: Seq<Seq<char>> = Seq::empty();
    let mut i: usize = 0;
    assert(t.subrange(0, t.len() as int) =~= t);
    assert(done + lines_from(t, Seq::empty()) =~= lines_from(t, Seq::empty()));
    assert(pairs_view(out@) =~= headers_of(done));
    while i < s.len()
        invariant
            t == s@,
            t == trimmed(text@),
            i <= t.len(),
            pairs_view(out@) == headers_of(done),
            done + lines_from(t.subrange(i as int, t.len() as int), cur@) == lines_from(
                t,
                Seq::empty(),
            ),
        decreases s.len() - i,
    {
        let ghost rest = t.subrange(i as int, t.len() as int);
        assert(rest.drop_first() =~= t.subrange(i + 1, t.len() as int));
        if s[i] == '\n' {
            let line = strip_cr_exec(&cur);
            header_from_line(&line, &mut out);
            proof {
                lemma_headers_push(done, line@);
                assert(done.push(line@) + lines_from(t.subrange(i + 1, t.len() as int), Seq::empty())
                    =~= done + (seq![line@] + lines_from(t.subrange(i + 1, t.len() as int), Seq::empty())));
                done = done.push(line@);
            }
            cur = Vec::new();
        } else {
            cur.push(s[i]);
        }
        i = i + 1;
    }
    assert(t.subrange(i as int, t.len() as int) =~= Seq::<char>::empty());
    if cur.len() > 0 {
        header_from_line(&cur, &mut out);
        proof {
            lemma_headers_push(done, cur@);
            assert(done + seq![cur@] =~= done.push(cur@));
        }
    } else {
        assert(done + Seq::<Seq<char>>::empty() =~= done);
    }
    out
}

fn strip_cr_exec(cur: &Vec<char>) -> (r: Vec<char>)
    ensures
        r@ == strip_cr(cur@),
{
    if cur.len() > 0 && cur[cur.len() - 1] == '\r' {
        sub_chars(cur, 0, cur.len() - 1)
    } else {
        sub_chars(cur, 0, cur.len())
    }
}

/// What an `http-request` node sends.
pub struct HttpPlan {
    pub url: String,
    pub method: String,
    pub headers: Vec<(String, String)>,
    pub body: String,
}

/// Reads an `http-request` node's parameters: `method` defaults to `GET`,
/// `headers` and `body` to the empty text. Without a `url`, an error entry
/// and an empty output.
pub fn plan_request(node: &Node, at: i64) -> (r: Result<HttpPlan, NodeOutput>)
    ensures
        match lookup(node@.config, "url"@) {
            Some(u) => r matches Ok(p) && p.url@ == u && p.method@ == or_default(
                lookup(node@.config, "method"@),
                "GET"@,
            ) && pairs_view(p.headers@) == parsed_headers(
                or_default(lookup(node@.config, "headers"@), ""@),
            ) && p.body@ == or_default(lookup(node@.config, "body"@), ""@),
            None => r matches Err(o) && logs_view(o.logs@) == seq![
                entry("http-request-error"@, node@, None, None, Some("url 为空"@), at),
            ] && o.output@.len() == 0,
        },
{
    match node.config_get("url") {
        None => Err(error_output(node, "http-request-error", "url 为空", at)),
        Some(url) => {
            let method = value_or(node, "method", "GET");
            let raw = value_or(node, "headers", "");
            let body = value_or(node, "body", "");
            Ok(HttpPlan { url, method, headers: parse_headers(raw.as_str()), body })
        },
    }
}

/// The entry and output of an `http-request` node once the request gave
/// `outcome`: the response text, or the reason it failed.
pub fn request_finished(node: &Node, outcome: Result<String, String>, at: i64) -> (r: NodeOutput)
    ensures
        logs_view(r.logs@) == seq![outcome_entry(node@, outcome_view(outcome), at)],
        r.output@ == outcome_text(outcome_view(outcome)),
{
    outcome_output(node, outcome, at)
}

} // verus!
