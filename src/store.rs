use vstd::prelude::*;

use crate::error::AppError;
use crate::model::{
    copy_logs, logs_view, opt_view, Execution, ExecutionView, Log, LogView, Workflow, WorkflowView,
};
use crate::text::same_text;

verus! {

/// Relies on `uuid::Uuid::new_v4` and its hyphenated `to_string`: a fresh
/// random identifier. Nothing is promised of its value. (`new_v4` panics
/// only when the operating system's random source fails.)
#[verifier::external_body]
fn new_id() -> (r: String) {
    uuid::Uuid::new_v4().to_string()
}

/// Relies on `chrono::Utc::now` and `DateTime::timestamp_millis`: the current
/// time in milliseconds since the epoch. Nothing is promised of its value.
/// (`Utc::now` panics only when the system clock reads before 1970.)
#[verifier::external_body]
fn now_millis() -> (r: i64) {
    chrono::Utc::now().timestamp_millis()
}

/// The index of the first workflow whose id is `id`.
pub open spec fn wf_index(ws: Seq<WorkflowView>, id: Seq<char>) -> Option<int>
    decreases ws.len(),
{
    if ws.len() == 0 {
        None
    } else {
        match wf_index(ws.drop_last(), id) {
            Some(k) => Some(k),
            None => if ws.last().id == Some(id) {
                Some(ws.len() - 1)
            } else {
                None
            },
        }
    }
}

/// `s` in reverse order.
pub open spec fn reversed<A>(s: Seq<A>) -> Seq<A> {
    Seq::new(s.len(), |i: int| s[s.len() - 1 - i])
}

/// `w` as saved by an update at time `now`.
pub open spec fn stamped_update(w: WorkflowView, now: i64) -> WorkflowView {
    WorkflowView { updated_at: Some(now), ..w }
}

/// `w` as saved by its creation under `id` at time `now`.
pub open spec fn stamped_new(w: WorkflowView, id: Seq<char>, now: i64) -> WorkflowView {
    WorkflowView { id: Some(id), created_at: Some(now), updated_at: Some(now), ..w }
}

pub open spec fn workflows_view(s: Seq<Workflow>) -> Seq<WorkflowView> {
    s.map_values(|w: Workflow| w@)
}

pub open spec fn executions_view(s: Seq<Execution>) -> Seq<ExecutionView> {
    s.map_values(|e: Execution| e@)
}

/// Every stored workflow has an id, and no two share one.
pub open spec fn ids_unique(ws: Seq<WorkflowView>) -> bool {
    &&& forall|i: int| 0 <= i < ws.len() ==> (#[trigger] ws[i]).id is Some
    &&& forall|i: int, j: int|
        0 <= i < ws.len() && 0 <= j < ws.len() && i != j ==> (#[trigger] ws[i]).id != (
        #[trigger] ws[j]).id
}

/// The executions of workflow `id` in `es`, newest (last stored) first.
pub open spec fn newest_first(es: Seq<ExecutionView>, id: Seq<char>) -> Seq<ExecutionView>
    decreases es.len(),
{
    if es.len() == 0 {
        Seq::empty()
    } else if es.last().workflow_id == id {
        seq![es.last()] + newest_first(es.drop_last(), id)
    } else {
        newest_first(es.drop_last(), id)
    }
}

/// What deleting `id` leaves: no workflow with that id, every other
/// workflow, and nothing that was not there before; `ids_unique` is kept.
pub proof fn lemma_without_id(ws: Seq<WorkflowView>, id: Seq<char>)
    ensures
        forall|i: int| 0 <= i < without_id(ws, id).len() ==> (#[trigger] without_id(ws, id)[i]).id
            != Some(id),
        forall|i: int|
            0 <= i < ws.len() && (#[trigger] ws[i]).id != Some(id) ==> without_id(ws, id).contains(
                ws[i],
            ),
        forall|i: int|
            0 <= i < without_id(ws, id).len() ==> ws.contains(#[trigger] without_id(ws, id)[i]),
        ids_unique(ws) ==> ids_unique(without_id(ws, id)),
    decreases ws.len(),
{
    if ws.len() > 0 {
        let t = ws.drop_first();
        lemma_without_id(t, id);
        let w = without_id(t, id);
        let h: Seq<WorkflowView> = if ws[0].id == Some(id) {
            Seq::empty()
        } else {
            seq![ws[0]]
        };
        let r = without_id(ws, id);
        assert(r == h + w);
        assert forall|i: int| 0 <= i < r.len() implies (#[trigger] r[i]).id != Some(id) by {
            if i >= h.len() {
                assert(r[i] == w[i - h.len()]);
            }
        }
        assert forall|i: int| 0 <= i < ws.len() && (#[trigger] ws[i]).id != Some(id) implies r.contains(
            ws[i],
        ) by {
            if i == 0 {
                assert(r[0] == ws[0]);
            } else {
                assert(ws[i] == t[i - 1]);
                let j = choose|j: int| 0 <= j < w.len() && w[j] == t[i - 1];
                assert(r[j + h.len()] == w[j]);
            }
        }
        assert forall|i: int| 0 <= i < r.len() implies ws.contains(#[trigger] r[i]) by {
            if i < h.len() {
                assert(ws[0] == r[i]);
            } else {
                assert(r[i] == w[i - h.len()]);
                let j = choose|j: int| 0 <= j < t.len() && t[j] == w[i - h.len()];
                assert(ws[j + 1] == t[j]);
            }
        }
        if ids_unique(ws) {
            assert(ids_unique(t)) by {
                assert forall|i: int| 0 <= i < t.len() implies (#[trigger] t[i]).id is Some by {
                    assert(t[i] == ws[i + 1]);
                }
                assert forall|i: int, j: int|
                    0 <= i < t.len() && 0 <= j < t.len() && i != j implies (#[trigger] t[i]).id != (
                    #[trigger] t[j]).id by {
                    assert(t[i] == ws[i + 1]);
                    assert(t[j] == ws[j + 1]);
                }
            }
            assert forall|i: int| 0 <= i < r.len() implies (#[trigger] r[i]).id is Some by {
                if i >= h.len() {
                    assert(r[i] == w[i - h.len()]);
                    let j = choose|j: int| 0 <= j < t.len() && t[j] == w[i - h.len()];
                    assert(t[j] == ws[j + 1]);
                } else {
                    assert(r[i] == ws[0]);
                }
            }
            assert forall|i: int, j: int|
                0 <= i < r.len() && 0 <= j < r.len() && i != j implies (#[trigger] r[i]).id != (
                #[trigger] r[j]).id by {
                if i >= h.len() && j >= h.len() {
                    assert(r[i] == w[i - h.len()]);
                    assert(r[j] == w[j - h.len()]);
                } else if i < h.len() && j < h.len() {
                } else {
                    let (a, b) = if i < h.len() {
                        (i, j)
                    } else {
                        (j, i)
                    };
                    assert(r[a] == ws[0]);
                    assert(r[b] == w[b - h.len()]);
                    let k = choose|k: int| 0 <= k < t.len() && t[k] == w[b - h.len()];
                    assert(t[k] == ws[k + 1]);
                }
            }
        }
    }
}

pub proof fn lemma_wf_index_found(ws: Seq<WorkflowView>, id: Seq<char>)
    ensures
        wf_index(ws, id) matches Some(k) ==> 0 <= k < ws.len() && ws[k].id == Some(id),
        wf_index(ws, id) is None ==> forall|i: int| 0 <= i < ws.len() ==> ws[i].id != Some(id),
    decreases ws.len(),
{
    if ws.len() > 0 {
        lemma_wf_index_found(ws.drop_last(), id);
        assert forall|i: int| 0 <= i < ws.len() - 1 implies ws[i] == ws.drop_last()[i] by {}
    }
}

/// How saving `w` at time `now` changes the store from `before` to `after`
/// and what it returns, where `new_id` is the id a new workflow gets.
pub open spec fn save_outcome(
    before: Seq<WorkflowView>,
    after: Seq<WorkflowView>,
    w: WorkflowView,
    new_id: Seq<char>,
    now: i64,
    r: Result<Workflow, AppError>,
) -> bool {
    match w.id {
        Some(id) => match wf_index(before, id) {
            Some(k) => r matches Ok(x) && x@ == stamped_update(w, now) && after == before.remove(
                k,
            ).push(x@),
            None => r matches Err(AppError::NotFound(_)) && after == before,
        },
        None => match wf_index(before, new_id) {
            Some(_) => r matches Err(AppError::Conflict(_)) && after == before,
            None => r matches Ok(x) && x@ == stamped_new(w, new_id, now) && after == before.push(
                x@,
            ),
        },
    }
}

/// How deleting `id` changes the store from `before` to `after`, and what it
/// returns.
pub open spec fn delete_outcome(
    before: Seq<WorkflowView>,
    after: Seq<WorkflowView>,
    id: Seq<char>,
    r: Result<(), AppError>,
) -> bool {
    match wf_index(before, id) {
        Some(_) => r is Ok && after == without_id(before, id),
        None => r matches Err(AppError::NotFound(_)) && after == before,
    }
}

/// `ws` without the workflows whose id is `id`, the others in order.
pub open spec fn without_id(ws: Seq<WorkflowView>, id: Seq<char>) -> Seq<WorkflowView>
    decreases ws.len(),
{
    if ws.len() == 0 {
        Seq::empty()
    } else {
        (if ws[0].id == Some(id) {
            Seq::empty()
        } else {
            seq![ws[0]]
        }) + without_id(ws.drop_first(), id)
    }
}

/// The saved workflows, oldest first. Saving and deleting keep
/// `ids_unique`.
pub struct WorkflowStore {
    pub workflows: Vec<Workflow>,
}

impl View for WorkflowStore {
    type V = Seq<WorkflowView>;

    open spec fn view(&self) -> Seq<WorkflowView> {
        workflows_view(self.workflows@)
    }
}

impl WorkflowStore {
    /// A store holding `workflows`, as loaded from storage.
    pub fn new(workflows: Vec<Workflow>) -> (r: WorkflowStore)
        ensures
            r@ == workflows_view(workflows@),
    {
        WorkflowStore { workflows }
    }

    fn index_of(&self, id: &str) -> (r: Option<usize>)
        ensures
            r matches Some(k) ==> wf_index(self@, id@) == Some(k as int) && k < self@.len(),
            r is None ==> wf_index(self@, id@) is None,
    {
        let ghost ws = self@;
        let mut i: usize = 0;
        assert(ws.subrange(0, 0) =~= Seq::<WorkflowView>::empty());
        while i < self.workflows.len()
            invariant
                ws == self@,
                i <= ws.len(),
                wf_index(ws.subrange(0, i as int), id@) is None,
            decreases self.workflows.len() - i,
        {
            assert(ws.subrange(0, i + 1).drop_last() =~= ws.subrange(0, i as int));
            let found = match &self.workflows[i].id {
                Some(x) => same_text(x.as_str(), id),
                None => false,
            };
            if found {
                proof {
                    lemma_wf_index_prefix(ws, id@, i as int + 1);
                    lemma_wf_index_found(ws, id@);
                }
                return Some(i);
            }
            i = i + 1;
        }
        assert(ws.subrange(0, i as int) =~= ws);
        None
    }

    /// Saves `workflow` at time `now`. With an id, it replaces the stored
    /// workflow of that id and becomes the newest; without one, it is stored
    /// as new under `new_id`. Either way its timestamps are set.
    pub fn create_or_update_at(&mut self, workflow: Workflow, new_id: String, now: i64) -> (r:
        Result<Workflow, AppError>)
        ensures
            save_outcome(old(self)@, final(self)@, workflow@, new_id@, now, r),
            ids_unique(old(self)@) ==> ids_unique(final(self)@),
    {
        let r = self.save_at(workflow, new_id, now);
        proof {
            if ids_unique(old(self)@) {
                crate::laws::lemma_save_keeps_ids_unique(old(self)@, self@, workflow@, new_id@, now, r);
            }
        }
        r
    }

    fn save_at(&mut self, workflow: Workflow, new_id: String, now: i64) -> (r: Result<
        Workflow,
        AppError,
    >)
        ensures
            save_outcome(old(self)@, final(self)@, workflow@, new_id@, now, r),
    {
        let mut workflow = workflow;
        match &workflow.id {
            Some(id) => {
                let id = id.clone();
                workflow.updated_at = Some(now);
                match self.index_of(id.as_str()) {
                    Some(k) => {
                        let saved = workflow.duplicate();
                        let ghost before = self@;
                        self.workflows.remove(k);
                        self.workflows.push(saved);
                        assert(self@ =~= before.remove(k as int).push(workflow@));
                        Ok(workflow)
                    },
                    None => Err(AppError::NotFound(String::from_str("Workflow 不存在: id=").concat(id.as_str()))),
                }
            },
            None => {
                workflow.id = Some(new_id.clone());
                workflow.created_at = Some(now);
                workflow.updated_at = Some(now);
                match self.index_of(new_id.as_str()) {
                    Some(_) => Err(AppError::Conflict(String::from_str("Workflow 已存在: id=").concat(new_id.as_str()))),
                    None => {
                        let saved = workflow.duplicate();
                        let ghost before = self@;
                        self.workflows.push(saved);
                        assert(self@ =~= before.push(workflow@));
                        Ok(workflow)
                    },
                }
            },
        }
    }

    /// Saves `workflow` now, under a fresh random id when it has none; see
    /// `create_or_update_at`.
    pub fn create_or_update(&mut self, workflow: Workflow) -> (r: Result<Workflow, AppError>)
        ensures
            exists|new_id: Seq<char>, now: i64|
                #[trigger] save_outcome(old(self)@, final(self)@, workflow@, new_id, now, r),
            ids_unique(old(self)@) ==> ids_unique(final(self)@),
    {
        let id = new_id();
        let now = now_millis();
        self.create_or_update_at(workflow, id, now)
    }

    /// Removes every workflow with id `id`.
    pub fn delete(&mut self, id: &str) -> (r: Result<(), AppError>)
        ensures
            delete_outcome(old(self)@, final(self)@, id@, r),
            ids_unique(old(self)@) ==> ids_unique(final(self)@),
    {
        let r = self.delete_all(id);
        proof {
            lemma_without_id(old(self)@, id@);
        }
        r
    }

    fn delete_all(&mut self, id: &str) -> (r: Result<(), AppError>)
        ensures
            delete_outcome(old(self)@, final(self)@, id@, r),
    {
        match self.index_of(id) {
            Some(_) => {
                let ghost orig = self@;
                let n = self.workflows.len();
                let mut i: usize = n;
                assert(orig.subrange(0, n as int) =~= orig);
                assert(orig.subrange(n as int, n as int) =~= Seq::<WorkflowView>::empty());
                assert(self@ =~= orig.subrange(0, n as int) + without_id(
                    orig.subrange(n as int, n as int),
                    id@,
                ));
                while i > 0
                    invariant
                        i <= n,
                        n == orig.len(),
                        i <= self.workflows@.len(),
                        self@ == orig.subrange(0, i as int) + without_id(
                            orig.subrange(i as int, n as int),
                            id@,
                        ),
                    decreases i,
                {
                    let ghost tail = orig.subrange(i - 1, n as int);
                    assert(tail.drop_first() =~= orig.subrange(i as int, n as int));
                    assert(tail[0] == orig[i - 1]);
                    assert(self@[i - 1] == orig[i - 1]);
                    let found = match &self.workflows[i - 1].id {
                        Some(x) => same_text(x.as_str(), id),
                        None => false,
                    };
                    let ghost w = without_id(orig.subrange(i as int, n as int), id@);
                    if found {
                        let ghost cur = self@;
                        self.workflows.remove(i - 1);
                        assert(self@ =~= cur.remove(i - 1));
                        assert(self@ =~= orig.subrange(0, i - 1) + w);
                        assert(without_id(tail, id@) =~= w);
                    } else {
                        assert(without_id(tail, id@) =~= seq![orig[i - 1]] + w);
                        assert(self@ =~= orig.subrange(0, i - 1) + without_id(tail, id@));
                    }
                    assert(self@.len() == self.workflows@.len());
                    i = i - 1;
                }
                assert(orig.subrange(0, 0) + without_id(orig.subrange(0, n as int), id@)
                    =~= without_id(orig, id@));
                Ok(())
            },
            None => Err(AppError::NotFound(String::from_str("Workflow 不存在: id=").concat(id))),
        }
    }

    /// The workflows, newest first.
    pub fn list(&self) -> (r: Vec<Workflow>)
        ensures
            workflows_view(r@) == reversed(self@),
    {
        let n = self.workflows.len();
        let mut r: Vec<Workflow> = Vec::new();
        let mut i: usize = 0;
        while i < n
            invariant
                n == self.workflows@.len(),
                i <= n,
                r@.len() == i,
                forall|j: int| 0 <= j < i ==> (#[trigger] r@[j])@ == self@[n - 1 - j],
            decreases n - i,
        {
            r.push(self.workflows[n - 1 - i].duplicate());
            i = i + 1;
        }
        assert(workflows_view(r@) =~= reversed(self@));
        r
    }

    /// The workflow with id `id`.
    pub fn get(&self, id: &str) -> (r: Result<Workflow, AppError>)
        ensures
            match wf_index(self@, id@) {
                Some(k) => r matches Ok(w) && w@ == self@[k],
                None => r matches Err(AppError::NotFound(_)),
            },
    {
        match self.index_of(id) {
            Some(k) => Ok(self.workflows[k].duplicate()),
            None => Err(AppError::NotFound(String::from_str("Workflow 不存在: id=").concat(id))),
        }
    }
}

proof fn lemma_wf_index_prefix(ws: Seq<WorkflowView>, id: Seq<char>, len: int)
    requires
        0 < len <= ws.len(),
        wf_index(ws.subrange(0, len), id) is Some,
    ensures
        wf_index(ws, id) == wf_index(ws.subrange(0, len), id),
    decreases ws.len() - len,
{
    if len < ws.len() {
        assert(ws.subrange(0, len + 1).drop_last() =~= ws.subrange(0, len));
        lemma_wf_index_prefix(ws, id, len + 1);
    } else {
        assert(ws.subrange(0, len) =~= ws);
    }
}

/// The records of completed runs, oldest first.
pub struct ExecutionStore {
    pub executions: Vec<Execution>,
}

impl View for ExecutionStore {
    type V = Seq<ExecutionView>;

    open spec fn view(&self) -> Seq<ExecutionView> {
        executions_view(self.executions@)
    }
}

impl ExecutionStore {
    /// A store holding `executions`, as loaded from storage.
    pub fn new(executions: Vec<Execution>) -> (r: ExecutionStore)
        ensures
            r@ == executions_view(executions@),
    {
        ExecutionStore { executions }
    }

    /// Appends a record.
    pub fn create(&mut self, execution: Execution)
        ensures
            final(self)@ == old(self)@.push(execution@),
    {
        let ghost before = self@;
        self.executions.push(execution);
        assert(self@ =~= before.push(execution@));
    }

    /// The records of workflow `workflow_id`, newest first.
    pub fn get_executions(&self, workflow_id: &str) -> (r: Vec<Execution>)
        ensures
            executions_view(r@) == newest_first(self@, workflow_id@),
    {
        let ghost es = self@;
        let mut r: Vec<Execution> = Vec::new();
        let mut i: usize = self.executions.len();
        assert(es.subrange(0, es.len() as int) =~= es);
        assert(executions_view(r@) + newest_first(es, workflow_id@) =~= newest_first(
            es,
            workflow_id@,
        ));
        while i > 0
            invariant
                es == self@,
                i <= es.len(),
                executions_view(r@) + newest_first(es.subrange(0, i as int), workflow_id@)
                    == newest_first(es, workflow_id@),
            decreases i,
        {
            let ghost sub = es.subrange(0, i as int);
            assert(sub.drop_last() =~= es.subrange(0, i - 1));
            if same_text(self.executions[i - 1].workflow_id.as_str(), workflow_id) {
                let ghost before = executions_view(r@);
                r.push(self.executions[i - 1].duplicate());
                assert(executions_view(r@) =~= before.push(es[i - 1]));
                assert(executions_view(r@) + newest_first(es.subrange(0, i - 1), workflow_id@)
                    =~= before + newest_first(sub, workflow_id@));
            }
            i = i - 1;
        }
        assert(es.subrange(0, 0) =~= Seq::<ExecutionView>::empty());
        assert(executions_view(r@) =~= executions_view(r@) + newest_first(
            es.subrange(0, 0),
            workflow_id@,
        ));
        r
    }
}

/// Milliseconds from `start` to `end`: never negative, even when the clock
/// was set back during the run, and at most `i64::MAX`.
pub open spec fn elapsed(start: i64, end: i64) -> i64 {
    if end <= start {
        0
    } else if end - start > i64::MAX {
        i64::MAX
    } else {
        (end - start) as i64
    }
}

/// The record of a run of the workflow with id `workflow_id` that logged
/// `logs` from `start` to `end`.
pub open spec fn execution_view(
    id: Seq<char>,
    workflow_id: Option<Seq<char>>,
    logs: Seq<LogView>,
    start: i64,
    end: i64,
) -> ExecutionView {
    ExecutionView {
        id: id,
        workflow_id: match workflow_id {
            Some(w) => w,
            None => "unknown"@,
        },
        input: Seq::empty(),
        logs: logs,
        duration: elapsed(start, end),
        status: "completed"@,
        timestamp: start,
    }
}

/// Wraps a finished run into its record; a run of an unsaved workflow is
/// filed under `unknown`.
pub fn make_execution(
    id: String,
    workflow_id: &Option<String>,
    logs: &Vec<Log>,
    start: i64,
    end: i64,
) -> (r: Execution)
    ensures
        r@ == execution_view(id@, opt_view(*workflow_id), logs_view(logs@), start, end),
{
    let wid = match workflow_id {
        Some(w) => w.clone(),
        None => String::from_str("unknown"),
    };
    let span: i128 = end as i128 - start as i128;
    let duration: i64 = if span <= 0 {
        0
    } else if span > i64::MAX as i128 {
        i64::MAX
    } else {
        span as i64
    };
    let r = Execution {
        id,
        workflow_id: wid,
        input: Vec::new(),
        logs: copy_logs(logs),
        duration: duration,
        status: String::from_str("completed"),
        timestamp: start,
    };
    assert(r@.input =~= Seq::<(Seq<char>, Seq<char>)>::empty());
    r
}

/// Records a finished run under a fresh random id.
pub fn record_execution(
    store: &mut ExecutionStore,
    workflow_id: &Option<String>,
    logs: &Vec<Log>,
    start: i64,
    end: i64,
)
    ensures
        final(store)@.len() == old(store)@.len() + 1,
        final(store)@.subrange(0, old(store)@.len() as int) == old(store)@,
        exists|id: Seq<char>|
            final(store)@.last() == execution_view(
                id,
                opt_view(*workflow_id),
                logs_view(logs@),
                start,
                end,
            ),
{
    let id = new_id();
    let e = make_execution(id, workflow_id, logs, start, end);
    store.create(e);
    assert(store@.subrange(0, old(store)@.len() as int) =~= old(store)@);
}

} // verus!
