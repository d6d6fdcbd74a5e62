use flow_engine::auth::{authenticate_user, register_user, screen_registration, RegisterRequest, RegistrationRejection, UserStore};
use flow_engine::error::AppError;
use flow_engine::model::{Execution, Workflow};
use flow_engine::store::{ExecutionStore, WorkflowStore};

fn wf(id: Option<&str>, name: &str) -> Workflow {
    Workflow {
        id: id.map(|s| s.to_string()),
        name: name.to_string(),
        nodes: Vec::new(),
        edges: Vec::new(),
        created_at: None,
        updated_at: None,
    }
}

fn exe(id: &str, workflow_id: &str) -> Execution {
    Execution {
        id: id.to_string(),
        workflow_id: workflow_id.to_string(),
        input: Vec::new(),
        logs: Vec::new(),
        duration: 0,
        status: "completed".to_string(),
        timestamp: 0,
    }
}

#[test]
fn two_creations_get_distinct_ids() {
    let mut s = WorkflowStore::new(Vec::new());
    let a = s.create_or_update(wf(None, "same")).ok().unwrap();
    let b = s.create_or_update(wf(None, "same")).ok().unwrap();
    assert!(a.id.is_some());
    assert_ne!(a.id, b.id);
    assert!(a.created_at.is_some());
}

#[test]
fn update_of_unknown_id_is_not_found() {
    let mut s = WorkflowStore::new(Vec::new());
    let r = s.create_or_update(wf(Some("nope"), "x"));
    assert!(matches!(r, Err(AppError::NotFound(_))));
    assert_eq!(s.workflows.len(), 0);
}

#[test]
fn creation_under_taken_id_conflicts() {
    let mut s = WorkflowStore::new(vec![wf(Some("k"), "old")]);
    let r = s.create_or_update_at(wf(None, "new"), "k".to_string(), 10);
    assert!(matches!(r, Err(AppError::Conflict(_))));
    assert_eq!(s.workflows.len(), 1);
}

#[test]
fn list_is_newest_first() {
    let mut s = WorkflowStore::new(Vec::new());
    s.create_or_update_at(wf(None, "a"), "1".to_string(), 1).ok().unwrap();
    s.create_or_update_at(wf(None, "b"), "2".to_string(), 2).ok().unwrap();
    let names: Vec<String> = s.list().into_iter().map(|w| w.name).collect();
    assert_eq!(names, vec!["b".to_string(), "a".to_string()]);
    let u = s.create_or_update_at(wf(Some("1"), "a2"), "x".to_string(), 3).ok().unwrap();
    assert_eq!(u.updated_at, Some(3));
    let names: Vec<String> = s.list().into_iter().map(|w| w.name).collect();
    assert_eq!(names, vec!["a2".to_string(), "b".to_string()]);
}

#[test]
fn get_finds_by_id() {
    let s = WorkflowStore::new(vec![wf(Some("a"), "A"), wf(Some("b"), "B")]);
    assert_eq!(s.get("b").ok().unwrap().name, "B");
    assert!(matches!(s.get("c"), Err(AppError::NotFound(_))));
}

#[test]
fn delete_unknown_is_not_found() {
    let mut s = WorkflowStore::new(vec![wf(Some("a"), "A")]);
    assert!(matches!(s.delete("zzz"), Err(AppError::NotFound(_))));
    assert_eq!(s.workflows.len(), 1);
}

#[test]
fn delete_removes_from_list() {
    let mut s = WorkflowStore::new(vec![wf(Some("a"), "A"), wf(Some("b"), "B")]);
    assert!(s.delete("a").is_ok());
    let ids: Vec<Option<String>> = s.list().into_iter().map(|w| w.id).collect();
    assert_eq!(ids, vec![Some("b".to_string())]);
}

#[test]
fn history_filters_and_reverses() {
    let mut s = ExecutionStore::new(Vec::new());
    s.create(exe("1", "w"));
    s.create(exe("2", "other"));
    s.create(exe("3", "w"));
    let ids: Vec<String> = s.get_executions("w").into_iter().map(|e| e.id).collect();
    assert_eq!(ids, vec!["3".to_string(), "1".to_string()]);
    assert!(s.get_executions("none").is_empty());
}

#[test]
fn error_texts() {
    assert_eq!(AppError::NotFound("x".to_string()).response_text(), "Not Found: x");
    assert_eq!(AppError::Conflict("y".to_string()).status_code(), 409);
    assert_eq!(AppError::Internal("z".to_string()).to_string(), "Internal Error: z");
}

#[test]
fn register_then_authenticate() {
    let mut users = UserStore::new(Vec::new());
    assert!(register_user(&mut users, "ann".to_string(), "secret1".to_string()).is_ok());
    assert_ne!(users.users[0].password_hash, "secret1");
    assert!(authenticate_user(&users, "ann", "secret1").is_ok());
    assert_eq!(authenticate_user(&users, "ann", "wrong").unwrap_err(), "密码错误");
    assert_eq!(authenticate_user(&users, "bob", "x").unwrap_err(), "用户不存在");
    assert_eq!(
        register_user(&mut users, "ann".to_string(), "other1".to_string()).unwrap_err(),
        "用户已存在"
    );
}

#[test]
fn registration_screening() {
    let req = |p: &str, c: &str| RegisterRequest {
        username: "u".to_string(),
        password: p.to_string(),
        registration_code: c.to_string(),
    };
    assert_eq!(screen_registration(&req("12345", "N2S2024")), Err(RegistrationRejection::PasswordTooShort));
    assert_eq!(screen_registration(&req("123456", "bad")), Err(RegistrationRejection::WrongCode));
    assert_eq!(screen_registration(&req("123456", "N2S2024")), Ok(()));
}

#[test]
fn delete_removes_every_copy_of_an_id() {
    let mut s = WorkflowStore::new(vec![wf(Some("a"), "A1"), wf(Some("b"), "B"), wf(Some("a"), "A2")]);
    assert!(s.delete("a").is_ok());
    let names: Vec<String> = s.list().into_iter().map(|w| w.name).collect();
    assert_eq!(names, vec!["B".to_string()]);
}
