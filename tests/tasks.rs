use sailent::error::TaskError;
use sailent::scope::Scope;
use sailent::tasks::{Task, TaskManager};
use serde_json::Value;
use std::sync::{Arc, Mutex};

const ECHO_SCRIPT: &str = r#"
Echo = {}
function Echo.setup() end
function Echo.execute(params)
  return params
end

Broken = {}
function Broken.setup() error("no setup today") end
function Broken.execute(params) end

Failing = {}
function Failing.setup() end
function Failing.execute(params) error("boom") end

Caller = {}
function Caller.setup() end
function Caller.execute(params)
  return echo({ value = params.value })
end

Inspector = {}
function Inspector.setup() end
function Inspector.execute(params)
  assert(params.a == 1 and params.b == "x")
  assert(params.c[1] == true and params.c[2] == false and #params.c == 3)
  return params
end
"#;

fn names(v: &[&str]) -> Vec<String> {
    v.iter().map(|s| s.to_string()).collect()
}

fn json(s: &str) -> Value {
    serde_json::from_str(s).unwrap()
}

fn manager() -> TaskManager {
    let mut m = TaskManager::new().unwrap();
    let reg = m
        .register_script(ECHO_SCRIPT, &names(&["Echo", "Broken", "Failing", "Caller", "Inspector"]))
        .unwrap();
    assert_eq!(reg.runnable, names(&["Echo", "Failing", "Caller", "Inspector"]));
    assert_eq!(reg.failed.len(), 1);
    m
}

#[test]
fn setup_failure_leaves_task_unregistered() {
    let m = manager();
    assert!(m.is_registered("Echo"));
    assert!(!m.is_registered("Broken"));
    assert_eq!(m.interpreter_calls(), 5);
    let mut m2 = TaskManager::new().unwrap();
    let reg = m2.register_script(ECHO_SCRIPT, &names(&["Broken", "Missing"])).unwrap();
    assert!(reg.runnable.is_empty());
    match &reg.failed[0] {
        TaskError::TaskSetup { task_name, message } => {
            assert_eq!(task_name, "Broken");
            assert!(message.contains("no setup today"));
        }
        other => panic!("unexpected {:?}", other),
    }
    assert!(matches!(&reg.failed[1], TaskError::TaskSetup { task_name, .. } if task_name == "Missing"));
}

#[test]
fn malformed_script_is_a_load_error() {
    let mut m = TaskManager::new().unwrap();
    match m.register_script("Echo = {", &names(&["Echo"])) {
        Err(TaskError::ScriptLoad { message }) => assert!(!message.is_empty()),
        other => panic!("unexpected {:?}", other.map(|r| r.runnable)),
    }
    assert!(!m.is_registered("Echo"));
    assert_eq!(m.interpreter_calls(), 0);
}

#[test]
fn unknown_task_is_rejected_without_interpreter_call() {
    let mut m = manager();
    let before = m.interpreter_calls();
    let task = Task { task_name: "doesNotExist".to_string(), params: json("{}") };
    match m.schedule(task) {
        Err(TaskError::UnknownTask { task_name }) => assert_eq!(task_name, "doesNotExist"),
        other => panic!("unexpected {:?}", other.map(|t| t.task_name)),
    }
    let task = Task { task_name: "doesNotExist".to_string(), params: json("{}") };
    assert!(matches!(m.execute(&task), Err(TaskError::UnknownTask { .. })));
    assert_eq!(m.interpreter_calls(), before);
}

#[test]
fn round_trip_marshalling() {
    let mut m = manager();
    let params = json(r#"{"a":1, "b":"x", "c":[true,false,null]}"#);
    let task = m
        .schedule(Task { task_name: "Inspector".to_string(), params: params.clone() })
        .unwrap();
    assert_eq!(m.execute(&task).unwrap(), params);
    let task = Task { task_name: "Echo".to_string(), params: params.clone() };
    assert_eq!(m.execute(&task).unwrap(), params);
}

#[test]
fn execution_error_keeps_task_runnable() {
    let mut m = manager();
    let task = Task { task_name: "Failing".to_string(), params: json("{}") };
    match m.execute(&task) {
        Err(TaskError::TaskExecution { task_name, message }) => {
            assert_eq!(task_name, "Failing");
            assert!(message.contains("boom"));
        }
        other => panic!("unexpected {:?}", other),
    }
    assert!(m.is_registered("Failing"));
    assert!(m.execute(&task).is_err());
}

#[test]
fn last_registration_wins() {
    let mut m = manager();
    m.register_function("echo", |_p: Result<Value, String>| json(r#""first""#)).unwrap();
    m.register_function("echo", |p: Result<Value, String>| match p {
        Ok(v) => v,
        Err(e) => json(&format!("{{\"error\": {:?}}}", e)),
    })
    .unwrap();
    assert!(m.has_function("echo"));
    let task = Task { task_name: "Caller".to_string(), params: json(r#"{"value": 5}"#) };
    assert_eq!(m.execute(&task).unwrap(), json(r#"{"value": 5}"#));
}

#[test]
fn native_function_sees_decode_failure() {
    let mut m = TaskManager::new().unwrap();
    m.register_function("probe", |p: Result<Value, String>| match p {
        Ok(_) => json(r#"{"ok": true}"#),
        Err(_) => json(r#"{"error": "malformed parameters"}"#),
    })
    .unwrap();
    let script = r#"
Probe = {}
function Probe.setup() end
function Probe.execute(params)
  return { good = probe({ x = 1 }), bad = probe({ f = function() end }) }
end
"#;
    m.register_script(script, &names(&["Probe"])).unwrap();
    let out = m
        .execute(&Task { task_name: "Probe".to_string(), params: json("{}") })
        .unwrap();
    assert_eq!(out, json(r#"{"good": {"ok": true}, "bad": {"error": "malformed parameters"}}"#));
}

#[test]
fn scope_shares_one_instance_between_native_functions() {
    let scope: Arc<Mutex<Scope<Vec<String>>>> = Arc::new(Mutex::new(Scope::new()));
    scope.lock().unwrap().insert(Vec::new());
    let mut m = TaskManager::new().unwrap();
    let s1 = scope.clone();
    m.register_function("remember", move |p: Result<Value, String>| {
        let mut guard = s1.lock().unwrap();
        let log = guard.get_mut().unwrap();
        log.push(p.unwrap()["item"].as_str().unwrap().to_string());
        json("null")
    })
    .unwrap();
    let s2 = scope.clone();
    m.register_function("recall", move |_p: Result<Value, String>| {
        let guard = s2.lock().unwrap();
        Value::from(guard.get().unwrap().clone())
    })
    .unwrap();
    let script = r#"
Memo = {}
function Memo.setup() end
function Memo.execute(params)
  remember({ item = "first" })
  return recall({})
end
"#;
    m.register_script(script, &names(&["Memo"])).unwrap();
    let out = m.execute(&Task { task_name: "Memo".to_string(), params: json("{}") }).unwrap();
    assert_eq!(out, json(r#"["first"]"#));
}

#[test]
fn scope_insert_replaces_and_get_mut_mutates_in_place() {
    let mut scope: Scope<u32> = Scope::new();
    assert!(scope.get().is_none());
    assert!(scope.get_mut().is_none());
    scope.insert(1);
    scope.insert(2);
    *scope.get_mut().unwrap() += 40;
    assert_eq!(scope.get(), Some(&42));
}

#[test]
fn error_messages_name_their_subject() {
    let e = TaskError::UnknownTask { task_name: "x".to_string() };
    assert_eq!(e.message(), "unknown task: x");
    let e = TaskError::CronParse { expression: "bad".to_string() };
    assert_eq!(e.message(), "invalid cron expression: bad");
}
