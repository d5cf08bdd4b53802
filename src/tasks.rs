//! The task manager: owns the one Lua interpreter, the registry of runnable
//! task names and the names of the native functions installed in it.
//!
//! A script declares tasks as global tables `<Name>` with two members,
//! `setup()` run once at registration and `execute(params)` run on each
//! dispatch. Native functions are host closures installed as Lua globals;
//! each receives the script's argument decoded to JSON (or the reason it
//! could not be decoded) and returns JSON, which goes back to the script.
use crate::error::TaskError;
use crate::text::str_eq;
use mlua::LuaSerdeExt;
use vstd::prelude::*;

verus! {

#[verifier::external_type_specification]
#[verifier::external_body]
pub struct ExLua(mlua::Lua);

#[verifier::external_type_specification]
#[verifier::external_body]
pub struct ExJsonValue(serde_json::Value);

/// Relies on `mlua::Lua::new_with`: a fresh interpreter with the safe
/// standard libraries. It fails only when the `debug` or `ffi` library is
/// asked for, which `StdLib::ALL_SAFE` does not hold.
#[verifier::external_body]
fn new_interpreter() -> (r: Result<mlua::Lua, String>)
    ensures
        r is Ok,
{
    mlua::Lua::new_with(mlua::StdLib::ALL_SAFE, mlua::LuaOptions::default()).map_err(
        |e| e.to_string(),
    )
}

/// Relies on `mlua::Chunk::exec`: compiles `source` and runs its top level;
/// an error carries the compiler's or the runtime's message.
#[verifier::external_body]
fn exec_source(lua: &mlua::Lua, source: &str) -> (r: Result<(), String>) {
    lua.load(source).exec().map_err(|e| e.to_string())
}

/// Relies on `mlua::Function::call`: calls `<task_name>.setup()` in protected
/// mode; a missing table or member, or an error the script raises, is `Err`.
#[verifier::external_body]
fn call_setup(lua: &mlua::Lua, task_name: &str) -> (r: Result<(), String>) {
    let task: mlua::Table = lua.globals().get(task_name).map_err(|e| e.to_string())?;
    let setup: mlua::Function = task.get("setup").map_err(|e| e.to_string())?;
    setup.call::<()>(()).map_err(|e| e.to_string())
}

/// Relies on `mlua::Function::call`: calls `<task_name>.execute(params)` in
/// protected mode, with `params` converted to Lua by mlua's serde support,
/// and converts what it returns back to JSON.
#[verifier::external_body]
fn call_execute(lua: &mlua::Lua, task_name: &str, params: &serde_json::Value) -> (r: Result<
    serde_json::Value,
    String,
>) {
    let task: mlua::Table = lua.globals().get(task_name).map_err(|e| e.to_string())?;
    let execute: mlua::Function = task.get("execute").map_err(|e| e.to_string())?;
    let args = lua.to_value(params).map_err(|e| e.to_string())?;
    let out: mlua::Value = execute.call(args).map_err(|e| e.to_string())?;
    lua.from_value(out).map_err(|e| e.to_string())
}

/// Relies on `mlua::Lua::create_function` and `mlua::Table::set`: installs
/// `function` as the global `name`, replacing any earlier global of that
/// name. Each call decodes the script's argument to JSON with mlua's serde
/// support, hands `function` the value or the reason decoding failed, and
/// converts its result back to Lua.
#[verifier::external_body]
fn install_function<F>(lua: &mlua::Lua, name: &str, function: F) -> (r: Result<(), String>) where
    F: Fn(Result<serde_json::Value, String>) -> serde_json::Value + Send + 'static,
 {
    let callback = lua.create_function(
        move |lua, params: mlua::Value|
            { lua.to_value(&function(lua.from_value(params).map_err(|e| e.to_string()))) },
    ).map_err(|e| e.to_string())?;
    lua.globals().set(name, callback).map_err(|e| e.to_string())
}

/// One dispatch of a task: its name and the parameters for `execute`.
pub struct Task {
    pub task_name: String,
    pub params: serde_json::Value,
}

/// What the task manager knows: the runnable tasks, the native functions
/// installed, and how many calls it has made into scripts.
pub struct ManagerModel {
    pub tasks: Set<Seq<char>>,
    pub functions: Set<Seq<char>>,
    pub calls: nat,
}

/// `a + b`, saturating at `u64::MAX`.
pub open spec fn saturating_sum(a: nat, b: nat) -> nat {
    if a + b > u64::MAX {
        u64::MAX as nat
    } else {
        a + b
    }
}

pub open spec fn names(v: Seq<String>) -> Set<Seq<char>> {
    v.map_values(|s: String| s@).to_set()
}

pub open spec fn string_views(v: Seq<String>) -> Seq<Seq<char>> {
    v.map_values(|s: String| s@)
}

/// The names among `outcomes` whose flag is `flag`, in order.
pub open spec fn with_outcome(outcomes: Seq<(Seq<char>, bool)>, flag: bool) -> Seq<Seq<char>>
    decreases outcomes.len(),
{
    if outcomes.len() == 0 {
        seq![]
    } else if outcomes.last().1 == flag {
        with_outcome(outcomes.drop_last(), flag).push(outcomes.last().0)
    } else {
        with_outcome(outcomes.drop_last(), flag)
    }
}

/// The task names of setup failures, in order (`TaskSetup` errors only).
pub open spec fn setup_names(failed: Seq<TaskError>) -> Seq<Seq<char>> {
    failed.map_values(
        |e: TaskError|
            match e {
                TaskError::TaskSetup { task_name, .. } => task_name@,
                _ => seq!['?'],
            },
    )
}

/// `outcomes` pairs each declared task, in order, with whether its setup
/// succeeded: the runnable ones are those that succeeded, the failures those
/// that did not, both in declared order, and every failure is a `TaskSetup`.
pub open spec fn setup_outcomes(
    outcomes: Seq<(Seq<char>, bool)>,
    declared: Seq<String>,
    runnable: Seq<String>,
    failed: Seq<TaskError>,
) -> bool {
    &&& outcomes.len() == declared.len()
    &&& forall|i: int| 0 <= i < declared.len() ==> (#[trigger] outcomes[i]).0 == declared[i]@
    &&& string_views(runnable) == with_outcome(outcomes, true)
    &&& setup_names(failed) == with_outcome(outcomes, false)
    &&& forall|k: int| 0 <= k < failed.len() ==> (#[trigger] failed[k]) is TaskSetup
}

/// The result of registering a script: the declared tasks that are now
/// runnable and, for each of the others, why its `setup()` failed.
pub struct ScriptRegistration {
    pub runnable: Vec<String>,
    pub failed: Vec<TaskError>,
}

pub struct TaskManager {
    lua: mlua::Lua,
    tasks: Vec<String>,
    functions: Vec<String>,
    calls: u64,
}

impl View for TaskManager {
    type V = ManagerModel;

    closed spec fn view(&self) -> ManagerModel {
        ManagerModel {
            tasks: names(self.tasks@),
            functions: names(self.functions@),
            calls: self.calls as nat,
        }
    }
}

proof fn lemma_names_push(v: Seq<String>, s: String)
    ensures
        names(v.push(s)) == names(v).insert(s@),
{
    let w = v.push(s);
    assert(w.map_values(|x: String| x@) =~= v.map_values(|x: String| x@).push(s@));
    assert forall|n: Seq<char>| #[trigger] names(w).contains(n) <==> names(v).insert(s@).contains(
        n,
    ) by {
        let wv = w.map_values(|x: String| x@);
        let vv = v.map_values(|x: String| x@);
        if names(w).contains(n) {
            let i = choose|i: int| 0 <= i < wv.len() && wv[i] == n;
            if i < vv.len() {
                assert(vv[i] == n);
            }
        }
        if names(v).contains(n) {
            let i = choose|i: int| 0 <= i < vv.len() && vv[i] == n;
            assert(wv[i] == n);
        }
        if n == s@ {
            assert(wv[vv.len() as int] == n);
        }
    };
    assert(names(w) =~= names(v).insert(s@));
}

/// Whether `name` is among `v`.
fn contains_name(v: &Vec<String>, name: &str) -> (r: bool)
    ensures
        r == names(v@).contains(name@),
{
    let mut i: usize = 0;
    while i < v.len()
        invariant
            i <= v.len(),
            forall|j: int| 0 <= j < i ==> v@[j]@ != name@,
        decreases v.len() - i,
    {
        if str_eq(v[i].as_str(), name) {
            assert(v@.map_values(|x: String| x@)[i as int] == name@);
            return true;
        }
        i = i + 1;
    }
    proof {
        if names(v@).contains(name@) {
            let vv = v@.map_values(|x: String| x@);
            let j = choose|j: int| 0 <= j < vv.len() && vv[j] == name@;
            assert(v@[j]@ == name@);
        }
    }
    false
}

impl TaskManager {
    /// A task manager with a fresh interpreter and nothing registered.
    pub fn new() -> (r: Result<TaskManager, TaskError>)
        ensures
            r is Ok,
            r matches Ok(m) ==> m@.tasks.is_empty() && m@.functions.is_empty() && m@.calls == 0,
    {
        match new_interpreter() {
            Ok(lua) => {
                let m = TaskManager { lua, tasks: Vec::new(), functions: Vec::new(), calls: 0 };
                assert(names(m.tasks@) =~= Set::<Seq<char>>::empty());
                assert(names(m.functions@) =~= Set::<Seq<char>>::empty());
                Ok(m)
            },
            Err(message) => Err(TaskError::Interpreter { message }),
        }
    }

    /// Whether `task_name` is runnable.
    pub fn is_registered(&self, task_name: &str) -> (r: bool)
        ensures
            r == self@.tasks.contains(task_name@),
    {
        contains_name(&self.tasks, task_name)
    }

    /// Whether a native function `name` has been installed.
    pub fn has_function(&self, name: &str) -> (r: bool)
        ensures
            r == self@.functions.contains(name@),
    {
        contains_name(&self.functions, name)
    }

    /// How many calls into scripts (`setup` or `execute`) have been made,
    /// saturating at `u64::MAX`.
    pub fn interpreter_calls(&self) -> (r: u64)
        ensures
            r == self@.calls,
    {
        self.calls
    }

    fn count_call(&mut self)
        ensures
            final(self).tasks == old(self).tasks,
            final(self).functions == old(self).functions,
            final(self)@.calls == saturating_sum(old(self)@.calls, 1),
    {
        if self.calls < u64::MAX {
            self.calls = self.calls + 1;
        }
    }

    /// Installs the native function `name`; a later registration under the
    /// same name replaces this one.
    pub fn register_function<F>(&mut self, name: &str, function: F) -> (r: Result<(), TaskError>) where
        F: Fn(Result<serde_json::Value, String>) -> serde_json::Value + Send + 'static,
        ensures
            final(self)@.tasks == old(self)@.tasks,
            final(self)@.calls == old(self)@.calls,
            r is Ok ==> final(self)@.functions == old(self)@.functions.insert(name@),
            r matches Err(e) ==> final(self)@.functions == old(self)@.functions && e is Interpreter,
    {
        match install_function(&self.lua, name, function) {
            Ok(()) => {
                if !contains_name(&self.functions, name) {
                    let ghost old_fns = self.functions@;
                    self.functions.push(name.to_owned());
                    proof {
                        lemma_names_push(old_fns, self.functions@.last());
                    }
                } else {
                    assert(old(self)@.functions.insert(name@) =~= old(self)@.functions);
                }
                Ok(())
            },
            Err(message) => Err(TaskError::Interpreter { message }),
        }
    }

    /// Records the outcome of the `setup()` of `task_name`: on success the
    /// task becomes runnable; on failure it does not, and the failure is
    /// returned as a `TaskSetup` error.
    fn record_setup(&mut self, task_name: &String, outcome: Result<(), String>) -> (r: Result<
        (),
        TaskError,
    >)
        ensures
            final(self).functions == old(self).functions,
            final(self).calls == old(self).calls,
            outcome is Ok ==> r is Ok && final(self)@.tasks == old(self)@.tasks.insert(task_name@),
            outcome matches Err(m) ==> final(self)@.tasks == old(self)@.tasks && (r matches Err(e)
                && e == (TaskError::TaskSetup { task_name: *task_name, message: m })),
    {
        match outcome {
            Ok(()) => {
                if !contains_name(&self.tasks, task_name.as_str()) {
                    let ghost old_tasks = self.tasks@;
                    self.tasks.push(task_name.clone());
                    proof {
                        lemma_names_push(old_tasks, self.tasks@.last());
                    }
                } else {
                    assert(old(self)@.tasks.insert(task_name@) =~= old(self)@.tasks);
                }
                Ok(())
            },
            Err(message) => Err(TaskError::TaskSetup { task_name: task_name.clone(), message }),
        }
    }

    /// Loads a script and runs the `setup()` of each task it declares, once
    /// each and in order. A script that fails to load registers nothing.
    /// Each declared task whose setup succeeds becomes runnable; the others
    /// are reported in `failed`.
    pub fn register_script(&mut self, source: &str, declared: &Vec<String>) -> (r: Result<
        ScriptRegistration,
        TaskError,
    >)
        ensures
            final(self)@.functions == old(self)@.functions,
            r matches Err(e) ==> e is ScriptLoad && final(self)@ == old(self)@,
            r matches Ok(reg) ==> final(self)@.tasks == old(self)@.tasks.union(names(reg.runnable@)),
            r matches Ok(reg) ==> exists|outcomes: Seq<(Seq<char>, bool)>|
                #[trigger] setup_outcomes(outcomes, declared@, reg.runnable@, reg.failed@),
            r is Ok ==> final(self)@.calls == saturating_sum(old(self)@.calls, declared.len() as nat),
    {
        if let Err(message) = exec_source(&self.lua, source) {
            return Err(TaskError::ScriptLoad { message });
        }
        let mut runnable: Vec<String> = Vec::new();
        let mut failed: Vec<TaskError> = Vec::new();
        let mut k: usize = 0;
        let ghost mut outcomes: Seq<(Seq<char>, bool)> = Seq::empty();
        assert(names(runnable@) =~= Set::<Seq<char>>::empty());
        assert(old(self)@.tasks.union(Set::<Seq<char>>::empty()) =~= old(self)@.tasks);
        assert(string_views(runnable@) =~= Seq::<Seq<char>>::empty());
        assert(setup_names(failed@) =~= Seq::<Seq<char>>::empty());
        while k < declared.len()
            invariant
                k <= declared.len(),
                self@.functions == old(self)@.functions,
                self@.tasks == old(self)@.tasks.union(names(runnable@)),
                self@.calls == saturating_sum(old(self)@.calls, k as nat),
                setup_outcomes(outcomes, declared@.subrange(0, k as int), runnable@, failed@),
            decreases declared.len() - k,
        {
            let name = &declared[k];
            let outcome = call_setup(&self.lua, name.as_str());
            self.count_call();
            let ghost old_outcomes = outcomes;
            let ghost old_run = runnable@;
            let ghost old_failed = failed@;
            proof {
                assert(declared@.subrange(0, k + 1).drop_last() =~= declared@.subrange(0, k as int));
            }
            match self.record_setup(name, outcome) {
                Ok(()) => {
                    runnable.push(name.clone());
                    proof {
                        outcomes = old_outcomes.push((name@, true));
                        assert(outcomes.drop_last() =~= old_outcomes);
                        lemma_names_push(old_run, runnable@.last());
                        assert(self@.tasks =~= old(self)@.tasks.union(names(runnable@)));
                        assert(string_views(runnable@) =~= string_views(old_run).push(name@));
                    }
                },
                Err(e) => {
                    failed.push(e);
                    proof {
                        outcomes = old_outcomes.push((name@, false));
                        assert(outcomes.drop_last() =~= old_outcomes);
                        assert(setup_names(failed@) =~= setup_names(old_failed).push(name@));
                    }
                },
            }
            proof {
                assert forall|i: int| 0 <= i < k + 1 implies (#[trigger] outcomes[i]).0
                    == declared@.subrange(0, k + 1)[i]@ by {
                    if i < k {
                        assert(outcomes[i] == old_outcomes[i]);
                        assert(declared@.subrange(0, k as int)[i] == declared@.subrange(0, k + 1)[i]);
                    }
                };
            }
            k = k + 1;
        }
        assert(declared@.subrange(0, declared.len() as int) =~= declared@);
        let ghost rv = runnable@;
        let ghost fv = failed@;
        let r = Ok(ScriptRegistration { runnable, failed });
        proof {
            if let Ok(reg) = &r {
                assert(reg.runnable@ == rv);
                assert(reg.failed@ == fv);
                assert(setup_outcomes(outcomes, declared@, reg.runnable@, reg.failed@));
            }
        }
        r
    }

    /// Validates a dispatch of `task`: it is handed back, ready to execute,
    /// exactly when the task is runnable. Nothing is run and nothing changes.
    pub fn schedule(&self, task: Task) -> (r: Result<Task, TaskError>)
        ensures
            r is Ok <==> self@.tasks.contains(task.task_name@),
            r matches Ok(t) ==> t == task,
            r matches Err(e) ==> e == (TaskError::UnknownTask { task_name: task.task_name }),
    {
        if contains_name(&self.tasks, task.task_name.as_str()) {
            Ok(task)
        } else {
            Err(TaskError::UnknownTask { task_name: task.task_name })
        }
    }

    /// Runs `<task_name>.execute(params)`. An unknown task is refused before
    /// the interpreter is touched; a failure of the script is returned as a
    /// `TaskExecution` error and leaves the task runnable.
    pub fn execute(&mut self, task: &Task) -> (r: Result<serde_json::Value, TaskError>)
        ensures
            final(self)@.tasks == old(self)@.tasks,
            final(self)@.functions == old(self)@.functions,
            !old(self)@.tasks.contains(task.task_name@) ==> final(self)@ == old(self)@ && r
                == Err::<serde_json::Value, TaskError>(
                TaskError::UnknownTask { task_name: task.task_name },
            ),
            old(self)@.tasks.contains(task.task_name@) ==> final(self)@.calls == saturating_sum(
                old(self)@.calls,
                1,
            ),
            old(self)@.tasks.contains(task.task_name@) ==> (r matches Err(e) ==> e is TaskExecution),
    {
        if !contains_name(&self.tasks, task.task_name.as_str()) {
            return Err(TaskError::UnknownTask { task_name: task.task_name.clone() });
        }
        let result = call_execute(&self.lua, task.task_name.as_str(), &task.params);
        self.count_call();
        match result {
            Ok(value) => Ok(value),
            Err(message) => Err(TaskError::TaskExecution { task_name: task.task_name.clone(), message }),
        }
    }
}

} // verus!
