//! The errors of task registration, scheduling and execution.
use vstd::prelude::*;

verus! {

#[derive(Debug)]
pub enum TaskError {
    /// The script source failed to compile or to run its top level.
    ScriptLoad { message: String },
    /// A declared task's `setup()` failed; the task is not runnable.
    TaskSetup { task_name: String, message: String },
    /// The task was never set up successfully.
    UnknownTask { task_name: String },
    /// A task's `execute(params)` failed or signalled an error.
    TaskExecution { task_name: String, message: String },
    /// A cron expression was malformed; its entry is dropped.
    CronParse { expression: String },
    /// The interpreter refused an operation on its own state.
    Interpreter { message: String },
}

/// The one-line description of an error.
pub open spec fn message_of(e: TaskError) -> Seq<char> {
    match e {
        TaskError::ScriptLoad { message } => "script load error: "@ + message@,
        TaskError::TaskSetup { task_name, message } => "setup of task "@ + task_name@
            + " failed: "@ + message@,
        TaskError::UnknownTask { task_name } => "unknown task: "@ + task_name@,
        TaskError::TaskExecution { task_name, message } => "execution of task "@ + task_name@
            + " failed: "@ + message@,
        TaskError::CronParse { expression } => "invalid cron expression: "@ + expression@,
        TaskError::Interpreter { message } => "interpreter error: "@ + message@,
    }
}

impl TaskError {
    /// A one-line description of the error.
    pub fn message(&self) -> (r: String)
        ensures
            r@ == message_of(*self),
    {
        let mut s = String::new();
        match self {
            TaskError::ScriptLoad { message } => {
                s.append("script load error: ");
                s.append(message.as_str());
            },
            TaskError::TaskSetup { task_name, message } => {
                s.append("setup of task ");
                s.append(task_name.as_str());
                s.append(" failed: ");
                s.append(message.as_str());
            },
            TaskError::UnknownTask { task_name } => {
                s.append("unknown task: ");
                s.append(task_name.as_str());
            },
            TaskError::TaskExecution { task_name, message } => {
                s.append("execution of task ");
                s.append(task_name.as_str());
                s.append(" failed: ");
                s.append(message.as_str());
            },
            TaskError::CronParse { expression } => {
                s.append("invalid cron expression: ");
                s.append(expression.as_str());
            },
            TaskError::Interpreter { message } => {
                s.append("interpreter error: ");
                s.append(message.as_str());
            },
        }
        assert(s@ =~= message_of(*self));
        s
    }
}

} // verus!
