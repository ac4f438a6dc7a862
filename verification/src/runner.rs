//! The job-runner surface the engine is driven from: task and pool states,
//! their transitions from raw status codes, and the event-handler
//! capability a host implements to observe task changes. Scheduling and
//! threads stay with the caller.

use vstd::prelude::*;

verus! {

/// The state of one task.
#[derive(Clone, Copy, PartialEq, Eq, Structural, Debug)]
pub enum TaskStatus {
    Wait,
    Running,
    Fail,
    Success,
    Pause,
}

/// The state of the whole pool.
#[derive(Clone, Copy, PartialEq, Eq, Structural, Debug)]
pub enum PoolStatus {
    Running,
    Pause,
    PauseLoading,
}

/// One log entry about a task: a status change or a schedule change.
pub enum TaskLog {
    StatusChange(TaskStatus, String),
    ScheduleChange(u8, String),
}

/// Start-up parameters of the surrounding program.
pub struct StartParam {
    pub config_file: String,
}

/// What a host supplies to observe task status changes.
pub trait EventHandler {
    fn handle_event(&self, task_id: String, status: TaskStatus);
}

/// The task status a raw status code denotes; unknown codes wait.
pub open spec fn status_of_code(code: u8) -> TaskStatus {
    if code == 0 {
        TaskStatus::Wait
    } else if code == 1 {
        TaskStatus::Running
    } else if code == 2 {
        TaskStatus::Fail
    } else if code == 3 {
        TaskStatus::Success
    } else if code == 4 {
        TaskStatus::Pause
    } else {
        TaskStatus::Wait
    }
}

impl TaskStatus {
    /// The status a raw code denotes.
    pub fn from_code(code: u8) -> (r: TaskStatus)
        ensures
            r == status_of_code(code),
    {
        match code {
            0 => TaskStatus::Wait,
            1 => TaskStatus::Running,
            2 => TaskStatus::Fail,
            3 => TaskStatus::Success,
            4 => TaskStatus::Pause,
            _ => TaskStatus::Wait,
        }
    }
}

} // verus!
