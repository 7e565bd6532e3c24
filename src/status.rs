use vstd::prelude::*;

verus! {

/// The lifecycle state of a task; it also names the directory that holds the task's file.
#[derive(Clone, Copy, Debug, PartialEq, Eq, Structural)]
pub enum TaskStatus {
    Todo,
    Doing,
    Done,
}

/// The directory name that corresponds to a status.
pub open spec fn spec_dir_name(s: TaskStatus) -> Seq<char> {
    match s {
        TaskStatus::Todo => seq!['t', 'o', 'd', 'o'],
        TaskStatus::Doing => seq!['d', 'o', 'i', 'n', 'g'],
        TaskStatus::Done => seq!['d', 'o', 'n', 'e'],
    }
}

/// Position of a status in the display order `Todo, Doing, Done`.
pub open spec fn rank(s: TaskStatus) -> int {
    match s {
        TaskStatus::Todo => 0,
        TaskStatus::Doing => 1,
        TaskStatus::Done => 2,
    }
}

/// The status one step forward, if there is one.
pub open spec fn spec_next(s: TaskStatus) -> Option<TaskStatus> {
    match s {
        TaskStatus::Todo => Some(TaskStatus::Doing),
        TaskStatus::Doing => Some(TaskStatus::Done),
        TaskStatus::Done => None,
    }
}

/// The status one step backward, if there is one.
pub open spec fn spec_prev(s: TaskStatus) -> Option<TaskStatus> {
    match s {
        TaskStatus::Todo => None,
        TaskStatus::Doing => Some(TaskStatus::Todo),
        TaskStatus::Done => Some(TaskStatus::Doing),
    }
}

impl TaskStatus {
    /// Returns the directory name for this status: `"todo"`, `"doing"` or `"done"`.
    pub fn dir_name(&self) -> (r: &'static str)
        ensures
            r@ == spec_dir_name(*self),
    {
        match self {
            TaskStatus::Todo => {
                let r = "todo";
                proof {
                    reveal_strlit("todo");
                }
                r
            },
            TaskStatus::Doing => {
                let r = "doing";
                proof {
                    reveal_strlit("doing");
                }
                r
            },
            TaskStatus::Done => {
                let r = "done";
                proof {
                    reveal_strlit("done");
                }
                r
            },
        }
    }

    /// The status that follows this one (`Todo -> Doing -> Done`); `None` from `Done`.
    pub fn next(&self) -> (r: Option<TaskStatus>)
        ensures
            r == spec_next(*self),
    {
        match self {
            TaskStatus::Todo => Some(TaskStatus::Doing),
            TaskStatus::Doing => Some(TaskStatus::Done),
            TaskStatus::Done => None,
        }
    }

    /// The status that precedes this one (`Done -> Doing -> Todo`); `None` from `Todo`.
    pub fn prev(&self) -> (r: Option<TaskStatus>)
        ensures
            r == spec_prev(*self),
    {
        match self {
            TaskStatus::Todo => None,
            TaskStatus::Doing => Some(TaskStatus::Todo),
            TaskStatus::Done => Some(TaskStatus::Doing),
        }
    }
}

/// A step forward climbs exactly one place in the order `Todo, Doing, Done`, and there
/// is no step forward from `Done` alone.
pub proof fn law_forward_monotone(s: TaskStatus)
    ensures
        spec_next(s) is Some ==> rank(spec_next(s).unwrap()) == rank(s) + 1,
        spec_next(s) is None <==> s == TaskStatus::Done,
{
}

/// A step backward descends exactly one place in the order `Todo, Doing, Done`, and
/// there is no step backward from `Todo` alone.
pub proof fn law_backward_monotone(s: TaskStatus)
    ensures
        spec_prev(s) is Some ==> rank(spec_prev(s).unwrap()) == rank(s) - 1,
        spec_prev(s) is None <==> s == TaskStatus::Todo,
{
}

/// A step backward undoes a step forward, and a step forward undoes a step backward.
pub proof fn law_steps_invert(s: TaskStatus)
    ensures
        spec_next(s) is Some ==> spec_prev(spec_next(s).unwrap()) == Some(s),
        spec_prev(s) is Some ==> spec_next(spec_prev(s).unwrap()) == Some(s),
{
}

} // verus!
