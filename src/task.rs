use vstd::prelude::*;

verus! {

/// How urgent a task is.
#[derive(Clone, Copy, Debug, PartialEq, Eq, Structural)]
pub enum Priority {
    Low,
    Medium,
    High,
}

/// Sort key for display: High first, then Medium, then Low.
pub open spec fn rank_of(p: Priority) -> nat {
    match p {
        Priority::High => 1,
        Priority::Medium => 2,
        Priority::Low => 3,
    }
}

/// The name under which a priority is written and read back.
pub open spec fn name_of(p: Priority) -> Seq<char> {
    match p {
        Priority::Low => seq!['L', 'o', 'w'],
        Priority::Medium => seq!['M', 'e', 'd', 'i', 'u', 'm'],
        Priority::High => seq!['H', 'i', 'g', 'h'],
    }
}

/// The priority whose name is `s`, compared case-sensitively.
pub open spec fn priority_named(s: Seq<char>) -> Option<Priority> {
    if s == name_of(Priority::Low) {
        Some(Priority::Low)
    } else if s == name_of(Priority::Medium) {
        Some(Priority::Medium)
    } else if s == name_of(Priority::High) {
        Some(Priority::High)
    } else {
        None
    }
}

/// The priority picked by a menu selector: 1 is Low, 2 Medium, 3 High; any other
/// value falls back to Medium.
pub open spec fn selected_priority(choice: i64) -> Priority {
    if choice == 1 {
        Priority::Low
    } else if choice == 3 {
        Priority::High
    } else {
        Priority::Medium
    }
}

impl Priority {
    pub fn rank(&self) -> (r: u8)
        ensures
            r == rank_of(*self),
    {
        match self {
            Priority::High => 1,
            Priority::Medium => 2,
            Priority::Low => 3,
        }
    }

    pub fn name(&self) -> (r: &'static str)
        ensures
            r@ == name_of(*self),
    {
        proof {
            reveal_strlit("Low");
            reveal_strlit("Medium");
            reveal_strlit("High");
        }
        match self {
            Priority::Low => {
                assert("Low"@ =~= name_of(Priority::Low));
                "Low"
            },
            Priority::Medium => {
                assert("Medium"@ =~= name_of(Priority::Medium));
                "Medium"
            },
            Priority::High => {
                assert("High"@ =~= name_of(Priority::High));
                "High"
            },
        }
    }

    /// The priority for a menu selector, and whether the selector was one of the
    /// three valid ones (when it is not, the caller warns that Medium was used).
    pub fn from_selector(choice: i64) -> (r: (Priority, bool))
        ensures
            r.0 == selected_priority(choice),
            r.1 == (1 <= choice <= 3),
    {
        if choice == 1 {
            (Priority::Low, true)
        } else if choice == 2 {
            (Priority::Medium, true)
        } else if choice == 3 {
            (Priority::High, true)
        } else {
            (Priority::Medium, false)
        }
    }
}

/// What a task holds, as plain values.
pub ghost struct TaskView {
    pub description: Seq<char>,
    pub priority: Priority,
    pub completed: bool,
}

/// A unit of work: a description, a priority and whether it is done.
#[derive(Clone, Debug)]
pub struct Task {
    pub description: String,
    pub priority: Priority,
    pub completed: bool,
}

impl View for Task {
    type V = TaskView;

    open spec fn view(&self) -> TaskView {
        TaskView {
            description: self.description@,
            priority: self.priority,
            completed: self.completed,
        }
    }
}

/// The status shown for a task.
pub open spec fn status_of(completed: bool) -> Seq<char> {
    if completed {
        seq!['C', 'o', 'm', 'p', 'l', 'e', 't', 'e', 'd']
    } else {
        seq!['P', 'e', 'n', 'd', 'i', 'n', 'g']
    }
}

impl Task {
    /// A new task, not yet completed.
    pub fn new(description: String, priority: Priority) -> (r: Task)
        ensures
            r@ == (TaskView { description: description@, priority, completed: false }),
    {
        Task { description, priority, completed: false }
    }

    /// An equal task that owns its own description.
    pub fn duplicate(&self) -> (r: Task)
        ensures
            r@ == self@,
    {
        Task { description: self.description.clone(), priority: self.priority, completed: self.completed }
    }

    /// "Completed" or "Pending".
    pub fn status_name(&self) -> (r: &'static str)
        ensures
            r@ == status_of(self.completed),
    {
        proof {
            reveal_strlit("Completed");
            reveal_strlit("Pending");
        }
        if self.completed {
            assert("Completed"@ =~= status_of(true));
            "Completed"
        } else {
            assert("Pending"@ =~= status_of(false));
            "Pending"
        }
    }
}

} // verus!
