use vstd::prelude::*;
use crate::task::{Priority, Task, TaskView, rank_of};

verus! {

/// Why an operation on a task given by its index did nothing.
#[derive(Clone, Copy, Debug, PartialEq, Eq, Structural)]
pub enum StoreError {
    /// No task stands at that index.
    InvalidIndex,
    /// The task was already marked as completed.
    AlreadyCompleted,
}

/// The views of a sequence of tasks.
pub open spec fn views(s: Seq<Task>) -> Seq<TaskView> {
    s.map_values(|t: Task| t@)
}

/// Whether a 1-based index names a task of a store of `len` tasks.
pub open spec fn index_valid(index: usize, len: nat) -> bool {
    1 <= index <= len
}

/// What `mark_complete` reports for 1-based `index` on a store `s`.
pub open spec fn mark_outcome(s: Seq<TaskView>, index: usize) -> Result<(), StoreError> {
    if !index_valid(index, s.len()) {
        Err(StoreError::InvalidIndex)
    } else if s[index - 1].completed {
        Err(StoreError::AlreadyCompleted)
    } else {
        Ok(())
    }
}

/// The store after `mark_complete` of 1-based `index` on `s`.
pub open spec fn after_mark(s: Seq<TaskView>, index: usize) -> Seq<TaskView> {
    if mark_outcome(s, index) is Ok {
        s.update(index - 1, TaskView { completed: true, ..s[index - 1] })
    } else {
        s
    }
}

/// What `change_priority` reports for 1-based `index` on a store `s`.
pub open spec fn priority_outcome(s: Seq<TaskView>, index: usize) -> Result<(), StoreError> {
    if index_valid(index, s.len()) {
        Ok(())
    } else {
        Err(StoreError::InvalidIndex)
    }
}

/// The store after `change_priority` of 1-based `index` to `p` on `s`.
pub open spec fn after_priority_change(s: Seq<TaskView>, index: usize, p: Priority) -> Seq<
    TaskView,
> {
    if index_valid(index, s.len()) {
        s.update(index - 1, TaskView { priority: p, ..s[index - 1] })
    } else {
        s
    }
}

/// An index that names no task is reported and leaves the store as it was.
pub proof fn lemma_invalid_index_changes_nothing(s: Seq<TaskView>, index: usize, p: Priority)
    requires
        !index_valid(index, s.len()),
    ensures
        mark_outcome(s, index) == Err::<(), StoreError>(StoreError::InvalidIndex),
        after_mark(s, index) == s,
        priority_outcome(s, index) == Err::<(), StoreError>(StoreError::InvalidIndex),
        after_priority_change(s, index, p) == s,
{
}

/// Marking the same task twice: the first call completes it, the second reports
/// that it is already completed and changes nothing.
pub proof fn lemma_mark_complete_twice(s: Seq<TaskView>, index: usize)
    requires
        index_valid(index, s.len()),
        !s[index - 1].completed,
    ensures
        mark_outcome(s, index) is Ok,
        after_mark(s, index)[index - 1].completed,
        mark_outcome(after_mark(s, index), index) == Err::<(), StoreError>(
            StoreError::AlreadyCompleted,
        ),
        after_mark(after_mark(s, index), index) == after_mark(s, index),
{
}

/// Changing a task's priority succeeds on every valid index and sets it to the
/// priority given, whatever it was; to set the priority it already has changes
/// nothing.
pub proof fn lemma_change_priority_overwrites(s: Seq<TaskView>, index: usize, p: Priority)
    requires
        index_valid(index, s.len()),
    ensures
        priority_outcome(s, index) is Ok,
        after_priority_change(s, index, p)[index - 1].priority == p,
        after_priority_change(s, index, p).len() == s.len(),
        forall|i: int|
            0 <= i < s.len() && i != index - 1 ==> #[trigger] after_priority_change(
                s,
                index,
                p,
            )[i] == s[i],
        s[index - 1].priority == p ==> after_priority_change(s, index, p) == s,
{
    if s[index - 1].priority == p {
        assert(after_priority_change(s, index, p) =~= s);
    }
}

/// The tasks of `s` that have priority `p`, in their order in `s`.
pub open spec fn with_priority(s: Seq<TaskView>, p: Priority) -> Seq<TaskView>
    decreases s.len(),
{
    if s.len() == 0 {
        Seq::empty()
    } else {
        let rest = with_priority(s.drop_last(), p);
        if s.last().priority == p {
            rest.push(s.last())
        } else {
            rest
        }
    }
}

/// Display order: the tasks sorted by rank, ties kept in insertion order.
pub open spec fn display_spec(s: Seq<TaskView>) -> Seq<TaskView> {
    with_priority(s, Priority::High) + with_priority(s, Priority::Medium) + with_priority(
        s,
        Priority::Low,
    )
}

proof fn lemma_with_priority_all(s: Seq<TaskView>, p: Priority)
    ensures
        forall|i: int|
            0 <= i < with_priority(s, p).len() ==> (#[trigger] with_priority(s, p)[i]).priority
                == p,
    decreases s.len(),
{
    if s.len() > 0 {
        lemma_with_priority_all(s.drop_last(), p);
    }
}

proof fn lemma_with_priority_append(a: Seq<TaskView>, b: Seq<TaskView>, p: Priority)
    ensures
        with_priority(a + b, p) == with_priority(a, p) + with_priority(b, p),
    decreases b.len(),
{
    if b.len() == 0 {
        assert(a + b =~= a);
        assert(with_priority(a, p) + with_priority(b, p) =~= with_priority(a, p));
    } else {
        lemma_with_priority_append(a, b.drop_last(), p);
        assert((a + b).drop_last() =~= a + b.drop_last());
        assert((a + b).last() == b.last());
        if b.last().priority == p {
            assert((with_priority(a, p) + with_priority(b.drop_last(), p)).push(b.last())
                =~= with_priority(a, p) + with_priority(b.drop_last(), p).push(b.last()));
        }
    }
}

proof fn lemma_with_priority_twice(s: Seq<TaskView>, q: Priority, p: Priority)
    ensures
        with_priority(with_priority(s, q), p) == if p == q {
            with_priority(s, q)
        } else {
            Seq::<TaskView>::empty()
        },
    decreases s.len(),
{
    if s.len() > 0 {
        lemma_with_priority_twice(s.drop_last(), q, p);
        let rest = with_priority(s.drop_last(), q);
        if s.last().priority == q {
            assert(rest.push(s.last()).drop_last() =~= rest);
        }
    }
}

proof fn lemma_with_priority_lens(s: Seq<TaskView>)
    ensures
        with_priority(s, Priority::High).len() + with_priority(s, Priority::Medium).len()
            + with_priority(s, Priority::Low).len() == s.len(),
    decreases s.len(),
{
    if s.len() > 0 {
        lemma_with_priority_lens(s.drop_last());
    }
}

/// Display order is a stable sort by rank: it holds every task of the store, its
/// ranks never decrease, and the tasks of each priority come in the order in which
/// they stand in the store.
pub proof fn lemma_display_order_is_stable_sort(s: Seq<TaskView>)
    ensures
        display_spec(s).len() == s.len(),
        forall|i: int, j: int|
            0 <= i < j < display_spec(s).len() ==> rank_of(
                (#[trigger] display_spec(s)[i]).priority,
            ) <= rank_of((#[trigger] display_spec(s)[j]).priority),
        forall|p: Priority| #[trigger] with_priority(display_spec(s), p) == with_priority(s, p),
{
    let h = with_priority(s, Priority::High);
    let m = with_priority(s, Priority::Medium);
    let l = with_priority(s, Priority::Low);
    let d = display_spec(s);
    lemma_with_priority_lens(s);
    lemma_with_priority_all(s, Priority::High);
    lemma_with_priority_all(s, Priority::Medium);
    lemma_with_priority_all(s, Priority::Low);
    assert forall|i: int, j: int| 0 <= i < j < d.len() implies rank_of(
        (#[trigger] d[i]).priority,
    ) <= rank_of((#[trigger] d[j]).priority) by {
        if i < h.len() {
            assert(d[i] == h[i]);
        } else if i < h.len() + m.len() {
            assert(d[i] == m[i - h.len()]);
            assert(j >= h.len());
            if j < h.len() + m.len() {
                assert(d[j] == m[j - h.len()]);
            } else {
                assert(d[j] == l[j - h.len() - m.len()]);
            }
        } else {
            assert(d[i] == l[i - h.len() - m.len()]);
            assert(d[j] == l[j - h.len() - m.len()]);
        }
    }
    assert forall|p: Priority| #[trigger] with_priority(d, p) == with_priority(s, p) by {
        lemma_with_priority_append(h + m, l, p);
        lemma_with_priority_append(h, m, p);
        lemma_with_priority_twice(s, Priority::High, p);
        lemma_with_priority_twice(s, Priority::Medium, p);
        lemma_with_priority_twice(s, Priority::Low, p);
        let e = Seq::<TaskView>::empty();
        match p {
            Priority::High => {
                assert(h + e + e =~= h);
            },
            Priority::Medium => {
                assert(e + m + e =~= m);
            },
            Priority::Low => {
                assert(e + e + l =~= l);
            },
        }
    }
}

/// The tasks, in the order in which they were added.
pub struct TaskStore {
    tasks: Vec<Task>,
}

impl View for TaskStore {
    type V = Seq<TaskView>;

    closed spec fn view(&self) -> Seq<TaskView> {
        views(self.tasks@)
    }
}

impl TaskStore {
    /// An empty store.
    pub fn new() -> (r: TaskStore)
        ensures
            r@ == Seq::<TaskView>::empty(),
    {
        let r = TaskStore { tasks: Vec::new() };
        assert(r@ =~= Seq::<TaskView>::empty());
        r
    }

    pub fn len(&self) -> (r: usize)
        ensures
            r == self@.len(),
    {
        self.tasks.len()
    }

    pub fn is_empty(&self) -> (r: bool)
        ensures
            r == (self@.len() == 0),
    {
        self.tasks.len() == 0
    }

    /// The task at 0-based position `i`, in insertion order.
    pub fn get(&self, i: usize) -> (r: &Task)
        requires
            i < self@.len(),
        ensures
            r@ == self@[i as int],
    {
        &self.tasks[i]
    }

    /// Adds a task that is not yet completed at the end, and returns an equal task.
    pub fn append(&mut self, description: String, priority: Priority) -> (r: Task)
        ensures
            r@ == (TaskView { description: description@, priority, completed: false }),
            final(self)@ == old(self)@.push(r@),
    {
        let t = Task::new(description, priority);
        let r = t.duplicate();
        self.tasks.push(t);
        assert(self@ =~= old(self)@.push(r@));
        r
    }

    /// Appends an already built task (used when loading).
    pub fn push_task(&mut self, t: Task)
        ensures
            final(self)@ == old(self)@.push(t@),
    {
        let ghost v = t@;
        self.tasks.push(t);
        assert(self@ =~= old(self)@.push(v));
    }

    /// Marks the task at 1-based `index` as completed; an index that names no task,
    /// or a task already completed, is reported and changes nothing.
    pub fn mark_complete(&mut self, index: usize) -> (r: Result<(), StoreError>)
        ensures
            r == mark_outcome(old(self)@, index),
            final(self)@ == after_mark(old(self)@, index),
    {
        if index == 0 || index - 1 >= self.tasks.len() {
            return Err(StoreError::InvalidIndex);
        }
        let pos = index - 1;
        if self.tasks[pos].completed {
            return Err(StoreError::AlreadyCompleted);
        }
        let mut t = self.tasks[pos].duplicate();
        t.completed = true;
        self.tasks.set(pos, t);
        assert(self@ =~= after_mark(old(self)@, index));
        Ok(())
    }

    /// Sets the priority of the task at 1-based `index`, even to the one it has;
    /// an index that names no task is reported and changes nothing.
    pub fn change_priority(&mut self, index: usize, priority: Priority) -> (r: Result<
        (),
        StoreError,
    >)
        ensures
            r == priority_outcome(old(self)@, index),
            final(self)@ == after_priority_change(old(self)@, index, priority),
    {
        if index == 0 || index - 1 >= self.tasks.len() {
            return Err(StoreError::InvalidIndex);
        }
        let pos = index - 1;
        let mut t = self.tasks[pos].duplicate();
        t.priority = priority;
        self.tasks.set(pos, t);
        assert(self@ =~= after_priority_change(old(self)@, index, priority));
        Ok(())
    }

    /// Equal tasks for those of priority `p`, appended to `out` in store order.
    fn gather_priority(&self, p: Priority, out: &mut Vec<Task>)
        ensures
            views(final(out)@) == views(old(out)@) + with_priority(self@, p),
    {
        let n = self.tasks.len();
        let mut i: usize = 0;
        assert(views(out@) =~= views(old(out)@) + with_priority(self@.take(0), p));
        while i < n
            invariant
                n == self.tasks@.len(),
                i <= n,
                views(out@) == views(old(out)@) + with_priority(self@.take(i as int), p),
            decreases n - i,
        {
            assert(self@.take(i + 1).drop_last() =~= self@.take(i as int));
            assert(self@.take(i + 1).last() == self@[i as int]);
            assert(self@[i as int] == self.tasks@[i as int]@);
            let ghost before = out@;
            if self.tasks[i].priority == p {
                let t = self.tasks[i].duplicate();
                out.push(t);
                assert(views(out@) =~= views(before).push(self@[i as int]));
            }
            assert(views(out@) =~= views(old(out)@) + with_priority(self@.take(i + 1), p));
            i = i + 1;
        }
        assert(self@.take(n as int) =~= self@);
    }

    /// Equal tasks for all tasks, sorted by rank (High, Medium, Low); tasks of equal
    /// priority keep their insertion order. The store is left as it is.
    pub fn display_order(&self) -> (r: Vec<Task>)
        ensures
            views(r@) == display_spec(self@),
    {
        let mut r: Vec<Task> = Vec::new();
        assert(views(r@) =~= Seq::<TaskView>::empty());
        self.gather_priority(Priority::High, &mut r);
        self.gather_priority(Priority::Medium, &mut r);
        self.gather_priority(Priority::Low, &mut r);
        assert(Seq::<TaskView>::empty() + with_priority(self@, Priority::High) =~= with_priority(
            self@,
            Priority::High,
        ));
        r
    }
}

} // verus!
