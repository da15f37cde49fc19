//! The task registry: the in-memory authoritative collection of tasks,
//! with lookup, mutation, filtering, search and statistics.
//!
//! The collection is a vector of tasks whose invariant holds identifiers
//! unique and every task well-formed; its mathematical value is the
//! sequence of task views, in insertion order.

use vstd::prelude::*;

use crate::error::TaskFlowError;
use crate::seqs::lemma_filter_preserves_distinct;
use crate::seqs::lemma_filter_take_step;
use crate::seqs::lemma_take_all;
use crate::task::Priority;
use crate::task::Status;
use crate::task::Task;
use crate::task::TaskView;
use crate::task::TransitionPolicy;
use crate::task::vec_contains_string;

verus! {

/// Whether some task in the sequence carries the identifier.
pub open spec fn contains_id(s: Seq<TaskView>, id: u128) -> bool {
    exists|i: int| 0 <= i < s.len() && s[i].id == id
}

/// The position of the task carrying the identifier. Meaningful only when
/// `contains_id` holds; unique when identifiers are unique.
pub open spec fn index_of(s: Seq<TaskView>, id: u128) -> int {
    choose|i: int| 0 <= i < s.len() && s[i].id == id
}

/// Identifiers are pairwise distinct.
pub open spec fn ids_unique(s: Seq<TaskView>) -> bool {
    forall|i: int, j: int| 0 <= i < j < s.len() ==> s[i].id != s[j].id
}

/// Every task in the sequence is well-formed.
pub open spec fn all_wf(s: Seq<TaskView>) -> bool {
    forall|i: int| 0 <= i < s.len() ==> s[i].wf()
}

/// The collection invariant: unique identifiers, well-formed tasks.
pub open spec fn coll_inv(s: Seq<TaskView>) -> bool {
    ids_unique(s) && all_wf(s)
}

/// With unique identifiers, `index_of` is exactly the position of any task
/// that carries the identifier.
pub proof fn lemma_index_of_unique(s: Seq<TaskView>, id: u128, i: int)
    requires
        ids_unique(s),
        0 <= i < s.len(),
        s[i].id == id,
    ensures
        contains_id(s, id),
        index_of(s, id) == i,
{
    assert(contains_id(s, id));
    let j = index_of(s, id);
    if i < j {
        assert(s[i].id != s[j].id);
    } else if j < i {
        assert(s[j].id != s[i].id);
    }
}

/// Replacing the task at a position with a well-formed task carrying the
/// same identifier preserves the collection invariant.
pub proof fn lemma_inv_update(s: Seq<TaskView>, i: int, t: TaskView)
    requires
        coll_inv(s),
        0 <= i < s.len(),
        t.id == s[i].id,
        t.wf(),
    ensures
        coll_inv(s.update(i, t)),
{
    let u = s.update(i, t);
    assert forall|a: int, b: int| 0 <= a < b < u.len() implies u[a].id != u[b].id by {
        assert(s[a].id != s[b].id);
    }
    assert forall|a: int| 0 <= a < u.len() implies u[a].wf() by {
        if a != i {
            assert(u[a] == s[a]);
        }
    }
}

/// Appending a well-formed task with a new identifier preserves the
/// collection invariant.
pub proof fn lemma_inv_push(s: Seq<TaskView>, t: TaskView)
    requires
        coll_inv(s),
        !contains_id(s, t.id),
        t.wf(),
    ensures
        coll_inv(s.push(t)),
{
    let u = s.push(t);
    assert forall|a: int, b: int| 0 <= a < b < u.len() implies u[a].id != u[b].id by {
        if b == s.len() {
            assert(u[a] == s[a]);
            assert(!(0 <= a < s.len() && s[a].id == t.id));
        } else {
            assert(s[a].id != s[b].id);
        }
    }
    assert forall|a: int| 0 <= a < u.len() implies u[a].wf() by {
        if a < s.len() {
            assert(u[a] == s[a]);
        }
    }
}

/// Removing a task preserves the collection invariant.
pub proof fn lemma_inv_remove(s: Seq<TaskView>, i: int)
    requires
        coll_inv(s),
        0 <= i < s.len(),
    ensures
        coll_inv(s.remove(i)),
{
    let u = s.remove(i);
    assert forall|a: int, b: int| 0 <= a < b < u.len() implies u[a].id != u[b].id by {
        let a0 = if a < i { a } else { a + 1 };
        let b0 = if b < i { b } else { b + 1 };
        assert(u[a] == s[a0]);
        assert(u[b] == s[b0]);
        assert(s[a0].id != s[b0].id);
    }
    assert forall|a: int| 0 <= a < u.len() implies u[a].wf() by {
        let a0 = if a < i { a } else { a + 1 };
        assert(u[a] == s[a0]);
    }
}

/// An ephemeral description of which tasks to select: every field defaults
/// to "no constraint", and the constraints combine by conjunction.
pub struct TaskFilter {
    pub status: Option<Status>,
    pub priority: Option<Priority>,
    pub tags: Vec<String>,
    pub text: Option<String>,
    pub overdue_only: bool,
    pub assigned_to: Option<u128>,
    pub created_by: Option<u128>,
    pub due_before: Option<i64>,
    pub due_after: Option<i64>,
}

/// The mathematical value of a filter.
pub struct FilterView {
    pub status: Option<Status>,
    pub priority: Option<Priority>,
    pub tags: Seq<Seq<char>>,
    pub text: Option<Seq<char>>,
    pub overdue_only: bool,
    pub assigned_to: Option<u128>,
    pub created_by: Option<u128>,
    pub due_before: Option<i64>,
    pub due_after: Option<i64>,
}

impl View for TaskFilter {
    type V = FilterView;

    open spec fn view(&self) -> FilterView {
        FilterView {
            status: self.status,
            priority: self.priority,
            tags: self.tags.deep_view(),
            text: self.text.deep_view(),
            overdue_only: self.overdue_only,
            assigned_to: self.assigned_to,
            created_by: self.created_by,
            due_before: self.due_before,
            due_after: self.due_after,
        }
    }
}

impl core::default::Default for TaskFilter {
    /// The filter with no constraint at all: it selects every task.
    fn default() -> (r: Self)
        ensures
            r@.status is None,
            r@.priority is None,
            r@.tags =~= Seq::<Seq<char>>::empty(),
            r@.text is None,
            !r@.overdue_only,
            r@.assigned_to is None,
            r@.created_by is None,
            r@.due_before is None,
            r@.due_after is None,
    {
        TaskFilter {
            status: None,
            priority: None,
            tags: Vec::new(),
            text: None,
            overdue_only: false,
            assigned_to: None,
            created_by: None,
            due_before: None,
            due_after: None,
        }
    }
}

/// Whether a task satisfies every constraint of the filter, at the given
/// instant (the instant only matters to the overdue constraint).
pub open spec fn matches_filter(t: TaskView, f: FilterView, now: i64) -> bool {
    &&& (f.status is Some ==> t.status == f.status->0)
    &&& (f.priority is Some ==> t.priority == f.priority->0)
    &&& (forall|i: int| 0 <= i < f.tags.len() ==> t.has_tag(f.tags[i]))
    &&& (f.text is Some ==> t.matches_text_at(f.text->0))
    &&& (f.overdue_only ==> t.is_overdue_at(now))
    &&& (f.assigned_to is Some ==> t.assigned_to == Some(f.assigned_to->0))
    &&& (f.created_by is Some ==> t.created_by == Some(f.created_by->0))
    &&& (f.due_before is Some ==> t.due_date is Some && t.due_date->0 < f.due_before->0)
    &&& (f.due_after is Some ==> t.due_date is Some && t.due_date->0 > f.due_after->0)
}

/// Decide whether a task satisfies a filter.
pub fn task_matches(t: &Task, f: &TaskFilter, now: i64) -> (r: bool)
    ensures
        r == matches_filter(t@, f@, now),
{
    match &f.status {
        Some(st) => {
            if t.status != *st {
                return false;
            }
        },
        None => {},
    }
    match &f.priority {
        Some(p) => {
            if t.priority != *p {
                return false;
            }
        },
        None => {},
    }
    if !t.has_tags(&f.tags) {
        proof {
            let dv = f.tags.deep_view();
            assert(f@.tags == dv);
            let i0 = choose|i: int| !(0 <= i < dv.len() ==> t@.has_tag(dv[i]));
            assert(0 <= i0 < f@.tags.len() && !t@.has_tag(f@.tags[i0]));
        }
        return false;
    }
    match &f.text {
        Some(q) => {
            if !t.matches_text(q.as_str()) {
                return false;
            }
        },
        None => {},
    }
    if f.overdue_only && !t.is_overdue(now) {
        return false;
    }
    match &f.assigned_to {
        Some(u) => {
            match &t.assigned_to {
                Some(a) => {
                    if *a != *u {
                        return false;
                    }
                },
                None => {
                    return false;
                },
            }
        },
        None => {},
    }
    match &f.created_by {
        Some(u) => {
            match &t.created_by {
                Some(c) => {
                    if *c != *u {
                        return false;
                    }
                },
                None => {
                    return false;
                },
            }
        },
        None => {},
    }
    match &f.due_before {
        Some(b) => {
            match &t.due_date {
                Some(d) => {
                    if !(*d < *b) {
                        return false;
                    }
                },
                None => {
                    return false;
                },
            }
        },
        None => {},
    }
    match &f.due_after {
        Some(a) => {
            match &t.due_date {
                Some(d) => {
                    if !(*d > *a) {
                        return false;
                    }
                },
                None => {
                    return false;
                },
            }
        },
        None => {},
    }
    true
}

/// A read-only aggregate over the collection: the total count, the count in
/// each state, and how many tasks are overdue.
pub struct TaskStats {
    pub total: usize,
    pub todo: usize,
    pub in_progress: usize,
    pub completed: usize,
    pub cancelled: usize,
    pub overdue: usize,
}

/// How many tasks of the sequence are in the given state.
pub open spec fn count_status(s: Seq<TaskView>, st: Status) -> nat {
    s.filter(|t: TaskView| t.status == st).len()
}

/// How many tasks of the sequence are overdue at the instant.
pub open spec fn count_overdue(s: Seq<TaskView>, now: i64) -> nat {
    s.filter(|t: TaskView| t.is_overdue_at(now)).len()
}

/// The in-memory registry of tasks.
pub struct TaskManager {
    pub tasks: Vec<Task>,
    pub policy: TransitionPolicy,
}

impl View for TaskManager {
    type V = Seq<TaskView>;

    open spec fn view(&self) -> Seq<TaskView> {
        self.tasks.deep_view()
    }
}

impl TaskManager {
    /// The registry invariant: unique identifiers, well-formed tasks.
    pub open spec fn inv(&self) -> bool {
        coll_inv(self@)
    }

    /// An empty registry under the strict transition policy.
    pub fn new() -> (r: Self)
        ensures
            r@ =~= Seq::<TaskView>::empty(),
            r.inv(),
            r.policy == TransitionPolicy::Strict,
    {
        TaskManager { tasks: Vec::new(), policy: TransitionPolicy::Strict }
    }

    /// An empty registry under the chosen transition policy.
    pub fn with_policy(policy: TransitionPolicy) -> (r: Self)
        ensures
            r@ =~= Seq::<TaskView>::empty(),
            r.inv(),
            r.policy == policy,
    {
        TaskManager { tasks: Vec::new(), policy }
    }

    /// The position of the task with the given identifier, if present.
    pub fn find_index(&self, id: u128) -> (r: Option<usize>)
        ensures
            match r {
                Some(i) => i < self@.len() && self@[i as int].id == id,
                None => !contains_id(self@, id),
            },
    {
        let mut i: usize = 0;
        while i < self.tasks.len()
            invariant
                i <= self@.len(),
                self@.len() == self.tasks@.len(),
                forall|j: int| 0 <= j < i ==> self@[j].id != id,
            decreases self@.len() - i,
        {
            if self.tasks[i].id == id {
                proof {
                    assert(self@[i as int].id == id);
                }
                return Some(i);
            }
            proof {
                assert(self@[i as int].id != id);
            }
            i = i + 1;
        }
        None
    }

    /// How many tasks the registry holds.
    pub fn count_tasks(&self) -> (r: usize)
        ensures
            r == self@.len(),
    {
        self.tasks.len()
    }

    /// Remove every task.
    pub fn clear_all_tasks(&mut self)
        ensures
            final(self)@ =~= Seq::<TaskView>::empty(),
            final(self).inv(),
            final(self).policy == old(self).policy,
    {
        self.tasks.clear();
    }

    /// Construct a task with the given title and insert it, returning its
    /// freshly drawn identifier. If the random identifier happens to collide
    /// with an existing one, the existing task is replaced, as a map insert
    /// would; otherwise the new task is appended.
    pub fn add_task(&mut self, title: String, now: i64) -> (id: u128)
        requires
            old(self).inv(),
            title@.len() > 0,
        ensures
            final(self).inv(),
            final(self).policy == old(self).policy,
            !contains_id(old(self)@, id) ==> final(self)@ == old(self)@.push(
                Task::fresh(id, title@, now),
            ),
            contains_id(old(self)@, id) ==> final(self)@ == old(self)@.update(
                index_of(old(self)@, id),
                Task::fresh(id, title@, now),
            ),
    {
        let t = Task::new(title, now);
        let id = t.id;
        self.insert_task(t);
        id
    }

    /// Insert a well-formed task: replace the task carrying the same
    /// identifier, or append when the identifier is new.
    pub fn insert_task(&mut self, t: Task)
        requires
            old(self).inv(),
            t@.wf(),
        ensures
            final(self).inv(),
            final(self).policy == old(self).policy,
            !contains_id(old(self)@, t@.id) ==> final(self)@ == old(self)@.push(t@),
            contains_id(old(self)@, t@.id) ==> final(self)@ == old(self)@.update(
                index_of(old(self)@, t@.id),
                t@,
            ),
    {
        let id = t.id;
        match self.find_index(id) {
            Some(i) => {
                proof {
                    lemma_index_of_unique(self@, id, i as int);
                }
                self.tasks.set(i, t);
                proof {
                    assert(old(self)@[i as int].wf());
                    lemma_inv_update(old(self)@, i as int, t@);
                }
                proof {
                    assert(self@ =~= old(self)@.update(index_of(old(self)@, id), t@));
                }
            },
            None => {
                self.tasks.push(t);
                proof {
                    lemma_inv_push(old(self)@, t@);
                    assert(self@ =~= old(self)@.push(t@));
                }
            },
        }
    }

    /// Borrow the task with the given identifier.
    pub fn get_task(&self, id: u128) -> (r: Option<&Task>)
        requires
            self.inv(),
        ensures
            match r {
                Some(t) => contains_id(self@, id) && t@ == self@[index_of(self@, id)],
                None => !contains_id(self@, id),
            },
    {
        match self.find_index(id) {
            Some(i) => {
                proof {
                    lemma_index_of_unique(self@, id, i as int);
                }
                Some(&self.tasks[i])
            },
            None => None,
        }
    }

    /// Remove and return the task with the given identifier; absent
    /// identifiers fail with `TaskNotFound` and leave the registry as it
    /// was.
    pub fn delete_task(&mut self, id: u128) -> (r: Result<Task, TaskFlowError>)
        requires
            old(self).inv(),
        ensures
            final(self).inv(),
            final(self).policy == old(self).policy,
            contains_id(old(self)@, id) ==> (r matches Ok(t) && t@ == old(self)@[index_of(
                old(self)@,
                id,
            )]) && final(self)@ == old(self)@.remove(index_of(old(self)@, id)),
            !contains_id(old(self)@, id) ==> r == Err::<Task, TaskFlowError>(
                TaskFlowError::TaskNotFound { id },
            ) && final(self)@ == old(self)@,
    {
        match self.find_index(id) {
            Some(i) => {
                proof {
                    lemma_index_of_unique(self@, id, i as int);
                }
                let t = self.tasks.remove(i);
                proof {
                    lemma_inv_remove(old(self)@, i as int);
                    assert(self@ =~= old(self)@.remove(i as int));
                }
                Ok(t)
            },
            None => Err(TaskFlowError::TaskNotFound { id }),
        }
    }

    /// Replace the title of the task with the given identifier.
    pub fn update_task_title(&mut self, id: u128, title: String, now: i64) -> (r: Result<
        (),
        TaskFlowError,
    >)
        requires
            old(self).inv(),
            title@.len() > 0,
        ensures
            final(self).inv(),
            final(self).policy == old(self).policy,
            contains_id(old(self)@, id) ==> r == Ok::<(), TaskFlowError>(()) && final(self)@
                == old(self)@.update(
                index_of(old(self)@, id),
                (TaskView {
                    title: title@,
                    updated_at: now,
                    ..old(self)@[index_of(old(self)@, id)]
                }),
            ),
            !contains_id(old(self)@, id) ==> r == Err::<(), TaskFlowError>(
                TaskFlowError::TaskNotFound { id },
            ) && final(self)@ == old(self)@,
    {
        match self.find_index(id) {
            Some(i) => {
                proof {
                    lemma_index_of_unique(self@, id, i as int);
                }
                let mut t = self.tasks[i].clone();
                t.set_title(title, now);
                self.tasks.set(i, t);
                proof {
                    assert(old(self)@[i as int].wf());
                    lemma_inv_update(old(self)@, i as int, t@);
                }
                proof {
                    assert(self@ =~= old(self)@.update(
                        index_of(old(self)@, id),
                        (TaskView {
                            title: title@,
                            updated_at: now,
                            ..old(self)@[index_of(old(self)@, id)]
                        }),
                    ));
                }
                Ok(())
            },
            None => Err(TaskFlowError::TaskNotFound { id }),
        }
    }

    /// Replace the description of the task with the given identifier.
    pub fn update_task_description(&mut self, id: u128, description: Option<String>, now: i64) -> (r:
        Result<(), TaskFlowError>)
        requires
            old(self).inv(),
        ensures
            final(self).inv(),
            final(self).policy == old(self).policy,
            contains_id(old(self)@, id) ==> r == Ok::<(), TaskFlowError>(()) && final(self)@
                == old(self)@.update(
                index_of(old(self)@, id),
                (TaskView {
                    description: description.deep_view(),
                    updated_at: now,
                    ..old(self)@[index_of(old(self)@, id)]
                }),
            ),
            !contains_id(old(self)@, id) ==> r == Err::<(), TaskFlowError>(
                TaskFlowError::TaskNotFound { id },
            ) && final(self)@ == old(self)@,
    {
        match self.find_index(id) {
            Some(i) => {
                proof {
                    lemma_index_of_unique(self@, id, i as int);
                }
                let mut t = self.tasks[i].clone();
                t.set_description(description, now);
                self.tasks.set(i, t);
                proof {
                    assert(old(self)@[i as int].wf());
                    lemma_inv_update(old(self)@, i as int, t@);
                }
                proof {
                    assert(self@ =~= old(self)@.update(
                        index_of(old(self)@, id),
                        (TaskView {
                            description: description.deep_view(),
                            updated_at: now,
                            ..old(self)@[index_of(old(self)@, id)]
                        }),
                    ));
                }
                Ok(())
            },
            None => Err(TaskFlowError::TaskNotFound { id }),
        }
    }

    /// Replace the priority of the task with the given identifier.
    pub fn update_task_priority(&mut self, id: u128, priority: Priority, now: i64) -> (r: Result<
        (),
        TaskFlowError,
    >)
        requires
            old(self).inv(),
        ensures
            final(self).inv(),
            final(self).policy == old(self).policy,
            contains_id(old(self)@, id) ==> r == Ok::<(), TaskFlowError>(()) && final(self)@
                == old(self)@.update(
                index_of(old(self)@, id),
                (TaskView {
                    priority,
                    updated_at: now,
                    ..old(self)@[index_of(old(self)@, id)]
                }),
            ),
            !contains_id(old(self)@, id) ==> r == Err::<(), TaskFlowError>(
                TaskFlowError::TaskNotFound { id },
            ) && final(self)@ == old(self)@,
    {
        match self.find_index(id) {
            Some(i) => {
                proof {
                    lemma_index_of_unique(self@, id, i as int);
                }
                let mut t = self.tasks[i].clone();
                t.set_priority(priority, now);
                self.tasks.set(i, t);
                proof {
                    assert(old(self)@[i as int].wf());
                    lemma_inv_update(old(self)@, i as int, t@);
                }
                proof {
                    assert(self@ =~= old(self)@.update(
                        index_of(old(self)@, id),
                        (TaskView {
                            priority,
                            updated_at: now,
                            ..old(self)@[index_of(old(self)@, id)]
                        }),
                    ));
                }
                Ok(())
            },
            None => Err(TaskFlowError::TaskNotFound { id }),
        }
    }

    /// Replace the due date of the task with the given identifier.
    pub fn set_task_due_date(&mut self, id: u128, due_date: Option<i64>, now: i64) -> (r: Result<
        (),
        TaskFlowError,
    >)
        requires
            old(self).inv(),
        ensures
            final(self).inv(),
            final(self).policy == old(self).policy,
            contains_id(old(self)@, id) ==> r == Ok::<(), TaskFlowError>(()) && final(self)@
                == old(self)@.update(
                index_of(old(self)@, id),
                (TaskView {
                    due_date,
                    updated_at: now,
                    ..old(self)@[index_of(old(self)@, id)]
                }),
            ),
            !contains_id(old(self)@, id) ==> r == Err::<(), TaskFlowError>(
                TaskFlowError::TaskNotFound { id },
            ) && final(self)@ == old(self)@,
    {
        match self.find_index(id) {
            Some(i) => {
                proof {
                    lemma_index_of_unique(self@, id, i as int);
                }
                let mut t = self.tasks[i].clone();
                t.set_due_date(due_date, now);
                self.tasks.set(i, t);
                proof {
                    assert(old(self)@[i as int].wf());
                    lemma_inv_update(old(self)@, i as int, t@);
                }
                proof {
                    assert(self@ =~= old(self)@.update(
                        index_of(old(self)@, id),
                        (TaskView {
                            due_date,
                            updated_at: now,
                            ..old(self)@[index_of(old(self)@, id)]
                        }),
                    ));
                }
                Ok(())
            },
            None => Err(TaskFlowError::TaskNotFound { id }),
        }
    }

    /// Add a tag to the task with the given identifier. A tag already
    /// present is not added again, and only a first-time add stamps the
    /// update time.
    pub fn add_tag_to_task(&mut self, id: u128, tag: String, now: i64) -> (r: Result<
        (),
        TaskFlowError,
    >)
        requires
            old(self).inv(),
            tag@.len() > 0,
        ensures
            final(self).inv(),
            final(self).policy == old(self).policy,
            contains_id(old(self)@, id) ==> r == Ok::<(), TaskFlowError>(()) && final(self)@ == (
            if old(self)@[index_of(old(self)@, id)].has_tag(tag@) {
                old(self)@
            } else {
                old(self)@.update(
                    index_of(old(self)@, id),
                    (TaskView {
                        tags: old(self)@[index_of(old(self)@, id)].tags.push(tag@),
                        updated_at: now,
                        ..old(self)@[index_of(old(self)@, id)]
                    }),
                )
            }),
            !contains_id(old(self)@, id) ==> r == Err::<(), TaskFlowError>(
                TaskFlowError::TaskNotFound { id },
            ) && final(self)@ == old(self)@,
    {
        match self.find_index(id) {
            Some(i) => {
                proof {
                    lemma_index_of_unique(self@, id, i as int);
                }
                let mut t = self.tasks[i].clone();
                t.add_tag(tag, now);
                self.tasks.set(i, t);
                proof {
                    let before = old(self)@[i as int];
                    assert(before.wf());
                    if before.has_tag(tag@) {
                        assert(self@ =~= old(self)@);
                    } else {
                        assert(forall|k: int|
                            0 <= k < before.tags.len() ==> before.tags[k] != tag@);
                        let grown = before.tags.push(tag@);
                        assert forall|k: int, l: int|
                            0 <= k < l < grown.len() implies grown[k] != grown[l] by {
                            if l == before.tags.len() {
                                assert(grown[k] == before.tags[k]);
                            } else {
                                assert(before.tags[k] != before.tags[l]);
                            }
                        }
                        assert(t@.wf());
                        assert(self@ =~= old(self)@.update(
                            i as int,
                            (TaskView {
                                tags: before.tags.push(tag@),
                                updated_at: now,
                                ..before
                            }),
                        ));
                    }
                    lemma_inv_update(old(self)@, i as int, t@);
                }
                Ok(())
            },
            None => Err(TaskFlowError::TaskNotFound { id }),
        }
    }

    /// Remove a tag from the task with the given identifier, stamping the
    /// update time whether or not the tag was present.
    pub fn remove_tag_from_task(&mut self, id: u128, tag: &str, now: i64) -> (r: Result<
        (),
        TaskFlowError,
    >)
        requires
            old(self).inv(),
        ensures
            final(self).inv(),
            final(self).policy == old(self).policy,
            contains_id(old(self)@, id) ==> r == Ok::<(), TaskFlowError>(()) && final(self)@
                == old(self)@.update(
                index_of(old(self)@, id),
                (TaskView {
                    tags: old(self)@[index_of(old(self)@, id)].tags.filter(
                        |t: Seq<char>| t != tag@,
                    ),
                    updated_at: now,
                    ..old(self)@[index_of(old(self)@, id)]
                }),
            ),
            !contains_id(old(self)@, id) ==> r == Err::<(), TaskFlowError>(
                TaskFlowError::TaskNotFound { id },
            ) && final(self)@ == old(self)@,
    {
        match self.find_index(id) {
            Some(i) => {
                proof {
                    lemma_index_of_unique(self@, id, i as int);
                }
                let mut t = self.tasks[i].clone();
                t.remove_tag(tag, now);
                self.tasks.set(i, t);
                proof {
                    let before = old(self)@[i as int];
                    assert(before.wf());
                    lemma_filter_preserves_distinct(before.tags, |s: Seq<char>| s != tag@);
                    let ft = before.tags.filter(|s: Seq<char>| s != tag@);
                    assert forall|k: int| 0 <= k < ft.len() implies ft[k].len() > 0 by {
                        assert(ft.contains(ft[k]));
                        before.tags.lemma_filter_contains_rev(|s: Seq<char>| s != tag@, ft[k]);
                        let k0 = choose|k0: int|
                            0 <= k0 < before.tags.len() && before.tags[k0] == ft[k];
                        assert(before.tags[k0].len() > 0);
                    }
                    assert(t@.wf());
                    lemma_inv_update(old(self)@, i as int, t@);
                    assert(self@ =~= old(self)@.update(
                        index_of(old(self)@, id),
                        (TaskView {
                            tags: old(self)@[index_of(old(self)@, id)].tags.filter(
                                |t: Seq<char>| t != tag@,
                            ),
                            updated_at: now,
                            ..old(self)@[index_of(old(self)@, id)]
                        }),
                    ));
                }
                Ok(())
            },
            None => Err(TaskFlowError::TaskNotFound { id }),
        }
    }

    /// Start the task with the given identifier, under the registry's
    /// transition policy.
    pub fn start_task(&mut self, id: u128, now: i64) -> (r: Result<(), TaskFlowError>)
        requires
            old(self).inv(),
        ensures
            final(self).inv(),
            final(self).policy == old(self).policy,
            contains_id(old(self)@, id) ==> {
                let t = old(self)@[index_of(old(self)@, id)];
                &&& t.start_allowed(old(self).policy) ==> r == Ok::<(), TaskFlowError>(())
                    && final(self)@ == old(self)@.update(
                    index_of(old(self)@, id),
                    t.after_start(now),
                )
                &&& !t.start_allowed(old(self).policy) ==> r == Err::<(), TaskFlowError>(
                    TaskFlowError::InvalidStatusTransition {
                        from: t.status,
                        to: Status::InProgress,
                    },
                ) && final(self)@ == old(self)@
            },
            !contains_id(old(self)@, id) ==> r == Err::<(), TaskFlowError>(
                TaskFlowError::TaskNotFound { id },
            ) && final(self)@ == old(self)@,
    {
        let policy = self.policy;
        match self.find_index(id) {
            Some(i) => {
                proof {
                    lemma_index_of_unique(self@, id, i as int);
                }
                let mut t = self.tasks[i].clone();
                match t.start(policy, now) {
                    Ok(()) => {
                        self.tasks.set(i, t);
                        proof {
                            assert(old(self)@[i as int].wf());
                            lemma_inv_update(old(self)@, i as int, t@);
                        }
                proof {
                    assert(old(self)@[i as int].wf());
                    lemma_inv_update(old(self)@, i as int, t@);
                }
                        proof {
                            assert(self@ =~= old(self)@.update(
                                i as int,
                                old(self)@[i as int].after_start(now),
                            ));
                        }
                        Ok(())
                    },
                    Err(e) => Err(e),
                }
            },
            None => Err(TaskFlowError::TaskNotFound { id }),
        }
    }

    /// Complete the task with the given identifier, under the registry's
    /// transition policy.
    pub fn complete_task(&mut self, id: u128, now: i64) -> (r: Result<(), TaskFlowError>)
        requires
            old(self).inv(),
        ensures
            final(self).inv(),
            final(self).policy == old(self).policy,
            contains_id(old(self)@, id) ==> {
                let t = old(self)@[index_of(old(self)@, id)];
                &&& t.complete_allowed(old(self).policy) ==> r == Ok::<(), TaskFlowError>(())
                    && final(self)@ == old(self)@.update(
                    index_of(old(self)@, id),
                    t.after_complete(now),
                )
                &&& !t.complete_allowed(old(self).policy) ==> r == Err::<(), TaskFlowError>(
                    TaskFlowError::InvalidStatusTransition {
                        from: t.status,
                        to: Status::Completed,
                    },
                ) && final(self)@ == old(self)@
            },
            !contains_id(old(self)@, id) ==> r == Err::<(), TaskFlowError>(
                TaskFlowError::TaskNotFound { id },
            ) && final(self)@ == old(self)@,
    {
        let policy = self.policy;
        match self.find_index(id) {
            Some(i) => {
                proof {
                    lemma_index_of_unique(self@, id, i as int);
                }
                let mut t = self.tasks[i].clone();
                match t.complete(policy, now) {
                    Ok(()) => {
                        self.tasks.set(i, t);
                        proof {
                            assert(old(self)@[i as int].wf());
                            lemma_inv_update(old(self)@, i as int, t@);
                        }
                proof {
                    assert(old(self)@[i as int].wf());
                    lemma_inv_update(old(self)@, i as int, t@);
                }
                        proof {
                            assert(self@ =~= old(self)@.update(
                                i as int,
                                old(self)@[i as int].after_complete(now),
                            ));
                        }
                        Ok(())
                    },
                    Err(e) => Err(e),
                }
            },
            None => Err(TaskFlowError::TaskNotFound { id }),
        }
    }

    /// Cancel the task with the given identifier, under the registry's
    /// transition policy.
    pub fn cancel_task(&mut self, id: u128, now: i64) -> (r: Result<(), TaskFlowError>)
        requires
            old(self).inv(),
        ensures
            final(self).inv(),
            final(self).policy == old(self).policy,
            contains_id(old(self)@, id) ==> {
                let t = old(self)@[index_of(old(self)@, id)];
                &&& t.cancel_allowed(old(self).policy) ==> r == Ok::<(), TaskFlowError>(())
                    && final(self)@ == old(self)@.update(
                    index_of(old(self)@, id),
                    t.after_cancel(now),
                )
                &&& !t.cancel_allowed(old(self).policy) ==> r == Err::<(), TaskFlowError>(
                    TaskFlowError::InvalidStatusTransition {
                        from: t.status,
                        to: Status::Cancelled,
                    },
                ) && final(self)@ == old(self)@
            },
            !contains_id(old(self)@, id) ==> r == Err::<(), TaskFlowError>(
                TaskFlowError::TaskNotFound { id },
            ) && final(self)@ == old(self)@,
    {
        let policy = self.policy;
        match self.find_index(id) {
            Some(i) => {
                proof {
                    lemma_index_of_unique(self@, id, i as int);
                }
                let mut t = self.tasks[i].clone();
                match t.cancel(policy, now) {
                    Ok(()) => {
                        self.tasks.set(i, t);
                        proof {
                            assert(old(self)@[i as int].wf());
                            lemma_inv_update(old(self)@, i as int, t@);
                        }
                proof {
                    assert(old(self)@[i as int].wf());
                    lemma_inv_update(old(self)@, i as int, t@);
                }
                        proof {
                            assert(self@ =~= old(self)@.update(
                                i as int,
                                old(self)@[i as int].after_cancel(now),
                            ));
                        }
                        Ok(())
                    },
                    Err(e) => Err(e),
                }
            },
            None => Err(TaskFlowError::TaskNotFound { id }),
        }
    }

    /// Copies of all tasks, in registry order.
    pub fn get_all_tasks(&self) -> (r: Vec<Task>)
        ensures
            r.deep_view() == self@,
    {
        let mut out: Vec<Task> = Vec::new();
        let mut i: usize = 0;
        while i < self.tasks.len()
            invariant
                i <= self.tasks@.len(),
                out.deep_view() =~= self@.take(i as int),
            decreases self.tasks@.len() - i,
        {
            out.push(self.tasks[i].clone());
            proof {
                assert(self@.take(i as int + 1) =~= self@.take(i as int).push(self@[i as int]));
                assert(out.deep_view() =~= self@.take(i as int + 1));
            }
            i = i + 1;
        }
        proof {
            lemma_take_all(self@);
        }
        out
    }

    /// Copies of exactly the tasks satisfying the filter, in registry
    /// order.
    pub fn filter_tasks(&self, filter: &TaskFilter, now: i64) -> (r: Vec<Task>)
        ensures
            r.deep_view() == self@.filter(|t: TaskView| matches_filter(t, filter@, now)),
    {
        let ghost pred = |t: TaskView| matches_filter(t, filter@, now);
        let mut out: Vec<Task> = Vec::new();
        let mut i: usize = 0;
        while i < self.tasks.len()
            invariant
                i <= self.tasks@.len(),
                out.deep_view() =~= self@.take(i as int).filter(
                    |t: TaskView| matches_filter(t, filter@, now),
                ),
            decreases self.tasks@.len() - i,
        {
            proof {
                lemma_filter_take_step(self@, |t: TaskView| matches_filter(t, filter@, now), i as int);
            }
            if task_matches(&self.tasks[i], filter, now) {
                out.push(self.tasks[i].clone());
            }
            i = i + 1;
        }
        proof {
            lemma_take_all(self@);
        }
        out
    }

    /// Copies of exactly the tasks matching the free-text query.
    pub fn search_tasks(&self, query: &str) -> (r: Vec<Task>)
        ensures
            r.deep_view() == self@.filter(|t: TaskView| t.matches_text_at(query@)),
    {
        let mut out: Vec<Task> = Vec::new();
        let mut i: usize = 0;
        while i < self.tasks.len()
            invariant
                i <= self.tasks@.len(),
                out.deep_view() =~= self@.take(i as int).filter(
                    |t: TaskView| t.matches_text_at(query@),
                ),
            decreases self.tasks@.len() - i,
        {
            proof {
                lemma_filter_take_step(self@, |t: TaskView| t.matches_text_at(query@), i as int);
            }
            if self.tasks[i].matches_text(query) {
                out.push(self.tasks[i].clone());
            }
            i = i + 1;
        }
        proof {
            lemma_take_all(self@);
        }
        out
    }

    /// Copies of exactly the tasks overdue at the instant.
    pub fn get_overdue_tasks(&self, now: i64) -> (r: Vec<Task>)
        ensures
            r.deep_view() == self@.filter(|t: TaskView| t.is_overdue_at(now)),
    {
        let mut out: Vec<Task> = Vec::new();
        let mut i: usize = 0;
        while i < self.tasks.len()
            invariant
                i <= self.tasks@.len(),
                out.deep_view() =~= self@.take(i as int).filter(
                    |t: TaskView| t.is_overdue_at(now),
                ),
            decreases self.tasks@.len() - i,
        {
            proof {
                lemma_filter_take_step(self@, |t: TaskView| t.is_overdue_at(now), i as int);
            }
            if self.tasks[i].is_overdue(now) {
                out.push(self.tasks[i].clone());
            }
            i = i + 1;
        }
        proof {
            lemma_take_all(self@);
        }
        out
    }

    /// Copies of exactly the tasks in the given state.
    pub fn get_tasks_by_status(&self, status: Status) -> (r: Vec<Task>)
        ensures
            r.deep_view() == self@.filter(|t: TaskView| t.status == status),
    {
        let mut out: Vec<Task> = Vec::new();
        let mut i: usize = 0;
        while i < self.tasks.len()
            invariant
                i <= self.tasks@.len(),
                out.deep_view() =~= self@.take(i as int).filter(|t: TaskView| t.status == status),
            decreases self.tasks@.len() - i,
        {
            proof {
                lemma_filter_take_step(self@, |t: TaskView| t.status == status, i as int);
            }
            if self.tasks[i].status == status {
                out.push(self.tasks[i].clone());
            }
            i = i + 1;
        }
        proof {
            lemma_take_all(self@);
        }
        out
    }

    /// Copies of exactly the tasks with the given priority.
    pub fn get_tasks_by_priority(&self, priority: Priority) -> (r: Vec<Task>)
        ensures
            r.deep_view() == self@.filter(|t: TaskView| t.priority == priority),
    {
        let mut out: Vec<Task> = Vec::new();
        let mut i: usize = 0;
        while i < self.tasks.len()
            invariant
                i <= self.tasks@.len(),
                out.deep_view() =~= self@.take(i as int).filter(
                    |t: TaskView| t.priority == priority,
                ),
            decreases self.tasks@.len() - i,
        {
            proof {
                lemma_filter_take_step(self@, |t: TaskView| t.priority == priority, i as int);
            }
            if self.tasks[i].priority == priority {
                out.push(self.tasks[i].clone());
            }
            i = i + 1;
        }
        proof {
            lemma_take_all(self@);
        }
        out
    }

    /// Copies of exactly the tasks carrying every one of the given tags.
    pub fn get_tasks_by_tags(&self, tags: Vec<String>) -> (r: Vec<Task>)
        ensures
            r.deep_view() == self@.filter(
                |t: TaskView|
                    forall|k: int|
                        0 <= k < tags.deep_view().len() ==> t.has_tag(tags.deep_view()[k]),
            ),
    {
        let mut out: Vec<Task> = Vec::new();
        let mut i: usize = 0;
        while i < self.tasks.len()
            invariant
                i <= self.tasks@.len(),
                out.deep_view() =~= self@.take(i as int).filter(
                    |t: TaskView|
                        forall|k: int|
                            0 <= k < tags.deep_view().len() ==> t.has_tag(tags.deep_view()[k]),
                ),
            decreases self.tasks@.len() - i,
        {
            proof {
                lemma_filter_take_step(
                    self@,
                    |t: TaskView|
                        forall|k: int|
                            0 <= k < tags.deep_view().len() ==> t.has_tag(tags.deep_view()[k]),
                    i as int,
                );
            }
            if self.tasks[i].has_tags(&tags) {
                out.push(self.tasks[i].clone());
            }
            i = i + 1;
        }
        proof {
            lemma_take_all(self@);
        }
        out
    }

    /// One pass over the collection: the total count, the count in each
    /// state, and the count overdue at the instant.
    pub fn get_stats(&self, now: i64) -> (r: TaskStats)
        ensures
            r.total == self@.len(),
            r.todo == count_status(self@, Status::Todo),
            r.in_progress == count_status(self@, Status::InProgress),
            r.completed == count_status(self@, Status::Completed),
            r.cancelled == count_status(self@, Status::Cancelled),
            r.overdue == count_overdue(self@, now),
    {
        let mut todo: usize = 0;
        let mut in_progress: usize = 0;
        let mut completed: usize = 0;
        let mut cancelled: usize = 0;
        let mut overdue: usize = 0;
        let mut i: usize = 0;
        while i < self.tasks.len()
            invariant
                i <= self.tasks@.len(),
                self@.len() == self.tasks@.len(),
                todo == count_status(self@.take(i as int), Status::Todo),
                in_progress == count_status(self@.take(i as int), Status::InProgress),
                completed == count_status(self@.take(i as int), Status::Completed),
                cancelled == count_status(self@.take(i as int), Status::Cancelled),
                overdue == count_overdue(self@.take(i as int), now),
                todo <= i && in_progress <= i && completed <= i && cancelled <= i && overdue <= i,
            decreases self.tasks@.len() - i,
        {
            proof {
                lemma_filter_take_step(self@, |t: TaskView| t.status == Status::Todo, i as int);
                lemma_filter_take_step(
                    self@,
                    |t: TaskView| t.status == Status::InProgress,
                    i as int,
                );
                lemma_filter_take_step(self@, |t: TaskView| t.status == Status::Completed, i as int);
                lemma_filter_take_step(self@, |t: TaskView| t.status == Status::Cancelled, i as int);
                lemma_filter_take_step(self@, |t: TaskView| t.is_overdue_at(now), i as int);
            }
            match self.tasks[i].status {
                Status::Todo => {
                    todo = todo + 1;
                },
                Status::InProgress => {
                    in_progress = in_progress + 1;
                },
                Status::Completed => {
                    completed = completed + 1;
                },
                Status::Cancelled => {
                    cancelled = cancelled + 1;
                },
            }
            if self.tasks[i].is_overdue(now) {
                overdue = overdue + 1;
            }
            i = i + 1;
        }
        proof {
            lemma_take_all(self@);
        }
        TaskStats { total: self.tasks.len(), todo, in_progress, completed, cancelled, overdue }
    }

    /// Every pair of the list is strictly ordered: sorted and free of
    /// duplicates.
    pub open spec fn lex_sorted_unique(s: Seq<Seq<char>>) -> bool {
        forall|i: int, j: int|
            0 <= i < j < s.len() ==> crate::text::lex_le(#[trigger] s[i], #[trigger] s[j]) && s[i]
                != s[j]
    }

    /// The union of every task's tags, as a sorted, deduplicated list.
    pub fn get_all_tags(&self) -> (r: Vec<String>)
        ensures
            TaskManager::lex_sorted_unique(r.deep_view()),
            forall|i: int, k: int|
                0 <= i < self@.len() && 0 <= k < self@[i].tags.len() ==> r.deep_view().contains(
                    #[trigger] self@[i].tags[k],
                ),
            forall|t: Seq<char>|
                #[trigger] r.deep_view().contains(t) ==> exists|i: int, l: int|
                    0 <= i < self@.len() && 0 <= l < self@[i].tags.len() && t == self@[i].tags[l],
    {
        let mut out: Vec<String> = Vec::new();
        let mut i: usize = 0;
        while i < self.tasks.len()
            invariant
                i <= self.tasks@.len(),
                self@.len() == self.tasks@.len(),
                TaskManager::lex_sorted_unique(out.deep_view()),
                forall|a: int, k: int|
                    0 <= a < i && 0 <= k < self@[a].tags.len() ==> out.deep_view().contains(
                        #[trigger] self@[a].tags[k],
                    ),
                forall|t: Seq<char>|
                    #[trigger] out.deep_view().contains(t) ==> exists|a: int, l: int|
                        0 <= a < self@.len() && 0 <= l < self@[a].tags.len() && t
                            == self@[a].tags[l],
            decreases self.tasks@.len() - i,
        {
            let task = &self.tasks[i];
            let mut k: usize = 0;
            while k < task.tags.len()
                invariant
                    i < self.tasks@.len(),
                    self@.len() == self.tasks@.len(),
                    k <= task.tags@.len(),
                    task@ == self@[i as int],
                    task.tags.deep_view() == self@[i as int].tags,
                    TaskManager::lex_sorted_unique(out.deep_view()),
                    forall|a: int, l: int|
                        0 <= a < i && 0 <= l < self@[a].tags.len() ==> out.deep_view().contains(
                            #[trigger] self@[a].tags[l],
                        ),
                    forall|l: int|
                        0 <= l < k ==> out.deep_view().contains(#[trigger] self@[i as int].tags[l]),
                    forall|t: Seq<char>|
                        #[trigger] out.deep_view().contains(t) ==> exists|a: int, m: int|
                            0 <= a < self@.len() && 0 <= m < self@[a].tags.len() && t
                                == self@[a].tags[m],
                decreases task.tags@.len() - k,
            {
                let tag = task.tags[k].clone();
                proof {
                    assert(tag@ == self@[i as int].tags[k as int]);
                }
                let ghost before = out.deep_view();
                let ghost tv = tag@;
                insert_sorted_unique(&mut out, tag);
                proof {
                    assert forall|t: Seq<char>|
                        #[trigger] out.deep_view().contains(t) implies exists|a: int, m: int|
                        0 <= a < self@.len() && 0 <= m < self@[a].tags.len() && t
                            == self@[a].tags[m] by {
                        if !before.contains(t) {
                            assert(t == tv);
                            assert(0 <= (i as int) && (i as int) < self@.len());
                            assert(0 <= (k as int) && (k as int) < self@[i as int].tags.len());
                            assert(t == self@[i as int].tags[k as int]);
                        }
                    }
                }
                k = k + 1;
            }
            i = i + 1;
        }
        out
    }

    /// Replace the whole collection. A collection with a duplicate
    /// identifier, an empty title, or malformed tags is rejected with a
    /// validation error and the registry is left as it was.
    pub fn load_tasks(&mut self, tasks: Vec<Task>) -> (r: Result<(), TaskFlowError>)
        ensures
            final(self).policy == old(self).policy,
            coll_inv(tasks.deep_view()) ==> r == Ok::<(), TaskFlowError>(()) && final(self)@
                == tasks.deep_view() && final(self).inv(),
            !coll_inv(tasks.deep_view()) ==> (r matches Err(e) && e matches
                TaskFlowError::Validation { .. }) && final(self)@ == old(self)@,
    {
        if !collection_ok(&tasks) {
            return Err(TaskFlowError::Validation {
                message: String::from_str("collection holds a duplicate id or a malformed task"),
            });
        }
        self.tasks = tasks;
        Ok(())
    }

    /// Borrow the whole collection, in registry order.
    pub fn export_tasks(&self) -> (r: &Vec<Task>)
        ensures
            r.deep_view() == self@,
    {
        &self.tasks
    }
}


/// Insert a text into a sorted, duplicate-free list, keeping it sorted
/// and duplicate-free; a text already present is not inserted again.
fn insert_sorted_unique(v: &mut Vec<String>, tag: String)
    requires
        TaskManager::lex_sorted_unique(old(v).deep_view()),
    ensures
        TaskManager::lex_sorted_unique(final(v).deep_view()),
        final(v).deep_view().contains(tag@),
        forall|t: Seq<char>|
            old(v).deep_view().contains(t) ==> final(v).deep_view().contains(t),
        forall|t: Seq<char>|
            final(v).deep_view().contains(t) ==> old(v).deep_view().contains(t) || t == tag@,
{
    if vec_contains_string(v, &tag) {
        return ;
    }
    let ghost dv0 = v.deep_view();
    let mut j: usize = 0;
    while j < v.len() && crate::text::str_lex_le(v[j].as_str(), tag.as_str())
        invariant
            dv0 == v.deep_view(),
            j <= v@.len(),
            v@.len() == dv0.len(),
            forall|l: int| 0 <= l < j ==> crate::text::lex_le(#[trigger] dv0[l], tag@),
        decreases v@.len() - j,
    {
        proof {
            assert(dv0[j as int] == v@[j as int]@);
        }
        j = j + 1;
    }
    proof {
        if (j as int) < dv0.len() {
            assert(dv0[j as int] == v@[j as int]@);
            crate::text::lemma_lex_total(dv0[j as int], tag@);
            assert(crate::text::lex_le(tag@, dv0[j as int]));
        }
        assert(!dv0.contains(tag@));
        assert(forall|l: int| 0 <= l < dv0.len() ==> dv0[l] != tag@);
    }
    let ghost tv = tag@;
    v.insert(j, tag);
    proof {
        let dv = v.deep_view();
        assert(dv.len() == dv0.len() + 1);
        assert forall|l: int| 0 <= l < dv.len() implies #[trigger] dv[l] == (if l < j {
            dv0[l]
        } else if l == j {
            tv
        } else {
            dv0[l - 1]
        }) by {
            if l < j {
                assert(v@[l] == old(v)@[l]);
            } else if l > j {
                assert(v@[l] == old(v)@[l - 1]);
            }
        }
        assert forall|a: int, b: int|
            0 <= a < b < dv.len() implies crate::text::lex_le(#[trigger] dv[a], #[trigger] dv[b])
            && dv[a] != dv[b] by {
            if b < j {
                assert(dv[a] == dv0[a] && dv[b] == dv0[b]);
            } else if a < j && b == j {
                assert(crate::text::lex_le(dv0[a], tv));
                assert(dv0[a] != tv);
            } else if a < j && b > j {
                assert(crate::text::lex_le(dv0[a], dv0[b - 1]) || a == b - 1);
                if a < b - 1 {
                    assert(crate::text::lex_le(dv0[a], dv0[b - 1]));
                } else {
                    assert(crate::text::lex_le(dv0[a], tv));
                    assert(crate::text::lex_le(tv, dv0[b - 1]));
                    crate::text::lemma_lex_trans(dv0[a], tv, dv0[b - 1]);
                }
                assert(dv[a] == dv0[a] && dv[b] == dv0[b - 1]);
            } else if a == j {
                assert(dv[b] == dv0[b - 1]);
                assert(crate::text::lex_le(tv, dv0[b - 1])) by {
                    if b - 1 == j {
                        assert(crate::text::lex_le(tv, dv0[j as int]));
                    } else {
                        assert(crate::text::lex_le(tv, dv0[j as int]));
                        assert(crate::text::lex_le(dv0[j as int], dv0[b - 1]));
                        crate::text::lemma_lex_trans(tv, dv0[j as int], dv0[b - 1]);
                    }
                }
                assert(dv[a] != dv[b]);
            } else {
                assert(dv[a] == dv0[a - 1] && dv[b] == dv0[b - 1]);
            }
        }
        assert(dv[j as int] == tv);
        assert(dv.contains(tv));
        assert forall|t: Seq<char>| dv0.contains(t) implies dv.contains(t) by {
            let l = choose|l: int| 0 <= l < dv0.len() && dv0[l] == t;
            if l < j {
                assert(dv[l] == t);
            } else {
                assert(dv[l + 1] == t);
            }
        }
        assert forall|t: Seq<char>| dv.contains(t) implies dv0.contains(t) || t == tv by {
            let l = choose|l: int| 0 <= l < dv.len() && dv[l] == t;
            if l < j {
                assert(dv0[l] == t);
            } else if l > j {
                assert(dv0[l - 1] == t);
            }
        }
    }
}

/// Decide whether a task record is well-formed.
pub fn task_wf_check(t: &Task) -> (r: bool)
    ensures
        r == t@.wf(),
{
    if t.title.as_str().is_empty() {
        return false;
    }
    let completed_set = match &t.completed_at {
        Some(_) => true,
        None => false,
    };
    let is_completed = t.status == Status::Completed;
    if completed_set != is_completed {
        return false;
    }
    let mut i: usize = 0;
    while i < t.tags.len()
        invariant
            i <= t.tags@.len(),
            t@.title.len() > 0,
            (t@.completed_at is Some <==> t@.status == Status::Completed),
            forall|k: int, l: int| 0 <= k < l < i ==> t@.tags[k] != t@.tags[l],
            forall|k: int| 0 <= k < i ==> t@.tags[k].len() > 0,
        decreases t.tags@.len() - i,
    {
        if t.tags[i].as_str().is_empty() {
            proof {
                assert(t@.tags[i as int] == t.tags@[i as int]@);
            }
            return false;
        }
        let mut j: usize = 0;
        while j < i
            invariant
                j <= i < t.tags@.len(),
                forall|k: int| 0 <= k < j ==> t@.tags[k] != t@.tags[i as int],
            decreases i - j,
        {
            if t.tags[j].eq(&t.tags[i]) {
                proof {
                    assert(t@.tags[j as int] == t@.tags[i as int]);
                }
                return false;
            }
            proof {
                assert(t@.tags[j as int] != t@.tags[i as int]);
            }
            j = j + 1;
        }
        i = i + 1;
    }
    true
}

/// Decide whether a vector of tasks satisfies the collection invariant:
/// identifiers unique, every task well-formed.
pub fn collection_ok(tasks: &Vec<Task>) -> (r: bool)
    ensures
        r == coll_inv(tasks.deep_view()),
{
    let ghost s = tasks.deep_view();
    let mut i: usize = 0;
    while i < tasks.len()
        invariant
            i <= tasks@.len(),
            s == tasks.deep_view(),
            s.len() == tasks@.len(),
            forall|k: int, l: int| 0 <= k < l < i ==> s[k].id != s[l].id,
            forall|k: int| 0 <= k < i ==> s[k].wf(),
        decreases tasks@.len() - i,
    {
        if !task_wf_check(&tasks[i]) {
            return false;
        }
        let mut j: usize = 0;
        while j < i
            invariant
                j <= i < tasks@.len(),
                s == tasks.deep_view(),
                s.len() == tasks@.len(),
                forall|k: int| 0 <= k < j ==> s[k].id != s[i as int].id,
            decreases i - j,
        {
            if tasks[j].id == tasks[i].id {
                proof {
                    assert(s[j as int].id == s[i as int].id);
                }
                return false;
            }
            proof {
                assert(s[j as int].id != s[i as int].id);
            }
            j = j + 1;
        }
        i = i + 1;
    }
    true
}

} // verus!
