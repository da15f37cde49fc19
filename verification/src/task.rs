//! The task entity: its record, its view, and its legal state transitions.

use vstd::prelude::*;

use crate::error::TaskFlowError;

verus! {

/// The lifecycle state of a task. `Todo` is the initial state.
#[derive(Clone, Copy, PartialEq, Eq, Structural, Debug)]
pub enum Status {
    Todo,
    InProgress,
    Completed,
    Cancelled,
}

/// The collaborative half of the code base names the same four states
/// `TaskStatus`; the two names are one type here.
pub type TaskStatus = Status;

/// How urgent a task is, ordered by severity (`Low` least, `Critical` most).
#[derive(Clone, Copy, PartialEq, Eq, Structural, Debug)]
pub enum Priority {
    Low,
    Medium,
    High,
    Critical,
}

impl Priority {
    /// The numeric severity of this priority: `Low` is 0 and `Critical` is 3.
    pub open spec fn spec_severity(self) -> u8 {
        match self {
            Priority::Low => 0u8,
            Priority::Medium => 1u8,
            Priority::High => 2u8,
            Priority::Critical => 3u8,
        }
    }

    /// Severity as a number, so callers can order priorities.
    pub fn severity(&self) -> (r: u8)
        ensures
            r == self.spec_severity(),
    {
        match self {
            Priority::Low => 0u8,
            Priority::Medium => 1u8,
            Priority::High => 2u8,
            Priority::Critical => 3u8,
        }
    }
}

impl core::default::Default for Priority {
    /// The default priority of a fresh task.
    fn default() -> (r: Self)
        ensures
            r == Priority::Medium,
    {
        Priority::Medium
    }
}

impl core::default::Default for Status {
    /// The default state of a fresh task.
    fn default() -> (r: Self)
        ensures
            r == Status::Todo,
    {
        Status::Todo
    }
}

/// Whether state changes are restricted to the legal transitions of the
/// state machine (`Strict`) or free (`Permissive`). The single-user tool
/// historically allowed any re-entry; the collaborative service restricts
/// transitions. Both policies are explicit and selectable.
#[derive(Clone, Copy, PartialEq, Eq, Structural, Debug)]
pub enum TransitionPolicy {
    Strict,
    Permissive,
}

/// The mathematical value of a task: every field as a plain value, with
/// text as character sequences. All timestamps are milliseconds since the
/// Unix epoch.
#[verifier::ext_equal]
pub struct TaskView {
    pub id: u128,
    pub title: Seq<char>,
    pub description: Option<Seq<char>>,
    pub status: Status,
    pub priority: Priority,
    pub tags: Seq<Seq<char>>,
    pub created_at: i64,
    pub updated_at: i64,
    pub due_date: Option<i64>,
    pub completed_at: Option<i64>,
    pub started_at: Option<i64>,
    pub created_by: Option<u128>,
    pub assigned_to: Option<u128>,
}

impl TaskView {
    /// Well-formedness of a task record: the title is non-empty, tags hold
    /// no duplicates and no empty strings, and the completion timestamp is
    /// present exactly when the task is completed.
    pub open spec fn wf(self) -> bool {
        &&& self.title.len() > 0
        &&& forall|i: int, j: int|
            0 <= i < j < self.tags.len() ==> self.tags[i] != self.tags[j]
        &&& forall|i: int| 0 <= i < self.tags.len() ==> self.tags[i].len() > 0
        &&& (self.completed_at is Some <==> self.status == Status::Completed)
    }

    /// A task is overdue when it has a due date strictly in the past and is
    /// not completed. A cancelled task past its due date still counts as
    /// overdue, to surface abandoned work.
    pub open spec fn is_overdue_at(self, now: i64) -> bool {
        &&& self.due_date is Some
        &&& self.due_date->0 < now
        &&& self.status != Status::Completed
    }

    /// Whether the task carries the given tag.
    pub open spec fn has_tag(self, tag: Seq<char>) -> bool {
        self.tags.contains(tag)
    }

    /// Whether a search query matches the task's title, description, or
    /// one of its tags, with letter case folded away.
    pub open spec fn matches_text_at(self, query: Seq<char>) -> bool {
        let q = crate::text::lower_of(query);
        ||| crate::text::is_substring_of(q, crate::text::lower_of(self.title))
        ||| (self.description is Some && crate::text::is_substring_of(
            q,
            crate::text::lower_of(self.description->0),
        ))
        ||| exists|i: int|
            0 <= i < self.tags.len() && crate::text::is_substring_of(
                q,
                crate::text::lower_of(self.tags[i]),
            )
    }

    /// Whether `start` is legal: from `Todo` only, unless the policy is
    /// permissive.
    pub open spec fn start_allowed(self, policy: TransitionPolicy) -> bool {
        policy == TransitionPolicy::Permissive || self.status == Status::Todo
    }

    /// Whether `complete` is legal: from `Todo` or `InProgress`, unless the
    /// policy is permissive.
    pub open spec fn complete_allowed(self, policy: TransitionPolicy) -> bool {
        ||| policy == TransitionPolicy::Permissive
        ||| self.status == Status::Todo
        ||| self.status == Status::InProgress
    }

    /// Whether `cancel` is legal: from `Todo` or `InProgress`, unless the
    /// policy is permissive.
    pub open spec fn cancel_allowed(self, policy: TransitionPolicy) -> bool {
        ||| policy == TransitionPolicy::Permissive
        ||| self.status == Status::Todo
        ||| self.status == Status::InProgress
    }

    /// The record after a successful `start`: in progress, stamped, and with
    /// no completion timestamp (leaving `Completed` under the permissive
    /// policy clears it, keeping the record well-formed).
    pub open spec fn after_start(self, now: i64) -> TaskView {
        TaskView {
            status: Status::InProgress,
            started_at: Some(now),
            completed_at: None,
            updated_at: now,
            ..self
        }
    }

    /// The record after a successful `complete`.
    pub open spec fn after_complete(self, now: i64) -> TaskView {
        TaskView {
            status: Status::Completed,
            completed_at: Some(now),
            updated_at: now,
            ..self
        }
    }

    /// The record after a successful `cancel`.
    pub open spec fn after_cancel(self, now: i64) -> TaskView {
        TaskView { status: Status::Cancelled, completed_at: None, updated_at: now, ..self }
    }
}

/// One trackable unit of work. Timestamps are milliseconds since the Unix
/// epoch; the clock is always handed in by the caller, so that every
/// operation is a pure function of its inputs.
#[derive(PartialEq, Eq, Debug)]
pub struct Task {
    pub id: u128,
    pub title: String,
    pub description: Option<String>,
    pub status: Status,
    pub priority: Priority,
    pub tags: Vec<String>,
    pub created_at: i64,
    pub updated_at: i64,
    pub due_date: Option<i64>,
    pub completed_at: Option<i64>,
    pub started_at: Option<i64>,
    pub created_by: Option<u128>,
    pub assigned_to: Option<u128>,
}

impl View for Task {
    type V = TaskView;

    open spec fn view(&self) -> TaskView {
        TaskView {
            id: self.id,
            title: self.title@,
            description: self.description.deep_view(),
            status: self.status,
            priority: self.priority,
            tags: self.tags.deep_view(),
            created_at: self.created_at,
            updated_at: self.updated_at,
            due_date: self.due_date,
            completed_at: self.completed_at,
            started_at: self.started_at,
            created_by: self.created_by,
            assigned_to: self.assigned_to,
        }
    }
}

impl DeepView for Task {
    type V = TaskView;

    open spec fn deep_view(&self) -> TaskView {
        self.view()
    }
}

impl Clone for Task {
    /// A clone has the same value as the original, field for field.
    fn clone(&self) -> (r: Self)
        ensures
            r@ == self@,
    {
        let tags = self.tags.clone();
        proof {
            assert(tags@ =~= self.tags@);
        }
        Task {
            id: self.id,
            title: self.title.clone(),
            description: match &self.description {
                Some(d) => Some(d.clone()),
                None => None,
            },
            status: self.status,
            priority: self.priority,
            tags,
            created_at: self.created_at,
            updated_at: self.updated_at,
            due_date: self.due_date,
            completed_at: self.completed_at,
            started_at: self.started_at,
            created_by: self.created_by,
            assigned_to: self.assigned_to,
        }
    }
}

impl Task {
    /// A fresh task with the given identifier: title as given, no
    /// description, `Todo`, `Medium` priority, no tags, and both timestamps
    /// set to `now`.
    pub open spec fn fresh(id: u128, title: Seq<char>, now: i64) -> TaskView {
        TaskView {
            id,
            title,
            description: None,
            status: Status::Todo,
            priority: Priority::Medium,
            tags: Seq::empty(),
            created_at: now,
            updated_at: now,
            due_date: None,
            completed_at: None,
            started_at: None,
            created_by: None,
            assigned_to: None,
        }
    }

    /// Construct a task with a caller-chosen identifier.
    pub fn with_id(id: u128, title: String, now: i64) -> (t: Task)
        requires
            title@.len() > 0,
        ensures
            t@ == Task::fresh(id, title@, now),
            t@.wf(),
    {
        let t = Task {
            id,
            title,
            description: None,
            status: Status::Todo,
            priority: Priority::Medium,
            tags: Vec::new(),
            created_at: now,
            updated_at: now,
            due_date: None,
            completed_at: None,
            started_at: None,
            created_by: None,
            assigned_to: None,
        };
        proof {
            assert(t@.tags =~= Seq::<Seq<char>>::empty());
            assert(t@ =~= Task::fresh(id, title@, now));
        }
        t
    }

    /// Construct a task with a freshly drawn random identifier. Everything
    /// but the identifier is pinned down; the identifier is whatever the
    /// generator returned.
    pub fn new(title: String, now: i64) -> (t: Task)
        requires
            title@.len() > 0,
        ensures
            t@ == Task::fresh(t@.id, title@, now),
            t@.wf(),
    {
        let id = crate::ids::fresh_task_id();
        Task::with_id(id, title, now)
    }

    /// Move the task to `InProgress`. Under the strict policy this is legal
    /// only from `Todo`; otherwise the call fails with the attempted
    /// transition and changes nothing.
    pub fn start(&mut self, policy: TransitionPolicy, now: i64) -> (r: Result<
        (),
        TaskFlowError,
    >)
        ensures
            old(self)@.start_allowed(policy) ==> r == Ok::<(), TaskFlowError>(())
                && final(self)@ == old(self)@.after_start(now),
            !old(self)@.start_allowed(policy) ==> r == Err::<(), TaskFlowError>(
                TaskFlowError::InvalidStatusTransition {
                    from: old(self)@.status,
                    to: Status::InProgress,
                },
            ) && final(self)@ == old(self)@,
    {
        match policy {
            TransitionPolicy::Strict if self.status != Status::Todo => {
                Err(TaskFlowError::InvalidStatusTransition {
                    from: self.status,
                    to: Status::InProgress,
                })
            },
            _ => {
                self.status = Status::InProgress;
                self.started_at = Some(now);
                self.completed_at = None;
                self.updated_at = now;
                Ok(())
            },
        }
    }

    /// Move the task to `Completed`, stamping the completion time. Under the
    /// strict policy this is legal from `Todo` or `InProgress`; otherwise the
    /// call fails and changes nothing.
    pub fn complete(&mut self, policy: TransitionPolicy, now: i64) -> (r: Result<
        (),
        TaskFlowError,
    >)
        ensures
            old(self)@.complete_allowed(policy) ==> r == Ok::<(), TaskFlowError>(())
                && final(self)@ == old(self)@.after_complete(now),
            !old(self)@.complete_allowed(policy) ==> r == Err::<(), TaskFlowError>(
                TaskFlowError::InvalidStatusTransition {
                    from: old(self)@.status,
                    to: Status::Completed,
                },
            ) && final(self)@ == old(self)@,
    {
        match policy {
            TransitionPolicy::Strict if self.status == Status::Completed || self.status
                == Status::Cancelled => {
                Err(TaskFlowError::InvalidStatusTransition {
                    from: self.status,
                    to: Status::Completed,
                })
            },
            _ => {
                self.status = Status::Completed;
                self.completed_at = Some(now);
                self.updated_at = now;
                Ok(())
            },
        }
    }

    /// Move the task to `Cancelled`. Under the strict policy this is legal
    /// from `Todo` or `InProgress`; otherwise the call fails and changes
    /// nothing.
    pub fn cancel(&mut self, policy: TransitionPolicy, now: i64) -> (r: Result<
        (),
        TaskFlowError,
    >)
        ensures
            old(self)@.cancel_allowed(policy) ==> r == Ok::<(), TaskFlowError>(())
                && final(self)@ == old(self)@.after_cancel(now),
            !old(self)@.cancel_allowed(policy) ==> r == Err::<(), TaskFlowError>(
                TaskFlowError::InvalidStatusTransition {
                    from: old(self)@.status,
                    to: Status::Cancelled,
                },
            ) && final(self)@ == old(self)@,
    {
        match policy {
            TransitionPolicy::Strict if self.status == Status::Completed || self.status
                == Status::Cancelled => {
                Err(TaskFlowError::InvalidStatusTransition {
                    from: self.status,
                    to: Status::Cancelled,
                })
            },
            _ => {
                self.status = Status::Cancelled;
                self.completed_at = None;
                self.updated_at = now;
                Ok(())
            },
        }
    }

    /// Replace the title and stamp the update time.
    pub fn set_title(&mut self, title: String, now: i64)
        requires
            title@.len() > 0,
        ensures
            final(self)@ == (TaskView { title: title@, updated_at: now, ..old(self)@ }),
    {
        self.title = title;
        self.updated_at = now;
    }

    /// Replace the description and stamp the update time.
    pub fn set_description(&mut self, description: Option<String>, now: i64)
        ensures
            final(self)@ == (TaskView {
                description: description.deep_view(),
                updated_at: now,
                ..old(self)@
            }),
    {
        self.description = description;
        self.updated_at = now;
    }

    /// Replace the priority and stamp the update time.
    pub fn set_priority(&mut self, priority: Priority, now: i64)
        ensures
            final(self)@ == (TaskView { priority, updated_at: now, ..old(self)@ }),
    {
        self.priority = priority;
        self.updated_at = now;
    }

    /// Replace the due date and stamp the update time.
    pub fn set_due_date(&mut self, due_date: Option<i64>, now: i64)
        ensures
            final(self)@ == (TaskView { due_date, updated_at: now, ..old(self)@ }),
    {
        self.due_date = due_date;
        self.updated_at = now;
    }

    /// Add a tag. A tag already present is not added again, and only a
    /// first-time add stamps the update time.
    pub fn add_tag(&mut self, tag: String, now: i64)
        requires
            tag@.len() > 0,
        ensures
            old(self)@.has_tag(tag@) ==> final(self)@ == old(self)@,
            !old(self)@.has_tag(tag@) ==> final(self)@ == (TaskView {
                tags: old(self)@.tags.push(tag@),
                updated_at: now,
                ..old(self)@
            }),
    {
        if !vec_contains_string(&self.tags, &tag) {
            self.tags.push(tag);
            self.updated_at = now;
            proof {
                assert(self@.tags =~= old(self)@.tags.push(tag@));
            }
        }
    }

    /// Remove every occurrence of a tag, stamping the update time whether or
    /// not the tag was present.
    pub fn remove_tag(&mut self, tag: &str, now: i64)
        ensures
            final(self)@ == (TaskView {
                tags: old(self)@.tags.filter(|t: Seq<char>| t != tag@),
                updated_at: now,
                ..old(self)@
            }),
    {
        let tag_string: String = tag.to_owned();
        let mut kept: Vec<String> = Vec::new();
        let n = self.tags.len();
        let mut i: usize = 0;
        while i < n
            invariant
                i <= n,
                n == self.tags@.len(),
                self.tags == old(self).tags,
                tag_string@ == tag@,
                kept.deep_view() =~= self.tags.deep_view().take(i as int).filter(
                    |t: Seq<char>| t != tag@,
                ),
            decreases n - i,
        {
            let ghost pred = |t: Seq<char>| t != tag@;
            let ghost prefix = self.tags.deep_view().take(i as int);
            let ghost one = seq![self.tags.deep_view()[i as int]];
            if !(self.tags[i] == tag_string) {
                kept.push(self.tags[i].clone());
            }
            proof {
                assert(self.tags.deep_view().take(i as int + 1) =~= prefix + one);
                Seq::filter_distributes_over_add(prefix, one, pred);
                reveal_with_fuel(Seq::filter, 2);
                assert(one.drop_last() =~= Seq::<Seq<char>>::empty());
                if pred(one[0]) {
                    assert(one.filter(pred) =~= seq![one[0]]);
                } else {
                    assert(one.filter(pred) =~= Seq::<Seq<char>>::empty());
                }
                assert(kept.deep_view() =~= self.tags.deep_view().take(i as int + 1).filter(
                    pred,
                ));
            }
            i = i + 1;
        }
        proof {
            assert(self.tags.deep_view().take(n as int) =~= self.tags.deep_view());
        }
        self.tags = kept;
        self.updated_at = now;
    }

    /// Whether the task carries every tag in the given list.
    pub fn has_tags(&self, tags: &Vec<String>) -> (r: bool)
        ensures
            r == forall|i: int|
                0 <= i < tags.deep_view().len() ==> self@.has_tag(tags.deep_view()[i]),
    {
        let mut i: usize = 0;
        while i < tags.len()
            invariant
                i <= tags@.len(),
                tags@.len() == tags.deep_view().len(),
                forall|j: int| 0 <= j < i ==> self@.has_tag(tags.deep_view()[j]),
            decreases tags@.len() - i,
        {
            if !vec_contains_string(&self.tags, &tags[i]) {
                proof {
                    assert(self.tags.deep_view() == self@.tags);
                    assert(!self@.has_tag(tags.deep_view()[i as int]));
                }
                return false;
            }
            proof {
                assert(self@.has_tag(tags.deep_view()[i as int]));
            }
            i = i + 1;
        }
        true
    }

    /// Whether a search query matches the task's title, description, or
    /// one of its tags, with letter case folded away.
    pub fn matches_text(&self, text: &str) -> (r: bool)
        ensures
            r == self@.matches_text_at(text@),
    {
        let q = crate::text::lowercase(text);
        let title_lower = crate::text::lowercase(self.title.as_str());
        if crate::text::str_contains(title_lower.as_str(), q.as_str()) {
            return true;
        }
        match &self.description {
            Some(d) => {
                let d_lower = crate::text::lowercase(d.as_str());
                if crate::text::str_contains(d_lower.as_str(), q.as_str()) {
                    proof {
                        assert(self@.description == Some(d@));
                    }
                    return true;
                }
            },
            None => {},
        }
        let mut i: usize = 0;
        while i < self.tags.len()
            invariant
                i <= self.tags@.len(),
                q@ == crate::text::lower_of(text@),
                forall|j: int|
                    0 <= j < i ==> !crate::text::is_substring_of(
                        crate::text::lower_of(text@),
                        crate::text::lower_of(self@.tags[j]),
                    ),
            decreases self.tags@.len() - i,
        {
            let tag_lower = crate::text::lowercase(self.tags[i].as_str());
            if crate::text::str_contains(tag_lower.as_str(), q.as_str()) {
                proof {
                    assert(self@.tags[i as int] == self.tags@[i as int]@);
                }
                return true;
            }
            proof {
                assert(self@.tags[i as int] == self.tags@[i as int]@);
            }
            i = i + 1;
        }
        false
    }

    /// Whether the task is overdue at the given instant.
    pub fn is_overdue(&self, now: i64) -> (r: bool)
        ensures
            r == self@.is_overdue_at(now),
    {
        match self.due_date {
            Some(due) => due < now && self.status != Status::Completed,
            None => false,
        }
    }
}

/// Whether a vector of strings holds the given string, compared by value.
pub fn vec_contains_string(v: &Vec<String>, s: &String) -> (r: bool)
    ensures
        r == v.deep_view().contains(s@),
{
    let mut i: usize = 0;
    while i < v.len()
        invariant
            i <= v@.len(),
            forall|j: int| 0 <= j < i ==> v.deep_view()[j] != s@,
        decreases v@.len() - i,
    {
        if v[i].eq(s) {
            proof {
                assert(v.deep_view()[i as int] == s@);
            }
            return true;
        }
        proof {
            assert(v.deep_view()[i as int] != s@);
        }
        i = i + 1;
    }
    proof {
        if v.deep_view().contains(s@) {
            let j = choose|j: int| 0 <= j < v.deep_view().len() && v.deep_view()[j] == s@;
            assert(false);
        }
    }
    false
}

} // verus!
