//! The service-facing request shapes and the verified logic that applies
//! them: building a task from a creation request and merging an update
//! request into an existing task. Malformed input is rejected before any
//! mutation.

use vstd::prelude::*;

use crate::error::TaskFlowError;
use crate::task::Priority;
use crate::task::Status;
use crate::task::Task;
use crate::task::TaskView;
use crate::task::vec_contains_string;
use crate::text::trim;

verus! {

/// A request to create a task.
pub struct CreateTaskRequest {
    pub title: String,
    pub description: Option<String>,
    pub priority: Priority,
    pub tags: Vec<String>,
    pub due_date: Option<i64>,
    pub assigned_to: Option<u128>,
}

/// A request to change some fields of a task; absent fields are left
/// alone.
pub struct UpdateTaskRequest {
    pub title: Option<String>,
    pub description: Option<String>,
    pub priority: Option<Priority>,
    pub tags: Option<Vec<String>>,
    pub due_date: Option<i64>,
    pub assigned_to: Option<u128>,
}

/// Tags as stored on a task: first occurrences kept in order, duplicates
/// and empty strings dropped.
pub open spec fn sanitize_tags(ts: Seq<Seq<char>>) -> Seq<Seq<char>>
    decreases ts.len(),
{
    if ts.len() == 0 {
        Seq::empty()
    } else {
        let rest = sanitize_tags(ts.drop_last());
        if ts.last().len() == 0 || rest.contains(ts.last()) {
            rest
        } else {
            rest.push(ts.last())
        }
    }
}

/// Sanitized tags are pairwise distinct and non-empty.
pub proof fn lemma_sanitize_tags_wf(ts: Seq<Seq<char>>)
    ensures
        forall|i: int, j: int|
            0 <= i < j < sanitize_tags(ts).len() ==> sanitize_tags(ts)[i] != sanitize_tags(
                ts,
            )[j],
        forall|i: int| 0 <= i < sanitize_tags(ts).len() ==> sanitize_tags(ts)[i].len() > 0,
    decreases ts.len(),
{
    if ts.len() > 0 {
        lemma_sanitize_tags_wf(ts.drop_last());
        let rest = sanitize_tags(ts.drop_last());
        if ts.last().len() == 0 || rest.contains(ts.last()) {
        } else {
            let grown = rest.push(ts.last());
            assert forall|i: int, j: int| 0 <= i < j < grown.len() implies grown[i]
                != grown[j] by {
                if j == rest.len() {
                    assert(grown[i] == rest[i]);
                    assert(rest.contains(rest[i]));
                } else {
                    assert(rest[i] != rest[j]);
                }
            }
        }
    }
}

/// Replace a task's tag list with the sanitized form of the given one.
fn set_tags_sanitized(t: &mut Task, tags: &Vec<String>)
    ensures
        final(t)@ == (TaskView { tags: sanitize_tags(tags.deep_view()), ..old(t)@ }),
{
    let mut kept: Vec<String> = Vec::new();
    let mut i: usize = 0;
    while i < tags.len()
        invariant
            i <= tags@.len(),
            tags@.len() == tags.deep_view().len(),
            kept.deep_view() =~= sanitize_tags(tags.deep_view().take(i as int)),
        decreases tags@.len() - i,
    {
        let ghost dv = tags.deep_view();
        let ghost acc0 = kept.deep_view();
        proof {
            assert(dv.take(i as int + 1).drop_last() =~= dv.take(i as int));
            assert(dv.take(i as int + 1).last() == dv[i as int]);
        }
        let tag = tags[i].clone();
        if !tag.as_str().is_empty() && !vec_contains_string(&kept, &tag) {
            kept.push(tag);
            proof {
                assert(kept.deep_view() =~= acc0.push(dv[i as int]));
            }
        } else {
            proof {
                assert(tag@.len() == 0 || acc0.contains(dv[i as int]));
            }
        }
        proof {
            assert(kept.deep_view() =~= sanitize_tags(dv.take(i as int + 1)));
        }
        i = i + 1;
    }
    proof {
        assert(tags.deep_view().take(tags.deep_view().len() as int) =~= tags.deep_view());
    }
    t.tags = kept;
}

/// Build a task from a creation request. A title that is empty once
/// trimmed of blanks is rejected before anything is built; tags are
/// stored in request order with duplicates and empty strings dropped, and
/// the requester is recorded as the creator.
pub fn create_task_from_request(req: CreateTaskRequest, id: u128, creator: u128, now: i64) -> (r:
    Result<Task, TaskFlowError>)
    ensures
        trim(req.title@).len() == 0 ==> (r matches Err(e) && e matches TaskFlowError::Validation {
            ..
        }),
        trim(req.title@).len() > 0 ==> (r matches Ok(t) && t@ == (TaskView {
            id,
            title: req.title@,
            description: req.description.deep_view(),
            status: Status::Todo,
            priority: req.priority,
            tags: sanitize_tags(req.tags.deep_view()),
            created_at: now,
            updated_at: now,
            due_date: req.due_date,
            completed_at: None,
            started_at: None,
            created_by: Some(creator),
            assigned_to: req.assigned_to,
        }) && t@.wf()),
{
    if crate::text::trimmed_is_empty(req.title.as_str()) {
        return Err(TaskFlowError::Validation {
            message: String::from_str("a task title cannot be empty"),
        });
    }
    proof {
        if req.title@.len() == 0 {
            assert(trim(req.title@) =~= req.title@);
        }
    }
    let mut t = Task {
        id,
        title: req.title,
        description: req.description,
        status: Status::Todo,
        priority: req.priority,
        tags: Vec::new(),
        created_at: now,
        updated_at: now,
        due_date: req.due_date,
        completed_at: None,
        started_at: None,
        created_by: Some(creator),
        assigned_to: req.assigned_to,
    };
    set_tags_sanitized(&mut t, &req.tags);
    proof {
        lemma_sanitize_tags_wf(req.tags.deep_view());
    }
    Ok(t)
}

/// Merge an update request into a task: present fields replace the task's,
/// absent fields are left alone, and the update time is stamped. A present
/// title that is empty once trimmed is rejected and nothing changes.
pub fn apply_update(t: &mut Task, req: UpdateTaskRequest, now: i64) -> (r: Result<
    (),
    TaskFlowError,
>)
    ensures
        (req.title is Some && trim(req.title->0@).len() == 0) ==> (r matches Err(e) && e matches
            TaskFlowError::Validation { .. }) && final(t)@ == old(t)@,
        !(req.title is Some && trim(req.title->0@).len() == 0) ==> r == Ok::<(), TaskFlowError>(())
            && final(t)@ == (TaskView {
            title: match req.title {
                Some(s) => s@,
                None => old(t)@.title,
            },
            description: match req.description {
                Some(s) => Some(s@),
                None => old(t)@.description,
            },
            priority: match req.priority {
                Some(p) => p,
                None => old(t)@.priority,
            },
            tags: match req.tags {
                Some(ts) => sanitize_tags(ts.deep_view()),
                None => old(t)@.tags,
            },
            due_date: match req.due_date {
                Some(d) => Some(d),
                None => old(t)@.due_date,
            },
            assigned_to: match req.assigned_to {
                Some(a) => Some(a),
                None => old(t)@.assigned_to,
            },
            updated_at: now,
            ..old(t)@
        }),
{
    match &req.title {
        Some(title) => {
            if crate::text::trimmed_is_empty(title.as_str()) {
                return Err(TaskFlowError::Validation {
                    message: String::from_str("a task title cannot be empty"),
                });
            }
        },
        None => {},
    }
    match req.title {
        Some(title) => {
            t.title = title;
        },
        None => {},
    }
    match req.description {
        Some(description) => {
            t.description = Some(description);
        },
        None => {},
    }
    match req.priority {
        Some(priority) => {
            t.priority = priority;
        },
        None => {},
    }
    match &req.tags {
        Some(tags) => {
            set_tags_sanitized(t, tags);
        },
        None => {},
    }
    match req.due_date {
        Some(due) => {
            t.due_date = Some(due);
        },
        None => {},
    }
    match req.assigned_to {
        Some(a) => {
            t.assigned_to = Some(a);
        },
        None => {},
    }
    t.updated_at = now;
    Ok(())
}

} // verus!
