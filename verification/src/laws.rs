//! The library's stated laws: properties that relate several operations,
//! proved once and for all over the views and spec functions that the
//! operations' own contracts use.

use vstd::prelude::*;

use crate::task::Status;
use crate::task::Task;
use crate::task::TaskView;
use crate::task::TransitionPolicy;

verus! {

/// Law: every operation keeps `created_at <= updated_at`.
///
/// A fresh task has both timestamps equal, and every mutation stamps
/// `updated_at` with the clock it is handed while leaving `created_at`
/// unchanged; so the order is kept by every operation sequence whose clock
/// readings are not before the task's creation. (A clock handed a reading
/// earlier than `created_at` is the one input left out.)
pub proof fn lemma_operations_keep_time_order(t: TaskView, id: u128, title: Seq<char>, now: i64)
    requires
        t.created_at <= t.updated_at,
        t.created_at <= now,
    ensures
        Task::fresh(id, title, now).created_at <= Task::fresh(id, title, now).updated_at,
        t.after_start(now).created_at <= t.after_start(now).updated_at,
        t.after_complete(now).created_at <= t.after_complete(now).updated_at,
        t.after_cancel(now).created_at <= t.after_cancel(now).updated_at,
{
}

/// Law: a stamped field update keeps `created_at <= updated_at`. Every
/// setter produces a record with the same `created_at` and `updated_at`
/// equal to the clock it was handed; this covers them all.
pub proof fn lemma_stamp_keeps_time_order(t: TaskView, u: TaskView, now: i64)
    requires
        u.created_at == t.created_at,
        u.updated_at == now,
        t.created_at <= now,
    ensures
        u.created_at <= u.updated_at,
{
}

/// Law: a completed task is never overdue, whatever its due date and
/// whatever the clock says.
pub proof fn lemma_completed_not_overdue(t: TaskView, now: i64)
    requires
        t.status == Status::Completed,
    ensures
        !t.is_overdue_at(now),
{
}

/// Law: `complete` followed by `is_overdue` is false, even if a due date in
/// the past is set afterwards, as long as the status remains `Completed`.
pub proof fn lemma_complete_then_overdue_false(t: TaskView, now: i64, due: i64, later: i64)
    ensures
        !t.after_complete(now).is_overdue_at(later),
        !(TaskView { due_date: Some(due), updated_at: later, ..t.after_complete(now) }).is_overdue_at(
            later,
        ),
{
}

/// Law: starting a task twice fails. A successful strict `start` leaves the
/// task `InProgress`, from which a second strict `start` is not allowed;
/// by the contract of `start`, the second call then returns
/// `InvalidStatusTransition` with `from` and `to` both `InProgress` and
/// changes nothing.
pub proof fn lemma_start_twice_fails(t: TaskView, now1: i64)
    requires
        t.status == Status::Todo,
    ensures
        t.start_allowed(TransitionPolicy::Strict),
        t.after_start(now1).status == Status::InProgress,
        !t.after_start(now1).start_allowed(TransitionPolicy::Strict),
{
}

/// The tasks of a collection that are in the given state, in order.
pub open spec fn tasks_with_status(s: Seq<TaskView>, st: Status) -> Seq<TaskView> {
    s.filter(|t: TaskView| t.status == st)
}

/// Law: filtering by a status returns exactly the tasks in that status and
/// nothing else: every element of the result is in the status and comes
/// from the collection, and every task of the collection in the status is
/// in the result.
pub proof fn lemma_filter_status_exact(s: Seq<TaskView>, st: Status)
    ensures
        forall|i: int|
            0 <= i < tasks_with_status(s, st).len() ==> (#[trigger] tasks_with_status(s, st)[i]).status
                == st && s.contains(tasks_with_status(s, st)[i]),
        forall|i: int|
            0 <= i < s.len() && (#[trigger] s[i]).status == st ==> tasks_with_status(
                s,
                st,
            ).contains(s[i]),
{
    let p = |t: TaskView| t.status == st;
    let f = tasks_with_status(s, st);
    assert(f == s.filter(p));
    assert forall|i: int| 0 <= i < f.len() implies (#[trigger] f[i]).status == st && s.contains(
        f[i],
    ) by {
        s.lemma_filter_pred(p, i);
        assert(f.contains(f[i]));
        s.lemma_filter_contains_rev(p, f[i]);
    }
    assert forall|i: int| 0 <= i < s.len() && (#[trigger] s[i]).status == st implies f.contains(
        s[i],
    ) by {
        s.lemma_filter_contains(p, i);
    }
}

/// Law: adding the same tag twice results in exactly one occurrence of it,
/// and only the first add changes `updated_at`. The record after a
/// first-time add carries the tag exactly once; since it carries the tag,
/// the contract of `add_tag` makes the second call return the record
/// unchanged, `updated_at` still bearing the first stamp.
pub proof fn lemma_add_tag_once(t: TaskView, tag: Seq<char>, now1: i64)
    requires
        !t.has_tag(tag),
    ensures
        (TaskView { tags: t.tags.push(tag), updated_at: now1, ..t }).has_tag(tag),
        (TaskView { tags: t.tags.push(tag), updated_at: now1, ..t }).tags.filter(
            |x: Seq<char>| x == tag,
        ).len() == 1,
        (TaskView { tags: t.tags.push(tag), updated_at: now1, ..t }).updated_at == now1,
{
    let grown = t.tags.push(tag);
    assert(grown[grown.len() - 1] == tag);
    assert(grown.contains(tag));
    let p = |x: Seq<char>| x == tag;
    assert(forall|i: int| 0 <= i < t.tags.len() ==> !p(t.tags[i]));
    t.tags.lemma_all_neg_filter_empty(p);
    assert(grown.drop_last() =~= t.tags);
    reveal_with_fuel(Seq::filter, 2);
    assert(grown.filter(p) =~= t.tags.filter(p).push(tag));
}

} // verus!
