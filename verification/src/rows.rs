//! The embedded-database row codec: one task as one fixed-schema row of
//! text columns, encoded and decoded by verified code, with a proved
//! round trip.
//!
//! Identifiers and timestamps are decimal numerals; the state and the
//! priority are stored under their names, and an unrecognized name falls
//! back to the default rather than failing, to tolerate schema drift;
//! timestamps that do not parse are a hard load error; a tag column that
//! does not parse falls back to no tags.

use vstd::prelude::*;

use crate::codec::enc_i64;
use crate::codec::enc_tags;
use crate::codec::enc_u128;
use crate::codec::parse_i64_field;
use crate::codec::parse_tags;
use crate::codec::parse_u128_field;
use crate::codec::task_bounded;
use crate::error::TaskFlowError;
use crate::task::Priority;
use crate::task::Status;
use crate::task::Task;
use crate::task::TaskView;

verus! {

/// One database row: every column as text, absent columns as `None`.
pub struct TaskRow {
    pub id: String,
    pub title: String,
    pub description: Option<String>,
    pub status: String,
    pub priority: String,
    pub tags: String,
    pub created_at: String,
    pub updated_at: String,
    pub due_date: Option<String>,
    pub completed_at: Option<String>,
    pub started_at: Option<String>,
    pub created_by: Option<String>,
    pub assigned_to: Option<String>,
}

/// The stored name of a task state.
pub open spec fn status_name(st: Status) -> Seq<char> {
    match st {
        Status::Todo => "Todo"@,
        Status::InProgress => "InProgress"@,
        Status::Completed => "Completed"@,
        Status::Cancelled => "Cancelled"@,
    }
}

/// The state a stored name denotes; an unrecognized name falls back to
/// `Todo`.
pub open spec fn status_of_name(s: Seq<char>) -> Status {
    if s == "Todo"@ {
        Status::Todo
    } else if s == "InProgress"@ {
        Status::InProgress
    } else if s == "Completed"@ {
        Status::Completed
    } else if s == "Cancelled"@ {
        Status::Cancelled
    } else {
        Status::Todo
    }
}

/// The stored name of a priority.
pub open spec fn priority_name(p: Priority) -> Seq<char> {
    match p {
        Priority::Low => "Low"@,
        Priority::Medium => "Medium"@,
        Priority::High => "High"@,
        Priority::Critical => "Critical"@,
    }
}

/// The priority a stored name denotes; an unrecognized name falls back to
/// `Medium`.
pub open spec fn priority_of_name(s: Seq<char>) -> Priority {
    if s == "Low"@ {
        Priority::Low
    } else if s == "Medium"@ {
        Priority::Medium
    } else if s == "High"@ {
        Priority::High
    } else if s == "Critical"@ {
        Priority::Critical
    } else {
        Priority::Medium
    }
}

/// Write a task state under its name.
pub fn status_to_text(st: Status) -> (r: String)
    ensures
        r@ == status_name(st),
{
    match st {
        Status::Todo => String::from_str("Todo"),
        Status::InProgress => String::from_str("InProgress"),
        Status::Completed => String::from_str("Completed"),
        Status::Cancelled => String::from_str("Cancelled"),
    }
}

/// Read a task state from its stored name, falling back to the default on
/// an unrecognized name.
pub fn status_from_text(s: &String) -> (r: Status)
    ensures
        r == status_of_name(s@),
{
    if s.eq(&String::from_str("Todo")) {
        Status::Todo
    } else if s.eq(&String::from_str("InProgress")) {
        Status::InProgress
    } else if s.eq(&String::from_str("Completed")) {
        Status::Completed
    } else if s.eq(&String::from_str("Cancelled")) {
        Status::Cancelled
    } else {
        Status::Todo
    }
}

/// Write a priority under its name.
pub fn priority_to_text(p: Priority) -> (r: String)
    ensures
        r@ == priority_name(p),
{
    match p {
        Priority::Low => String::from_str("Low"),
        Priority::Medium => String::from_str("Medium"),
        Priority::High => String::from_str("High"),
        Priority::Critical => String::from_str("Critical"),
    }
}

/// Read a priority from its stored name, falling back to the default on an
/// unrecognized name.
pub fn priority_from_text(s: &String) -> (r: Priority)
    ensures
        r == priority_of_name(s@),
{
    if s.eq(&String::from_str("Low")) {
        Priority::Low
    } else if s.eq(&String::from_str("Medium")) {
        Priority::Medium
    } else if s.eq(&String::from_str("High")) {
        Priority::High
    } else if s.eq(&String::from_str("Critical")) {
        Priority::Critical
    } else {
        Priority::Medium
    }
}

/// The stored names round-trip, for both enumerations.
pub proof fn lemma_names_roundtrip(st: Status, p: Priority)
    ensures
        status_of_name(status_name(st)) == st,
        priority_of_name(priority_name(p)) == p,
{
    reveal_strlit("Todo");
    reveal_strlit("InProgress");
    reveal_strlit("Completed");
    reveal_strlit("Cancelled");
    reveal_strlit("Low");
    reveal_strlit("Medium");
    reveal_strlit("High");
    reveal_strlit("Critical");
    assert("Todo"@.len() == 4);
    assert("InProgress"@.len() == 10);
    assert("Completed"@.len() == 9);
    assert("Cancelled"@.len() == 9);
    assert("Completed"@[1] == 'o');
    assert("Cancelled"@[1] == 'a');
    assert("Completed"@ != "Cancelled"@);
    assert("Low"@.len() == 3);
    assert("Medium"@.len() == 6);
    assert("High"@.len() == 4);
    assert("Critical"@.len() == 8);
}

/// An unsigned numeral as a whole column.
fn u128_to_column(n: u128) -> (r: String)
    ensures
        r@ == crate::numbers::dec_digits(n as nat),
{
    let mut out = String::new();
    crate::numbers::push_dec_u128(&mut out, n);
    proof {
        assert(out@ =~= crate::numbers::dec_digits(n as nat));
    }
    out
}

/// Read an unsigned numeral that fills its whole column.
fn u128_from_column(s: &String) -> (r: Option<u128>)
    ensures
        match r {
            Some(v) => parse_u128_column(s@) == Some(v),
            None => parse_u128_column(s@) is None,
        },
{
    let text = column_with_semicolon(s);
    let n = text.as_str().unicode_len();
    match crate::codec::parse_u128_field_exec(text.as_str(), n, 0) {
        Some((v, p)) => {
            if p == n {
                Some(v)
            } else {
                None
            }
        },
        None => None,
    }
}

/// What an unsigned column means: its numeral, which must fill it.
pub open spec fn parse_u128_column(s: Seq<char>) -> Option<u128> {
    match parse_u128_field(s + seq![';'], 0) {
        None => None,
        Some((v, p)) => if p == s.len() + 1 {
            Some(v)
        } else {
            None
        },
    }
}

/// What a signed column means: its numeral, which must fill it.
pub open spec fn parse_i64_column(s: Seq<char>) -> Option<i64> {
    match parse_i64_field(s + seq![';'], 0) {
        None => None,
        Some((v, p)) => if p == s.len() + 1 {
            Some(v)
        } else {
            None
        },
    }
}

/// The column text with the field terminator appended, so the field
/// parsers of the document codec read it.
fn column_with_semicolon(s: &String) -> (r: String)
    ensures
        r@ == s@ + seq![';'],
{
    let mut out = s.clone();
    out.append(";");
    proof {
        reveal_strlit(";");
        assert(out@ =~= s@ + seq![';']);
    }
    out
}

/// A signed numeral as a whole column.
fn i64_to_column(v: i64) -> (r: String)
    ensures
        r@ == col_i64(v),
{
    let mut out = String::new();
    if v < 0 {
        out.append("-");
        let m: u128 = (-(v as i128)) as u128;
        proof {
            reveal_strlit("-");
            assert("-"@ =~= seq!['-']);
            assert(m as nat == (-(v as int)) as nat);
        }
        crate::numbers::push_dec_u128(&mut out, m);
        proof {
            assert(out@ =~= col_i64(v));
        }
    } else {
        crate::numbers::push_dec_u128(&mut out, v as u128);
        proof {
            assert(out@ =~= col_i64(v));
        }
    }
    out
}

/// Read a signed numeral that fills its whole column.
fn i64_from_column(s: &String) -> (r: Option<i64>)
    ensures
        match r {
            Some(v) => parse_i64_column(s@) == Some(v),
            None => parse_i64_column(s@) is None,
        },
{
    let text = column_with_semicolon(s);
    let n = text.as_str().unicode_len();
    match crate::codec::parse_i64_field_exec(text.as_str(), n, 0) {
        Some((v, p)) => {
            if p == n {
                Some(v)
            } else {
                None
            }
        },
        None => None,
    }
}

/// What a tag column means: the framed tag list, which must fill it; a
/// column that does not parse falls back to no tags.
pub open spec fn parse_tags_column(s: Seq<char>) -> Seq<Seq<char>> {
    match parse_tags(s, 0) {
        None => Seq::empty(),
        Some((ts, p)) => if p == s.len() {
            ts
        } else {
            Seq::empty()
        },
    }
}

/// Read a tag column, falling back to no tags when it does not parse.
fn tags_from_column(s: &String) -> (r: Vec<String>)
    ensures
        r.deep_view() == parse_tags_column(s@),
{
    let n = s.as_str().unicode_len();
    match crate::codec::parse_tags_exec(s.as_str(), n, 0) {
        Some((ts, p)) => {
            if p == n {
                ts
            } else {
                let empty: Vec<String> = Vec::new();
                proof {
                    assert(empty.deep_view() =~= Seq::<Seq<char>>::empty());
                }
                empty
            }
        },
        None => {
            let empty: Vec<String> = Vec::new();
            proof {
                assert(empty.deep_view() =~= Seq::<Seq<char>>::empty());
            }
            empty
        },
    }
}

/// The mathematical value of a row: every column as characters.
#[verifier::ext_equal]
pub struct RowView {
    pub id: Seq<char>,
    pub title: Seq<char>,
    pub description: Option<Seq<char>>,
    pub status: Seq<char>,
    pub priority: Seq<char>,
    pub tags: Seq<char>,
    pub created_at: Seq<char>,
    pub updated_at: Seq<char>,
    pub due_date: Option<Seq<char>>,
    pub completed_at: Option<Seq<char>>,
    pub started_at: Option<Seq<char>>,
    pub created_by: Option<Seq<char>>,
    pub assigned_to: Option<Seq<char>>,
}

impl View for TaskRow {
    type V = RowView;

    open spec fn view(&self) -> RowView {
        RowView {
            id: self.id@,
            title: self.title@,
            description: self.description.deep_view(),
            status: self.status@,
            priority: self.priority@,
            tags: self.tags@,
            created_at: self.created_at@,
            updated_at: self.updated_at@,
            due_date: self.due_date.deep_view(),
            completed_at: self.completed_at.deep_view(),
            started_at: self.started_at.deep_view(),
            created_by: self.created_by.deep_view(),
            assigned_to: self.assigned_to.deep_view(),
        }
    }
}

impl DeepView for TaskRow {
    type V = RowView;

    open spec fn deep_view(&self) -> RowView {
        self.view()
    }
}

/// A signed timestamp as column text.
pub open spec fn col_i64(v: i64) -> Seq<char> {
    if v < 0 {
        seq!['-'] + crate::numbers::dec_digits((-(v as int)) as nat)
    } else {
        crate::numbers::dec_digits(v as nat)
    }
}

/// The row a task is stored as.
pub open spec fn enc_row(t: TaskView) -> RowView {
    RowView {
        id: crate::numbers::dec_digits(t.id as nat),
        title: t.title,
        description: t.description,
        status: status_name(t.status),
        priority: priority_name(t.priority),
        tags: enc_tags(t.tags),
        created_at: col_i64(t.created_at),
        updated_at: col_i64(t.updated_at),
        due_date: match t.due_date {
            None => None,
            Some(v) => Some(col_i64(v)),
        },
        completed_at: match t.completed_at {
            None => None,
            Some(v) => Some(col_i64(v)),
        },
        started_at: match t.started_at {
            None => None,
            Some(v) => Some(col_i64(v)),
        },
        created_by: match t.created_by {
            None => None,
            Some(v) => Some(crate::numbers::dec_digits(v as nat)),
        },
        assigned_to: match t.assigned_to {
            None => None,
            Some(v) => Some(crate::numbers::dec_digits(v as nat)),
        },
    }
}

/// The task a stored row denotes, or nothing when the identifier or a
/// timestamp column is unreadable.
pub open spec fn dec_row(r: RowView) -> Option<TaskView> {
    match parse_u128_column(r.id) {
        None => None,
        Some(id) => match parse_i64_column(r.created_at) {
            None => None,
            Some(created_at) => match parse_i64_column(r.updated_at) {
                None => None,
                Some(updated_at) => match (match r.due_date {
                    None => Some(None),
                    Some(c) => match parse_i64_column(c) {
                        None => None,
                        Some(v) => Some(Some(v)),
                    },
                }) {
                    None => None,
                    Some(due_date) => match (match r.completed_at {
                        None => Some(None),
                        Some(c) => match parse_i64_column(c) {
                            None => None,
                            Some(v) => Some(Some(v)),
                        },
                    }) {
                        None => None,
                        Some(completed_at) => match (match r.started_at {
                            None => Some(None),
                            Some(c) => match parse_i64_column(c) {
                                None => None,
                                Some(v) => Some(Some(v)),
                            },
                        }) {
                            None => None,
                            Some(started_at) => match (match r.created_by {
                                None => Some(None),
                                Some(c) => match parse_u128_column(c) {
                                    None => None,
                                    Some(v) => Some(Some(v)),
                                },
                            }) {
                                None => None,
                                Some(created_by) => match (match r.assigned_to {
                                    None => Some(None),
                                    Some(c) => match parse_u128_column(c) {
                                        None => None,
                                        Some(v) => Some(Some(v)),
                                    },
                                }) {
                                    None => None,
                                    Some(assigned_to) => Some(
                                        TaskView {
                                            id,
                                            title: r.title,
                                            description: r.description,
                                            status: status_of_name(r.status),
                                            priority: priority_of_name(r.priority),
                                            tags: parse_tags_column(r.tags),
                                            created_at,
                                            updated_at,
                                            due_date,
                                            completed_at,
                                            started_at,
                                            created_by,
                                            assigned_to,
                                        },
                                    ),
                                },
                            },
                        },
                    },
                },
            },
        },
    }
}

/// Write one task as a row.
fn encode_row(t: &Task) -> (r: TaskRow)
    ensures
        r@ == enc_row(t@),
{
    let mut tags_text = String::new();
    crate::codec::push_tags(&mut tags_text, &t.tags);
    let row = TaskRow {
        id: u128_to_column(t.id),
        title: t.title.clone(),
        description: match &t.description {
            Some(d) => Some(d.clone()),
            None => None,
        },
        status: status_to_text(t.status),
        priority: priority_to_text(t.priority),
        tags: tags_text,
        created_at: i64_to_column(t.created_at),
        updated_at: i64_to_column(t.updated_at),
        due_date: match t.due_date {
            Some(v) => Some(i64_to_column(v)),
            None => None,
        },
        completed_at: match t.completed_at {
            Some(v) => Some(i64_to_column(v)),
            None => None,
        },
        started_at: match t.started_at {
            Some(v) => Some(i64_to_column(v)),
            None => None,
        },
        created_by: match t.created_by {
            Some(v) => Some(u128_to_column(v)),
            None => None,
        },
        assigned_to: match t.assigned_to {
            Some(v) => Some(u128_to_column(v)),
            None => None,
        },
    };
    proof {
        assert(row@ =~= enc_row(t@));
    }
    row
}

/// Read one stored row back as a task. An unreadable identifier or
/// timestamp column is a hard error; unrecognized enumeration names and an
/// unreadable tag column fall back to defaults.
fn decode_row(r: &TaskRow) -> (res: Result<Task, TaskFlowError>)
    ensures
        match res {
            Ok(t) => dec_row(r@) == Some(t@),
            Err(e) => dec_row(r@) is None && (e matches TaskFlowError::Serialization { .. }),
        },
{
    let id = match u128_from_column(&r.id) {
        Some(v) => v,
        None => {
            return Err(TaskFlowError::Serialization {
                message: String::from_str("a stored identifier column is unreadable"),
            });
        },
    };
    let created_at = match i64_from_column(&r.created_at) {
        Some(v) => v,
        None => {
            return Err(TaskFlowError::Serialization {
                message: String::from_str("a stored timestamp column is unreadable"),
            });
        },
    };
    let updated_at = match i64_from_column(&r.updated_at) {
        Some(v) => v,
        None => {
            return Err(TaskFlowError::Serialization {
                message: String::from_str("a stored timestamp column is unreadable"),
            });
        },
    };
    let due_date = match &r.due_date {
        None => None,
        Some(c) => match i64_from_column(c) {
            Some(v) => Some(v),
            None => {
                return Err(TaskFlowError::Serialization {
                    message: String::from_str("a stored timestamp column is unreadable"),
                });
            },
        },
    };
    let completed_at = match &r.completed_at {
        None => None,
        Some(c) => match i64_from_column(c) {
            Some(v) => Some(v),
            None => {
                return Err(TaskFlowError::Serialization {
                    message: String::from_str("a stored timestamp column is unreadable"),
                });
            },
        },
    };
    let started_at = match &r.started_at {
        None => None,
        Some(c) => match i64_from_column(c) {
            Some(v) => Some(v),
            None => {
                return Err(TaskFlowError::Serialization {
                    message: String::from_str("a stored timestamp column is unreadable"),
                });
            },
        },
    };
    let created_by = match &r.created_by {
        None => None,
        Some(c) => match u128_from_column(c) {
            Some(v) => Some(v),
            None => {
                return Err(TaskFlowError::Serialization {
                    message: String::from_str("a stored identifier column is unreadable"),
                });
            },
        },
    };
    let assigned_to = match &r.assigned_to {
        None => None,
        Some(c) => match u128_from_column(c) {
            Some(v) => Some(v),
            None => {
                return Err(TaskFlowError::Serialization {
                    message: String::from_str("a stored identifier column is unreadable"),
                });
            },
        },
    };
    let t = Task {
        id,
        title: r.title.clone(),
        description: match &r.description {
            Some(d) => Some(d.clone()),
            None => None,
        },
        status: status_from_text(&r.status),
        priority: priority_from_text(&r.priority),
        tags: tags_from_column(&r.tags),
        created_at,
        updated_at,
        due_date,
        completed_at,
        started_at,
        created_by,
        assigned_to,
    };
    proof {
        assert(dec_row(r@) == Some(t@)) by {
            let decoded = dec_row(r@)->0;
            assert(decoded =~= t@);
        }
    }
    Ok(t)
}

/// What a stored sequence of rows, from position `i` on, decodes to.
pub open spec fn dec_rows_from(rs: Seq<RowView>, i: int) -> Option<Seq<TaskView>>
    decreases rs.len() - i when 0 <= i <= rs.len()
{
    if i < 0 || i >= rs.len() {
        Some(Seq::empty())
    } else {
        match dec_row(rs[i]) {
            None => None,
            Some(t) => match dec_rows_from(rs, i + 1) {
                None => None,
                Some(rest) => Some(seq![t] + rest),
            },
        }
    }
}

/// Write a whole collection as rows, one per task, in registry order.
pub fn encode_rows(m: &crate::task_manager::TaskManager) -> (r: Vec<TaskRow>)
    ensures
        r.deep_view().len() == m@.len(),
        forall|i: int| 0 <= i < m@.len() ==> r.deep_view()[i] == enc_row(m@[i]),
{
    let tasks = m.export_tasks();
    let mut out: Vec<TaskRow> = Vec::new();
    let mut i: usize = 0;
    while i < tasks.len()
        invariant
            i <= tasks@.len(),
            m@ == tasks.deep_view(),
            m@.len() == tasks@.len(),
            out.deep_view().len() == i,
            forall|j: int| 0 <= j < i ==> out.deep_view()[j] == enc_row(m@[j]),
        decreases tasks@.len() - i,
    {
        let row = encode_row(&tasks[i]);
        let ghost acc0 = out.deep_view();
        let ghost rv = row@;
        out.push(row);
        proof {
            assert(out.deep_view() =~= acc0.push(rv));
        }
        i = i + 1;
    }
    out
}

/// Read stored rows back into a registry (under the strict transition
/// policy). An unreadable row, or a decoded collection that breaks the
/// collection invariant, is rejected.
pub fn decode_rows(rows: &Vec<TaskRow>) -> (r: Result<
    crate::task_manager::TaskManager,
    TaskFlowError,
>)
    ensures
        match r {
            Ok(m) => {
                &&& dec_rows_from(rows.deep_view(), 0) == Some(m@)
                &&& crate::task_manager::coll_inv(m@)
                &&& m.inv()
                &&& m.policy == crate::task::TransitionPolicy::Strict
            },
            Err(e) => {
                &&& (e matches TaskFlowError::Serialization { .. })
                &&& (match dec_rows_from(rows.deep_view(), 0) {
                    None => true,
                    Some(views) => !crate::task_manager::coll_inv(views),
                })
            },
        },
{
    let ghost rv = rows.deep_view();
    let mut tasks: Vec<Task> = Vec::new();
    let mut i: usize = 0;
    while i < rows.len()
        invariant
            i <= rows@.len(),
            rv == rows.deep_view(),
            rv.len() == rows@.len(),
            forall|rest: Seq<TaskView>|
                dec_rows_from(rv, i as int) == Some::<Seq<TaskView>>(rest) ==> dec_rows_from(
                    rv,
                    0,
                ) == Some::<Seq<TaskView>>(tasks.deep_view() + rest),
            dec_rows_from(rv, i as int) is None ==> dec_rows_from(rv, 0) is None,
        decreases rows@.len() - i,
    {
        let ghost acc0 = tasks.deep_view();
        match decode_row(&rows[i]) {
            Err(e) => {
                proof {
                    assert(dec_rows_from(rv, i as int) is None);
                }
                return Err(e);
            },
            Ok(t) => {
                let ghost tv = t@;
                tasks.push(t);
                proof {
                    assert(tasks.deep_view() =~= acc0.push(tv));
                    assert forall|rest: Seq<TaskView>|
                        dec_rows_from(rv, i as int + 1) == Some::<Seq<TaskView>>(
                            rest,
                        ) implies dec_rows_from(rv, 0) == Some::<Seq<TaskView>>(
                        tasks.deep_view() + rest,
                    ) by {
                        assert(acc0.push(tv) + rest =~= acc0 + (seq![tv] + rest));
                    }
                }
            },
        }
        i = i + 1;
    }
    proof {
        assert(dec_rows_from(rv, rv.len() as int) == Some::<Seq<TaskView>>(Seq::empty()));
        assert(tasks.deep_view() + Seq::<TaskView>::empty() =~= tasks.deep_view());
    }
    if !crate::task_manager::collection_ok(&tasks) {
        return Err(TaskFlowError::Serialization {
            message: String::from_str(
                "the stored rows hold a duplicate identifier or a malformed task",
            ),
        });
    }
    Ok(crate::task_manager::TaskManager {
        tasks,
        policy: crate::task::TransitionPolicy::Strict,
    })
}

/// The numeral of an identifier fills its column and reads back as the
/// identifier.
proof fn lemma_rt_u128_column(v: u128)
    ensures
        parse_u128_column(crate::numbers::dec_digits(v as nat)) == Some(v),
{
    let col = crate::numbers::dec_digits(v as nat);
    let s = col + seq![';'];
    assert(s.subrange(0, enc_u128(v).len() as int) =~= enc_u128(v));
    crate::codec::lemma_rt_u128(s, 0, v);
}

/// The numeral of a timestamp fills its column and reads back as the
/// timestamp.
proof fn lemma_rt_i64_column(v: i64)
    ensures
        parse_i64_column(col_i64(v)) == Some(v),
{
    let s = col_i64(v) + seq![';'];
    assert(s =~= enc_i64(v));
    assert(s.subrange(0, enc_i64(v).len() as int) =~= enc_i64(v));
    crate::codec::lemma_rt_i64(s, 0, v);
}

/// The framed tag list fills its column and reads back as the tags.
proof fn lemma_rt_tags_column(ts: Seq<Seq<char>>)
    requires
        ts.len() <= u128::MAX,
        forall|j: int| 0 <= j < ts.len() ==> (#[trigger] ts[j]).len() <= u128::MAX,
    ensures
        parse_tags_column(enc_tags(ts)) == ts,
{
    let s = enc_tags(ts);
    assert(s.subrange(0, s.len() as int) =~= s);
    crate::codec::lemma_rt_tags(s, 0, ts);
}

/// Law: the row codec round-trips one task. For any task (within the
/// machine limits of the numerals), decoding its stored row yields the
/// same identifier and field values.
pub proof fn lemma_row_roundtrip(t: TaskView)
    requires
        task_bounded(t),
    ensures
        dec_row(enc_row(t)) == Some(t),
{
    lemma_rt_u128_column(t.id);
    lemma_rt_i64_column(t.created_at);
    lemma_rt_i64_column(t.updated_at);
    match t.due_date {
        Some(v) => lemma_rt_i64_column(v),
        None => (),
    }
    match t.completed_at {
        Some(v) => lemma_rt_i64_column(v),
        None => (),
    }
    match t.started_at {
        Some(v) => lemma_rt_i64_column(v),
        None => (),
    }
    match t.created_by {
        Some(v) => lemma_rt_u128_column(v),
        None => (),
    }
    match t.assigned_to {
        Some(v) => lemma_rt_u128_column(v),
        None => (),
    }
    lemma_names_roundtrip(t.status, t.priority);
    lemma_rt_tags_column(t.tags);
    let decoded = dec_row(enc_row(t))->0;
    assert(decoded =~= t);
}

/// Law: the row codec round-trips a whole collection, row by row in
/// order.
pub proof fn lemma_rows_roundtrip(views: Seq<TaskView>, rows: Seq<RowView>)
    requires
        rows.len() == views.len(),
        forall|i: int| 0 <= i < views.len() ==> task_bounded(#[trigger] views[i]),
        forall|i: int| 0 <= i < views.len() ==> rows[i] == enc_row(#[trigger] views[i]),
    ensures
        dec_rows_from(rows, 0) == Some(views),
{
    lemma_rows_roundtrip_from(views, rows, 0);
    assert(views.skip(0) =~= views);
}

proof fn lemma_rows_roundtrip_from(views: Seq<TaskView>, rows: Seq<RowView>, i: int)
    requires
        0 <= i <= views.len(),
        rows.len() == views.len(),
        forall|j: int| 0 <= j < views.len() ==> task_bounded(#[trigger] views[j]),
        forall|j: int| 0 <= j < views.len() ==> rows[j] == enc_row(#[trigger] views[j]),
    ensures
        dec_rows_from(rows, i) == Some(views.skip(i)),
    decreases views.len() - i,
{
    if i == views.len() {
        assert(views.skip(i) =~= Seq::<TaskView>::empty());
    } else {
        lemma_row_roundtrip(views[i]);
        lemma_rows_roundtrip_from(views, rows, i + 1);
        assert(seq![views[i]] + views.skip(i + 1) =~= views.skip(i));
    }
}

} // verus!
