//! The flat-file document codec: a whole task collection as one text
//! document, written and parsed by verified code, with a proved round
//! trip.
//!
//! Every value is framed so that the document parses unambiguously:
//! numbers are decimal numerals ended by a sigil, strings are
//! length-prefixed, options carry a one-character presence marker, and the
//! enumerations are single characters.

use vstd::prelude::*;

use crate::error::TaskFlowError;
use crate::numbers::dec_digits;
use crate::numbers::digit_of;
use crate::numbers::digit_run_end;
use crate::numbers::digit_val;
use crate::numbers::digits_value;
use crate::numbers::is_digit;
use crate::numbers::lemma_parse_of_dec_digits;
use crate::numbers::push_dec_u128;
use crate::task::Priority;
use crate::task::Status;
use crate::task::Task;
use crate::task::TaskView;
use crate::task::TransitionPolicy;
use crate::task_manager::TaskManager;
use crate::task_manager::coll_inv;
use crate::task_manager::collection_ok;
use crate::seqs::lemma_add_assoc;

verus! {

// ---------------------------------------------------------------------
// Spec encoders
// ---------------------------------------------------------------------
/// A length-prefixed string: its length, a colon, its characters.
pub open spec fn enc_str(s: Seq<char>) -> Seq<char> {
    dec_digits(s.len()) + seq![':'] + s
}

/// An optional string: `n`, or `s` followed by the string.
pub open spec fn enc_opt_str(o: Option<Seq<char>>) -> Seq<char> {
    match o {
        None => seq!['n'],
        Some(s) => seq!['s'] + enc_str(s),
    }
}

/// An unsigned number ended by a semicolon.
pub open spec fn enc_u128(n: u128) -> Seq<char> {
    dec_digits(n as nat) + seq![';']
}

/// A signed number: an optional minus sign, the magnitude, a semicolon.
pub open spec fn enc_i64(v: i64) -> Seq<char> {
    if v < 0 {
        seq!['-'] + dec_digits((-(v as int)) as nat) + seq![';']
    } else {
        dec_digits(v as nat) + seq![';']
    }
}

/// An optional signed number.
pub open spec fn enc_opt_i64(o: Option<i64>) -> Seq<char> {
    match o {
        None => seq!['n'],
        Some(v) => seq!['s'] + enc_i64(v),
    }
}

/// An optional unsigned number.
pub open spec fn enc_opt_u128(o: Option<u128>) -> Seq<char> {
    match o {
        None => seq!['n'],
        Some(v) => seq!['s'] + enc_u128(v),
    }
}

/// A task state as one character.
pub open spec fn enc_status(st: Status) -> Seq<char> {
    match st {
        Status::Todo => seq!['t'],
        Status::InProgress => seq!['p'],
        Status::Completed => seq!['c'],
        Status::Cancelled => seq!['x'],
    }
}

/// A priority as one character.
pub open spec fn enc_priority(p: Priority) -> Seq<char> {
    match p {
        Priority::Low => seq!['l'],
        Priority::Medium => seq!['m'],
        Priority::High => seq!['h'],
        Priority::Critical => seq!['r'],
    }
}

/// The tags from position `i` on, one length-prefixed string each.
pub open spec fn enc_tags_from(ts: Seq<Seq<char>>, i: int) -> Seq<char>
    decreases ts.len() - i when 0 <= i <= ts.len()
{
    if i < 0 || i >= ts.len() {
        Seq::empty()
    } else {
        enc_str(ts[i]) + enc_tags_from(ts, i + 1)
    }
}

/// A tag list: its count, a semicolon, the tags.
pub open spec fn enc_tags(ts: Seq<Seq<char>>) -> Seq<char> {
    dec_digits(ts.len()) + seq![';'] + enc_tags_from(ts, 0)
}

/// The identifying half of a task record: identifier, title,
/// description, state, priority, tags.
pub open spec fn enc_task_head(t: TaskView) -> Seq<char> {
    enc_u128(t.id) + enc_str(t.title) + enc_opt_str(t.description) + enc_status(t.status)
        + enc_priority(t.priority) + enc_tags(t.tags)
}

/// The temporal half of a task record: the timestamps and the account
/// references.
pub open spec fn enc_task_tail(t: TaskView) -> Seq<char> {
    enc_i64(t.created_at) + enc_i64(t.updated_at) + enc_opt_i64(t.due_date) + enc_opt_i64(
        t.completed_at,
    ) + enc_opt_i64(t.started_at) + enc_opt_u128(t.created_by) + enc_opt_u128(t.assigned_to)
}

/// One task record, fields in a fixed order.
pub open spec fn enc_task(t: TaskView) -> Seq<char> {
    enc_task_head(t) + enc_task_tail(t)
}

/// The tasks from position `i` on.
pub open spec fn enc_tasks_from(s: Seq<TaskView>, i: int) -> Seq<char>
    decreases s.len() - i when 0 <= i <= s.len()
{
    if i < 0 || i >= s.len() {
        Seq::empty()
    } else {
        enc_task(s[i]) + enc_tasks_from(s, i + 1)
    }
}

/// The whole document: the task count, a semicolon, the tasks.
pub open spec fn enc_coll(s: Seq<TaskView>) -> Seq<char> {
    dec_digits(s.len()) + seq![';'] + enc_tasks_from(s, 0)
}

// ---------------------------------------------------------------------
// Spec parsers. Each takes the document and a position, and yields the
// parsed value with the position after it, or nothing.
// ---------------------------------------------------------------------
/// Parse a numeral: at least one digit, value within `u128`.
pub open spec fn parse_nat(s: Seq<char>, pos: int) -> Option<(u128, int)> {
    let e = digit_run_end(s, pos);
    if e == pos || digits_value(s, pos, e) > u128::MAX {
        None
    } else {
        Some((digits_value(s, pos, e) as u128, e))
    }
}

/// Expect one exact character.
pub open spec fn expect_char(s: Seq<char>, pos: int, c: char) -> Option<int> {
    if 0 <= pos < s.len() && s[pos] == c {
        Some(pos + 1)
    } else {
        None
    }
}

/// Parse a length-prefixed string.
pub open spec fn parse_str(s: Seq<char>, pos: int) -> Option<(Seq<char>, int)> {
    match parse_nat(s, pos) {
        None => None,
        Some((v, p1)) => match expect_char(s, p1, ':') {
            None => None,
            Some(p2) => if p2 + v <= s.len() {
                Some((s.subrange(p2, p2 + v as int), p2 + v as int))
            } else {
                None
            },
        },
    }
}

/// Parse an unsigned number ended by a semicolon.
pub open spec fn parse_u128_field(s: Seq<char>, pos: int) -> Option<(u128, int)> {
    match parse_nat(s, pos) {
        None => None,
        Some((v, p1)) => match expect_char(s, p1, ';') {
            None => None,
            Some(p2) => Some((v, p2)),
        },
    }
}

/// Parse a signed number ended by a semicolon.
pub open spec fn parse_i64_field(s: Seq<char>, pos: int) -> Option<(i64, int)> {
    if 0 <= pos < s.len() && s[pos] == '-' {
        match parse_nat(s, pos + 1) {
            None => None,
            Some((v, p1)) => if v as int <= 0x8000_0000_0000_0000 {
                match expect_char(s, p1, ';') {
                    None => None,
                    Some(p2) => Some(((-(v as int)) as i64, p2)),
                }
            } else {
                None
            },
        }
    } else {
        match parse_nat(s, pos) {
            None => None,
            Some((v, p1)) => if v as int <= i64::MAX as int {
                match expect_char(s, p1, ';') {
                    None => None,
                    Some(p2) => Some((v as i64, p2)),
                }
            } else {
                None
            },
        }
    }
}

/// Parse an optional value given the parser result of its payload.
pub open spec fn parse_opt_str(s: Seq<char>, pos: int) -> Option<(Option<Seq<char>>, int)> {
    if 0 <= pos < s.len() && s[pos] == 'n' {
        Some((None, pos + 1))
    } else if 0 <= pos < s.len() && s[pos] == 's' {
        match parse_str(s, pos + 1) {
            None => None,
            Some((v, p)) => Some((Some(v), p)),
        }
    } else {
        None
    }
}

/// Parse an optional signed number.
pub open spec fn parse_opt_i64(s: Seq<char>, pos: int) -> Option<(Option<i64>, int)> {
    if 0 <= pos < s.len() && s[pos] == 'n' {
        Some((None, pos + 1))
    } else if 0 <= pos < s.len() && s[pos] == 's' {
        match parse_i64_field(s, pos + 1) {
            None => None,
            Some((v, p)) => Some((Some(v), p)),
        }
    } else {
        None
    }
}

/// Parse an optional unsigned number.
pub open spec fn parse_opt_u128(s: Seq<char>, pos: int) -> Option<(Option<u128>, int)> {
    if 0 <= pos < s.len() && s[pos] == 'n' {
        Some((None, pos + 1))
    } else if 0 <= pos < s.len() && s[pos] == 's' {
        match parse_u128_field(s, pos + 1) {
            None => None,
            Some((v, p)) => Some((Some(v), p)),
        }
    } else {
        None
    }
}

/// Parse a task state.
pub open spec fn parse_status(s: Seq<char>, pos: int) -> Option<(Status, int)> {
    if 0 <= pos < s.len() && s[pos] == 't' {
        Some((Status::Todo, pos + 1))
    } else if 0 <= pos < s.len() && s[pos] == 'p' {
        Some((Status::InProgress, pos + 1))
    } else if 0 <= pos < s.len() && s[pos] == 'c' {
        Some((Status::Completed, pos + 1))
    } else if 0 <= pos < s.len() && s[pos] == 'x' {
        Some((Status::Cancelled, pos + 1))
    } else {
        None
    }
}

/// Parse a priority.
pub open spec fn parse_priority(s: Seq<char>, pos: int) -> Option<(Priority, int)> {
    if 0 <= pos < s.len() && s[pos] == 'l' {
        Some((Priority::Low, pos + 1))
    } else if 0 <= pos < s.len() && s[pos] == 'm' {
        Some((Priority::Medium, pos + 1))
    } else if 0 <= pos < s.len() && s[pos] == 'h' {
        Some((Priority::High, pos + 1))
    } else if 0 <= pos < s.len() && s[pos] == 'r' {
        Some((Priority::Critical, pos + 1))
    } else {
        None
    }
}

/// Parse `k` length-prefixed strings.
pub open spec fn parse_strs(s: Seq<char>, pos: int, k: nat) -> Option<(Seq<Seq<char>>, int)>
    decreases k,
{
    if k == 0 {
        Some((Seq::empty(), pos))
    } else {
        match parse_str(s, pos) {
            None => None,
            Some((v, p)) => match parse_strs(s, p, (k - 1) as nat) {
                None => None,
                Some((rest, p2)) => Some((seq![v] + rest, p2)),
            },
        }
    }
}

/// Parse a tag list.
pub open spec fn parse_tags(s: Seq<char>, pos: int) -> Option<(Seq<Seq<char>>, int)> {
    match parse_u128_field(s, pos) {
        None => None,
        Some((k, p)) => parse_strs(s, p, k as nat),
    }
}

/// The identifying half of a parsed task record.
pub struct TaskHead {
    pub id: u128,
    pub title: Seq<char>,
    pub description: Option<Seq<char>>,
    pub status: Status,
    pub priority: Priority,
    pub tags: Seq<Seq<char>>,
}

/// The temporal half of a parsed task record.
pub struct TaskTail {
    pub created_at: i64,
    pub updated_at: i64,
    pub due_date: Option<i64>,
    pub completed_at: Option<i64>,
    pub started_at: Option<i64>,
    pub created_by: Option<u128>,
    pub assigned_to: Option<u128>,
}

/// Parse the identifying half of a task record.
pub open spec fn parse_task_head(s: Seq<char>, pos: int) -> Option<(TaskHead, int)> {
    match parse_u128_field(s, pos) {
        None => None,
        Some((id, p1)) => match parse_str(s, p1) {
            None => None,
            Some((title, p2)) => match parse_opt_str(s, p2) {
                None => None,
                Some((description, p3)) => match parse_status(s, p3) {
                    None => None,
                    Some((status, p4)) => match parse_priority(s, p4) {
                        None => None,
                        Some((priority, p5)) => match parse_tags(s, p5) {
                            None => None,
                            Some((tags, p6)) => Some(
                                (TaskHead { id, title, description, status, priority, tags }, p6),
                            ),
                        },
                    },
                },
            },
        },
    }
}

/// Parse the temporal half of a task record.
pub open spec fn parse_task_tail(s: Seq<char>, pos: int) -> Option<(TaskTail, int)> {
    match parse_i64_field(s, pos) {
        None => None,
        Some((created_at, p7)) => match parse_i64_field(s, p7) {
            None => None,
            Some((updated_at, p8)) => match parse_opt_i64(s, p8) {
                None => None,
                Some((due_date, p9)) => match parse_opt_i64(s, p9) {
                    None => None,
                    Some((completed_at, p10)) => match parse_opt_i64(s, p10) {
                        None => None,
                        Some((started_at, p11)) => match parse_opt_u128(s, p11) {
                            None => None,
                            Some((created_by, p12)) => match parse_opt_u128(s, p12) {
                                None => None,
                                Some((assigned_to, p13)) => Some(
                                    (
                                        TaskTail {
                                            created_at,
                                            updated_at,
                                            due_date,
                                            completed_at,
                                            started_at,
                                            created_by,
                                            assigned_to,
                                        },
                                        p13,
                                    ),
                                ),
                            },
                        },
                    },
                },
            },
        },
    }
}

/// The task record a parsed head and tail assemble into.
pub open spec fn assemble_task(h: TaskHead, tl: TaskTail) -> TaskView {
    TaskView {
        id: h.id,
        title: h.title,
        description: h.description,
        status: h.status,
        priority: h.priority,
        tags: h.tags,
        created_at: tl.created_at,
        updated_at: tl.updated_at,
        due_date: tl.due_date,
        completed_at: tl.completed_at,
        started_at: tl.started_at,
        created_by: tl.created_by,
        assigned_to: tl.assigned_to,
    }
}

/// Parse one task record.
pub open spec fn parse_task(s: Seq<char>, pos: int) -> Option<(TaskView, int)> {
    match parse_task_head(s, pos) {
        None => None,
        Some((h, p)) => match parse_task_tail(s, p) {
            None => None,
            Some((tl, p2)) => Some((assemble_task(h, tl), p2)),
        },
    }
}

/// Parse `k` task records.
pub open spec fn parse_tasks(s: Seq<char>, pos: int, k: nat) -> Option<(Seq<TaskView>, int)>
    decreases k,
{
    if k == 0 {
        Some((Seq::empty(), pos))
    } else {
        match parse_task(s, pos) {
            None => None,
            Some((t, p)) => match parse_tasks(s, p, (k - 1) as nat) {
                None => None,
                Some((rest, p2)) => Some((seq![t] + rest, p2)),
            },
        }
    }
}

/// Parse a whole document: the count, the tasks, and nothing after them.
pub open spec fn parse_coll(s: Seq<char>) -> Option<Seq<TaskView>> {
    match parse_u128_field(s, 0) {
        None => None,
        Some((k, p)) => match parse_tasks(s, p, k as nat) {
            None => None,
            Some((tasks, p2)) => if p2 == s.len() {
                Some(tasks)
            } else {
                None
            },
        },
    }
}

// ---------------------------------------------------------------------
// Round-trip lemmas: parsing what was encoded yields the encoded value
// ---------------------------------------------------------------------
/// A task whose text fields are small enough for the numerals of the
/// document (a machine limit far beyond any real task).
pub open spec fn task_bounded(t: TaskView) -> bool {
    &&& t.title.len() <= u128::MAX
    &&& (t.description is Some ==> t.description->0.len() <= u128::MAX)
    &&& t.tags.len() <= u128::MAX
    &&& forall|i: int| 0 <= i < t.tags.len() ==> (#[trigger] t.tags[i]).len() <= u128::MAX
}

/// A collection whose size and text fields are small enough for the
/// numerals of the document.
pub open spec fn coll_bounded(s: Seq<TaskView>) -> bool {
    &&& s.len() <= u128::MAX
    &&& forall|i: int| 0 <= i < s.len() ==> task_bounded(#[trigger] s[i])
}

/// A region equal to a concatenation splits into its two halves.
proof fn lemma_split_region(s: Seq<char>, pos: int, a: Seq<char>, b: Seq<char>)
    requires
        0 <= pos,
        pos + a.len() + b.len() <= s.len(),
        s.subrange(pos, pos + a.len() + b.len()) == a + b,
    ensures
        s.subrange(pos, pos + a.len()) == a,
        s.subrange(pos + a.len(), pos + a.len() + b.len()) == b,
{
    let whole = s.subrange(pos, pos + a.len() + b.len());
    assert forall|i: int| 0 <= i < a.len() implies s.subrange(pos, pos + a.len())[i] == a[i] by {
        assert(s.subrange(pos, pos + a.len())[i] == s[pos + i]);
        assert(whole[i] == s[pos + i]);
        assert((a + b)[i] == a[i]);
    }
    assert(s.subrange(pos, pos + a.len()) =~= a);
    assert forall|i: int| 0 <= i < b.len() implies s.subrange(
        pos + a.len(),
        pos + a.len() + b.len(),
    )[i] == b[i] by {
        assert(s.subrange(pos + a.len(), pos + a.len() + b.len())[i] == s[pos + a.len() + i]);
        assert(whole[a.len() + i] == s[pos + a.len() + i]);
        assert((a + b)[a.len() + i] == b[i]);
    }
    assert(s.subrange(pos + a.len(), pos + a.len() + b.len()) =~= b);
}

/// A semicolon, a colon and a minus sign are not digits, and the option
/// and enumeration markers are pairwise distinct.
proof fn lemma_sigils()
    ensures
        !is_digit(';'),
        !is_digit(':'),
        !is_digit('-'),
{
}

/// Parsing the numeral-plus-semicolon field of `v` yields `v`.
pub proof fn lemma_rt_u128(s: Seq<char>, pos: int, v: u128)
    requires
        0 <= pos,
        pos + enc_u128(v).len() <= s.len(),
        s.subrange(pos, pos + enc_u128(v).len()) == enc_u128(v),
    ensures
        parse_u128_field(s, pos) == Some((v, pos + enc_u128(v).len())),
{
    let d = dec_digits(v as nat);
    lemma_split_region(s, pos, d, seq![';']);
    assert(s[pos + d.len()] == s.subrange(pos + d.len(), pos + d.len() + 1)[0]);
    assert(s[pos + d.len()] == ';');
    lemma_parse_of_dec_digits(s, pos, v as nat);
    crate::numbers::lemma_dec_digits_shape(v as nat);
}

/// Parsing the length-prefixed string field of `v` yields `v`.
proof fn lemma_rt_str(s: Seq<char>, pos: int, v: Seq<char>)
    requires
        0 <= pos,
        v.len() <= u128::MAX,
        pos + enc_str(v).len() <= s.len(),
        s.subrange(pos, pos + enc_str(v).len()) == enc_str(v),
    ensures
        parse_str(s, pos) == Some((v, pos + enc_str(v).len())),
{
    let d = dec_digits(v.len());
    assert(enc_str(v) =~= d + (seq![':'] + v));
    lemma_split_region(s, pos, d, seq![':'] + v);
    lemma_split_region(s, pos + d.len(), seq![':'], v);
    assert(s[pos + d.len()] == s.subrange(pos + d.len(), pos + d.len() + 1)[0]);
    assert(s[pos + d.len()] == ':');
    lemma_parse_of_dec_digits(s, pos, v.len());
    crate::numbers::lemma_dec_digits_shape(v.len());
    assert(s.subrange(pos + d.len() + 1, pos + d.len() + 1 + v.len()) == v);
}

/// Parsing the signed field of `v` yields `v`.
pub proof fn lemma_rt_i64(s: Seq<char>, pos: int, v: i64)
    requires
        0 <= pos,
        pos + enc_i64(v).len() <= s.len(),
        s.subrange(pos, pos + enc_i64(v).len()) == enc_i64(v),
    ensures
        parse_i64_field(s, pos) == Some((v, pos + enc_i64(v).len())),
{
    if v < 0 {
        let m = (-(v as int)) as nat;
        let d = dec_digits(m);
        assert(enc_i64(v) =~= seq!['-'] + (d + seq![';']));
        lemma_split_region(s, pos, seq!['-'], d + seq![';']);
        lemma_split_region(s, pos + 1, d, seq![';']);
        assert(s[pos] == s.subrange(pos, pos + 1)[0]);
        assert(s[pos] == '-');
        assert(s[pos + 1 + d.len()] == s.subrange(pos + 1 + d.len(), pos + 1 + d.len() + 1)[0]);
        assert(s[pos + 1 + d.len()] == ';');
        lemma_parse_of_dec_digits(s, pos + 1, m);
        crate::numbers::lemma_dec_digits_shape(m);
        assert(m <= 0x8000_0000_0000_0000);
        assert((-(m as int)) as i64 == v);
    } else {
        let d = dec_digits(v as nat);
        lemma_split_region(s, pos, d, seq![';']);
        assert(s[pos] == s.subrange(pos, pos + d.len())[0]);
        crate::numbers::lemma_dec_digits_shape(v as nat);
        assert(is_digit(s[pos]));
        assert(s[pos] != '-');
        assert(s[pos + d.len()] == s.subrange(pos + d.len(), pos + d.len() + 1)[0]);
        assert(s[pos + d.len()] == ';');
        lemma_parse_of_dec_digits(s, pos, v as nat);
    }
}

/// Parsing an optional string field yields the encoded option.
proof fn lemma_rt_opt_str(s: Seq<char>, pos: int, o: Option<Seq<char>>)
    requires
        0 <= pos,
        (o is Some ==> o->0.len() <= u128::MAX),
        pos + enc_opt_str(o).len() <= s.len(),
        s.subrange(pos, pos + enc_opt_str(o).len()) == enc_opt_str(o),
    ensures
        parse_opt_str(s, pos) == Some((o, pos + enc_opt_str(o).len())),
{
    match o {
        None => {
            assert(s[pos] == s.subrange(pos, pos + 1)[0]);
        },
        Some(v) => {
            lemma_split_region(s, pos, seq!['s'], enc_str(v));
            assert(s[pos] == s.subrange(pos, pos + 1)[0]);
            lemma_rt_str(s, pos + 1, v);
        },
    }
}

/// Parsing an optional signed field yields the encoded option.
proof fn lemma_rt_opt_i64(s: Seq<char>, pos: int, o: Option<i64>)
    requires
        0 <= pos,
        pos + enc_opt_i64(o).len() <= s.len(),
        s.subrange(pos, pos + enc_opt_i64(o).len()) == enc_opt_i64(o),
    ensures
        parse_opt_i64(s, pos) == Some((o, pos + enc_opt_i64(o).len())),
{
    match o {
        None => {
            assert(s[pos] == s.subrange(pos, pos + 1)[0]);
        },
        Some(v) => {
            lemma_split_region(s, pos, seq!['s'], enc_i64(v));
            assert(s[pos] == s.subrange(pos, pos + 1)[0]);
            lemma_rt_i64(s, pos + 1, v);
        },
    }
}

/// Parsing an optional unsigned field yields the encoded option.
proof fn lemma_rt_opt_u128(s: Seq<char>, pos: int, o: Option<u128>)
    requires
        0 <= pos,
        pos + enc_opt_u128(o).len() <= s.len(),
        s.subrange(pos, pos + enc_opt_u128(o).len()) == enc_opt_u128(o),
    ensures
        parse_opt_u128(s, pos) == Some((o, pos + enc_opt_u128(o).len())),
{
    match o {
        None => {
            assert(s[pos] == s.subrange(pos, pos + 1)[0]);
        },
        Some(v) => {
            lemma_split_region(s, pos, seq!['s'], enc_u128(v));
            assert(s[pos] == s.subrange(pos, pos + 1)[0]);
            lemma_rt_u128(s, pos + 1, v);
        },
    }
}

/// Parsing an encoded state yields it.
proof fn lemma_rt_status(s: Seq<char>, pos: int, st: Status)
    requires
        0 <= pos,
        pos + 1 <= s.len(),
        s.subrange(pos, pos + 1) == enc_status(st),
    ensures
        parse_status(s, pos) == Some((st, pos + 1)),
{
    assert(s[pos] == s.subrange(pos, pos + 1)[0]);
}

/// Parsing an encoded priority yields it.
proof fn lemma_rt_priority(s: Seq<char>, pos: int, p: Priority)
    requires
        0 <= pos,
        pos + 1 <= s.len(),
        s.subrange(pos, pos + 1) == enc_priority(p),
    ensures
        parse_priority(s, pos) == Some((p, pos + 1)),
{
    assert(s[pos] == s.subrange(pos, pos + 1)[0]);
}

/// Parsing the encoded tags from position `i` yields exactly those tags.
proof fn lemma_rt_strs_from(s: Seq<char>, pos: int, ts: Seq<Seq<char>>, i: int)
    requires
        0 <= pos,
        0 <= i <= ts.len(),
        forall|j: int| 0 <= j < ts.len() ==> (#[trigger] ts[j]).len() <= u128::MAX,
        pos + enc_tags_from(ts, i).len() <= s.len(),
        s.subrange(pos, pos + enc_tags_from(ts, i).len()) == enc_tags_from(ts, i),
    ensures
        parse_strs(s, pos, (ts.len() - i) as nat) == Some(
            (ts.skip(i), pos + enc_tags_from(ts, i).len()),
        ),
    decreases ts.len() - i,
{
    if i == ts.len() {
        assert(ts.skip(i) =~= Seq::<Seq<char>>::empty());
    } else {
        let head = enc_str(ts[i]);
        let tail = enc_tags_from(ts, i + 1);
        lemma_split_region(s, pos, head, tail);
        lemma_rt_str(s, pos, ts[i]);
        lemma_rt_strs_from(s, pos + head.len(), ts, i + 1);
        assert(seq![ts[i]] + ts.skip(i + 1) =~= ts.skip(i));
    }
}

/// Parsing an encoded tag list yields it.
pub proof fn lemma_rt_tags(s: Seq<char>, pos: int, ts: Seq<Seq<char>>)
    requires
        0 <= pos,
        ts.len() <= u128::MAX,
        forall|j: int| 0 <= j < ts.len() ==> (#[trigger] ts[j]).len() <= u128::MAX,
        pos + enc_tags(ts).len() <= s.len(),
        s.subrange(pos, pos + enc_tags(ts).len()) == enc_tags(ts),
    ensures
        parse_tags(s, pos) == Some((ts, pos + enc_tags(ts).len())),
{
    let cnt = enc_u128(ts.len() as u128);
    let rest = enc_tags_from(ts, 0);
    assert(enc_tags(ts) =~= cnt + rest);
    lemma_split_region(s, pos, cnt, rest);
    lemma_rt_u128(s, pos, ts.len() as u128);
    lemma_rt_strs_from(s, pos + cnt.len(), ts, 0);
    assert(ts.skip(0) =~= ts);
}

/// Parsing the encoded identifying half yields it.
proof fn lemma_rt_task_head(s: Seq<char>, pos: int, t: TaskView)
    requires
        0 <= pos,
        task_bounded(t),
        pos + enc_task_head(t).len() <= s.len(),
        s.subrange(pos, pos + enc_task_head(t).len()) == enc_task_head(t),
    ensures
        parse_task_head(s, pos) matches Some((h, p)) && h.id == t.id && h.title == t.title
            && h.description == t.description && h.status == t.status && h.priority == t.priority
            && h.tags == t.tags && p == pos + enc_task_head(t).len(),
{
    let a1 = enc_u128(t.id);
    let a2 = enc_str(t.title);
    let a3 = enc_opt_str(t.description);
    let a4 = enc_status(t.status);
    let a5 = enc_priority(t.priority);
    let a6 = enc_tags(t.tags);
    let t6 = a6;
    let t5 = a5 + t6;
    let t4 = a4 + t5;
    let t3 = a3 + t4;
    let t2 = a2 + t3;
    let t1 = a1 + t2;
    assert(enc_task_head(t) =~= t1);
    let p0 = pos;
    assert(s.subrange(p0, p0 + t1.len()) == a1 + t2) by {
        assert(s.subrange(p0, p0 + t1.len()) =~= s.subrange(pos, pos + enc_task_head(t).len()));
    }
    lemma_split_region(s, p0, a1, t2);
    let p1 = p0 + a1.len();
    lemma_split_region(s, p1, a2, t3);
    let p2 = p1 + a2.len();
    lemma_split_region(s, p2, a3, t4);
    let p3 = p2 + a3.len();
    lemma_split_region(s, p3, a4, t5);
    let p4 = p3 + a4.len();
    lemma_split_region(s, p4, a5, t6);
    let p5 = p4 + a5.len();
    lemma_rt_u128(s, p0, t.id);
    lemma_rt_str(s, p1, t.title);
    lemma_rt_opt_str(s, p2, t.description);
    lemma_rt_status(s, p3, t.status);
    lemma_rt_priority(s, p4, t.priority);
    lemma_rt_tags(s, p5, t.tags);
}

/// Parsing the encoded temporal half yields it.
proof fn lemma_rt_task_tail(s: Seq<char>, pos: int, t: TaskView)
    requires
        0 <= pos,
        pos + enc_task_tail(t).len() <= s.len(),
        s.subrange(pos, pos + enc_task_tail(t).len()) == enc_task_tail(t),
    ensures
        parse_task_tail(s, pos) matches Some((tl, p)) && tl.created_at == t.created_at
            && tl.updated_at == t.updated_at && tl.due_date == t.due_date && tl.completed_at
            == t.completed_at && tl.started_at == t.started_at && tl.created_by == t.created_by
            && tl.assigned_to == t.assigned_to && p == pos + enc_task_tail(t).len(),
{
    let a7 = enc_i64(t.created_at);
    let a8 = enc_i64(t.updated_at);
    let a9 = enc_opt_i64(t.due_date);
    let a10 = enc_opt_i64(t.completed_at);
    let a11 = enc_opt_i64(t.started_at);
    let a12 = enc_opt_u128(t.created_by);
    let a13 = enc_opt_u128(t.assigned_to);
    let t13 = a13;
    let t12 = a12 + t13;
    let t11 = a11 + t12;
    let t10 = a10 + t11;
    let t9 = a9 + t10;
    let t8 = a8 + t9;
    let t7 = a7 + t8;
    assert(enc_task_tail(t) =~= t7);
    let p6 = pos;
    assert(s.subrange(p6, p6 + t7.len()) == a7 + t8) by {
        assert(s.subrange(p6, p6 + t7.len()) =~= s.subrange(pos, pos + enc_task_tail(t).len()));
    }
    lemma_split_region(s, p6, a7, t8);
    let p7 = p6 + a7.len();
    lemma_split_region(s, p7, a8, t9);
    let p8 = p7 + a8.len();
    lemma_split_region(s, p8, a9, t10);
    let p9 = p8 + a9.len();
    lemma_split_region(s, p9, a10, t11);
    let p10 = p9 + a10.len();
    lemma_split_region(s, p10, a11, t12);
    let p11 = p10 + a11.len();
    lemma_split_region(s, p11, a12, t13);
    let p12 = p11 + a12.len();
    lemma_rt_i64(s, p6, t.created_at);
    lemma_rt_i64(s, p7, t.updated_at);
    lemma_rt_opt_i64(s, p8, t.due_date);
    lemma_rt_opt_i64(s, p9, t.completed_at);
    lemma_rt_opt_i64(s, p10, t.started_at);
    lemma_rt_opt_u128(s, p11, t.created_by);
    lemma_rt_opt_u128(s, p12, t.assigned_to);
}

/// Parsing an encoded task record yields it.
proof fn lemma_rt_task(s: Seq<char>, pos: int, t: TaskView)
    requires
        0 <= pos,
        task_bounded(t),
        pos + enc_task(t).len() <= s.len(),
        s.subrange(pos, pos + enc_task(t).len()) == enc_task(t),
    ensures
        parse_task(s, pos) == Some((t, pos + enc_task(t).len())),
{
    lemma_split_region(s, pos, enc_task_head(t), enc_task_tail(t));
    lemma_rt_task_head(s, pos, t);
    lemma_rt_task_tail(s, pos + enc_task_head(t).len(), t);
    assert(parse_task(s, pos) == Some((t, pos + enc_task(t).len()))) by {
        let parsed = (parse_task(s, pos)->0).0;
        assert(parsed =~= t);
    }
}

/// Parsing the encoded tasks from position `i` yields exactly those tasks.
proof fn lemma_rt_tasks_from(s: Seq<char>, pos: int, views: Seq<TaskView>, i: int)
    requires
        0 <= pos,
        0 <= i <= views.len(),
        forall|j: int| 0 <= j < views.len() ==> task_bounded(#[trigger] views[j]),
        pos + enc_tasks_from(views, i).len() <= s.len(),
        s.subrange(pos, pos + enc_tasks_from(views, i).len()) == enc_tasks_from(views, i),
    ensures
        parse_tasks(s, pos, (views.len() - i) as nat) == Some(
            (views.skip(i), pos + enc_tasks_from(views, i).len()),
        ),
    decreases views.len() - i,
{
    if i == views.len() {
        assert(views.skip(i) =~= Seq::<TaskView>::empty());
    } else {
        let head = enc_task(views[i]);
        let tail = enc_tasks_from(views, i + 1);
        lemma_split_region(s, pos, head, tail);
        lemma_rt_task(s, pos, views[i]);
        lemma_rt_tasks_from(s, pos + head.len(), views, i + 1);
        assert(seq![views[i]] + views.skip(i + 1) =~= views.skip(i));
    }
}

/// Law: the document codec round-trips. For any collection (within the
/// machine limits of the numerals), parsing its encoded document yields a
/// collection with identical task identifiers and field values.
pub proof fn lemma_document_roundtrip(views: Seq<TaskView>)
    requires
        coll_bounded(views),
    ensures
        parse_coll(enc_coll(views)) == Some(views),
{
    let s = enc_coll(views);
    let cnt = enc_u128(views.len() as u128);
    let rest = enc_tasks_from(views, 0);
    assert(s =~= cnt + rest);
    assert(s.subrange(0, s.len() as int) =~= s);
    lemma_split_region(s, 0, cnt, rest);
    lemma_rt_u128(s, 0, views.len() as u128);
    lemma_rt_tasks_from(s, cnt.len() as int, views, 0);
    assert(views.skip(0) =~= views);
}

// ---------------------------------------------------------------------
// Verified emitters
// ---------------------------------------------------------------------
/// Append a length-prefixed string.
fn push_str_field(out: &mut String, s: &str)
    ensures
        final(out)@ == old(out)@ + enc_str(s@),
{
    let l = s.unicode_len();
    push_dec_u128(out, l as u128);
    out.append(":");
    out.append(s);
    proof {
        reveal_strlit(":");
        assert(":"@ =~= seq![':']);
        assert(out@ =~= old(out)@ + enc_str(s@));
    }
}

/// Append an optional string.
fn push_opt_str(out: &mut String, o: &Option<String>)
    ensures
        final(out)@ == old(out)@ + enc_opt_str(o.deep_view()),
{
    proof {
        reveal_strlit("n");
        reveal_strlit("s");
        assert("n"@ =~= seq!['n']);
        assert("s"@ =~= seq!['s']);
    }
    match o {
        None => {
            out.append("n");
            proof {
                assert(out@ =~= old(out)@ + enc_opt_str(o.deep_view()));
            }
        },
        Some(v) => {
            out.append("s");
            push_str_field(out, v.as_str());
            proof {
                assert(out@ =~= old(out)@ + enc_opt_str(o.deep_view()));
            }
        },
    }
}

/// Append an unsigned number field.
fn push_u128_field(out: &mut String, n: u128)
    ensures
        final(out)@ == old(out)@ + enc_u128(n),
{
    push_dec_u128(out, n);
    out.append(";");
    proof {
        reveal_strlit(";");
        assert(";"@ =~= seq![';']);
        assert(out@ =~= old(out)@ + enc_u128(n));
    }
}

/// Append a signed number field.
fn push_i64_field(out: &mut String, v: i64)
    ensures
        final(out)@ == old(out)@ + enc_i64(v),
{
    proof {
        reveal_strlit("-");
        reveal_strlit(";");
        assert("-"@ =~= seq!['-']);
        assert(";"@ =~= seq![';']);
    }
    if v < 0 {
        out.append("-");
        let m: u128 = (-(v as i128)) as u128;
        proof {
            assert(m as nat == (-(v as int)) as nat);
        }
        push_dec_u128(out, m);
        out.append(";");
        proof {
            assert(out@ =~= old(out)@ + enc_i64(v));
        }
    } else {
        push_dec_u128(out, v as u128);
        out.append(";");
        proof {
            assert(out@ =~= old(out)@ + enc_i64(v));
        }
    }
}

/// Append an optional signed number field.
fn push_opt_i64(out: &mut String, o: Option<i64>)
    ensures
        final(out)@ == old(out)@ + enc_opt_i64(o),
{
    proof {
        reveal_strlit("n");
        reveal_strlit("s");
        assert("n"@ =~= seq!['n']);
        assert("s"@ =~= seq!['s']);
    }
    match o {
        None => {
            out.append("n");
            proof {
                assert(out@ =~= old(out)@ + enc_opt_i64(o));
            }
        },
        Some(v) => {
            out.append("s");
            push_i64_field(out, v);
            proof {
                assert(out@ =~= old(out)@ + enc_opt_i64(o));
            }
        },
    }
}

/// Append an optional unsigned number field.
fn push_opt_u128(out: &mut String, o: Option<u128>)
    ensures
        final(out)@ == old(out)@ + enc_opt_u128(o),
{
    proof {
        reveal_strlit("n");
        reveal_strlit("s");
        assert("n"@ =~= seq!['n']);
        assert("s"@ =~= seq!['s']);
    }
    match o {
        None => {
            out.append("n");
            proof {
                assert(out@ =~= old(out)@ + enc_opt_u128(o));
            }
        },
        Some(v) => {
            out.append("s");
            push_u128_field(out, v);
            proof {
                assert(out@ =~= old(out)@ + enc_opt_u128(o));
            }
        },
    }
}

/// Append a task state.
fn push_status(out: &mut String, st: Status)
    ensures
        final(out)@ == old(out)@ + enc_status(st),
{
    proof {
        reveal_strlit("t");
        reveal_strlit("p");
        reveal_strlit("c");
        reveal_strlit("x");
        assert("t"@ =~= seq!['t']);
        assert("p"@ =~= seq!['p']);
        assert("c"@ =~= seq!['c']);
        assert("x"@ =~= seq!['x']);
    }
    match st {
        Status::Todo => out.append("t"),
        Status::InProgress => out.append("p"),
        Status::Completed => out.append("c"),
        Status::Cancelled => out.append("x"),
    }
}

/// Append a priority.
fn push_priority(out: &mut String, p: Priority)
    ensures
        final(out)@ == old(out)@ + enc_priority(p),
{
    proof {
        reveal_strlit("l");
        reveal_strlit("m");
        reveal_strlit("h");
        reveal_strlit("r");
        assert("l"@ =~= seq!['l']);
        assert("m"@ =~= seq!['m']);
        assert("h"@ =~= seq!['h']);
        assert("r"@ =~= seq!['r']);
    }
    match p {
        Priority::Low => out.append("l"),
        Priority::Medium => out.append("m"),
        Priority::High => out.append("h"),
        Priority::Critical => out.append("r"),
    }
}

/// Append a tag list.
pub(crate) fn push_tags(out: &mut String, tags: &Vec<String>)
    ensures
        final(out)@ == old(out)@ + enc_tags(tags.deep_view()),
{
    let ghost dv = tags.deep_view();
    push_u128_field(out, tags.len() as u128);
    let ghost base = out@;
    proof {
        assert(base =~= old(out)@ + dec_digits(dv.len()) + seq![';']);
    }
    let mut i: usize = 0;
    while i < tags.len()
        invariant
            i <= tags@.len(),
            dv == tags.deep_view(),
            dv.len() == tags@.len(),
            out@ + enc_tags_from(dv, i as int) == base + enc_tags_from(dv, 0),
        decreases tags@.len() - i,
    {
        let ghost before = out@;
        push_str_field(out, tags[i].as_str());
        proof {
            assert(enc_tags_from(dv, i as int) =~= enc_str(dv[i as int]) + enc_tags_from(
                dv,
                i as int + 1,
            ));
            assert(out@ + enc_tags_from(dv, i as int + 1) =~= before + enc_tags_from(
                dv,
                i as int,
            ));
            assert(out@ + enc_tags_from(dv, i as int + 1) =~= base + enc_tags_from(dv, 0));
        }
        i = i + 1;
    }
    proof {
        assert(enc_tags_from(dv, dv.len() as int) =~= Seq::<char>::empty());
        assert(out@ =~= out@ + enc_tags_from(dv, dv.len() as int));
        assert(out@ =~= base + enc_tags_from(dv, 0));
        assert(out@ =~= old(out)@ + enc_tags(dv));
    }
}

/// Append one task record.
fn push_task(out: &mut String, t: &Task)
    ensures
        final(out)@ == old(out)@ + enc_task(t@),
{
    push_u128_field(out, t.id);
    push_str_field(out, t.title.as_str());
    push_opt_str(out, &t.description);
    push_status(out, t.status);
    push_priority(out, t.priority);
    push_tags(out, &t.tags);
    push_i64_field(out, t.created_at);
    push_i64_field(out, t.updated_at);
    push_opt_i64(out, t.due_date);
    push_opt_i64(out, t.completed_at);
    push_opt_i64(out, t.started_at);
    push_opt_u128(out, t.created_by);
    push_opt_u128(out, t.assigned_to);
    proof {
        let e0 = old(out)@;
        let a1 = enc_u128(t@.id);
        let a2 = enc_str(t@.title);
        let a3 = enc_opt_str(t@.description);
        let a4 = enc_status(t@.status);
        let a5 = enc_priority(t@.priority);
        let a6 = enc_tags(t@.tags);
        let a7 = enc_i64(t@.created_at);
        let a8 = enc_i64(t@.updated_at);
        let a9 = enc_opt_i64(t@.due_date);
        let a10 = enc_opt_i64(t@.completed_at);
        let a11 = enc_opt_i64(t@.started_at);
        let a12 = enc_opt_u128(t@.created_by);
        let a13 = enc_opt_u128(t@.assigned_to);
        let head = enc_task_head(t@);
        let tail = enc_task_tail(t@);
        lemma_add_assoc(e0, a1, a2);
        lemma_add_assoc(e0, a1 + a2, a3);
        lemma_add_assoc(e0, a1 + a2 + a3, a4);
        lemma_add_assoc(e0, a1 + a2 + a3 + a4, a5);
        lemma_add_assoc(e0, a1 + a2 + a3 + a4 + a5, a6);
        assert(out@ == ((((((((((((e0 + a1) + a2) + a3) + a4) + a5) + a6) + a7) + a8) + a9) + a10)
            + a11) + a12) + a13);
        assert(e0 + head == (((((e0 + a1) + a2) + a3) + a4) + a5) + a6);
        lemma_add_assoc(e0 + head, a7, a8);
        lemma_add_assoc(e0 + head, a7 + a8, a9);
        lemma_add_assoc(e0 + head, a7 + a8 + a9, a10);
        lemma_add_assoc(e0 + head, a7 + a8 + a9 + a10, a11);
        lemma_add_assoc(e0 + head, a7 + a8 + a9 + a10 + a11, a12);
        lemma_add_assoc(e0 + head, a7 + a8 + a9 + a10 + a11 + a12, a13);
        assert(out@ == (e0 + head) + tail);
        lemma_add_assoc(e0, head, tail);
        assert(out@ == e0 + enc_task(t@));
    }
}

/// Write a whole collection as one text document.
pub fn encode_collection(m: &TaskManager) -> (r: String)
    ensures
        r@ == enc_coll(m@),
{
    let tasks = m.export_tasks();
    let ghost dv = m@;
    let mut out = String::new();
    push_u128_field(&mut out, tasks.len() as u128);
    let ghost base = out@;
    proof {
        assert(base =~= dec_digits(dv.len()) + seq![';']);
    }
    let mut i: usize = 0;
    while i < tasks.len()
        invariant
            i <= tasks@.len(),
            dv == tasks.deep_view(),
            dv.len() == tasks@.len(),
            out@ + enc_tasks_from(dv, i as int) == base + enc_tasks_from(dv, 0),
        decreases tasks@.len() - i,
    {
        let ghost before = out@;
        push_task(&mut out, &tasks[i]);
        proof {
            assert(enc_tasks_from(dv, i as int) =~= enc_task(dv[i as int]) + enc_tasks_from(
                dv,
                i as int + 1,
            ));
            assert(out@ + enc_tasks_from(dv, i as int + 1) =~= before + enc_tasks_from(
                dv,
                i as int,
            ));
            assert(out@ + enc_tasks_from(dv, i as int + 1) =~= base + enc_tasks_from(dv, 0));
        }
        i = i + 1;
    }
    proof {
        assert(enc_tasks_from(dv, dv.len() as int) =~= Seq::<char>::empty());
        assert(out@ =~= out@ + enc_tasks_from(dv, dv.len() as int));
        assert(out@ =~= base + enc_tasks_from(dv, 0));
        assert(out@ =~= enc_coll(dv));
    }
    out
}

// ---------------------------------------------------------------------
// Verified parsers, each mirroring its spec parser exactly
// ---------------------------------------------------------------------
/// Parse a numeral at `pos`.
fn parse_nat_exec(s: &str, n: usize, pos: usize) -> (r: Option<(u128, usize)>)
    requires
        n == s@.len(),
        pos <= n,
    ensures
        match r {
            Some(v) => parse_nat(s@, pos as int) == Some((v.0, v.1 as int)) && pos < v.1 <= n,
            None => parse_nat(s@, pos as int) is None,
        },
{
    proof {
        crate::numbers::lemma_digit_run_end_props(s@, pos as int);
    }
    let ghost e = digit_run_end(s@, pos as int);
    let mut p = pos;
    let mut acc: u128 = 0;
    let mut too_big = false;
    loop
        invariant_except_break
            p <= e,
            !too_big,
            acc == digits_value(s@, pos as int, p as int),
        invariant
            pos <= p <= n,
            n == s@.len(),
            e == digit_run_end(s@, pos as int),
            pos <= e <= n,
            forall|i: int| pos <= i < e ==> is_digit(#[trigger] s@[i]),
            e == s@.len() || !is_digit(s@[e]),
        ensures
            too_big ==> digits_value(s@, pos as int, e) > u128::MAX,
            !too_big ==> p == e && acc == digits_value(s@, pos as int, e),
        decreases n - p,
    {
        if p >= n {
            break ;
        }
        match digit_of(s.get_char(p)) {
            None => {
                proof {
                    if p < e {
                        assert(is_digit(s@[p as int]));
                    }
                }
                break ;
            },
            Some(d) => {
                proof {
                    if p == e {
                        assert(!is_digit(s@[e]));
                    }
                    vstd::arithmetic::div_mod::lemma_fundamental_div_mod(
                        u128::MAX as int,
                        10,
                    );
                }
                if acc > u128::MAX / 10 || (acc == u128::MAX / 10 && d > u128::MAX % 10) {
                    proof {
                        assert(acc as nat * 10 + d as nat > u128::MAX as nat);
                        assert(digits_value(s@, pos as int, p as int + 1) == acc as nat * 10
                            + digit_val(s@[p as int]));
                        crate::numbers::lemma_digits_value_monotone(
                            s@,
                            pos as int,
                            p as int + 1,
                            e,
                        );
                    }
                    too_big = true;
                    proof {
                        assert(digits_value(s@, pos as int, e) > u128::MAX as nat);
                    }
                    break ;
                }
                proof {
                    assert(acc as nat * 10 + d as nat <= u128::MAX as nat);
                    assert(digits_value(s@, pos as int, p as int + 1) == acc as nat * 10
                        + digit_val(s@[p as int]));
                }
                acc = acc * 10 + d;
                p = p + 1;
            },
        }
    }
    if too_big {
        return None;
    }
    if p == pos {
        None
    } else {
        Some((acc, p))
    }
}

/// Expect one exact character at `pos`.
fn expect_char_exec(s: &str, n: usize, pos: usize, c: char) -> (r: Option<usize>)
    requires
        n == s@.len(),
        pos <= n,
    ensures
        match r {
            Some(p) => expect_char(s@, pos as int, c) == Some(p as int) && pos < p <= n,
            None => expect_char(s@, pos as int, c) is None,
        },
{
    if pos < n && s.get_char(pos) == c {
        Some(pos + 1)
    } else {
        None
    }
}

/// Parse a length-prefixed string at `pos`.
fn parse_str_exec(s: &str, n: usize, pos: usize) -> (r: Option<(String, usize)>)
    requires
        n == s@.len(),
        pos <= n,
    ensures
        match r {
            Some(v) => parse_str(s@, pos as int) == Some((v.0@, v.1 as int)) && pos < v.1 <= n,
            None => parse_str(s@, pos as int) is None,
        },
{
    match parse_nat_exec(s, n, pos) {
        None => None,
        Some((v, p1)) => {
            match expect_char_exec(s, n, p1, ':') {
                None => None,
                Some(p2) => {
                    if v <= (n - p2) as u128 {
                        let len = v as usize;
                        proof {
                            assert(len == v);
                        }
                        let content = s.substring_char(p2, p2 + len);
                        let owned = String::from_str(content);
                        Some((owned, p2 + len))
                    } else {
                        None
                    }
                },
            }
        },
    }
}

/// Parse an unsigned number field at `pos`.
pub(crate) fn parse_u128_field_exec(s: &str, n: usize, pos: usize) -> (r: Option<(u128, usize)>)
    requires
        n == s@.len(),
        pos <= n,
    ensures
        match r {
            Some(v) => parse_u128_field(s@, pos as int) == Some((v.0, v.1 as int)) && pos < v.1
                <= n,
            None => parse_u128_field(s@, pos as int) is None,
        },
{
    match parse_nat_exec(s, n, pos) {
        None => None,
        Some((v, p1)) => {
            match expect_char_exec(s, n, p1, ';') {
                None => None,
                Some(p2) => Some((v, p2)),
            }
        },
    }
}

/// Parse a signed number field at `pos`.
pub(crate) fn parse_i64_field_exec(s: &str, n: usize, pos: usize) -> (r: Option<(i64, usize)>)
    requires
        n == s@.len(),
        pos <= n,
    ensures
        match r {
            Some(v) => parse_i64_field(s@, pos as int) == Some((v.0, v.1 as int)) && pos < v.1
                <= n,
            None => parse_i64_field(s@, pos as int) is None,
        },
{
    if pos < n && s.get_char(pos) == '-' {
        match parse_nat_exec(s, n, pos + 1) {
            None => None,
            Some((v, p1)) => {
                if v <= 0x8000_0000_0000_0000u128 {
                    match expect_char_exec(s, n, p1, ';') {
                        None => None,
                        Some(p2) => {
                            let value = (-(v as i128)) as i64;
                            proof {
                                assert(value as int == -(v as int));
                            }
                            Some((value, p2))
                        },
                    }
                } else {
                    None
                }
            },
        }
    } else {
        match parse_nat_exec(s, n, pos) {
            None => None,
            Some((v, p1)) => {
                if v <= i64::MAX as u128 {
                    match expect_char_exec(s, n, p1, ';') {
                        None => None,
                        Some(p2) => Some((v as i64, p2)),
                    }
                } else {
                    None
                }
            },
        }
    }
}

/// Parse an optional string at `pos`.
fn parse_opt_str_exec(s: &str, n: usize, pos: usize) -> (r: Option<(Option<String>, usize)>)
    requires
        n == s@.len(),
        pos <= n,
    ensures
        match r {
            Some(v) => parse_opt_str(s@, pos as int) == Some((v.0.deep_view(), v.1 as int))
                && pos < v.1 <= n,
            None => parse_opt_str(s@, pos as int) is None,
        },
{
    if pos < n && s.get_char(pos) == 'n' {
        Some((None, pos + 1))
    } else if pos < n && s.get_char(pos) == 's' {
        match parse_str_exec(s, n, pos + 1) {
            None => None,
            Some((v, p)) => Some((Some(v), p)),
        }
    } else {
        None
    }
}

/// Parse an optional signed number field at `pos`.
fn parse_opt_i64_exec(s: &str, n: usize, pos: usize) -> (r: Option<(Option<i64>, usize)>)
    requires
        n == s@.len(),
        pos <= n,
    ensures
        match r {
            Some(v) => parse_opt_i64(s@, pos as int) == Some((v.0, v.1 as int)) && pos < v.1
                <= n,
            None => parse_opt_i64(s@, pos as int) is None,
        },
{
    if pos < n && s.get_char(pos) == 'n' {
        Some((None, pos + 1))
    } else if pos < n && s.get_char(pos) == 's' {
        match parse_i64_field_exec(s, n, pos + 1) {
            None => None,
            Some((v, p)) => Some((Some(v), p)),
        }
    } else {
        None
    }
}

/// Parse an optional unsigned number field at `pos`.
fn parse_opt_u128_exec(s: &str, n: usize, pos: usize) -> (r: Option<(Option<u128>, usize)>)
    requires
        n == s@.len(),
        pos <= n,
    ensures
        match r {
            Some(v) => parse_opt_u128(s@, pos as int) == Some((v.0, v.1 as int)) && pos < v.1
                <= n,
            None => parse_opt_u128(s@, pos as int) is None,
        },
{
    if pos < n && s.get_char(pos) == 'n' {
        Some((None, pos + 1))
    } else if pos < n && s.get_char(pos) == 's' {
        match parse_u128_field_exec(s, n, pos + 1) {
            None => None,
            Some((v, p)) => Some((Some(v), p)),
        }
    } else {
        None
    }
}

/// Parse a task state at `pos`.
fn parse_status_exec(s: &str, n: usize, pos: usize) -> (r: Option<(Status, usize)>)
    requires
        n == s@.len(),
        pos <= n,
    ensures
        match r {
            Some(v) => parse_status(s@, pos as int) == Some((v.0, v.1 as int)) && pos < v.1
                <= n,
            None => parse_status(s@, pos as int) is None,
        },
{
    if pos >= n {
        return None;
    }
    match s.get_char(pos) {
        't' => Some((Status::Todo, pos + 1)),
        'p' => Some((Status::InProgress, pos + 1)),
        'c' => Some((Status::Completed, pos + 1)),
        'x' => Some((Status::Cancelled, pos + 1)),
        _ => None,
    }
}

/// Parse a priority at `pos`.
fn parse_priority_exec(s: &str, n: usize, pos: usize) -> (r: Option<(Priority, usize)>)
    requires
        n == s@.len(),
        pos <= n,
    ensures
        match r {
            Some(v) => parse_priority(s@, pos as int) == Some((v.0, v.1 as int)) && pos < v.1
                <= n,
            None => parse_priority(s@, pos as int) is None,
        },
{
    if pos >= n {
        return None;
    }
    match s.get_char(pos) {
        'l' => Some((Priority::Low, pos + 1)),
        'm' => Some((Priority::Medium, pos + 1)),
        'h' => Some((Priority::High, pos + 1)),
        'r' => Some((Priority::Critical, pos + 1)),
        _ => None,
    }
}

/// Parse `k` length-prefixed strings at `pos`.
fn parse_strs_exec(s: &str, n: usize, pos: usize, k: u128) -> (r: Option<(Vec<String>, usize)>)
    requires
        n == s@.len(),
        pos <= n,
    ensures
        match r {
            Some(v) => parse_strs(s@, pos as int, k as nat) == Some(
                (v.0.deep_view(), v.1 as int),
            ) && pos <= v.1 <= n,
            None => parse_strs(s@, pos as int, k as nat) is None,
        },
{
    let mut acc: Vec<String> = Vec::new();
    let mut p = pos;
    let mut j: u128 = 0;
    while j < k
        invariant
            n == s@.len(),
            pos <= p <= n,
            j <= k,
            forall|rest: Seq<Seq<char>>, pe: int|
                parse_strs(s@, p as int, (k - j) as nat) == Some::<(Seq<Seq<char>>, int)>(
                    (rest, pe),
                ) ==> parse_strs(s@, pos as int, k as nat) == Some::<(Seq<Seq<char>>, int)>(
                    (acc.deep_view() + rest, pe),
                ),
            parse_strs(s@, p as int, (k - j) as nat) is None ==> parse_strs(
                s@,
                pos as int,
                k as nat,
            ) is None,
        decreases k - j,
    {
        let ghost acc0 = acc.deep_view();
        match parse_str_exec(s, n, p) {
            None => {
                proof {
                    assert(parse_strs(s@, p as int, (k - j) as nat) is None);
                }
                return None;
            },
            Some((v, p2)) => {
                proof {
                    assert(parse_strs(s@, p as int, (k - j) as nat) == (
                    match parse_strs(s@, p2 as int, (k - j - 1) as nat) {
                        None => None::<(Seq<Seq<char>>, int)>,
                        Some((rest, pe)) => Some((seq![v@] + rest, pe)),
                    }));
                }
                acc.push(v);
                proof {
                    assert(acc.deep_view() =~= acc0.push(v@));
                    assert forall|rest: Seq<Seq<char>>, pe: int|
                        parse_strs(s@, p2 as int, (k - j - 1) as nat) == Some::<(
                            Seq<Seq<char>>,
                            int,
                        )>((rest, pe)) implies parse_strs(s@, pos as int, k as nat) == Some::<(
                        Seq<Seq<char>>,
                        int,
                    )>((acc.deep_view() + rest, pe)) by {
                        assert(acc0.push(v@) + rest =~= acc0 + (seq![v@] + rest));
                    }
                }
                p = p2;
            },
        }
        j = j + 1;
    }
    proof {
        assert(parse_strs(s@, p as int, 0) == Some::<(Seq<Seq<char>>, int)>(
            (Seq::empty(), p as int),
        ));
        assert(acc.deep_view() + Seq::<Seq<char>>::empty() =~= acc.deep_view());
    }
    Some((acc, p))
}

/// Parse a tag list at `pos`.
pub(crate) fn parse_tags_exec(s: &str, n: usize, pos: usize) -> (r: Option<(Vec<String>, usize)>)
    requires
        n == s@.len(),
        pos <= n,
    ensures
        match r {
            Some(v) => parse_tags(s@, pos as int) == Some((v.0.deep_view(), v.1 as int)) && pos
                <= v.1 <= n,
            None => parse_tags(s@, pos as int) is None,
        },
{
    match parse_u128_field_exec(s, n, pos) {
        None => None,
        Some((k, p)) => parse_strs_exec(s, n, p, k),
    }
}

/// Parse one task record at `pos`.
#[verifier::rlimit(100)]
fn parse_task_exec(s: &str, n: usize, pos: usize) -> (r: Option<(Task, usize)>)
    requires
        n == s@.len(),
        pos <= n,
    ensures
        match r {
            Some(v) => parse_task(s@, pos as int) == Some((v.0@, v.1 as int)) && pos < v.1 <= n,
            None => parse_task(s@, pos as int) is None,
        },
{
    let (id, p1) = match parse_u128_field_exec(s, n, pos) {
        None => {
            return None;
        },
        Some(v) => v,
    };
    let (title, p2) = match parse_str_exec(s, n, p1) {
        None => {
            return None;
        },
        Some(v) => v,
    };
    let (description, p3) = match parse_opt_str_exec(s, n, p2) {
        None => {
            return None;
        },
        Some(v) => v,
    };
    let (status, p4) = match parse_status_exec(s, n, p3) {
        None => {
            return None;
        },
        Some(v) => v,
    };
    let (priority, p5) = match parse_priority_exec(s, n, p4) {
        None => {
            return None;
        },
        Some(v) => v,
    };
    let (tags, p6) = match parse_tags_exec(s, n, p5) {
        None => {
            return None;
        },
        Some(v) => v,
    };
    let (created_at, p7) = match parse_i64_field_exec(s, n, p6) {
        None => {
            return None;
        },
        Some(v) => v,
    };
    let (updated_at, p8) = match parse_i64_field_exec(s, n, p7) {
        None => {
            return None;
        },
        Some(v) => v,
    };
    let (due_date, p9) = match parse_opt_i64_exec(s, n, p8) {
        None => {
            return None;
        },
        Some(v) => v,
    };
    let (completed_at, p10) = match parse_opt_i64_exec(s, n, p9) {
        None => {
            return None;
        },
        Some(v) => v,
    };
    let (started_at, p11) = match parse_opt_i64_exec(s, n, p10) {
        None => {
            return None;
        },
        Some(v) => v,
    };
    let (created_by, p12) = match parse_opt_u128_exec(s, n, p11) {
        None => {
            return None;
        },
        Some(v) => v,
    };
    let (assigned_to, p13) = match parse_opt_u128_exec(s, n, p12) {
        None => {
            return None;
        },
        Some(v) => v,
    };
    let t = Task {
        id,
        title,
        description,
        status,
        priority,
        tags,
        created_at,
        updated_at,
        due_date,
        completed_at,
        started_at,
        created_by,
        assigned_to,
    };
    Some((t, p13))
}

/// Parse `k` task records at `pos`.
fn parse_tasks_exec(s: &str, n: usize, pos: usize, k: u128) -> (r: Option<(Vec<Task>, usize)>)
    requires
        n == s@.len(),
        pos <= n,
    ensures
        match r {
            Some(v) => parse_tasks(s@, pos as int, k as nat) == Some(
                (v.0.deep_view(), v.1 as int),
            ) && pos <= v.1 <= n,
            None => parse_tasks(s@, pos as int, k as nat) is None,
        },
{
    let mut acc: Vec<Task> = Vec::new();
    let mut p = pos;
    let mut j: u128 = 0;
    while j < k
        invariant
            n == s@.len(),
            pos <= p <= n,
            j <= k,
            forall|rest: Seq<TaskView>, pe: int|
                parse_tasks(s@, p as int, (k - j) as nat) == Some::<(Seq<TaskView>, int)>(
                    (rest, pe),
                ) ==> parse_tasks(s@, pos as int, k as nat) == Some::<(Seq<TaskView>, int)>(
                    (acc.deep_view() + rest, pe),
                ),
            parse_tasks(s@, p as int, (k - j) as nat) is None ==> parse_tasks(
                s@,
                pos as int,
                k as nat,
            ) is None,
        decreases k - j,
    {
        let ghost acc0 = acc.deep_view();
        match parse_task_exec(s, n, p) {
            None => {
                proof {
                    assert(parse_tasks(s@, p as int, (k - j) as nat) is None);
                }
                return None;
            },
            Some((t, p2)) => {
                proof {
                    assert(parse_tasks(s@, p as int, (k - j) as nat) == (
                    match parse_tasks(s@, p2 as int, (k - j - 1) as nat) {
                        None => None::<(Seq<TaskView>, int)>,
                        Some((rest, pe)) => Some((seq![t@] + rest, pe)),
                    }));
                }
                let ghost tv = t@;
                acc.push(t);
                proof {
                    assert(acc.deep_view() =~= acc0.push(tv));
                    assert forall|rest: Seq<TaskView>, pe: int|
                        parse_tasks(s@, p2 as int, (k - j - 1) as nat) == Some::<(
                            Seq<TaskView>,
                            int,
                        )>((rest, pe)) implies parse_tasks(s@, pos as int, k as nat) == Some::<(
                        Seq<TaskView>,
                        int,
                    )>((acc.deep_view() + rest, pe)) by {
                        assert(acc0.push(tv) + rest =~= acc0 + (seq![tv] + rest));
                    }
                }
                p = p2;
            },
        }
        j = j + 1;
    }
    proof {
        assert(parse_tasks(s@, p as int, 0) == Some::<(Seq<TaskView>, int)>(
            (Seq::empty(), p as int),
        ));
        assert(acc.deep_view() + Seq::<TaskView>::empty() =~= acc.deep_view());
    }
    Some((acc, p))
}

/// Read a whole text document back into a registry (under the strict
/// transition policy). A document that does not parse, or whose tasks
/// break the collection invariant, is rejected as unreadable.
pub fn decode_collection(s: &str) -> (r: Result<TaskManager, TaskFlowError>)
    ensures
        match r {
            Ok(m) => {
                &&& parse_coll(s@) == Some(m@)
                &&& coll_inv(m@)
                &&& m.inv()
                &&& m.policy == TransitionPolicy::Strict
            },
            Err(e) => {
                &&& (e matches TaskFlowError::Serialization { .. })
                &&& (match parse_coll(s@) {
                    None => true,
                    Some(views) => !coll_inv(views),
                })
            },
        },
{
    let n = s.unicode_len();
    let (k, p) = match parse_u128_field_exec(s, n, 0) {
        None => {
            return Err(TaskFlowError::Serialization {
                message: String::from_str("the document does not start with a task count"),
            });
        },
        Some(v) => v,
    };
    let (tasks, p2) = match parse_tasks_exec(s, n, p, k) {
        None => {
            return Err(TaskFlowError::Serialization {
                message: String::from_str("a task record of the document is malformed"),
            });
        },
        Some(v) => v,
    };
    if p2 != n {
        return Err(TaskFlowError::Serialization {
            message: String::from_str("the document has text after the last task"),
        });
    }
    if !collection_ok(&tasks) {
        return Err(TaskFlowError::Serialization {
            message: String::from_str(
                "the document holds a duplicate identifier or a malformed task",
            ),
        });
    }
    Ok(TaskManager { tasks, policy: TransitionPolicy::Strict })
}

} // verus!
