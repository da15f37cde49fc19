//! The persistence facade's verified half: the backend records (a path
//! each), and the name-to-backend lookup. The reading and writing of files
//! and database rows is input/output and lives outside the library; the
//! documents and rows themselves come from the verified codecs.

use vstd::prelude::*;

use crate::error::TaskFlowError;

verus! {

/// The flat-file backend: the whole collection as one text document at
/// this path.
pub struct JsonStorage {
    pub file_path: String,
}

impl JsonStorage {
    /// A flat-file backend over the given path.
    pub fn new(file_path: String) -> (r: Self)
        ensures
            r.file_path@ == file_path@,
    {
        JsonStorage { file_path }
    }

    /// The sibling path the backup copy goes to.
    pub fn backup_path(&self) -> (r: String)
        ensures
            r@ == self.file_path@ + ".backup"@,
    {
        let mut out = self.file_path.clone();
        out.append(".backup");
        proof {
            assert(out@ =~= self.file_path@ + ".backup"@);
        }
        out
    }
}

/// The embedded-database backend: one fixed-schema table in the database
/// file at this path.
pub struct SqliteStorage {
    pub db_path: String,
}

impl SqliteStorage {
    /// An embedded-database backend over the given path.
    pub fn new(db_path: String) -> (r: Self)
        ensures
            r.db_path@ == db_path@,
    {
        SqliteStorage { db_path }
    }

    /// The sibling path the backup copy goes to.
    pub fn backup_path(&self) -> (r: String)
        ensures
            r@ == self.db_path@ + ".backup"@,
    {
        let mut out = self.db_path.clone();
        out.append(".backup");
        proof {
            assert(out@ =~= self.db_path@ + ".backup"@);
        }
        out
    }
}

/// Which persistence backend a configuration name selects.
#[derive(Clone, Copy, PartialEq, Eq, Structural, Debug)]
pub enum StorageKind {
    Json,
    Sqlite,
}

/// A character with any ASCII capital folded to its small form.
pub open spec fn ascii_lower(c: char) -> char {
    if c == 'A' {
        'a'
    } else if c == 'B' {
        'b'
    } else if c == 'C' {
        'c'
    } else if c == 'D' {
        'd'
    } else if c == 'E' {
        'e'
    } else if c == 'F' {
        'f'
    } else if c == 'G' {
        'g'
    } else if c == 'H' {
        'h'
    } else if c == 'I' {
        'i'
    } else if c == 'J' {
        'j'
    } else if c == 'K' {
        'k'
    } else if c == 'L' {
        'l'
    } else if c == 'M' {
        'm'
    } else if c == 'N' {
        'n'
    } else if c == 'O' {
        'o'
    } else if c == 'P' {
        'p'
    } else if c == 'Q' {
        'q'
    } else if c == 'R' {
        'r'
    } else if c == 'S' {
        's'
    } else if c == 'T' {
        't'
    } else if c == 'U' {
        'u'
    } else if c == 'V' {
        'v'
    } else if c == 'W' {
        'w'
    } else if c == 'X' {
        'x'
    } else if c == 'Y' {
        'y'
    } else if c == 'Z' {
        'z'
    } else {
        c
    }
}

/// A character with any ASCII capital folded to its small form.
#[verifier::when_used_as_spec(ascii_lower)]
pub fn ascii_lower_char(c: char) -> (r: char)
    ensures
        r == ascii_lower(c),
{
    match c {
        'A' => 'a',
        'B' => 'b',
        'C' => 'c',
        'D' => 'd',
        'E' => 'e',
        'F' => 'f',
        'G' => 'g',
        'H' => 'h',
        'I' => 'i',
        'J' => 'j',
        'K' => 'k',
        'L' => 'l',
        'M' => 'm',
        'N' => 'n',
        'O' => 'o',
        'P' => 'p',
        'Q' => 'q',
        'R' => 'r',
        'S' => 's',
        'T' => 't',
        'U' => 'u',
        'V' => 'v',
        'W' => 'w',
        'X' => 'x',
        'Y' => 'y',
        'Z' => 'z',
        _ => c,
    }
}

/// Whether two texts are equal once ASCII capitals are folded.
pub open spec fn eq_ignore_ascii_case(a: Seq<char>, b: Seq<char>) -> bool {
    a.len() == b.len() && forall|i: int|
        0 <= i < a.len() ==> ascii_lower(#[trigger] a[i]) == ascii_lower(b[i])
}

/// Decide whether two texts are equal once ASCII capitals are folded.
pub fn str_eq_ignore_ascii_case(a: &str, b: &str) -> (r: bool)
    ensures
        r == eq_ignore_ascii_case(a@, b@),
{
    let n = a.unicode_len();
    let m = b.unicode_len();
    if n != m {
        return false;
    }
    let mut i: usize = 0;
    while i < n
        invariant
            n == a@.len(),
            n == b@.len(),
            i <= n,
            forall|j: int| 0 <= j < i ==> ascii_lower(#[trigger] a@[j]) == ascii_lower(b@[j]),
        decreases n - i,
    {
        if ascii_lower_char(a.get_char(i)) != ascii_lower_char(b.get_char(i)) {
            return false;
        }
        i = i + 1;
    }
    true
}

/// The backend a configuration name selects, matched without regard to
/// ASCII case: `json` is the flat-file backend and `sqlite` the embedded
/// database; any other name is unsupported and fails before any
/// input/output is attempted.
pub fn create_storage(storage_type: &str) -> (r: Result<StorageKind, TaskFlowError>)
    ensures
        eq_ignore_ascii_case(storage_type@, "json"@) ==> r == Ok::<StorageKind, TaskFlowError>(
            StorageKind::Json,
        ),
        eq_ignore_ascii_case(storage_type@, "sqlite"@) ==> r == Ok::<StorageKind, TaskFlowError>(
            StorageKind::Sqlite,
        ),
        !eq_ignore_ascii_case(storage_type@, "json"@) && !eq_ignore_ascii_case(
            storage_type@,
            "sqlite"@,
        ) ==> (r matches Err(e) && e matches TaskFlowError::Validation { .. }),
{
    proof {
        reveal_strlit("json");
        reveal_strlit("sqlite");
        assert("json"@.len() == 4);
        assert("sqlite"@.len() == 6);
    }
    if str_eq_ignore_ascii_case(storage_type, "json") {
        Ok(StorageKind::Json)
    } else if str_eq_ignore_ascii_case(storage_type, "sqlite") {
        Ok(StorageKind::Sqlite)
    } else {
        Err(TaskFlowError::Validation {
            message: String::from_str("unsupported storage type"),
        })
    }
}

} // verus!
