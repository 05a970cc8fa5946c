//! File-modification instructions extracted from assistant replies, and the
//! change sets that group them.
use vstd::prelude::*;
use crate::text::{append_str, dec_seq, dec_seq_signed, i64_to_string, u64_to_string,
    starts_with_spec, string_of, chars_of};

verus! {

/// What a modification does to its line range.
#[derive(Debug)]
pub enum ModificationType {
    Add,
    Delete,
    Modify,
}

/// Review state of one modification.
#[derive(Debug)]
pub enum ModificationStatus {
    Pending,
    Accepted,
    Rejected,
}

/// One modification of a file.
#[derive(Debug)]
pub struct Modification {
    pub id: String,
    pub mod_type: ModificationType,
    pub line_start: u32,
    pub line_end: u32,
    pub original_text: Option<String>,
    pub modified_text: Option<String>,
    pub status: ModificationStatus,
}

/// Review state of one file's modifications.
#[derive(Debug)]
pub enum FileModificationStatus {
    Pending,
    Partial,
    Accepted,
    Rejected,
}

/// The modifications of a single file.
#[derive(Debug)]
pub struct FileModification {
    pub file_path: String,
    pub original_content: String,
    pub modifications: Vec<Modification>,
    pub status: FileModificationStatus,
}

/// Review state of a change set.
#[derive(Debug)]
pub enum ChangeSetStatus {
    Pending,
    Partial,
    Accepted,
    Rejected,
}

/// A set of changes across files, extracted from one reply.
#[derive(Debug)]
pub struct ChangeSet {
    pub id: String,
    pub timestamp: u64,
    pub files: Vec<FileModification>,
    pub status: ChangeSetStatus,
}

/// Relies on `std::time::SystemTime::now`: the current wall-clock time as
/// milliseconds since the Unix epoch, zero when the clock reads before the
/// epoch (so the read never panics). Nothing is promised of a clock
/// reading.
#[verifier::external_body]
pub(crate) fn now_unix_millis() -> i64 {
    std::time::SystemTime::now()
        .duration_since(std::time::UNIX_EPOCH)
        .map(|d| d.as_millis() as i64)
        .unwrap_or(0)
}

/// Relies on `uuid::Uuid::new_v4` and its `Display`: a freshly drawn random
/// identifier in the canonical hyphenated form. Nothing is promised of a
/// random value.
#[verifier::external_body]
pub(crate) fn new_uuid_string() -> String {
    uuid::Uuid::new_v4().to_string()
}

/// The characters of `s` before the first `-`, or all of `s` without one.
pub open spec fn first_dash_segment(s: Seq<char>) -> Seq<char>
    decreases s.len(),
{
    if s.len() == 0 {
        s
    } else if s[0] == '-' {
        Seq::empty()
    } else {
        seq![s[0]] + first_dash_segment(s.skip(1))
    }
}

/// The part of `s` before its first dash.
fn split_first_dash(s: &str) -> (r: String)
    ensures
        r@ == first_dash_segment(s@),
{
    let chars = chars_of(s);
    let n = chars.len();
    let mut i: usize = 0;
    while i < n && chars[i] != '-'
        invariant
            chars@ == s@,
            n == s@.len(),
            i <= n,
            forall|j: int| 0 <= j < i ==> s@[j] != '-',
        decreases n - i,
    {
        i = i + 1;
    }
    let mut out: Vec<char> = Vec::new();
    let mut k: usize = 0;
    while k < i
        invariant
            chars@ == s@,
            i <= n == s@.len(),
            k <= i,
            forall|j: int| 0 <= j < i ==> s@[j] != '-',
            i < n ==> s@[i as int] == '-',
            out@ == s@.take(i as int).take(k as int),
        decreases i - k,
    {
        out.push(chars[k]);
        k = k + 1;
        proof {
            assert(out@ =~= s@.take(i as int).take(k as int));
        }
    }
    proof {
        assert(out@ =~= s@.take(i as int));
        lemma_first_dash_take(s@, i as int);
    }
    string_of(&out)
}

/// When nothing before `i` is a dash and `i` is a dash or the end, the
/// first-dash segment is the prefix of length `i`.
proof fn lemma_first_dash_take(s: Seq<char>, i: int)
    requires
        0 <= i <= s.len(),
        forall|j: int| 0 <= j < i ==> s[j] != '-',
        i == s.len() || s[i] == '-',
    ensures
        first_dash_segment(s) == s.take(i),
    decreases i,
{
    if s.len() == 0 {
        assert(s.take(0) =~= s);
    } else if i == 0 {
        assert(s.take(0) =~= Seq::<char>::empty());
    } else {
        lemma_first_dash_take(s.skip(1), i - 1);
        assert(seq![s[0]] + s.skip(1).take(i - 1) =~= s.take(i));
    }
}

impl ChangeSet {
    /// A fresh change set over the given per-file modifications: pending,
    /// stamped with the current time, and named after the time and a random
    /// identifier.
    pub fn new(files: Vec<FileModification>) -> (r: ChangeSet)
        ensures
            r.files@ == files@,
            r.status is Pending,
            starts_with_spec(r.id@, "changeset-"@),
    {
        let millis = now_unix_millis();
        let uuid = new_uuid_string();
        let segment = split_first_dash(uuid.as_str());
        let mut id = String::new();
        append_str(&mut id, "changeset-");
        append_str(&mut id, i64_to_string(millis).as_str());
        append_str(&mut id, "-");
        append_str(&mut id, segment.as_str());
        proof {
            assert(id@.take("changeset-"@.len() as int) =~= "changeset-"@);
        }
        let secs: u64 = if millis >= 0 {
            (millis / 1000) as u64
        } else {
            0
        };
        ChangeSet { id, timestamp: secs, files, status: ChangeSetStatus::Pending }
    }
}

/// The identifier given to the modification at position `idx`, stamped with
/// time `millis`.
pub open spec fn mod_id_seq(millis: int, idx: int) -> Seq<char> {
    "mod-"@ + dec_seq_signed(millis) + "-"@ + dec_seq(idx)
}

/// Builds the identifier of the modification at position `idx`.
pub(crate) fn make_mod_id(millis: i64, idx: usize) -> (r: String)
    ensures
        r@ == mod_id_seq(millis as int, idx as int),
{
    let mut id = String::new();
    append_str(&mut id, "mod-");
    append_str(&mut id, i64_to_string(millis).as_str());
    append_str(&mut id, "-");
    append_str(&mut id, u64_to_string(idx as u64).as_str());
    id
}

}
