//! What the version-control commands report: the records they return and
//! the rules that turn a repository's raw facts into them.
use vstd::prelude::*;
use vstd::string::StrSliceExecFns;
use crate::registry::SessionRegistry;

verus! {

/// The change state of one file in the working tree.
pub struct FileStatus {
    pub path: String,
    /// `new`, `modified`, `deleted`, `staged` or `unknown`.
    pub status: String,
}

/// The status bits of one file that decide its label.
#[derive(Clone, Copy, PartialEq, Eq, Debug)]
pub struct StatusFlags {
    pub wt_new: bool,
    pub wt_modified: bool,
    pub wt_deleted: bool,
    pub index_new: bool,
    pub index_modified: bool,
    pub index_deleted: bool,
}

/// The label of a file: a working-tree change first (new, then modified,
/// then deleted), else `staged` for any change in the index.
pub open spec fn status_label_spec(f: StatusFlags) -> Seq<char> {
    if f.wt_new {
        "new"@
    } else if f.wt_modified {
        "modified"@
    } else if f.wt_deleted {
        "deleted"@
    } else if f.index_new || f.index_modified || f.index_deleted {
        "staged"@
    } else {
        "unknown"@
    }
}

/// The status record of the file at `path`.
pub fn file_status(path: String, flags: StatusFlags) -> (r: FileStatus)
    ensures
        r.path == path,
        r.status@ == status_label_spec(flags),
{
    let label = if flags.wt_new {
        "new"
    } else if flags.wt_modified {
        "modified"
    } else if flags.wt_deleted {
        "deleted"
    } else if flags.index_new || flags.index_modified || flags.index_deleted {
        "staged"
    } else {
        "unknown"
    };
    FileStatus { path, status: label.to_owned() }
}

/// One changed line of a file against the index.
pub struct LineDiff {
    pub line: u32,
    /// `added` or `deleted`.
    pub diff_type: String,
}

/// The gutter mark for one diff line: an added line at its new number, a
/// deleted line at its old number; context and header lines get none.
pub fn line_diff_of(origin: char, new_lineno: Option<u32>, old_lineno: Option<u32>) -> (r: Option<
    LineDiff,
>)
    ensures
        origin == '+' ==> match new_lineno {
            Some(n) => r matches Some(d) && d.line == n && d.diff_type@ == "added"@,
            None => r is None,
        },
        origin == '-' ==> match old_lineno {
            Some(n) => r matches Some(d) && d.line == n && d.diff_type@ == "deleted"@,
            None => r is None,
        },
        origin != '+' && origin != '-' ==> r is None,
{
    if origin == '+' {
        match new_lineno {
            Some(n) => Some(LineDiff { line: n, diff_type: "added".to_owned() }),
            None => None,
        }
    } else if origin == '-' {
        match old_lineno {
            Some(n) => Some(LineDiff { line: n, diff_type: "deleted".to_owned() }),
            None => None,
        }
    } else {
        None
    }
}

/// The decimal digits of `n` as text, most significant first.
pub open spec fn decimal_text(n: nat) -> Seq<char>
    decreases n,
{
    if n < 10 {
        seq![digit_char(n)]
    } else {
        decimal_text(n / 10).push(digit_char(n % 10))
    }
}

pub open spec fn digit_char(d: nat) -> char {
    "0123456789"@[d as int]
}

/// A whole number of seconds as text: a `-` before the digits of a
/// negative number.
pub open spec fn seconds_text(s: int) -> Seq<char> {
    if s < 0 {
        seq!['-'] + decimal_text((-s) as nat)
    } else {
        decimal_text(s as nat)
    }
}

fn push_decimal_text(out: &mut String, n: u64)
    ensures
        final(out)@ == old(out)@ + decimal_text(n as nat),
    decreases n,
{
    if n >= 10 {
        push_decimal_text(out, n / 10);
    }
    let digits = "0123456789";
    proof {
        reveal_strlit("0123456789");
    }
    let d = (n % 10) as usize;
    let one = digits.substring_char(d, d + 1);
    assert(one@ =~= seq![digit_char(d as nat)]);
    out.append(one);
    assert(final(out)@ =~= old(out)@ + decimal_text(n as nat)) by {
        if n >= 10 {
            assert(decimal_text(n as nat) == decimal_text((n / 10) as nat).push(digit_char((n % 10) as nat)));
        }
    };
}

/// A commit time, in seconds since the epoch, as decimal text.
pub fn seconds_to_text(seconds: i64) -> (r: String)
    ensures
        r@ == seconds_text(seconds as int),
{
    if seconds < 0 {
        let mut out = "-".to_owned();
        proof {
            reveal_strlit("-");
        }
        let magnitude: u64 = ((-(seconds + 1)) as u64) + 1;
        push_decimal_text(&mut out, magnitude);
        out
    } else {
        let mut out = "".to_owned();
        proof {
            reveal_strlit("");
        }
        push_decimal_text(&mut out, seconds as u64);
        assert(out@ =~= decimal_text(seconds as nat));
        out
    }
}

/// `s`, or `fallback` where there is none (a name or message that is not
/// valid UTF-8).
fn text_or(s: Option<&str>, fallback: &str) -> (r: String)
    ensures
        r@ == match s {
            Some(t) => t@,
            None => fallback@,
        },
{
    match s {
        Some(t) => t.to_owned(),
        None => fallback.to_owned(),
    }
}

/// One commit of the history.
pub struct CommitEntry {
    pub hash: String,
    pub message: String,
    pub author: String,
    /// Seconds since the epoch, as text.
    pub date: String,
    pub parent_hashes: Vec<String>,
}

pub open spec fn text_or_spec(s: Option<&str>, fallback: Seq<char>) -> Seq<char> {
    match s {
        Some(t) => t@,
        None => fallback,
    }
}

/// The history record of a commit: an unreadable message is empty, an
/// unreadable author is `Unknown`, and the time is given in seconds.
pub fn commit_entry(
    hash: String,
    message: Option<&str>,
    author: Option<&str>,
    seconds: i64,
    parent_hashes: Vec<String>,
) -> (r: CommitEntry)
    ensures
        r.hash == hash,
        r.message@ == text_or_spec(message, ""@),
        r.author@ == text_or_spec(author, "Unknown"@),
        r.date@ == seconds_text(seconds as int),
        r.parent_hashes == parent_hashes,
{
    CommitEntry {
        hash,
        message: text_or(message, ""),
        author: text_or(author, "Unknown"),
        date: seconds_to_text(seconds),
        parent_hashes,
    }
}

/// One commit with the size of its change against its first parent (or
/// against an empty tree for a root commit).
pub struct CommitDetails {
    pub hash: String,
    pub message: String,
    pub author: String,
    pub date: String,
    pub files_changed: usize,
    pub insertions: usize,
    pub deletions: usize,
}

/// The details record of a commit, with the same defaults as `commit_entry`.
pub fn commit_details(
    hash: String,
    message: Option<&str>,
    author: Option<&str>,
    seconds: i64,
    files_changed: usize,
    insertions: usize,
    deletions: usize,
) -> (r: CommitDetails)
    ensures
        r.hash == hash,
        r.message@ == text_or_spec(message, ""@),
        r.author@ == text_or_spec(author, "Unknown"@),
        r.date@ == seconds_text(seconds as int),
        r.files_changed == files_changed,
        r.insertions == insertions,
        r.deletions == deletions,
{
    CommitDetails {
        hash,
        message: text_or(message, ""),
        author: text_or(author, "Unknown"),
        date: seconds_to_text(seconds),
        files_changed,
        insertions,
        deletions,
    }
}

/// The commit that last changed one line.
pub struct BlameEntry {
    pub author: String,
    pub date: String,
    pub hash: String,
}

/// The blame record of a line, with the same defaults as `commit_entry`.
pub fn blame_entry(hash: String, author: Option<&str>, seconds: i64) -> (r: BlameEntry)
    ensures
        r.hash == hash,
        r.author@ == text_or_spec(author, "Unknown"@),
        r.date@ == seconds_text(seconds as int),
{
    BlameEntry { author: text_or(author, "Unknown"), date: seconds_to_text(seconds), hash }
}

/// How often a file changed in recent history, and when it last did.
pub struct FileChurn {
    pub path: String,
    pub commits: u32,
    /// Seconds since the epoch, as text.
    pub last_modified: String,
}

/// The oldest commit time that a churn count over `days` days takes in.
pub open spec fn cutoff_spec(now: int, days: int) -> int {
    now - days * 86400
}

/// Commits older than this many seconds before `now` end a churn walk.
pub fn churn_cutoff(now: i64, days: u32) -> (r: i64)
    requires
        now >= i64::MIN + 86400 * u32::MAX,
    ensures
        r == cutoff_spec(now as int, days as int),
{
    now - (days as i64) * 86400
}

/// Per file: the number of changes seen and the latest commit time among
/// them (never below zero, the time it starts from).
pub struct ChurnTable {
    pub files: SessionRegistry<(u32, i64)>,
}

impl ChurnTable {
    pub open spec fn wf(&self) -> bool {
        self.files.wf()
    }

    pub fn new() -> (r: Self)
        ensures
            r.wf(),
            r.files@ == Map::<Seq<char>, (u32, i64)>::empty(),
    {
        ChurnTable { files: SessionRegistry::new() }
    }

    /// Counts one change of `path` in a commit made at `commit_time`. The
    /// count stops at `u32::MAX`.
    pub fn record(&mut self, path: String, commit_time: i64)
        requires
            old(self).wf(),
        ensures
            final(self).wf(),
            final(self).files@ == old(self).files@.insert(
                path@,
                if old(self).files@.contains_key(path@) {
                    let (n, last) = old(self).files@[path@];
                    (
                        if n < u32::MAX { (n + 1) as u32 } else { n },
                        if commit_time > last { commit_time } else { last },
                    )
                } else {
                    (1u32, if commit_time > 0 { commit_time } else { 0i64 })
                },
            ),
    {
        match self.files.get_mut(&path) {
            Some(entry) => {
                if entry.0 < u32::MAX {
                    entry.0 = entry.0 + 1;
                }
                if commit_time > entry.1 {
                    entry.1 = commit_time;
                }
            },
            None => {
                let last = if commit_time > 0 { commit_time } else { 0 };
                let _ = self.files.register(path, (1, last));
            },
        }
    }

    /// The churn records, one per file.
    pub fn records(&self) -> (r: Vec<FileChurn>)
        requires
            self.wf(),
        ensures
            r@.len() == self.files@.len(),
            forall|i: int|
                0 <= i < r@.len() ==> {
                    &&& self.files@.contains_key((#[trigger] r@[i]).path@)
                    &&& r@[i].commits == self.files@[r@[i].path@].0
                    &&& r@[i].last_modified@ == seconds_text(self.files@[r@[i].path@].1 as int)
                },
            forall|i: int, j: int| 0 <= i < j < r@.len() ==> r@[i].path@ != r@[j].path@,
    {
        let ids = self.files.ids();
        proof {
            ids.deep_view().unique_seq_to_set();
        }
        let mut out: Vec<FileChurn> = Vec::new();
        let mut i: usize = 0;
        while i < ids.len()
            invariant
                i <= ids@.len(),
                self.wf(),
                ids.deep_view().to_set() == self.files@.dom(),
                ids.deep_view().no_duplicates(),
                out@.len() == i,
                forall|k: int|
                    0 <= k < i ==> {
                        &&& (#[trigger] out@[k]).path@ == ids@[k]@
                        &&& self.files@.contains_key(out@[k].path@)
                        &&& out@[k].commits == self.files@[out@[k].path@].0
                        &&& out@[k].last_modified@ == seconds_text(
                            self.files@[out@[k].path@].1 as int,
                        )
                    },
            decreases ids@.len() - i,
        {
            let path = ids[i].clone();
            assert(ids.deep_view()[i as int] == ids@[i as int]@);
            assert(self.files@.dom().contains(path@));
            let (n, last) = *self.files.get(&path).unwrap();
            out.push(FileChurn { path, commits: n, last_modified: seconds_to_text(last) });
            i = i + 1;
        }
        proof {
            assert forall|a: int, b: int| 0 <= a < b < out@.len() implies out@[a].path@
                != out@[b].path@ by {
                assert(ids.deep_view()[a] == ids@[a]@);
                assert(ids.deep_view()[b] == ids@[b]@);
            };
        }
        out
    }
}

/// Adds one line of a patch to the diff text: added, removed and context
/// lines (origin `+`, `-` or space) go in with their origin mark before
/// them; other lines (headers) are left out.
pub fn append_diff_line(out: &mut String, origin: char, content: &str)
    ensures
        (origin == '+' || origin == '-' || origin == ' ') ==> final(out)@ == old(out)@ + seq![origin]
            + content@,
        !(origin == '+' || origin == '-' || origin == ' ') ==> final(out)@ == old(out)@,
{
    let mark = if origin == '+' {
        "+"
    } else if origin == '-' {
        "-"
    } else if origin == ' ' {
        " "
    } else {
        return;
    };
    proof {
        reveal_strlit("+");
        reveal_strlit("-");
        reveal_strlit(" ");
    }
    assert(mark@ =~= seq![origin]);
    out.append(mark);
    out.append(content);
}

} // verus!
