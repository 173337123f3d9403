//! Directory listings and file reads: which entries a listing shows, in
//! what order, and how large a file may be to be read whole.
use vstd::prelude::*;
use vstd::string::StrSliceExecFns;
use core::cmp::Ordering;

verus! {

/// One entry of a directory listing.
pub struct FileEntry {
    pub name: String,
    pub path: String,
    pub is_dir: bool,
}

/// Directories that a listing leaves out: dependency, build and tool folders.
pub open spec fn is_ignored_dir_name(name: Seq<char>) -> bool {
    name == "node_modules"@
        || name == ".git"@
        || name == ".svn"@
        || name == ".hg"@
        || name == "target"@
        || name == "dist"@
        || name == "build"@
        || name == ".next"@
        || name == ".nuxt"@
        || name == ".output"@
        || name == "__pycache__"@
        || name == ".cache"@
        || name == ".parcel-cache"@
        || name == "coverage"@
        || name == ".idea"@
        || name == ".vscode"@
}

/// Files that a listing leaves out: folder metadata of desktop systems.
pub open spec fn is_ignored_file_name(name: Seq<char>) -> bool {
    name == ".DS_Store"@
        || name == "Thumbs.db"@
        || name == "desktop.ini"@
}

/// Whether a directory listing shows an entry: hidden names (those that
/// start with `.`) and the ignored directories and files are left out.
pub open spec fn is_listed_spec(name: Seq<char>, is_dir: bool) -> bool {
    &&& !(name.len() > 0 && name[0] == '.')
    &&& !(is_dir && is_ignored_dir_name(name))
    &&& !(!is_dir && is_ignored_file_name(name))
}

fn same_text(a: &str, b: &str) -> (r: bool)
    ensures
        r == (a@ == b@),
{
    a.to_owned() == b.to_owned()
}

fn is_ignored_dir(name: &str) -> (r: bool)
    ensures
        r == is_ignored_dir_name(name@),
{
    same_text(name, "node_modules")
        || same_text(name, ".git")
        || same_text(name, ".svn")
        || same_text(name, ".hg")
        || same_text(name, "target")
        || same_text(name, "dist")
        || same_text(name, "build")
        || same_text(name, ".next")
        || same_text(name, ".nuxt")
        || same_text(name, ".output")
        || same_text(name, "__pycache__")
        || same_text(name, ".cache")
        || same_text(name, ".parcel-cache")
        || same_text(name, "coverage")
        || same_text(name, ".idea")
        || same_text(name, ".vscode")
}

fn is_ignored_file(name: &str) -> (r: bool)
    ensures
        r == is_ignored_file_name(name@),
{
    same_text(name, ".DS_Store")
        || same_text(name, "Thumbs.db")
        || same_text(name, "desktop.ini")
}

/// Whether a directory listing shows the entry `name`.
pub fn is_listed(name: &str, is_dir: bool) -> (r: bool)
    ensures
        r == is_listed_spec(name@, is_dir),
{
    if name.unicode_len() > 0 && name.get_char(0) == '.' {
        return false;
    }
    if is_dir {
        !is_ignored_dir(name)
    } else {
        !is_ignored_file(name)
    }
}

/// What `str::to_lowercase` makes of a text.
pub uninterp spec fn lowercase_of(s: Seq<char>) -> Seq<char>;

/// Relies on `str::to_lowercase`: the lowercase form depends on the text alone.
#[verifier::external_body]
fn lowercase(s: &str) -> (r: String)
    ensures
        r@ == lowercase_of(s@),
{
    s.to_lowercase()
}

/// The lexicographic order of two texts, character by character, as `str`
/// orders them.
pub open spec fn text_cmp(a: Seq<char>, b: Seq<char>) -> Ordering
    decreases a.len(),
{
    if a.len() == 0 {
        if b.len() == 0 { Ordering::Equal } else { Ordering::Less }
    } else if b.len() == 0 {
        Ordering::Greater
    } else if (a[0] as u32) < (b[0] as u32) {
        Ordering::Less
    } else if (a[0] as u32) > (b[0] as u32) {
        Ordering::Greater
    } else {
        text_cmp(a.drop_first(), b.drop_first())
    }
}

/// The order of a listing: directories first, then by name without regard
/// to case.
pub open spec fn entry_cmp(a_dir: bool, a_name: Seq<char>, b_dir: bool, b_name: Seq<char>) -> Ordering {
    if a_dir && !b_dir {
        Ordering::Less
    } else if !a_dir && b_dir {
        Ordering::Greater
    } else {
        text_cmp(lowercase_of(a_name), lowercase_of(b_name))
    }
}

fn compare_text(a: &str, b: &str) -> (r: Ordering)
    ensures
        r == text_cmp(a@, b@),
{
    let n = a.unicode_len();
    let m = b.unicode_len();
    let mut i: usize = 0;
    assert(a@.skip(0) =~= a@);
    assert(b@.skip(0) =~= b@);
    while i < n && i < m
        invariant
            i <= n == a@.len(),
            i <= m == b@.len(),
            text_cmp(a@, b@) == text_cmp(a@.skip(i as int), b@.skip(i as int)),
        decreases n - i,
    {
        let x = a.get_char(i);
        let y = b.get_char(i);
        assert(a@.skip(i as int)[0] == x);
        assert(b@.skip(i as int)[0] == y);
        if (x as u32) < (y as u32) {
            return Ordering::Less;
        }
        if (x as u32) > (y as u32) {
            return Ordering::Greater;
        }
        assert(a@.skip(i as int).drop_first() =~= a@.skip(i + 1));
        assert(b@.skip(i as int).drop_first() =~= b@.skip(i + 1));
        i = i + 1;
    }
    if i < m {
        Ordering::Less
    } else if i < n {
        Ordering::Greater
    } else {
        Ordering::Equal
    }
}

/// Compares two listing entries in the order a listing is sorted by.
pub fn compare_entries(a: &FileEntry, b: &FileEntry) -> (r: Ordering)
    ensures
        r == entry_cmp(a.is_dir, a.name@, b.is_dir, b.name@),
{
    if a.is_dir && !b.is_dir {
        return Ordering::Less;
    }
    if !a.is_dir && b.is_dir {
        return Ordering::Greater;
    }
    let la = lowercase(a.name.as_str());
    let lb = lowercase(b.name.as_str());
    compare_text(la.as_str(), lb.as_str())
}

/// The largest file, in bytes, that is read whole.
pub const MAX_READ_BYTES: u64 = 10 * 1024 * 1024;

/// Refuses to read a file larger than `MAX_READ_BYTES`.
pub fn check_read_size(len: u64) -> (r: Result<(), String>)
    ensures
        r is Ok <==> len <= MAX_READ_BYTES,
        r matches Err(e) ==> e@ == "File exceeds 10MB limit"@,
{
    if len > MAX_READ_BYTES {
        Err("File exceeds 10MB limit".to_owned())
    } else {
        Ok(())
    }
}

/// What `str::replace` makes of `content` when every match of `search` is
/// replaced by `replace`.
pub uninterp spec fn replace_all_of(content: Seq<char>, search: Seq<char>, replace: Seq<char>) -> Seq<
    char,
>;

/// What `str::replacen` makes of `content` when only the first match of
/// `search` is replaced by `replace`.
pub uninterp spec fn replace_first_of(content: Seq<char>, search: Seq<char>, replace: Seq<char>) -> Seq<
    char,
>;

/// The number of disjoint matches of `search` that `str::matches` finds in
/// `content`.
pub uninterp spec fn match_count_of(content: Seq<char>, search: Seq<char>) -> nat;

/// Relies on `str::replace`: the result depends on the three texts alone.
#[verifier::external_body]
fn replace_all(content: &str, search: &str, replace: &str) -> (r: String)
    ensures
        r@ == replace_all_of(content@, search@, replace@),
{
    content.replace(search, replace)
}

/// Relies on `str::replacen` with a count of one: the result depends on the
/// three texts alone.
#[verifier::external_body]
fn replace_first(content: &str, search: &str, replace: &str) -> (r: String)
    ensures
        r@ == replace_first_of(content@, search@, replace@),
{
    content.replacen(search, replace, 1)
}

/// Relies on `str::matches`: how many disjoint matches it yields.
#[verifier::external_body]
fn count_matches(content: &str, search: &str) -> (r: usize)
    ensures
        r as nat == match_count_of(content@, search@),
{
    content.matches(search).count()
}

/// Replaces `search` in `content`: every match where `all` holds, else the
/// first one only. Returns the new text and the number of replacements,
/// which is zero, with the text unchanged, where nothing matches.
pub fn replace_text(content: &str, search: &str, replace: &str, all: bool) -> (r: (String, u32))
    ensures
        all ==> r.0@ == replace_all_of(content@, search@, replace@) && r.1 == match_count_of(
            content@,
            search@,
        ) as u32,
        !all && match_count_of(content@, search@) > 0 ==> r.0@ == replace_first_of(
            content@,
            search@,
            replace@,
        ) && r.1 == 1,
        !all && match_count_of(content@, search@) == 0 ==> r.0@ == content@ && r.1 == 0,
{
    let count = count_matches(content, search);
    if all {
        (replace_all(content, search, replace), count as u32)
    } else if count > 0 {
        (replace_first(content, search, replace), 1)
    } else {
        (content.to_owned(), 0)
    }
}

/// One match of a text search.
pub struct SearchMatch {
    pub path: String,
    pub line_number: u64,
    pub column: u64,
    pub line_text: String,
    pub match_text: String,
}

/// One submatch of a search result line: its text and where it starts.
pub struct Submatch {
    pub text: String,
    pub start: u64,
}

/// One line of a search tool's output, as far as a search reads it: whether
/// it reports a match, the file's path, the line's number and text, and the
/// submatches on it.
pub struct SearchLine {
    pub is_match: bool,
    pub path: String,
    pub line_number: u64,
    pub line_text: String,
    pub submatches: Vec<Submatch>,
}

/// The most matches a search returns when the caller names no limit.
pub const DEFAULT_MAX_RESULTS: u32 = 500;

pub open spec fn match_view(m: SearchMatch) -> (Seq<char>, u64, u64, Seq<char>, Seq<char>) {
    (m.path@, m.line_number, m.column, m.line_text@, m.match_text@)
}

/// The matches that one output line contributes, one per submatch.
pub open spec fn line_matches(l: SearchLine) -> Seq<(Seq<char>, u64, u64, Seq<char>, Seq<char>)> {
    if l.is_match {
        l.submatches@.map_values(
            |s: Submatch| (l.path@, l.line_number, s.start, l.line_text@, s.text@),
        )
    } else {
        Seq::empty()
    }
}

/// All matches of the output lines, in order.
pub open spec fn all_matches(lines: Seq<SearchLine>) -> Seq<(Seq<char>, u64, u64, Seq<char>, Seq<char>)>
    decreases lines.len(),
{
    if lines.len() == 0 {
        Seq::empty()
    } else {
        all_matches(lines.drop_last()) + line_matches(lines.last())
    }
}

proof fn lemma_all_matches_prefix(lines: Seq<SearchLine>, i: int, n: int)
    requires
        0 <= i <= n <= lines.len(),
    ensures
        all_matches(lines.take(i)).len() <= all_matches(lines.take(n)).len(),
        all_matches(lines.take(n)).take(all_matches(lines.take(i)).len() as int) == all_matches(
            lines.take(i),
        ),
    decreases n - i,
{
    if i < n {
        lemma_all_matches_prefix(lines, i, n - 1);
        assert(lines.take(n).drop_last() =~= lines.take(n - 1));
        let a = all_matches(lines.take(n - 1));
        let b = line_matches(lines.take(n).last());
        let k = all_matches(lines.take(i)).len() as int;
        assert((a + b).take(k) =~= a.take(k));
    } else {
        let a = all_matches(lines.take(n));
        assert(a.take(a.len() as int) =~= a);
    }
}

/// The limit of a search: the one named, or the default.
pub fn search_limit(max_results: Option<u32>) -> (r: u32)
    ensures
        r == match max_results {
            Some(m) => m,
            None => DEFAULT_MAX_RESULTS,
        },
{
    match max_results {
        Some(m) => m,
        None => DEFAULT_MAX_RESULTS,
    }
}

/// The matches of a search's output lines, one per submatch of each line
/// that reports a match, in order, and at most `max` of them.
pub fn collect_matches(lines: &Vec<SearchLine>, max: u32) -> (r: Vec<SearchMatch>)
    ensures
        r@.map_values(|m: SearchMatch| match_view(m)) == all_matches(lines@).take(
            if all_matches(lines@).len() < max { all_matches(lines@).len() as int } else { max as int },
        ),
{
    let mut out: Vec<SearchMatch> = Vec::new();
    let mut i: usize = 0;
    assert(lines@.take(0) =~= Seq::<SearchLine>::empty());
    while i < lines.len() && out.len() < max as usize
        invariant
            i <= lines@.len(),
            out@.len() <= max,
            out@.map_values(|m: SearchMatch| match_view(m)) == all_matches(lines@.take(i as int)),
        decreases lines@.len() - i,
    {
        let line = &lines[i];
        let ghost before = out@.map_values(|m: SearchMatch| match_view(m));
        if line.is_match {
            let mut j: usize = 0;
            while j < line.submatches.len() && out.len() < max as usize
                invariant
                    line == lines@[i as int],
                    line.is_match,
                    j <= line.submatches@.len(),
                    out@.len() <= max,
                    out@.map_values(|m: SearchMatch| match_view(m)) == before + line_matches(
                        *line,
                    ).take(j as int),
                decreases line.submatches@.len() - j,
            {
                let sm = &line.submatches[j];
                let ghost prev = out@.map_values(|m: SearchMatch| match_view(m));
                out.push(
                    SearchMatch {
                        path: line.path.clone(),
                        line_number: line.line_number,
                        column: sm.start,
                        line_text: line.line_text.clone(),
                        match_text: sm.text.clone(),
                    },
                );
                assert(out@.map_values(|m: SearchMatch| match_view(m)) =~= prev.push(
                    line_matches(*line)[j as int],
                ));
                assert(line_matches(*line).take(j + 1) =~= line_matches(*line).take(j as int).push(
                    line_matches(*line)[j as int],
                ));
                j = j + 1;
            }
            if j < line.submatches.len() {
                // The limit was reached inside this line.
                proof {
                    let full = all_matches(lines@.take(i + 1));
                    assert(lines@.take(i + 1).drop_last() =~= lines@.take(i as int));
                    assert(full == before + line_matches(*line));
                    assert(full.take(out@.len() as int) =~= before + line_matches(*line).take(
                        j as int,
                    ));
                    lemma_all_matches_prefix(lines@, i + 1, lines@.len() as int);
                    assert(lines@.take(lines@.len() as int) =~= lines@);
                    let all = all_matches(lines@);
                    assert(all.take(out@.len() as int) =~= full.take(out@.len() as int));
                    assert(out@.len() == max);
                }
                return out;
            }
            assert(line_matches(*line).take(j as int) =~= line_matches(*line));
        } else {
            assert(before + line_matches(*line) =~= before);
        }
        assert(lines@.take(i + 1).drop_last() =~= lines@.take(i as int));
        i = i + 1;
    }
    proof {
        lemma_all_matches_prefix(lines@, i as int, lines@.len() as int);
        assert(lines@.take(lines@.len() as int) =~= lines@);
        let all = all_matches(lines@);
        let done = all_matches(lines@.take(i as int));
        if i == lines@.len() {
            assert(all.take(all.len() as int) =~= all);
        }
    }
    out
}

} // verus!
