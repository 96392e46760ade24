//! The version-control data the assistant reads and the commit-message
//! heuristic over it. Talking to a repository is a caller's concern; the
//! summaries and the suggested message are computed and specified here.

use vstd::prelude::*;

use crate::strutil::{
    chars_of, contains_spec, contains_sub, dec_chars, ends_with, ends_with_spec, seq_eq, string_of,
    to_lower, to_lower_spec, usize_chars,
};

verus! {

/// What the working tree looks like: path lists per kind of change.
#[derive(Debug, Clone)]
pub struct GitStatus {
    pub staged_files: Vec<String>,
    pub modified_files: Vec<String>,
    pub untracked_files: Vec<String>,
    pub deleted_files: Vec<String>,
    pub renamed_files: Vec<(String, String)>,
}

/// A rendered diff and its counts.
#[derive(Debug, Clone)]
pub struct GitDiff {
    pub diff_text: String,
    pub file_count: usize,
    pub insertions: usize,
    pub deletions: usize,
}

/// A one-look summary of the repository.
#[derive(Debug, Clone)]
pub struct RepoInfo {
    pub branch: String,
    pub commit_hash: String,
    pub commit_message: String,
    pub has_uncommitted_changes: bool,
    pub staged_count: usize,
    pub modified_count: usize,
    pub untracked_count: usize,
}

/// Anything staged, changed, untracked or deleted counts as uncommitted.
pub open spec fn has_uncommitted_spec(st: GitStatus) -> bool {
    st.staged_files@.len() > 0 || st.modified_files@.len() > 0 || st.untracked_files@.len() > 0
        || st.deleted_files@.len() > 0
}

/// Whether the status carries uncommitted work.
pub fn has_uncommitted_changes(status: &GitStatus) -> (r: bool)
    ensures
        r == has_uncommitted_spec(*status),
{
    status.staged_files.len() > 0 || status.modified_files.len() > 0
        || status.untracked_files.len() > 0 || status.deleted_files.len() > 0
}

/// Index of the last occurrence of `c` in `s`.
pub open spec fn rfind_char(s: Seq<char>, c: char) -> Option<int>
    decreases s.len(),
{
    if s.len() == 0 {
        None
    } else if s.last() == c {
        Some(s.len() - 1)
    } else {
        rfind_char(s.drop_last(), c)
    }
}

/// The file name: what follows the last path separator.
pub open spec fn file_name_of(p: Seq<char>) -> Seq<char> {
    match rfind_char(p, '/') {
        Some(i) => p.skip(i + 1),
        None => p,
    }
}

/// The extension of a file name: what follows its last dot, none when the
/// dot is absent or leading.
pub open spec fn ext_of(name: Seq<char>) -> Option<Seq<char>> {
    match rfind_char(name, '.') {
        Some(i) => if i > 0 {
            Some(name.skip(i + 1))
        } else {
            None
        },
        None => None,
    }
}

/// The path's lowercased extension equals `e`.
pub open spec fn has_ext(p: Seq<char>, e: Seq<char>) -> bool {
    match ext_of(file_name_of(p)) {
        Some(x) => to_lower_spec(x) == e,
        None => false,
    }
}

pub open spec fn any_ext(fs: Seq<Seq<char>>, e: Seq<char>) -> bool {
    exists|i: int| 0 <= i < fs.len() && has_ext(#[trigger] fs[i], e)
}

/// Index of the last occurrence of `c`, by backward scan.
fn rfind(s: &Vec<char>, c: char) -> (r: Option<usize>)
    ensures
        match r {
            Some(i) => rfind_char(s@, c) == Some(i as int) && i < s@.len(),
            None => rfind_char(s@, c) is None,
        },
{
    let n = s.len();
    let mut i: usize = n;
    proof {
        assert(s@.take(n as int) =~= s@);
    }
    while i > 0
        invariant
            0 <= i <= n,
            n == s@.len(),
            rfind_char(s@, c) == rfind_char(s@.take(i as int), c),
        decreases i,
    {
        proof {
            assert(s@.take(i as int).last() == s@[i - 1]);
            assert(s@.take(i as int).drop_last() =~= s@.take(i - 1 as int));
        }
        if s[i - 1] == c {
            return Some(i - 1);
        }
        i -= 1;
    }
    None
}

/// Whether the path's lowercased extension equals `e`.
fn path_has_ext(p: &Vec<char>, e: &Vec<char>) -> (r: bool)
    ensures
        r == has_ext(p@, e@),
{
    let n = p.len();
    let name = match rfind(p, '/') {
        Some(i) => crate::strutil::copy_range(p, i + 1, n),
        None => crate::strutil::copy_range(p, 0, n),
    };
    proof {
        assert(name@ =~= file_name_of(p@));
    }
    match rfind(&name, '.') {
        Some(i) => {
            if i > 0 {
                let m = name.len();
                let ext = crate::strutil::copy_range(&name, i + 1, m);
                proof {
                    assert(ext@ =~= name@.skip(i + 1));
                }
                let lowext = to_lower(&ext);
                seq_eq(&lowext, e)
            } else {
                false
            }
        },
        None => false,
    }
}

/// Whether any of the paths has the lowercased extension `e`.
fn any_path_ext(fs: &Vec<String>, e: &Vec<char>) -> (r: bool)
    ensures
        r == any_ext(fs.deep_view(), e@),
{
    let n = fs.len();
    let mut i: usize = 0;
    while i < n
        invariant
            0 <= i <= n,
            n == fs@.len(),
            n == fs.deep_view().len(),
            forall|t: int| 0 <= t < i ==> !has_ext(#[trigger] fs.deep_view()[t], e@),
        decreases n - i,
    {
        let p = chars_of(fs[i].as_str());
        proof {
            assert(p@ == fs.deep_view()[i as int]);
        }
        if path_has_ext(&p, e) {
            return true;
        }
        i += 1;
    }
    false
}

/// The message before the optional size suffix.
pub open spec fn base_message_spec(st: GitStatus) -> Seq<char> {
    let staged = st.staged_files.deep_view();
    if staged.len() == 1 {
        let f = staged[0];
        if contains_spec(f, "test"@) {
            "Add tests for "@ + f
        } else if ends_with_spec(f, ".md"@) {
            "Update documentation: "@ + f
        } else {
            "Update "@ + f
        }
    } else {
        if any_ext(staged, "rs"@) {
            "Update Rust implementation"@
        } else if any_ext(staged, "py"@) {
            "Update Python scripts"@
        } else if any_ext(staged, "md"@) {
            "Update documentation"@
        } else {
            "Update "@ + dec_chars(staged.len() as int) + " files"@
        }
    }
}

/// The suggested commit message: nothing staged yields a fixed note; one
/// staged file is named; several are summarised by their dominant kind; a
/// large diff appends its size.
pub open spec fn suggest_commit_message_spec(st: GitStatus, insertions: int, deletions: int) -> Seq<
    char,
> {
    if st.staged_files@.len() == 0 {
        "No staged changes"@
    } else {
        let m = base_message_spec(st);
        if insertions > 50 || deletions > 20 {
            m + " (+"@ + dec_chars(insertions) + " -"@ + dec_chars(deletions) + " lines)"@
        } else {
            m
        }
    }
}

/// The suggested commit message for a status and its staged diff.
pub fn suggest_commit_message(status: &GitStatus, diff: &GitDiff) -> (r: String)
    ensures
        r@ == suggest_commit_message_spec(*status, diff.insertions as int, diff.deletions as int),
{
    let n = status.staged_files.len();
    if n == 0 {
        return String::from_str("No staged changes");
    }
    let mut m: String;
    if n == 1 {
        let f = &status.staged_files[0];
        let fc = chars_of(f.as_str());
        proof {
            assert(fc@ == status.staged_files.deep_view()[0]);
        }
        let test_pat = chars_of("test");
        let md_pat = chars_of(".md");
        if contains_sub(&fc, &test_pat) {
            m = String::from_str("Add tests for ");
            m.append(f.as_str());
        } else if ends_with(&fc, &md_pat) {
            m = String::from_str("Update documentation: ");
            m.append(f.as_str());
        } else {
            m = String::from_str("Update ");
            m.append(f.as_str());
        }
    } else {
        let rs_pat = chars_of("rs");
        let py_pat = chars_of("py");
        let md_pat = chars_of("md");
        if any_path_ext(&status.staged_files, &rs_pat) {
            m = String::from_str("Update Rust implementation");
        } else if any_path_ext(&status.staged_files, &py_pat) {
            m = String::from_str("Update Python scripts");
        } else if any_path_ext(&status.staged_files, &md_pat) {
            m = String::from_str("Update documentation");
        } else {
            m = String::from_str("Update ");
            let d = string_of(&usize_chars(n));
            m.append(d.as_str());
            m.append(" files");
        }
    }
    proof {
        assert(status.staged_files.deep_view().len() == n);
        assert(m@ == base_message_spec(*status));
    }
    if diff.insertions > 50 || diff.deletions > 20 {
        m.append(" (+");
        let d1 = string_of(&usize_chars(diff.insertions));
        m.append(d1.as_str());
        m.append(" -");
        let d2 = string_of(&usize_chars(diff.deletions));
        m.append(d2.as_str());
        m.append(" lines)");
        proof {
            assert(m@ =~= base_message_spec(*status) + " (+"@ + dec_chars(diff.insertions as int)
                + " -"@ + dec_chars(diff.deletions as int) + " lines)"@);
        }
    }
    m
}

} // verus!
