//! The context selector: keyword extraction from a request, assembly of the
//! selected files into a bounded bundle with totals and a summary, the
//! formatting handed to the generator, and the keyword-driven choice of
//! candidate files over a snapshot of the project tree. Reading the files
//! themselves is a caller's concern.

use vstd::prelude::*;
use vstd::string::StringSliceAdditionalSpecFns;

use crate::strutil::{
    chars_of, contains_spec, contains_sub, dec_chars, is_upper, kw_trim, kw_trim_spec, lines_spec,
    seq_eq, split_lines, split_ws, split_ws_spec, string_of, to_lower, to_lower_spec, upper_char,
    usize_chars,
};

verus! {

#[derive(Debug, Clone)]
pub struct FileContext {
    pub path: String,
    pub content: String,
    pub line_count: usize,
    pub char_count: usize,
    pub exists: bool,
}

/// Ghost image of a `FileContext`, for contracts.
pub ghost struct FcView {
    pub path: Seq<char>,
    pub content: Seq<char>,
    pub line_count: int,
    pub char_count: int,
    pub exists: bool,
}

pub open spec fn fc_view(f: FileContext) -> FcView {
    FcView {
        path: f.path@,
        content: f.content@,
        line_count: f.line_count as int,
        char_count: f.char_count as int,
        exists: f.exists,
    }
}

#[derive(Debug, Clone)]
pub struct ProjectContext {
    pub files: Vec<FileContext>,
    pub total_line_count: usize,
    pub total_char_count: usize,
}

impl ProjectContext {
    /// An empty bundle.
    pub fn new() -> (r: Self)
        ensures
            r.files@.len() == 0,
            r.total_line_count == 0,
            r.total_char_count == 0,
    {
        ProjectContext { files: Vec::new(), total_line_count: 0, total_char_count: 0 }
    }
}

/// The bundle handed to the generator: the files, their totals, and a
/// one-line summary.
#[derive(Debug, Clone)]
pub struct BuildContext {
    pub files: Vec<FileContext>,
    pub total_lines: usize,
    pub total_chars: usize,
    pub total_files: usize,
    pub context_summary: String,
}

#[derive(Debug)]
pub struct ContextBuilder {}

/// A word worth searching for: longer than three characters and carrying a
/// dot or an ASCII uppercase letter.
pub open spec fn is_keyword_word(w: Seq<char>) -> bool {
    w.len() > 3 && (contains_spec(w, seq!['.']) || exists|i: int|
        0 <= i < w.len() && is_upper(#[trigger] w[i]))
}

/// The keywords of the words, in order: qualifying words, trimmed of
/// non-keyword characters at both ends.
pub open spec fn keywords_spec(words: Seq<Seq<char>>) -> Seq<Seq<char>>
    decreases words.len(),
{
    if words.len() == 0 {
        Seq::empty()
    } else {
        let rest = keywords_spec(words.drop_last());
        if is_keyword_word(words.last()) {
            rest.push(kw_trim_spec(words.last()))
        } else {
            rest
        }
    }
}

pub open spec fn extract_keywords_spec(prompt: Seq<char>) -> Seq<Seq<char>> {
    keywords_spec(split_ws_spec(prompt))
}

/// The alternation pattern over the keywords, pieces joined by '|'.
pub open spec fn pattern_spec(keywords: Seq<Seq<char>>) -> Seq<char> {
    crate::strutil::join_char_spec(keywords, '|')
}

impl ContextBuilder {
    pub fn new() -> (r: Self)
    {
        ContextBuilder {}
    }

    /// The searchable keywords of a request.
    pub fn extract_keywords(&self, prompt: &str) -> (r: Vec<String>)
        ensures
            r.deep_view() == extract_keywords_spec(prompt@),
    {
        let cs = chars_of(prompt);
        let words = split_ws(&cs);
        let dot = chars_of(".");
        let n = words.len();
        let mut r: Vec<String> = Vec::new();
        let mut i: usize = 0;
        proof {
            reveal_strlit(".");
            assert("."@.len() == 1);
            assert("."@ =~= seq!['.']);
            assert(words.deep_view().take(0) =~= Seq::<Seq<char>>::empty());
            assert(r.deep_view() =~~= keywords_spec(words.deep_view().take(0)));
        }
        while i < n
            invariant
                0 <= i <= n,
                n == words@.len(),
                n == words.deep_view().len(),
                words.deep_view() == split_ws_spec(cs@),
                cs@ == prompt@,
                dot@ == seq!['.'],
                r.deep_view() == keywords_spec(words.deep_view().take(i as int)),
            decreases n - i,
        {
            let ghost wv = words.deep_view();
            let ghost prev = r.deep_view();
            let w = &words[i];
            proof {
                assert(w@ == wv[i as int]);
                assert(wv.take(i + 1 as int).drop_last() =~= wv.take(i as int));
                assert(wv.take(i + 1 as int).last() == wv[i as int]);
            }
            let mut qualifies = false;
            if w.len() > 3 {
                if contains_sub(w, &dot) {
                    qualifies = true;
                } else {
                    let m = w.len();
                    let mut j: usize = 0;
                    while j < m && !qualifies
                        invariant
                            0 <= j <= m,
                            m == w@.len(),
                            qualifies ==> (exists|t: int| 0 <= t < w@.len() && is_upper(#[trigger] w@[t])),
                            !qualifies ==> (forall|t: int| 0 <= t < j ==> !is_upper(#[trigger] w@[t])),
                        decreases m - j,
                    {
                        if upper_char(w[j]) {
                            qualifies = true;
                        }
                        j += 1;
                    }
                }
            }
            proof {
                assert(qualifies == is_keyword_word(wv[i as int]));
            }
            if qualifies {
                let trimmed = kw_trim(w);
                let s = string_of(&trimmed);
                r.push(s);
                proof {
                    assert(r.deep_view() =~~= prev.push(kw_trim_spec(wv[i as int])));
                }
            }
            i += 1;
        }
        proof {
            assert(words.deep_view().take(n as int) =~= words.deep_view());
        }
        r
    }

    /// The search pattern for the keywords: the pieces joined by '|'.
    pub fn keyword_pattern(&self, keywords: &Vec<String>) -> (r: String)
        ensures
            r@ == pattern_spec(keywords.deep_view()),
    {
        let n = keywords.len();
        let mut pieces: Vec<Vec<char>> = Vec::new();
        let mut i: usize = 0;
        proof {
            assert(pieces.deep_view() =~~= keywords.deep_view().take(0));
        }
        while i < n
            invariant
                0 <= i <= n,
                n == keywords@.len(),
                n == keywords.deep_view().len(),
                pieces.deep_view() == keywords.deep_view().take(i as int),
            decreases n - i,
        {
            let ghost prev = pieces.deep_view();
            let p = chars_of(keywords[i].as_str());
            proof {
                assert(p@ == keywords.deep_view()[i as int]);
            }
            pieces.push(p);
            proof {
                assert(pieces.deep_view() =~~= prev.push(keywords.deep_view()[i as int]));
                assert(prev.push(keywords.deep_view()[i as int]) =~= keywords.deep_view().take(
                    i + 1 as int,
                ));
            }
            i += 1;
        }
        proof {
            assert(keywords.deep_view().take(n as int) =~= keywords.deep_view());
        }
        let joined = crate::strutil::join_char(&pieces, '|');
        string_of(&joined)
    }
}

} // verus!

verus! {

/// Addition that stops at the top of `usize`.
pub open spec fn sat_add(a: int, b: int) -> int {
    if a + b > usize::MAX {
        usize::MAX as int
    } else {
        a + b
    }
}

fn sat_add_ex(a: usize, b: usize) -> (r: usize)
    ensures
        r == sat_add(a as int, b as int),
{
    match a.checked_add(b) {
        Some(v) => v,
        None => usize::MAX,
    }
}

/// Total line count of the files, saturating.
pub open spec fn total_lines_spec(fs: Seq<FcView>) -> int
    decreases fs.len(),
{
    if fs.len() == 0 {
        0
    } else {
        sat_add(total_lines_spec(fs.drop_last()), fs.last().line_count)
    }
}

/// Total character count of the files, saturating.
pub open spec fn total_chars_spec(fs: Seq<FcView>) -> int
    decreases fs.len(),
{
    if fs.len() == 0 {
        0
    } else {
        sat_add(total_chars_spec(fs.drop_last()), fs.last().char_count)
    }
}

/// How many of the files were read successfully.
pub open spec fn successful_spec(fs: Seq<FcView>) -> int
    decreases fs.len(),
{
    if fs.len() == 0 {
        0
    } else {
        successful_spec(fs.drop_last()) + if fs.last().exists {
            1int
        } else {
            0int
        }
    }
}

proof fn lemma_successful_bound(fs: Seq<FcView>)
    ensures
        0 <= successful_spec(fs) <= fs.len(),
    decreases fs.len(),
{
    if fs.len() > 0 {
        lemma_successful_bound(fs.drop_last());
    }
}

/// The one-line summary of a bundle.
pub open spec fn summary_spec(n_files: int, n_success: int, lines: int, chars: int) -> Seq<char> {
    "Context includes "@ + dec_chars(n_files) + " files ("@ + dec_chars(n_success)
        + " successful) with "@ + dec_chars(lines) + " total lines and "@ + dec_chars(chars)
        + " characters"@
}

/// The placeholder entry for a path that does not exist.
pub fn missing_file_context(path: &str) -> (r: FileContext)
    ensures
        r.path@ == path@,
        r.content@ == "File does not exist: "@ + path@,
        r.line_count == 0,
        r.char_count == 0,
        !r.exists,
{
    let mut content = String::from_str("File does not exist: ");
    content.append(path);
    FileContext {
        path: String::from_str(path),
        content,
        line_count: 0,
        char_count: 0,
        exists: false,
    }
}

/// The placeholder entry for a file over the size cap; the file exists but
/// its content is replaced by a marker naming the size.
pub fn oversized_file_context(path: &str, size_bytes: usize) -> (r: FileContext)
    ensures
        r.path@ == path@,
        r.content@ == "File too large ("@ + dec_chars(size_bytes as int) + " bytes, max 50KB)"@,
        r.line_count == 0,
        r.char_count == 0,
        r.exists,
{
    let mut content = String::from_str("File too large (");
    let digits = usize_chars(size_bytes);
    let ds = string_of(&digits);
    content.append(ds.as_str());
    content.append(" bytes, max 50KB)");
    proof {
        assert(content@ =~= "File too large ("@ + dec_chars(size_bytes as int)
            + " bytes, max 50KB)"@);
    }
    FileContext {
        path: String::from_str(path),
        content,
        line_count: 0,
        char_count: 0,
        exists: true,
    }
}

/// The entry for a file read successfully: line count from the content,
/// character count in bytes as the reader reports it.
pub fn file_context_of(path: &str, content: &str) -> (r: FileContext)
    ensures
        r.path@ == path@,
        r.content@ == content@,
        r.line_count == lines_spec(content@).len(),
        r.char_count == content.spec_bytes().len() as usize,
        r.exists,
{
    let cs = chars_of(content);
    let ls = split_lines(&cs);
    let line_count = ls.len();
    proof {
        assert(ls.deep_view().len() == ls@.len());
    }
    let char_count = content.len();
    FileContext {
        path: String::from_str(path),
        content: String::from_str(content),
        line_count,
        char_count,
        exists: true,
    }
}

impl ContextBuilder {
    /// The bundle over already-read entries: totals (saturating), the count
    /// of successful reads, and the summary line.
    pub fn build_context(&self, files: Vec<FileContext>) -> (r: BuildContext)
        ensures
            r.files@.map_values(|f: FileContext| fc_view(f)) == files@.map_values(
                |f: FileContext| fc_view(f),
            ),
            r.total_files == files@.len(),
            r.total_lines == total_lines_spec(files@.map_values(|f: FileContext| fc_view(f))),
            r.total_chars == total_chars_spec(files@.map_values(|f: FileContext| fc_view(f))),
            r.context_summary@ == summary_spec(
                files@.len() as int,
                successful_spec(files@.map_values(|f: FileContext| fc_view(f))),
                total_lines_spec(files@.map_values(|f: FileContext| fc_view(f))),
                total_chars_spec(files@.map_values(|f: FileContext| fc_view(f))),
            ),
    {
        let ghost fv = files@.map_values(|f: FileContext| fc_view(f));
        let n = files.len();
        let mut total_lines: usize = 0;
        let mut total_chars: usize = 0;
        let mut successful: usize = 0;
        let mut i: usize = 0;
        proof {
            assert(fv.take(0) =~= Seq::<FcView>::empty());
        }
        while i < n
            invariant
                0 <= i <= n,
                n == files@.len(),
                n == fv.len(),
                fv == files@.map_values(|f: FileContext| fc_view(f)),
                total_lines == total_lines_spec(fv.take(i as int)),
                total_chars == total_chars_spec(fv.take(i as int)),
                successful == successful_spec(fv.take(i as int)),
            decreases n - i,
        {
            proof {
                assert(fv.take(i + 1 as int).drop_last() =~= fv.take(i as int));
                assert(fv.take(i + 1 as int).last() == fv[i as int]);
                assert(fc_view(files@[i as int]) == fv[i as int]);
                lemma_successful_bound(fv.take(i as int));
                assert(fv.take(i as int).len() == i as int);
            }
            let f = &files[i];
            total_lines = sat_add_ex(total_lines, f.line_count);
            total_chars = sat_add_ex(total_chars, f.char_count);
            if f.exists {
                successful += 1;
            }
            i += 1;
        }
        proof {
            assert(fv.take(n as int) =~= fv);
        }
        let mut summary = String::from_str("Context includes ");
        let d1 = string_of(&usize_chars(n));
        summary.append(d1.as_str());
        summary.append(" files (");
        let d2 = string_of(&usize_chars(successful));
        summary.append(d2.as_str());
        summary.append(" successful) with ");
        let d3 = string_of(&usize_chars(total_lines));
        summary.append(d3.as_str());
        summary.append(" total lines and ");
        let d4 = string_of(&usize_chars(total_chars));
        summary.append(d4.as_str());
        summary.append(" characters");
        proof {
            assert(summary@ =~= summary_spec(
                n as int,
                successful as int,
                total_lines as int,
                total_chars as int,
            ));
        }
        BuildContext {
            files,
            total_lines,
            total_chars,
            total_files: n,
            context_summary: summary,
        }
    }

    /// The bundle over the same entries, as the keyword-driven selector
    /// reports it: totals only, no summary.
    pub fn build_project_context(&self, files: Vec<FileContext>) -> (r: ProjectContext)
        ensures
            r.files@.map_values(|f: FileContext| fc_view(f)) == files@.map_values(
                |f: FileContext| fc_view(f),
            ),
            r.total_line_count == total_lines_spec(
                files@.map_values(|f: FileContext| fc_view(f)),
            ),
            r.total_char_count == total_chars_spec(
                files@.map_values(|f: FileContext| fc_view(f)),
            ),
    {
        let ghost fv = files@.map_values(|f: FileContext| fc_view(f));
        let n = files.len();
        let mut total_line_count: usize = 0;
        let mut total_char_count: usize = 0;
        let mut i: usize = 0;
        proof {
            assert(fv.take(0) =~= Seq::<FcView>::empty());
        }
        while i < n
            invariant
                0 <= i <= n,
                n == files@.len(),
                n == fv.len(),
                fv == files@.map_values(|f: FileContext| fc_view(f)),
                total_line_count == total_lines_spec(fv.take(i as int)),
                total_char_count == total_chars_spec(fv.take(i as int)),
            decreases n - i,
        {
            proof {
                assert(fv.take(i + 1 as int).drop_last() =~= fv.take(i as int));
                assert(fv.take(i + 1 as int).last() == fv[i as int]);
                assert(fc_view(files@[i as int]) == fv[i as int]);
            }
            let f = &files[i];
            total_line_count = sat_add_ex(total_line_count, f.line_count);
            total_char_count = sat_add_ex(total_char_count, f.char_count);
            i += 1;
        }
        proof {
            assert(fv.take(n as int) =~= fv);
        }
        ProjectContext { files, total_line_count, total_char_count }
    }
}

} // verus!

verus! {

/// One file's block in the generator prompt.
pub open spec fn file_block_spec(f: FcView) -> Seq<char> {
    "=== File: "@ + f.path + " ===\n"@ + (if f.exists {
        f.content
    } else {
        "ERROR: "@ + f.content
    }) + "\n\n"@
}

pub open spec fn file_blocks_spec(fs: Seq<FcView>) -> Seq<char>
    decreases fs.len(),
{
    if fs.len() == 0 {
        Seq::empty()
    } else {
        file_blocks_spec(fs.drop_last()) + file_block_spec(fs.last())
    }
}

/// The whole prompt context: the request, the bundle summary, then one
/// block per file.
pub open spec fn format_for_llm_spec(files: Seq<FcView>, summary: Seq<char>, req: Seq<char>) -> Seq<
    char,
> {
    "User Request: "@ + req + "\n\n"@ + "Context Summary: "@ + summary + "\n\n"@ + file_blocks_spec(
        files,
    )
}

impl ContextBuilder {
    /// The text handed to the generator for a bundle and a request.
    pub fn format_for_llm(&self, context: &BuildContext, user_request: &str) -> (r: String)
        ensures
            r@ == format_for_llm_spec(
                context.files@.map_values(|f: FileContext| fc_view(f)),
                context.context_summary@,
                user_request@,
            ),
    {
        let ghost fv = context.files@.map_values(|f: FileContext| fc_view(f));
        let mut out = String::from_str("User Request: ");
        out.append(user_request);
        out.append("\n\n");
        out.append("Context Summary: ");
        out.append(context.context_summary.as_str());
        out.append("\n\n");
        let ghost head = "User Request: "@ + user_request@ + "\n\n"@ + "Context Summary: "@
            + context.context_summary@ + "\n\n"@;
        proof {
            assert(out@ =~= head);
            assert(fv.take(0) =~= Seq::<FcView>::empty());
            assert(out@ =~= head + file_blocks_spec(fv.take(0)));
        }
        let n = context.files.len();
        let mut i: usize = 0;
        while i < n
            invariant
                0 <= i <= n,
                n == context.files@.len(),
                n == fv.len(),
                fv == context.files@.map_values(|f: FileContext| fc_view(f)),
                out@ == head + file_blocks_spec(fv.take(i as int)),
                head == "User Request: "@ + user_request@ + "\n\n"@ + "Context Summary: "@
                    + context.context_summary@ + "\n\n"@,
            decreases n - i,
        {
            proof {
                assert(fv.take(i + 1 as int).drop_last() =~= fv.take(i as int));
                assert(fv.take(i + 1 as int).last() == fv[i as int]);
                assert(fc_view(context.files@[i as int]) == fv[i as int]);
            }
            let f = &context.files[i];
            out.append("=== File: ");
            out.append(f.path.as_str());
            out.append(" ===\n");
            if f.exists {
                out.append(f.content.as_str());
            } else {
                out.append("ERROR: ");
                out.append(f.content.as_str());
            }
            out.append("\n\n");
            proof {
                assert(out@ =~= head + (file_blocks_spec(fv.take(i as int)) + file_block_spec(
                    fv[i as int],
                )));
            }
            i += 1;
        }
        proof {
            assert(fv.take(n as int) =~= fv);
        }
        out
    }
}

/// The names found in one directory of the project snapshot.
#[derive(Debug, Clone)]
pub struct DirListing {
    pub dir: String,
    pub files: Vec<String>,
}

/// A snapshot of what the file system shows: which well-known root files
/// exist, and the file names of the directories the selector may probe.
#[derive(Debug, Clone)]
pub struct ProjectTree {
    pub root_files: Vec<String>,
    pub dirs: Vec<DirListing>,
}

/// Ghost image of one directory listing.
pub ghost struct DirView {
    pub dir: Seq<char>,
    pub files: Seq<Seq<char>>,
}

pub open spec fn dir_view(d: DirListing) -> DirView {
    DirView { dir: d.dir@, files: d.files.deep_view() }
}

pub open spec fn dirs_view(ds: Seq<DirListing>) -> Seq<DirView> {
    ds.map_values(|d: DirListing| dir_view(d))
}

/// The anchor files always suggested when present.
pub open spec fn present_anchors(roots: Seq<Seq<char>>) -> Seq<Seq<char>> {
    (if roots.contains("src/main.rs"@) {
        seq!["src/main.rs"@]
    } else {
        Seq::empty()
    }) + (if roots.contains("src/lib.rs"@) {
        seq!["src/lib.rs"@]
    } else {
        Seq::empty()
    }) + (if roots.contains("Cargo.toml"@) {
        seq!["Cargo.toml"@]
    } else {
        Seq::empty()
    })
}

/// The ".rs" entries of a listing, as paths under `dir`.
pub open spec fn rs_list(dir: Seq<char>, files: Seq<Seq<char>>) -> Seq<Seq<char>>
    decreases files.len(),
{
    if files.len() == 0 {
        Seq::empty()
    } else {
        let rest = rs_list(dir, files.drop_last());
        if crate::strutil::ends_with_spec(files.last(), ".rs"@) {
            rest.push(dir + "/"@ + files.last())
        } else {
            rest
        }
    }
}

/// The ".rs" paths of every listing named `dir`, in listing order.
pub open spec fn files_for_dir(ds: Seq<DirView>, dir: Seq<char>) -> Seq<Seq<char>>
    decreases ds.len(),
{
    if ds.len() == 0 {
        Seq::empty()
    } else {
        let rest = files_for_dir(ds.drop_last(), dir);
        if ds.last().dir == dir {
            rest + rs_list(dir, ds.last().files)
        } else {
            rest
        }
    }
}

/// Everything the keyword rules suggest, anchors first, in rule order,
/// before deduplication.
pub open spec fn suggested_raw(low: Seq<char>, roots: Seq<Seq<char>>, ds: Seq<DirView>) -> Seq<
    Seq<char>,
> {
    present_anchors(roots) + (if contains_spec(low, "test"@) {
        files_for_dir(ds, "tests"@)
    } else {
        Seq::empty()
    }) + (if contains_spec(low, "voice"@) || contains_spec(low, "audio"@) {
        files_for_dir(ds, "src/voice"@)
    } else {
        Seq::empty()
    }) + (if contains_spec(low, "llm"@) || contains_spec(low, "gemini"@) || contains_spec(
        low,
        "ai"@,
    ) {
        files_for_dir(ds, "src/llm"@)
    } else {
        Seq::empty()
    }) + (if contains_spec(low, "index"@) || contains_spec(low, "search"@) || contains_spec(
        low,
        "rag"@,
    ) {
        files_for_dir(ds, "src/index"@)
    } else {
        Seq::empty()
    }) + (if contains_spec(low, "memory"@) || contains_spec(low, "conversation"@) {
        files_for_dir(ds, "src/orchestrator"@)
    } else {
        Seq::empty()
    }) + (if contains_spec(low, "git"@) || contains_spec(low, "commit"@) || contains_spec(
        low,
        "patch"@,
    ) {
        files_for_dir(ds, "src/utils"@) + files_for_dir(ds, "src/edit"@)
    } else {
        Seq::empty()
    })
}

/// Duplicates removed, first occurrence kept.
pub open spec fn dedup_spec(xs: Seq<Seq<char>>) -> Seq<Seq<char>>
    decreases xs.len(),
{
    if xs.len() == 0 {
        Seq::empty()
    } else {
        let d = dedup_spec(xs.drop_last());
        if xs.drop_last().contains(xs.last()) {
            d
        } else {
            d.push(xs.last())
        }
    }
}

/// Deduplication keeps exactly the members.
pub proof fn lemma_dedup_contains(xs: Seq<Seq<char>>, x: Seq<char>)
    ensures
        dedup_spec(xs).contains(x) <==> xs.contains(x),
    decreases xs.len(),
{
    if xs.len() > 0 {
        lemma_dedup_contains(xs.drop_last(), x);
        let d = dedup_spec(xs.drop_last());
        if xs.drop_last().contains(x) {
            let i = choose|i: int| 0 <= i < xs.drop_last().len() && xs.drop_last()[i] == x;
            assert(xs[i] == x);
            assert(xs.contains(x));
        }
        if xs.contains(x) {
            let i = choose|i: int| 0 <= i < xs.len() && xs[i] == x;
            if i < xs.len() - 1 {
                assert(xs.drop_last()[i] == x);
                assert(xs.drop_last().contains(x));
                assert(d.contains(x));
                if xs.drop_last().contains(xs.last()) {
                } else {
                    let j = choose|j: int| 0 <= j < d.len() && d[j] == x;
                    assert(d.push(xs.last())[j] == x);
                    assert(dedup_spec(xs).contains(x));
                }
            } else {
                assert(xs.last() == x);
                if xs.drop_last().contains(xs.last()) {
                    assert(d.contains(x));
                } else {
                    assert(d.push(xs.last())[d.len() as int] == x);
                    assert(dedup_spec(xs).contains(x));
                }
            }
        }
        if dedup_spec(xs).contains(x) {
            if xs.drop_last().contains(xs.last()) {
                assert(d.contains(x));
                assert(xs.contains(x));
            } else {
                let j = choose|j: int|
                    0 <= j < dedup_spec(xs).len() && dedup_spec(xs)[j] == x;
                if j < d.len() {
                    assert(d[j] == x);
                    assert(d.contains(x));
                    assert(xs.contains(x));
                } else {
                    assert(xs.last() == x);
                    assert(xs[xs.len() - 1] == x);
                    assert(xs.contains(x));
                }
            }
        }
    }
}

/// The suggested files for a request over a project snapshot: anchors
/// first, then the keyword rules' files in rule order, deduplicated.
pub open spec fn suggest_spec(req: Seq<char>, roots: Seq<Seq<char>>, ds: Seq<DirView>) -> Seq<
    Seq<char>,
> {
    dedup_spec(suggested_raw(to_lower_spec(req), roots, ds))
}

/// Whether any entry equals `x`.
fn contains_string(v: &Vec<String>, x: &Vec<char>) -> (r: bool)
    ensures
        r == v.deep_view().contains(x@),
{
    let n = v.len();
    let mut j: usize = 0;
    while j < n
        invariant
            0 <= j <= n,
            n == v@.len(),
            n == v.deep_view().len(),
            forall|t: int| 0 <= t < j ==> v.deep_view()[t] != x@,
        decreases n - j,
    {
        let cs = chars_of(v[j].as_str());
        proof {
            assert(cs@ == v.deep_view()[j as int]);
        }
        if seq_eq(&cs, x) {
            proof {
                assert(v.deep_view()[j as int] == x@);
            }
            return true;
        }
        j += 1;
    }
    proof {
        assert(!v.deep_view().contains(x@)) by {
            if v.deep_view().contains(x@) {
                let t = choose|t: int| 0 <= t < v.deep_view().len() && v.deep_view()[t] == x@;
                assert(v.deep_view()[t] != x@);
            }
        }
    }
    false
}

/// Appends the ".rs" paths of every listing named `dir`.
fn push_dir_files(out: &mut Vec<String>, dirs: &Vec<DirListing>, dir: &str)
    ensures
        final (out).deep_view() == old(out).deep_view() + files_for_dir(dirs_view(dirs@), dir@),
{
    let ghost dsv = dirs_view(dirs@);
    let ghost base = old(out).deep_view();
    let dirc = chars_of(dir);
    let rs_pat = chars_of(".rs");
    let n = dirs.len();
    let mut k: usize = 0;
    proof {
        assert(dsv.take(0) =~= Seq::<DirView>::empty());
        assert(base + files_for_dir(dsv.take(0), dir@) =~= base);
    }
    while k < n
        invariant
            0 <= k <= n,
            n == dirs@.len(),
            n == dsv.len(),
            dsv == dirs_view(dirs@),
            dirc@ == dir@,
            rs_pat@ == ".rs"@,
            out.deep_view() == base + files_for_dir(dsv.take(k as int), dir@),
        decreases n - k,
    {
        proof {
            assert(dsv.take(k + 1 as int).drop_last() =~= dsv.take(k as int));
            assert(dsv.take(k + 1 as int).last() == dsv[k as int]);
            assert(dir_view(dirs@[k as int]) == dsv[k as int]);
        }
        let listing = &dirs[k];
        let dname = chars_of(listing.dir.as_str());
        proof {
            assert(dname@ == dsv[k as int].dir);
        }
        if seq_eq(&dname, &dirc) {
            let ghost fls = dsv[k as int].files;
            let m = listing.files.len();
            let mut j: usize = 0;
            let ghost before = out.deep_view();
            proof {
                assert(fls.take(0) =~= Seq::<Seq<char>>::empty());
                assert(before + rs_list(dir@, fls.take(0)) =~= before);
            }
            while j < m
                invariant
                    0 <= j <= m,
                    m == listing.files@.len(),
                    m == fls.len(),
                    fls == listing.files.deep_view(),
                    listing == dirs@[k as int],
                    0 <= k < n,
                    n == dirs@.len(),
                    dirc@ == dir@,
                    rs_pat@ == ".rs"@,
                    out.deep_view() == before + rs_list(dir@, fls.take(j as int)),
                decreases m - j,
            {
                let ghost prev = out.deep_view();
                proof {
                    assert(fls.take(j + 1 as int).drop_last() =~= fls.take(j as int));
                    assert(fls.take(j + 1 as int).last() == fls[j as int]);
                    assert(listing.files@[j as int]@ == fls[j as int]);
                }
                let f = &listing.files[j];
                let fchars = chars_of(f.as_str());
                if crate::strutil::ends_with(&fchars, &rs_pat) {
                    let mut path = String::from_str(dir);
                    path.append("/");
                    path.append(f.as_str());
                    proof {
                        assert(path@ =~= dir@ + "/"@ + fls[j as int]);
                    }
                    out.push(path);
                    proof {
                        assert(out.deep_view() =~~= prev.push(dir@ + "/"@ + fls[j as int]));
                    }
                }
                j += 1;
            }
            proof {
                assert(fls.take(m as int) =~= fls);
                assert(out.deep_view() =~= base + (files_for_dir(dsv.take(k as int), dir@)
                    + rs_list(dir@, fls)));
            }
        }
        k += 1;
    }
    proof {
        assert(dsv.take(n as int) =~= dsv);
    }
}

/// Everything the rules suggest for the lowercased request, in order,
/// duplicates still present.
#[verifier::rlimit(60)]
fn collect_suggestions(low: &Vec<char>, tree: &ProjectTree) -> (r: Vec<String>)
    ensures
        r.deep_view() == suggested_raw(low@, tree.root_files.deep_view(), dirs_view(tree.dirs@)),
{
    let ghost roots = tree.root_files.deep_view();
    let ghost dsv = dirs_view(tree.dirs@);
    let mut raw: Vec<String> = Vec::new();
    let a1 = chars_of("src/main.rs");
    if contains_string(&tree.root_files, &a1) {
        raw.push(String::from_str("src/main.rs"));
    }
    let a2 = chars_of("src/lib.rs");
    if contains_string(&tree.root_files, &a2) {
        raw.push(String::from_str("src/lib.rs"));
    }
    let a3 = chars_of("Cargo.toml");
    if contains_string(&tree.root_files, &a3) {
        raw.push(String::from_str("Cargo.toml"));
    }
    proof {
        assert(raw.deep_view() =~~= present_anchors(roots));
    }
    let ghost acc0 = raw.deep_view();
    let p_test = chars_of("test");
    if contains_sub(&low, &p_test) {
        push_dir_files(&mut raw, &tree.dirs, "tests");
    }
    let ghost piece1 = if contains_spec(low@, "test"@) {
        files_for_dir(dsv, "tests"@)
    } else {
        Seq::<Seq<char>>::empty()
    };
    proof {
        assert(raw.deep_view() =~= acc0 + piece1);
    }
    let ghost acc1 = raw.deep_view();
    let p_voice = chars_of("voice");
    let p_audio = chars_of("audio");
    if contains_sub(&low, &p_voice) || contains_sub(&low, &p_audio) {
        push_dir_files(&mut raw, &tree.dirs, "src/voice");
    }
    let ghost piece2 = if contains_spec(low@, "voice"@) || contains_spec(low@, "audio"@) {
        files_for_dir(dsv, "src/voice"@)
    } else {
        Seq::<Seq<char>>::empty()
    };
    proof {
        assert(raw.deep_view() =~= acc1 + piece2);
    }
    let ghost acc2 = raw.deep_view();
    let p_llm = chars_of("llm");
    let p_gemini = chars_of("gemini");
    let p_ai = chars_of("ai");
    if contains_sub(&low, &p_llm) || contains_sub(&low, &p_gemini) || contains_sub(&low, &p_ai) {
        push_dir_files(&mut raw, &tree.dirs, "src/llm");
    }
    let ghost piece3 = if contains_spec(low@, "llm"@) || contains_spec(low@, "gemini"@)
        || contains_spec(low@, "ai"@) {
        files_for_dir(dsv, "src/llm"@)
    } else {
        Seq::<Seq<char>>::empty()
    };
    proof {
        assert(raw.deep_view() =~= acc2 + piece3);
    }
    let ghost acc3 = raw.deep_view();
    let p_index = chars_of("index");
    let p_search = chars_of("search");
    let p_rag = chars_of("rag");
    if contains_sub(&low, &p_index) || contains_sub(&low, &p_search) || contains_sub(
        &low,
        &p_rag,
    ) {
        push_dir_files(&mut raw, &tree.dirs, "src/index");
    }
    let ghost piece4 = if contains_spec(low@, "index"@) || contains_spec(low@, "search"@)
        || contains_spec(low@, "rag"@) {
        files_for_dir(dsv, "src/index"@)
    } else {
        Seq::<Seq<char>>::empty()
    };
    proof {
        assert(raw.deep_view() =~= acc3 + piece4);
    }
    let ghost acc4 = raw.deep_view();
    let p_memory = chars_of("memory");
    let p_conv = chars_of("conversation");
    if contains_sub(&low, &p_memory) || contains_sub(&low, &p_conv) {
        push_dir_files(&mut raw, &tree.dirs, "src/orchestrator");
    }
    let ghost piece5 = if contains_spec(low@, "memory"@) || contains_spec(low@, "conversation"@) {
        files_for_dir(dsv, "src/orchestrator"@)
    } else {
        Seq::<Seq<char>>::empty()
    };
    proof {
        assert(raw.deep_view() =~= acc4 + piece5);
    }
    let ghost acc5 = raw.deep_view();
    let p_git = chars_of("git");
    let p_commit = chars_of("commit");
    let p_patch = chars_of("patch");
    if contains_sub(&low, &p_git) || contains_sub(&low, &p_commit) || contains_sub(
        &low,
        &p_patch,
    ) {
        push_dir_files(&mut raw, &tree.dirs, "src/utils");
        push_dir_files(&mut raw, &tree.dirs, "src/edit");
    }
    let ghost piece6 = if contains_spec(low@, "git"@) || contains_spec(low@, "commit"@)
        || contains_spec(low@, "patch"@) {
        files_for_dir(dsv, "src/utils"@) + files_for_dir(dsv, "src/edit"@)
    } else {
        Seq::<Seq<char>>::empty()
    };
    proof {
        assert(raw.deep_view() =~= acc5 + piece6);
        assert(suggested_raw(low@, roots, dsv) == ((((((present_anchors(roots) + piece1) + piece2)
            + piece3) + piece4) + piece5) + piece6));
        assert(raw.deep_view() =~= suggested_raw(low@, roots, dsv));
    }
    raw
}

/// The entries with duplicates removed, first occurrence kept.
fn dedup_strings(raw: &Vec<String>) -> (r: Vec<String>)
    ensures
        r.deep_view() == dedup_spec(raw.deep_view()),
{
    let ghost rawv = raw.deep_view();
    let n = raw.len();
    let mut out: Vec<String> = Vec::new();
    let mut i: usize = 0;
    proof {
        assert(rawv.take(0) =~= Seq::<Seq<char>>::empty());
        assert(out.deep_view() =~~= dedup_spec(rawv.take(0)));
    }
    while i < n
        invariant
            0 <= i <= n,
            n == raw@.len(),
            n == rawv.len(),
            rawv == raw.deep_view(),
            out.deep_view() == dedup_spec(rawv.take(i as int)),
        decreases n - i,
    {
        let ghost prev = out.deep_view();
        proof {
            assert(rawv.take(i + 1 as int).drop_last() =~= rawv.take(i as int));
            assert(rawv.take(i + 1 as int).last() == rawv[i as int]);
            assert(raw@[i as int]@ == rawv[i as int]);
            lemma_dedup_contains(rawv.take(i as int), rawv[i as int]);
        }
        let x = chars_of(raw[i].as_str());
        if !contains_string(&out, &x) {
            let s = string_of(&x);
            out.push(s);
            proof {
                assert(out.deep_view() =~~= prev.push(rawv[i as int]));
            }
        }
        i += 1;
    }
    proof {
        assert(rawv.take(n as int) =~= rawv);
    }
    out
}

impl ContextBuilder {
    /// The candidate files for a request, over a snapshot of the tree:
    /// present anchor files first, then the files of each keyword-matched
    /// directory, without duplicates.
    pub fn suggest_relevant_files(&self, user_request: &str, tree: &ProjectTree) -> (r: Vec<
        String,
    >)
        ensures
            r.deep_view() == suggest_spec(
                user_request@,
                tree.root_files.deep_view(),
                dirs_view(tree.dirs@),
            ),
    {
        let cs = chars_of(user_request);
        let low = to_lower(&cs);
        let raw = collect_suggestions(&low, tree);
        dedup_strings(&raw)
    }

    /// The first `max_files` suggestions, the bound of a bundle.
    pub fn limit_files(&self, files: &Vec<String>, max_files: usize) -> (r: Vec<String>)
        ensures
            r.deep_view() == if max_files as int <= files.deep_view().len() {
                files.deep_view().take(max_files as int)
            } else {
                files.deep_view()
            },
    {
        let n = files.len();
        let m = if max_files <= n {
            max_files
        } else {
            n
        };
        let mut out: Vec<String> = Vec::new();
        let mut i: usize = 0;
        proof {
            assert(out.deep_view() =~~= files.deep_view().take(0));
        }
        while i < m
            invariant
                0 <= i <= m <= n,
                n == files@.len(),
                n == files.deep_view().len(),
                out.deep_view() == files.deep_view().take(i as int),
            decreases m - i,
        {
            let ghost prev = out.deep_view();
            let s = String::from_str(files[i].as_str());
            proof {
                assert(s@ == files.deep_view()[i as int]);
            }
            out.push(s);
            proof {
                assert(out.deep_view() =~~= prev.push(files.deep_view()[i as int]));
                assert(prev.push(files.deep_view()[i as int]) =~= files.deep_view().take(
                    i + 1 as int,
                ));
            }
            i += 1;
        }
        proof {
            if max_files as int >= files.deep_view().len() {
                assert(files.deep_view().take(n as int) =~= files.deep_view());
            }
        }
        out
    }
}

} // verus!
