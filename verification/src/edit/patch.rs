//! The patch engine: unified-diff validation, creation of a diff from two
//! file contents, parsing of the patch utility's report, and the ordered
//! three-strategy fallback, modelled as one step per utility invocation so
//! that the decision logic is verified while the process call stays outside.

use vstd::prelude::*;

use crate::strutil::{
    chars_of, combined_output, combined_output_spec, copy_range, dec_chars, lines_spec, seq_eq,
    split_lines, starts_with, starts_with_spec, string_of, trim, trim_spec, usize_chars,
};

verus! {

/// Outcome of one application attempt.
#[derive(Debug, Clone)]
pub struct PatchResult {
    pub success: bool,
    pub files_modified: Vec<String>,
    pub output: String,
    pub error: Option<String>,
}

/// What the external patch utility reported for one invocation.
#[derive(Debug, Clone)]
pub struct ToolOutput {
    pub success: bool,
    pub stdout: String,
    pub stderr: String,
}

/// One entry of the fallback list: how many leading path components to
/// strip, and the fuzz tolerance to hand the utility (None for exact).
#[derive(Debug, Clone, Copy)]
pub struct PatchStrategy {
    pub strip: u8,
    pub fuzz: Option<u8>,
}

/// An invocation of the patch utility that the caller must perform next.
#[derive(Debug, Clone)]
pub struct PatchCommand {
    pub strategy: PatchStrategy,
    pub strategy_index: usize,
    pub dry_run: bool,
    pub backup: bool,
}

/// Either a finished outcome, or the next utility invocation to perform.
#[derive(Debug, Clone)]
pub enum ApplyStep {
    Done(PatchResult),
    RunTool(PatchCommand),
}

pub struct CodePatcher {
    dry_run: bool,
    backup: bool,
}

/// The strategies, in the order they are attempted: strip one component
/// exactly, strip one component with fuzz, strip nothing with fuzz.
pub open spec fn strategy_list() -> Seq<PatchStrategy> {
    seq![
        (PatchStrategy { strip: 1, fuzz: None }),
        (PatchStrategy { strip: 1, fuzz: Some(3) }),
        (PatchStrategy { strip: 0, fuzz: Some(3) }),
    ]
}

pub fn strategies() -> (r: Vec<PatchStrategy>)
    ensures
        r@ == strategy_list(),
{
    let mut v: Vec<PatchStrategy> = Vec::new();
    v.push(PatchStrategy { strip: 1, fuzz: None });
    v.push(PatchStrategy { strip: 1, fuzz: Some(3) });
    v.push(PatchStrategy { strip: 0, fuzz: Some(3) });
    proof {
        assert(v@ =~= strategy_list());
    }
    v
}

/// A unified-diff file-header line.
pub open spec fn is_file_header(l: Seq<char>) -> bool {
    starts_with_spec(l, "--- "@) || starts_with_spec(l, "+++ "@)
}

/// A unified-diff hunk-header line.
pub open spec fn is_hunk_header(l: Seq<char>) -> bool {
    starts_with_spec(l, "@@"@)
}

/// The validity grammar: a diff is valid iff it is empty, or has at least
/// one file-header line and at least one hunk-header line.
pub open spec fn valid_diff_spec(d: Seq<char>) -> bool {
    ||| lines_spec(d).len() == 0
    ||| ((exists|i: int| 0 <= i < lines_spec(d).len() && is_file_header(#[trigger] lines_spec(d)[i]))
        && (exists|i: int|
        0 <= i < lines_spec(d).len() && is_hunk_header(#[trigger] lines_spec(d)[i])))
}

impl CodePatcher {
    /// Applies for real and keeps backups.
    pub fn new() -> (r: Self)
        ensures
            !r.dry_run_spec(),
            r.backup_spec(),
    {
        CodePatcher { dry_run: false, backup: true }
    }

    pub fn with_options(dry_run: bool, backup: bool) -> (r: Self)
        ensures
            r.dry_run_spec() == dry_run,
            r.backup_spec() == backup,
    {
        CodePatcher { dry_run, backup }
    }

    pub closed spec fn dry_run_spec(&self) -> bool {
        self.dry_run
    }

    pub closed spec fn backup_spec(&self) -> bool {
        self.backup
    }

    /// Whether a diff meets the validity grammar; the result depends on the
    /// text alone, so re-validation always yields the same boolean.
    pub fn validate_diff(diff_content: &str) -> (r: bool)
        ensures
            r == valid_diff_spec(diff_content@),
    {
        let cs = chars_of(diff_content);
        let ls = split_lines(&cs);
        let file_pfx1 = chars_of("--- ");
        let file_pfx2 = chars_of("+++ ");
        let hunk_pfx = chars_of("@@");
        let n = ls.len();
        if n == 0 {
            return true;
        }
        let mut has_file = false;
        let mut has_hunk = false;
        let mut i: usize = 0;
        while i < n
            invariant
                0 <= i <= n,
                n == ls.deep_view().len(),
                n == ls@.len(),
                ls.deep_view() == lines_spec(cs@),
                cs@ == diff_content@,
                file_pfx1@ == "--- "@,
                file_pfx2@ == "+++ "@,
                hunk_pfx@ == "@@"@,
                has_file == (exists|j: int|
                    0 <= j < i && is_file_header(#[trigger] lines_spec(cs@)[j])),
                has_hunk == (exists|j: int|
                    0 <= j < i && is_hunk_header(#[trigger] lines_spec(cs@)[j])),
            decreases n - i,
        {
            let line = &ls[i];
            proof {
                assert(line@ == lines_spec(cs@)[i as int]);
            }
            if starts_with(line, &file_pfx1) || starts_with(line, &file_pfx2) {
                has_file = true;
            }
            if starts_with(line, &hunk_pfx) {
                has_hunk = true;
            }
            i += 1;
        }
        has_file && has_hunk
    }
}

} // verus!

verus! {

/// The prefix the patch utility prints before each file it touches.
pub open spec fn patching_prefix() -> Seq<char> {
    "patching file "@
}

/// The paths named on "patching file ..." lines of the utility's output,
/// in order.
pub open spec fn modified_files_from(ls: Seq<Seq<char>>) -> Seq<Seq<char>>
    decreases ls.len(),
{
    if ls.len() == 0 {
        Seq::empty()
    } else {
        let rest = modified_files_from(ls.drop_last());
        if starts_with_spec(ls.last(), patching_prefix()) {
            rest.push(ls.last().skip(patching_prefix().len() as int))
        } else {
            rest
        }
    }
}

pub open spec fn modified_files_spec(out: Seq<char>) -> Seq<Seq<char>> {
    modified_files_from(lines_spec(out))
}

/// The no-op outcome for an empty diff.
pub open spec fn trivial_empty_result(p: PatchResult) -> bool {
    &&& p.success
    &&& p.files_modified.deep_view() == Seq::<Seq<char>>::empty()
    &&& p.output@ == "No changes to apply"@
    &&& p.error is None
}

/// The outcome recorded when the invocation at hand succeeded.
pub open spec fn success_result(p: PatchResult, tool: ToolOutput) -> bool {
    &&& p.success
    &&& p.files_modified.deep_view() == modified_files_spec(tool.stdout@)
    &&& p.output@ == combined_output_spec(tool.stdout@, tool.stderr@)
    &&& p.error is None
}

/// The outcome recorded when the last strategy has failed too: the last
/// invocation's streams and error are kept.
pub open spec fn failure_result(p: PatchResult, tool: ToolOutput) -> bool {
    &&& !p.success
    &&& p.files_modified.deep_view() == modified_files_spec(tool.stdout@)
    &&& p.output@ == combined_output_spec(tool.stdout@, tool.stderr@)
    &&& p.error matches Some(e) && e@ == tool.stderr@
}

impl CodePatcher {
    /// The paths named on "patching file ..." lines, in order of appearance.
    pub fn parse_modified_files(&self, patch_output: &str) -> (r: Vec<String>)
        ensures
            r.deep_view() == modified_files_spec(patch_output@),
    {
        let cs = chars_of(patch_output);
        let ls = split_lines(&cs);
        let pfx = chars_of("patching file ");
        let n = ls.len();
        let mut r: Vec<String> = Vec::new();
        let mut i: usize = 0;
        proof {
            assert(ls.deep_view().take(0) =~= Seq::<Seq<char>>::empty());
            assert(r.deep_view() =~~= modified_files_from(ls.deep_view().take(0)));
        }
        while i < n
            invariant
                0 <= i <= n,
                n == ls@.len(),
                n == ls.deep_view().len(),
                ls.deep_view() == lines_spec(cs@),
                cs@ == patch_output@,
                pfx@ == patching_prefix(),
                r.deep_view() == modified_files_from(ls.deep_view().take(i as int)),
            decreases n - i,
        {
            let ghost lv = ls.deep_view();
            let ghost prev = r.deep_view();
            let line = &ls[i];
            proof {
                assert(line@ == lv[i as int]);
                assert(lv.take(i + 1 as int).drop_last() =~= lv.take(i as int));
                assert(lv.take(i + 1 as int).last() == lv[i as int]);
            }
            if starts_with(line, &pfx) {
                let tail = copy_range(line, pfx.len(), line.len());
                proof {
                    assert(tail@ =~= line@.skip(patching_prefix().len() as int));
                }
                let s = string_of(&tail);
                r.push(s);
                proof {
                    assert(r.deep_view() =~~= prev.push(tail@));
                }
            }
            i += 1;
        }
        proof {
            assert(ls.deep_view().take(n as int) =~= ls.deep_view());
        }
        r
    }

    /// First step of an application: an empty diff is a success with no
    /// modified files and the utility is never invoked; otherwise the first
    /// strategy of the documented order is to be run.
    pub fn begin_apply(&self, diff_content: &str) -> (r: ApplyStep)
        ensures
            trim_spec(diff_content@).len() == 0 ==> (r matches ApplyStep::Done(p)
                && trivial_empty_result(p)),
            trim_spec(diff_content@).len() != 0 ==> (r matches ApplyStep::RunTool(c) && c == (
            PatchCommand {
                strategy: strategy_list()[0],
                strategy_index: 0,
                dry_run: self.dry_run_spec(),
                backup: self.backup_spec(),
            })),
    {
        let cs = chars_of(diff_content);
        let t = trim(&cs);
        if t.len() == 0 {
            let p = PatchResult {
                success: true,
                files_modified: Vec::new(),
                output: String::from_str("No changes to apply"),
                error: None,
            };
            proof {
                assert(p.files_modified.deep_view() =~~= Seq::<Seq<char>>::empty());
            }
            ApplyStep::Done(p)
        } else {
            ApplyStep::RunTool(
                PatchCommand {
                    strategy: PatchStrategy { strip: 1, fuzz: None },
                    strategy_index: 0,
                    dry_run: self.dry_run,
                    backup: self.backup,
                },
            )
        }
    }

    /// Next step after the utility ran the strategy at `index`: a success
    /// stops the fallback at once with that invocation's report; a failure
    /// moves to the next strategy in order, and after the last one the
    /// failing invocation's report is recorded.
    pub fn continue_apply(&self, index: usize, tool: &ToolOutput) -> (r: ApplyStep)
        requires
            index < strategy_list().len(),
        ensures
            tool.success ==> (r matches ApplyStep::Done(p) && success_result(p, *tool)),
            !tool.success && index + 1 < strategy_list().len() ==> (r
                matches ApplyStep::RunTool(c) && c == (PatchCommand {
                strategy: strategy_list()[index + 1],
                strategy_index: (index + 1) as usize,
                dry_run: self.dry_run_spec(),
                backup: self.backup_spec(),
            })),
            !tool.success && index + 1 == strategy_list().len() ==> (r
                matches ApplyStep::Done(p) && failure_result(p, *tool)),
    {
        let files = self.parse_modified_files(tool.stdout.as_str());
        let output = combined_output(tool.stdout.as_str(), tool.stderr.as_str());
        if tool.success {
            ApplyStep::Done(
                PatchResult { success: true, files_modified: files, output, error: None },
            )
        } else if index + 1 < 3 {
            let strats = strategies();
            let next = index + 1;
            ApplyStep::RunTool(
                PatchCommand {
                    strategy: strats[next],
                    strategy_index: next,
                    dry_run: self.dry_run,
                    backup: self.backup,
                },
            )
        } else {
            let err = tool.stderr.clone();
            ApplyStep::Done(
                PatchResult {
                    success: false,
                    files_modified: files,
                    output,
                    error: Some(err),
                },
            )
        }
    }

    /// First step of checking whether a diff would apply cleanly: the same
    /// fallback, dry-run, without backups.
    pub fn test_patch(&self, diff_content: &str) -> (r: ApplyStep)
        ensures
            trim_spec(diff_content@).len() == 0 ==> (r matches ApplyStep::Done(p)
                && trivial_empty_result(p)),
            trim_spec(diff_content@).len() != 0 ==> (r matches ApplyStep::RunTool(c) && c == (
            PatchCommand {
                strategy: strategy_list()[0],
                strategy_index: 0,
                dry_run: true,
                backup: false,
            })),
    {
        let dry = CodePatcher::with_options(true, false);
        dry.begin_apply(diff_content)
    }
}

} // verus!

verus! {

/// The reported files kept by the post-application check: those whose flag
/// says the path exists on disk.
pub open spec fn filter_by_flags(files: Seq<Seq<char>>, flags: Seq<bool>) -> Seq<Seq<char>>
    decreases files.len(),
{
    if files.len() == 0 {
        Seq::empty()
    } else {
        let rest = filter_by_flags(files.drop_last(), flags.drop_last());
        if flags.len() == files.len() && flags.last() {
            rest.push(files.last())
        } else {
            rest
        }
    }
}

impl CodePatcher {
    /// The verification pass over a finished outcome: for a real (not
    /// dry-run) success, `files_modified` is narrowed to the paths that
    /// exist afterward, handed in as one flag per reported file; any other
    /// outcome is returned unchanged.
    pub fn verify_outcome(&self, result: PatchResult, exists_flags: &Vec<bool>) -> (r: PatchResult)
        requires
            exists_flags@.len() == result.files_modified@.len(),
        ensures
            r.success == result.success,
            r.output@ == result.output@,
            r.error is Some <==> result.error is Some,
            (result.error matches Some(e) ==> r.error matches Some(e2) && e2@ == e@),
            result.success && !self.dry_run_spec() ==> r.files_modified.deep_view()
                == filter_by_flags(result.files_modified.deep_view(), exists_flags@),
            !(result.success && !self.dry_run_spec()) ==> r.files_modified.deep_view()
                == result.files_modified.deep_view(),
    {
        if result.success && !self.dry_run {
            let n = result.files_modified.len();
            let ghost fv = result.files_modified.deep_view();
            let mut kept: Vec<String> = Vec::new();
            let mut i: usize = 0;
            proof {
                assert(fv.take(0) =~= Seq::<Seq<char>>::empty());
                assert(exists_flags@.take(0) =~= Seq::<bool>::empty());
                assert(kept.deep_view() =~~= filter_by_flags(fv.take(0), exists_flags@.take(0)));
                assert(fv.len() == result.files_modified@.len());
            }
            while i < n
                invariant
                    0 <= i <= n,
                    n == result.files_modified@.len(),
                    n == fv.len(),
                    fv == result.files_modified.deep_view(),
                    n == exists_flags@.len(),
                    kept.deep_view() == filter_by_flags(fv.take(i as int), exists_flags@.take(
                        i as int,
                    )),
                decreases n - i,
            {
                let ghost prev = kept.deep_view();
                proof {
                    assert(fv.take(i + 1 as int).drop_last() =~= fv.take(i as int));
                    assert(exists_flags@.take(i + 1 as int).drop_last() =~= exists_flags@.take(
                        i as int,
                    ));
                    assert(fv.take(i + 1 as int).last() == fv[i as int]);
                    assert(result.files_modified@[i as int]@ == fv[i as int]);
                }
                if exists_flags[i] {
                    let f = result.files_modified[i].clone();
                    kept.push(f);
                    proof {
                        assert(kept.deep_view() =~~= prev.push(fv[i as int]));
                    }
                }
                i += 1;
            }
            proof {
                assert(fv.take(n as int) =~= fv);
                assert(exists_flags@.take(n as int) =~= exists_flags@);
            }
            PatchResult {
                success: result.success,
                files_modified: kept,
                output: result.output,
                error: result.error,
            }
        } else {
            result
        }
    }
}

/// The body lines of the single created hunk for one side: each line of the
/// content, marked and newline-terminated.
pub open spec fn marked_block(ls: Seq<Seq<char>>, mark: char) -> Seq<char>
    decreases ls.len(),
{
    if ls.len() == 0 {
        Seq::empty()
    } else {
        marked_block(ls.drop_last(), mark) + seq![mark] + ls.last() + seq!['\n']
    }
}

/// The unified diff `create_patch` produces: empty for identical contents,
/// else two file headers, one hunk header, all old lines removed and all
/// new lines added.
pub open spec fn create_patch_spec(old: Seq<char>, new: Seq<char>, path: Seq<char>) -> Seq<char> {
    if old == new {
        Seq::empty()
    } else {
        "--- a/"@ + path + seq!['\n'] + "+++ b/"@ + path + seq!['\n'] + "@@ -1,"@ + dec_chars(
            lines_spec(old).len() as int,
        ) + " +1,"@ + dec_chars(lines_spec(new).len() as int) + " @@"@ + seq!['\n'] + marked_block(
            lines_spec(old),
            '-',
        ) + marked_block(lines_spec(new), '+')
    }
}

impl CodePatcher {
    /// A unified diff turning `old_content` into `new_content` for the file
    /// at `file_path`: empty when the contents are equal, else a single
    /// full-rewrite hunk under "a/"- and "b/"-prefixed headers.
    pub fn create_patch(old_content: &str, new_content: &str, file_path: &str) -> (r: String)
        ensures
            r@ == create_patch_spec(old_content@, new_content@, file_path@),
    {
        let oldc = chars_of(old_content);
        let newc = chars_of(new_content);
        if seq_eq(&oldc, &newc) {
            return String::new();
        }
        let path = chars_of(file_path);
        let old_lines = split_lines(&oldc);
        let new_lines = split_lines(&newc);
        let mut out: Vec<char> = Vec::new();
        let h1 = chars_of("--- a/");
        out.extend_from_slice(h1.as_slice());
        out.extend_from_slice(path.as_slice());
        out.push('\n');
        let h2 = chars_of("+++ b/");
        out.extend_from_slice(h2.as_slice());
        out.extend_from_slice(path.as_slice());
        out.push('\n');
        let h3 = chars_of("@@ -1,");
        out.extend_from_slice(h3.as_slice());
        let nold = usize_chars(old_lines.len());
        out.extend_from_slice(nold.as_slice());
        let h4 = chars_of(" +1,");
        out.extend_from_slice(h4.as_slice());
        let nnew = usize_chars(new_lines.len());
        out.extend_from_slice(nnew.as_slice());
        let h5 = chars_of(" @@");
        out.extend_from_slice(h5.as_slice());
        out.push('\n');
        let ghost head = "--- a/"@ + path@ + seq!['\n'] + "+++ b/"@ + path@ + seq!['\n']
            + "@@ -1,"@ + dec_chars(lines_spec(oldc@).len() as int) + " +1,"@ + dec_chars(
            lines_spec(newc@).len() as int,
        ) + " @@"@ + seq!['\n'];
        proof {
            assert(out@ =~= head);
        }
        append_marked(&mut out, &old_lines, '-');
        append_marked(&mut out, &new_lines, '+');
        proof {
            assert(out@ =~= head + marked_block(lines_spec(oldc@), '-') + marked_block(
                lines_spec(newc@),
                '+',
            ));
        }
        string_of(&out)
    }
}

/// Appends every line, marked and newline-terminated.
fn append_marked(out: &mut Vec<char>, ls: &Vec<Vec<char>>, mark: char)
    ensures
        final (out)@ == old(out)@ + marked_block(ls.deep_view(), mark),
{
    let n = ls.len();
    let ghost base = out@;
    let ghost lv = ls.deep_view();
    let mut i: usize = 0;
    proof {
        assert(lv.take(0) =~= Seq::<Seq<char>>::empty());
        assert(base + marked_block(lv.take(0), mark) =~= base);
    }
    while i < n
        invariant
            0 <= i <= n,
            n == ls@.len(),
            n == lv.len(),
            lv == ls.deep_view(),
            out@ == base + marked_block(lv.take(i as int), mark),
        decreases n - i,
    {
        let ghost prev = out@;
        out.push(mark);
        let line = &ls[i];
        proof {
            assert(line@ == lv[i as int]);
        }
        out.extend_from_slice(line.as_slice());
        out.push('\n');
        proof {
            assert(lv.take(i + 1 as int).drop_last() =~= lv.take(i as int));
            assert(lv.take(i + 1 as int).last() == lv[i as int]);
            assert(out@ =~= base + (marked_block(lv.take(i as int), mark) + seq![mark]
                + lv[i as int] + seq!['\n']));
        }
        i += 1;
    }
    proof {
        assert(lv.take(n as int) =~= lv);
    }
}

} // verus!

verus! {

/// Each line marked for one side of the hunk.
pub open spec fn marked(ls: Seq<Seq<char>>, mark: char) -> Seq<Seq<char>> {
    ls.map_values(|l: Seq<char>| seq![mark] + l)
}

/// The lines carrying the given mark, unmarked again, in order.
pub open spec fn payload(ls: Seq<Seq<char>>, mark: char) -> Seq<Seq<char>>
    decreases ls.len(),
{
    if ls.len() == 0 {
        Seq::empty()
    } else {
        let rest = payload(ls.drop_last(), mark);
        if ls.last().len() > 0 && ls.last()[0] == mark {
            rest.push(ls.last().drop_first())
        } else {
            rest
        }
    }
}

/// The content removed by a created diff: its '-' body lines, unmarked.
pub open spec fn minus_payload(d: Seq<char>) -> Seq<Seq<char>> {
    payload(lines_spec(d).skip(3), '-')
}

/// The content added by a created diff: its '+' body lines, unmarked.
pub open spec fn plus_payload(d: Seq<char>) -> Seq<Seq<char>> {
    payload(lines_spec(d).skip(3), '+')
}

proof fn lemma_marked_block_is_nl(ls: Seq<Seq<char>>, mark: char)
    ensures
        marked_block(ls, mark) == crate::strutil::nl_block(marked(ls, mark)),
    decreases ls.len(),
{
    if ls.len() == 0 {
        assert(marked(ls, mark) =~= Seq::<Seq<char>>::empty());
        assert(crate::strutil::nl_block(Seq::<Seq<char>>::empty()) == Seq::<char>::empty());
    } else {
        lemma_marked_block_is_nl(ls.drop_last(), mark);
        assert(marked(ls, mark) =~= marked(ls.drop_last(), mark).push(seq![mark] + ls.last()));
        crate::strutil::lemma_nl_block_push(marked(ls.drop_last(), mark), seq![mark] + ls.last());
        assert(marked_block(ls, mark) == marked_block(ls.drop_last(), mark) + seq![mark]
            + ls.last() + seq!['\n']);
        assert(crate::strutil::nl_block(marked(ls, mark)) == crate::strutil::nl_block(
            marked(ls.drop_last(), mark),
        ) + (seq![mark] + ls.last()) + seq!['\n']);
        assert((crate::strutil::nl_block(marked(ls.drop_last(), mark)) + seq![mark] + ls.last())
            =~= (crate::strutil::nl_block(marked(ls.drop_last(), mark)) + (seq![mark]
            + ls.last())));
    }
}

proof fn lemma_payload_concat(a: Seq<Seq<char>>, b: Seq<Seq<char>>, mark: char)
    ensures
        payload(a + b, mark) == payload(a, mark) + payload(b, mark),
    decreases b.len(),
{
    if b.len() == 0 {
        assert(a + b =~= a);
        assert(payload(a, mark) + payload(b, mark) =~= payload(a, mark));
    } else {
        lemma_payload_concat(a, b.drop_last(), mark);
        assert((a + b).drop_last() =~= a + b.drop_last());
        assert((a + b).last() == b.last());
        if b.last().len() > 0 && b.last()[0] == mark {
            assert(payload(a + b, mark) == payload(a + b.drop_last(), mark).push(
                b.last().drop_first(),
            ));
            assert(payload(a, mark) + payload(b.drop_last(), mark).push(b.last().drop_first())
                =~= (payload(a, mark) + payload(b.drop_last(), mark)).push(
                b.last().drop_first(),
            ));
        }
    }
}

proof fn lemma_payload_marked_same(ls: Seq<Seq<char>>, mark: char)
    ensures
        payload(marked(ls, mark), mark) == ls,
    decreases ls.len(),
{
    if ls.len() == 0 {
        assert(marked(ls, mark) =~= Seq::<Seq<char>>::empty());
        assert(payload(marked(ls, mark), mark) =~= ls);
    } else {
        lemma_payload_marked_same(ls.drop_last(), mark);
        let m = marked(ls, mark);
        assert(m.drop_last() =~= marked(ls.drop_last(), mark));
        assert(m.last() == seq![mark] + ls.last());
        assert(m.last()[0] == mark);
        assert(m.last().drop_first() =~= ls.last());
        assert(payload(m, mark) == payload(m.drop_last(), mark).push(ls.last()));
        assert(ls.drop_last().push(ls.last()) =~= ls);
    }
}

proof fn lemma_payload_marked_other(ls: Seq<Seq<char>>, mark: char, other: char)
    requires
        mark != other,
    ensures
        payload(marked(ls, other), mark) == Seq::<Seq<char>>::empty(),
    decreases ls.len(),
{
    if ls.len() == 0 {
        assert(marked(ls, other) =~= Seq::<Seq<char>>::empty());
    } else {
        lemma_payload_marked_other(ls.drop_last(), mark, other);
        let m = marked(ls, other);
        assert(m.drop_last() =~= marked(ls.drop_last(), other));
        assert(m.last() == seq![other] + ls.last());
        assert(m.last()[0] == other);
    }
}

/// The round trip of the created diff: its removed lines are exactly the
/// old content's lines and its added lines exactly the new content's, so
/// replaying it against a tree holding the old content yields the new one.
/// Contents with bare carriage returns are left out: the line model cannot
/// carry them faithfully.
pub proof fn lemma_create_patch_round_trip(old: Seq<char>, new: Seq<char>, path: Seq<char>)
    requires
        old != new,
        crate::strutil::free_of(old, '\r'),
        crate::strutil::free_of(new, '\r'),
        crate::strutil::free_of(path, '\r'),
        crate::strutil::free_of(path, '\n'),
    ensures
        minus_payload(create_patch_spec(old, new, path)) == lines_spec(old),
        plus_payload(create_patch_spec(old, new, path)) == lines_spec(new),
{
    reveal_strlit("--- a/");
    reveal_strlit("+++ b/");
    reveal_strlit("@@ -1,");
    reveal_strlit(" +1,");
    reveal_strlit(" @@");
    assert("--- a/"@.len() == 6);
    assert("+++ b/"@.len() == 6);
    assert("@@ -1,"@.len() == 6);
    assert(" +1,"@.len() == 4);
    assert(" @@"@.len() == 3);
    let d = create_patch_spec(old, new, path);
    let h1 = "--- a/"@ + path;
    let h2 = "+++ b/"@ + path;
    let hunk = "@@ -1,"@ + dec_chars(lines_spec(old).len() as int) + " +1,"@ + dec_chars(
        lines_spec(new).len() as int,
    ) + " @@"@;
    let heads = seq![h1, h2, hunk];
    let mm = marked(lines_spec(old), '-');
    let mp = marked(lines_spec(new), '+');
    let pieces = heads + mm + mp;
    // the created text is exactly the newline-terminated block of its pieces
    lemma_marked_block_is_nl(lines_spec(old), '-');
    lemma_marked_block_is_nl(lines_spec(new), '+');
    crate::strutil::lemma_nl_block_concat(heads + mm, mp);
    crate::strutil::lemma_nl_block_concat(heads, mm);
    assert(crate::strutil::nl_block(heads) =~= h1 + seq!['\n'] + (h2 + seq!['\n'] + (hunk
        + seq!['\n']))) by {
        assert(heads.skip(1) =~= seq![h2, hunk]);
        assert(seq![h2, hunk].skip(1) =~= seq![hunk]);
        assert(seq![hunk].skip(1) =~= Seq::<Seq<char>>::empty());
        assert(crate::strutil::nl_block(Seq::<Seq<char>>::empty()) == Seq::<char>::empty());
        assert(seq![hunk][0] == hunk);
        assert(crate::strutil::nl_block(seq![hunk]) == hunk + seq!['\n'] + Seq::<char>::empty());
        assert(hunk + seq!['\n'] + Seq::<char>::empty() =~= hunk + seq!['\n']);
        assert(seq![h2, hunk][0] == h2);
        assert(crate::strutil::nl_block(seq![h2, hunk]) == h2 + seq!['\n']
            + crate::strutil::nl_block(seq![hunk]));
        assert(heads[0] == h1);
        assert(crate::strutil::nl_block(heads) == h1 + seq!['\n'] + crate::strutil::nl_block(
            seq![h2, hunk],
        ));
        assert(h2 + seq!['\n'] + (hunk + seq!['\n'] + Seq::<char>::empty()) =~= h2 + seq!['\n']
            + (hunk + seq!['\n']));
    }
    assert((heads + mm) + mp =~= pieces);
    assert(d =~= crate::strutil::nl_block(pieces));
    // every piece is free of newlines
    crate::strutil::lemma_lines_no_nl(old);
    crate::strutil::lemma_lines_no_nl(new);
    crate::strutil::lemma_dec_chars_digits(lines_spec(old).len() as int);
    crate::strutil::lemma_dec_chars_digits(lines_spec(new).len() as int);
    assert(crate::strutil::free_of(h1, '\n')) by {
        assert(forall|i: int| 0 <= i < 6 ==> "--- a/"@[i] != '\n');
    }
    assert(crate::strutil::free_of(h2, '\n')) by {
        assert(forall|i: int| 0 <= i < 6 ==> "+++ b/"@[i] != '\n');
    }
    assert(crate::strutil::free_of(hunk, '\n'));
    assert(forall|i: int|
        0 <= i < pieces.len() ==> crate::strutil::free_of(#[trigger] pieces[i], '\n')) by {
        assert(forall|i: int|
            0 <= i < mm.len() ==> (#[trigger] mm[i]) == seq!['-'] + lines_spec(old)[i]);
        assert(forall|i: int|
            0 <= i < mp.len() ==> (#[trigger] mp[i]) == seq!['+'] + lines_spec(new)[i]);
    }
    // so the diff's lines are its pieces, carriage returns never stripped
    crate::strutil::lemma_lines_of_block(pieces, Seq::<char>::empty());
    assert(crate::strutil::nl_block(pieces) + Seq::<char>::empty() =~= crate::strutil::nl_block(
        pieces,
    ));
    assert(lines_spec(Seq::<char>::empty()) =~= Seq::<Seq<char>>::empty());
    crate::strutil::lemma_lines_free_of(old, '\r');
    crate::strutil::lemma_lines_free_of(new, '\r');
    assert(pieces.map_values(|p: Seq<char>| crate::strutil::strip_cr(p)) =~= pieces) by {
        assert(forall|i: int|
            0 <= i < mm.len() ==> (#[trigger] mm[i]) == seq!['-'] + lines_spec(old)[i]);
        assert(forall|i: int|
            0 <= i < mp.len() ==> (#[trigger] mp[i]) == seq!['+'] + lines_spec(new)[i]);
        assert(" @@"@[2] == '@');
        assert(hunk.last() == '@');
        if path.len() > 0 {
            assert(h1.last() == path.last());
            assert(h2.last() == path.last());
        } else {
            assert(h1.last() == "--- a/"@[5]);
            assert(h2.last() == "+++ b/"@[5]);
        }
        assert(forall|i: int|
            0 <= i < pieces.len() ==> (#[trigger] pieces[i]).len() == 0 || pieces[i].last()
                != '\r');
    }
    assert(lines_spec(d) + Seq::<Seq<char>>::empty() =~= lines_spec(d));
    assert(lines_spec(d) =~= pieces);
    // the body after the three header lines splits into the two marked blocks
    assert(lines_spec(d).skip(3) =~= mm + mp);
    lemma_payload_concat(mm, mp, '-');
    lemma_payload_concat(mm, mp, '+');
    lemma_payload_marked_same(lines_spec(old), '-');
    lemma_payload_marked_same(lines_spec(new), '+');
    lemma_payload_marked_other(lines_spec(new), '-', '+');
    lemma_payload_marked_other(lines_spec(old), '+', '-');
    assert(minus_payload(d) =~= lines_spec(old));
    assert(plus_payload(d) =~= lines_spec(new));
}

} // verus!

verus! {

impl Default for CodePatcher {
    /// The same configuration `new` gives: real application with backups.
    fn default() -> (r: Self)
        ensures
            !r.dry_run_spec(),
            r.backup_spec(),
    {
        CodePatcher::new()
    }
}

} // verus!
