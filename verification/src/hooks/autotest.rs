//! The test runner's reporting logic: parsing of the summary counts, of the
//! per-test failure blocks and of compile errors out of captured output,
//! and assembly of a `TestResult`. Invoking the test command is a child
//! process and stays outside; its captured streams are handed in.

use vstd::prelude::*;

use crate::strutil::{
    after_first, after_first_ex, before_first, before_first_ex, chars_of, combined_output,
    combined_output_spec, contains_spec, contains_sub, lines_spec, parse_usize, parse_usize_spec,
    split_char, split_char_spec, split_lines, split_ws, split_ws_spec, starts_with,
    starts_with_spec, string_of, trim, trim_spec,
};

verus! {

/// Outcome of one run of the test command.
#[derive(Debug, Clone)]
pub struct TestResult {
    pub success: bool,
    pub passed: usize,
    pub failed: usize,
    pub ignored: usize,
    pub total: usize,
    pub duration_ms: u64,
    pub output: String,
    pub errors: Vec<String>,
    pub failed_tests: Vec<FailedTest>,
    pub timed_out: bool,
}

/// One failing test, with the detail lines that followed its FAILED marker.
#[derive(Debug, Clone)]
pub struct FailedTest {
    pub name: String,
    pub error_message: String,
    pub file_location: Option<String>,
}

/// Ghost image of a `FailedTest`, for contracts.
pub ghost struct FtView {
    pub name: Seq<char>,
    pub error_message: Seq<char>,
    pub file_location: Option<Seq<char>>,
}

pub open spec fn ft_view(t: FailedTest) -> FtView {
    FtView {
        name: t.name@,
        error_message: t.error_message@,
        file_location: match t.file_location {
            Some(l) => Some(l@),
            None => None,
        },
    }
}

pub struct TestExecutor {
    timeout_ms: Option<u64>,
    verbose: bool,
}

/// Counts accumulated from summary lines: passed, failed, ignored.
pub ghost struct Counts {
    pub passed: usize,
    pub failed: usize,
    pub ignored: usize,
}

/// The first whitespace-separated token of `part` that parses as a number.
pub open spec fn first_number(tokens: Seq<Seq<char>>) -> Option<usize>
    decreases tokens.len(),
{
    if tokens.len() == 0 {
        None
    } else if parse_usize_spec(tokens[0]) is Some {
        parse_usize_spec(tokens[0])
    } else {
        first_number(tokens.skip(1))
    }
}

/// One ';'-separated piece of a summary line updates at most one counter:
/// whichever of "passed", "failed", "ignored" it mentions, set to the first
/// number in the piece, if the piece holds one.
pub open spec fn counts_after_part(c: Counts, part: Seq<char>) -> Counts {
    if contains_spec(part, "passed"@) {
        match first_number(split_ws_spec(part)) {
            Some(n) => Counts { passed: n, ..c },
            None => c,
        }
    } else if contains_spec(part, "failed"@) {
        match first_number(split_ws_spec(part)) {
            Some(n) => Counts { failed: n, ..c },
            None => c,
        }
    } else if contains_spec(part, "ignored"@) {
        match first_number(split_ws_spec(part)) {
            Some(n) => Counts { ignored: n, ..c },
            None => c,
        }
    } else {
        c
    }
}

pub open spec fn counts_after_parts(c0: Counts, parts: Seq<Seq<char>>) -> Counts
    decreases parts.len(),
{
    if parts.len() == 0 {
        c0
    } else {
        counts_after_part(counts_after_parts(c0, parts.drop_last()), parts.last())
    }
}

pub open spec fn counts_after_lines(c0: Counts, ls: Seq<Seq<char>>) -> Counts
    decreases ls.len(),
{
    if ls.len() == 0 {
        c0
    } else {
        let c = counts_after_lines(c0, ls.drop_last());
        if starts_with_spec(ls.last(), "test result:"@) {
            counts_after_parts(c, split_char_spec(ls.last(), ';'))
        } else {
            c
        }
    }
}

/// The counts read off every "test result:" summary line of the output,
/// later lines overriding earlier ones counter by counter.
pub open spec fn test_counts_spec(out: Seq<char>) -> Counts {
    counts_after_lines(Counts { passed: 0, failed: 0, ignored: 0 }, lines_spec(out))
}

fn first_number_ex(tokens: &Vec<Vec<char>>) -> (r: Option<usize>)
    ensures
        r == first_number(tokens.deep_view()),
{
    let n = tokens.len();
    let mut i: usize = 0;
    proof {
        assert(tokens.deep_view().skip(0) =~= tokens.deep_view());
    }
    while i < n
        invariant
            0 <= i <= n,
            n == tokens@.len(),
            n == tokens.deep_view().len(),
            first_number(tokens.deep_view()) == first_number(tokens.deep_view().skip(i as int)),
        decreases n - i,
    {
        let ghost tv = tokens.deep_view();
        proof {
            assert(tokens@[i as int]@ == tv[i as int]);
            assert(tv.skip(i as int)[0] == tv[i as int]);
            assert(tv.skip(i as int).skip(1) =~= tv.skip(i + 1 as int));
        }
        match parse_usize(&tokens[i]) {
            Some(v) => {
                proof {
                    assert(first_number(tv.skip(i as int)) == parse_usize_spec(tv[i as int]));
                }
                return Some(v);
            },
            None => {},
        }
        i += 1;
    }
    proof {
        assert(tokens.deep_view().skip(n as int).len() == 0);
    }
    None
}

impl TestExecutor {
    /// Five-minute default timeout, verbose.
    pub fn new() -> (r: Self)
        ensures
            r.timeout_ms_spec() == Some(300000u64),
            r.verbose_spec(),
    {
        TestExecutor { timeout_ms: Some(300000), verbose: true }
    }

    pub fn with_timeout(timeout_ms: u64) -> (r: Self)
        ensures
            r.timeout_ms_spec() == Some(timeout_ms),
            r.verbose_spec(),
    {
        TestExecutor { timeout_ms: Some(timeout_ms), verbose: true }
    }

    pub fn no_timeout() -> (r: Self)
        ensures
            r.timeout_ms_spec() is None,
            r.verbose_spec(),
    {
        TestExecutor { timeout_ms: None, verbose: true }
    }

    pub closed spec fn timeout_ms_spec(&self) -> Option<u64> {
        self.timeout_ms
    }

    pub closed spec fn verbose_spec(&self) -> bool {
        self.verbose
    }

    /// The wall-clock budget for one run, if any.
    pub fn timeout_ms(&self) -> (r: Option<u64>)
        ensures
            r == self.timeout_ms_spec(),
    {
        self.timeout_ms
    }

    /// The counts on the summary lines of `output`, and their sum:
    /// (passed, failed, ignored, total).
    pub fn parse_test_counts(&self, output: &str) -> (r: (usize, usize, usize, usize))
        ensures
            ({
                let c = test_counts_spec(output@);
                &&& r.0 == c.passed
                &&& r.1 == c.failed
                &&& r.2 == c.ignored
                &&& c.passed + c.failed + c.ignored <= usize::MAX ==> r.3 == c.passed + c.failed
                    + c.ignored
                &&& c.passed + c.failed + c.ignored > usize::MAX ==> r.3 == usize::MAX
            }),
    {
        let cs = chars_of(output);
        let ls = split_lines(&cs);
        let pfx = chars_of("test result:");
        let passed_pat = chars_of("passed");
        let failed_pat = chars_of("failed");
        let ignored_pat = chars_of("ignored");
        let n = ls.len();
        let ghost c0 = Counts { passed: 0usize, failed: 0usize, ignored: 0usize };
        let mut passed: usize = 0;
        let mut failed: usize = 0;
        let mut ignored: usize = 0;
        let mut i: usize = 0;
        proof {
            assert(ls.deep_view().take(0) =~= Seq::<Seq<char>>::empty());
        }
        while i < n
            invariant
                0 <= i <= n,
                n == ls@.len(),
                n == ls.deep_view().len(),
                ls.deep_view() == lines_spec(cs@),
                cs@ == output@,
                pfx@ == "test result:"@,
                passed_pat@ == "passed"@,
                failed_pat@ == "failed"@,
                ignored_pat@ == "ignored"@,
                counts_after_lines(c0, ls.deep_view().take(i as int)) == (Counts {
                    passed,
                    failed,
                    ignored,
                }),
            decreases n - i,
        {
            let ghost lv = ls.deep_view();
            proof {
                assert(lv.take(i + 1 as int).drop_last() =~= lv.take(i as int));
                assert(lv.take(i + 1 as int).last() == lv[i as int]);
            }
            let line = &ls[i];
            proof {
                assert(line@ == lv[i as int]);
            }
            if starts_with(line, &pfx) {
                let parts = split_char(line, ';');
                let ghost cline = Counts { passed, failed, ignored };
                let m = parts.len();
                let mut k: usize = 0;
                proof {
                    assert(parts.deep_view().take(0) =~= Seq::<Seq<char>>::empty());
                }
                while k < m
                    invariant
                        0 <= k <= m,
                        m == parts@.len(),
                        m == parts.deep_view().len(),
                        passed_pat@ == "passed"@,
                        failed_pat@ == "failed"@,
                        ignored_pat@ == "ignored"@,
                        counts_after_parts(cline, parts.deep_view().take(k as int)) == (Counts {
                            passed,
                            failed,
                            ignored,
                        }),
                    decreases m - k,
                {
                    let ghost pv = parts.deep_view();
                    proof {
                        assert(pv.take(k + 1 as int).drop_last() =~= pv.take(k as int));
                        assert(pv.take(k + 1 as int).last() == pv[k as int]);
                    }
                    let part = &parts[k];
                    proof {
                        assert(part@ == pv[k as int]);
                    }
                    if contains_sub(part, &passed_pat) {
                        let toks = split_ws(part);
                        match first_number_ex(&toks) {
                            Some(v) => {
                                passed = v;
                            },
                            None => {},
                        }
                    } else if contains_sub(part, &failed_pat) {
                        let toks = split_ws(part);
                        match first_number_ex(&toks) {
                            Some(v) => {
                                failed = v;
                            },
                            None => {},
                        }
                    } else if contains_sub(part, &ignored_pat) {
                        let toks = split_ws(part);
                        match first_number_ex(&toks) {
                            Some(v) => {
                                ignored = v;
                            },
                            None => {},
                        }
                    }
                    k += 1;
                }
                proof {
                    assert(parts.deep_view().take(m as int) =~= parts.deep_view());
                }
            }
            i += 1;
        }
        proof {
            assert(ls.deep_view().take(n as int) =~= ls.deep_view());
        }
        let total = match passed.checked_add(failed) {
            Some(s) => match s.checked_add(ignored) {
                Some(t) => t,
                None => usize::MAX,
            },
            None => usize::MAX,
        };
        (passed, failed, ignored, total)
    }
}

} // verus!

verus! {

/// A line that reports a failing test.
pub open spec fn is_failure_line(l: Seq<char>) -> bool {
    contains_spec(l, " FAILED"@) && contains_spec(l, "test "@)
}

/// The test's name on a failure line: the text between the first "test "
/// and the following " ..." (or the next "test ", whichever comes first).
pub open spec fn failed_name(l: Seq<char>) -> Seq<char> {
    before_first(before_first(after_first(l, "test "@), "test "@), " ..."@)
}

/// The source location on a panic line: what follows " panicked at ", up to
/// the first colon.
pub open spec fn detail_loc(l: Seq<char>) -> Seq<char> {
    before_first(after_first(l, " panicked at "@), ":"@)
}

/// Accumulated detail of one failure block.
pub ghost struct Detail {
    pub msg: Seq<char>,
    pub loc: Option<Seq<char>>,
}

/// Folds the detail lines of a failure block: stops at the next test line
/// or at `end`, skips blank lines, collects the rest into the message, and
/// keeps the last panic location seen.
pub open spec fn collect_detail(ls: Seq<Seq<char>>, j: int, end: int, acc: Detail) -> Detail
    decreases end - j,
{
    if j < 0 || j >= end || j >= ls.len() {
        acc
    } else if starts_with_spec(ls[j], "test "@) {
        acc
    } else if trim_spec(ls[j]).len() == 0 {
        collect_detail(ls, j + 1, end, acc)
    } else {
        let loc2 = if contains_spec(ls[j], " panicked at "@) {
            Some(detail_loc(ls[j]))
        } else {
            acc.loc
        };
        collect_detail(ls, j + 1, end, Detail { msg: acc.msg + ls[j] + seq!['\n'], loc: loc2 })
    }
}

/// Detail lines are read up to a fixed cap of lines past the failure line.
pub open spec fn block_end(ls_len: int, i: int) -> int {
    if i + 20 <= ls_len {
        i + 20
    } else {
        ls_len
    }
}

/// The failure record built at line `i`.
pub open spec fn ft_at(ls: Seq<Seq<char>>, i: int) -> FtView {
    let d = collect_detail(
        ls,
        i + 1,
        block_end(ls.len() as int, i),
        Detail { msg: Seq::empty(), loc: None },
    );
    FtView {
        name: failed_name(ls[i]),
        error_message: trim_spec(d.msg),
        file_location: d.loc,
    }
}

/// Every failure record of the lines at or after `i`, in order.
pub open spec fn failed_tests_from(ls: Seq<Seq<char>>, i: int) -> Seq<FtView>
    decreases ls.len() - i,
{
    if i < 0 || i >= ls.len() {
        Seq::empty()
    } else if is_failure_line(ls[i]) {
        seq![ft_at(ls, i)] + failed_tests_from(ls, i + 1)
    } else {
        failed_tests_from(ls, i + 1)
    }
}

pub open spec fn failed_tests_spec(out: Seq<char>) -> Seq<FtView> {
    failed_tests_from(lines_spec(out), 0)
}

/// The lines of the error stream that carry an error marker, kept whole.
pub open spec fn error_lines_from(ls: Seq<Seq<char>>) -> Seq<Seq<char>>
    decreases ls.len(),
{
    if ls.len() == 0 {
        Seq::empty()
    } else {
        let rest = error_lines_from(ls.drop_last());
        if contains_spec(ls.last(), "error:"@) || contains_spec(ls.last(), "Error:"@) {
            rest.push(ls.last())
        } else {
            rest
        }
    }
}

pub open spec fn parse_errors_spec(err: Seq<char>) -> Seq<Seq<char>> {
    error_lines_from(lines_spec(err))
}

impl TestExecutor {
    /// The failure records in `output`: one per line holding a test
    /// identifier and a FAILED marker, with the detail lines that follow it.
    pub fn parse_failed_tests(&self, output: &str) -> (r: Vec<FailedTest>)
        ensures
            r@.map_values(|t: FailedTest| ft_view(t)) == failed_tests_spec(output@),
    {
        let cs = chars_of(output);
        let ls = split_lines(&cs);
        let failed_pat = chars_of(" FAILED");
        let test_pat = chars_of("test ");
        let dots_pat = chars_of(" ...");
        let panicked_pat = chars_of(" panicked at ");
        let colon_pat = chars_of(":");
        let n = ls.len();
        let mut r: Vec<FailedTest> = Vec::new();
        let mut i: usize = 0;
        proof {
            assert(r@.map_values(|t: FailedTest| ft_view(t)) =~= Seq::<FtView>::empty());
        }
        while i < n
            invariant
                0 <= i <= n,
                n == ls@.len(),
                n == ls.deep_view().len(),
                ls.deep_view() == lines_spec(cs@),
                cs@ == output@,
                failed_pat@ == " FAILED"@,
                test_pat@ == "test "@,
                dots_pat@ == " ..."@,
                panicked_pat@ == " panicked at "@,
                colon_pat@ == ":"@,
                failed_tests_spec(output@) == r@.map_values(|t: FailedTest| ft_view(t))
                    + failed_tests_from(ls.deep_view(), i as int),
            decreases n - i,
        {
            let ghost lv = ls.deep_view();
            let ghost prev = r@.map_values(|t: FailedTest| ft_view(t));
            let line = &ls[i];
            proof {
                assert(line@ == lv[i as int]);
            }
            if contains_sub(line, &failed_pat) && contains_sub(line, &test_pat) {
                let seg0 = after_first_ex(line, &test_pat);
                let seg1 = before_first_ex(&seg0, &test_pat);
                let namev = before_first_ex(&seg1, &dots_pat);
                let end = if n - i > 20 {
                    i + 20
                } else {
                    n
                };
                proof {
                    assert(end as int == block_end(n as int, i as int));
                }
                let ghost init = Detail { msg: Seq::<char>::empty(), loc: None };
                let mut msg: Vec<char> = Vec::new();
                let mut loc: Option<Vec<char>> = None;
                let mut j: usize = i + 1;
                let mut stop = false;
                proof {
                    assert(msg@ =~= init.msg);
                }
                while j < end && !stop
                    invariant
                        i + 1 <= j <= end <= n,
                        n == lv.len(),
                        lv == ls.deep_view(),
                        n == ls@.len(),
                        test_pat@ == "test "@,
                        panicked_pat@ == " panicked at "@,
                        colon_pat@ == ":"@,
                        collect_detail(lv, i + 1 as int, end as int, init) == collect_detail(
                            lv,
                            j as int,
                            end as int,
                            (Detail {
                                msg: msg@,
                                loc: match loc {
                                    Some(v) => Some(v@),
                                    None => None,
                                },
                            }),
                        ),
                        stop ==> j < end && starts_with_spec(lv[j as int], "test "@),
                    decreases end - j + (if stop { 0int } else { 1 }),
                {
                    let lj = &ls[j];
                    proof {
                        assert(lj@ == lv[j as int]);
                    }
                    if starts_with(lj, &test_pat) {
                        stop = true;
                    } else {
                        let t = trim(lj);
                        if t.len() == 0 {
                        } else {
                            if contains_sub(lj, &panicked_pat) {
                                let after = after_first_ex(lj, &panicked_pat);
                                let l = before_first_ex(&after, &colon_pat);
                                loc = Some(l);
                            }
                            let ghost msg_before = msg@;
                            msg.extend_from_slice(lj.as_slice());
                            msg.push('\n');
                            proof {
                                assert(msg@ =~= msg_before + lv[j as int] + seq!['\n']);
                            }
                        }
                        j += 1;
                    }
                }
                let name = string_of(&namev);
                let msg_t = trim(&msg);
                let error_message = string_of(&msg_t);
                let file_location = match loc {
                    Some(v) => Some(string_of(&v)),
                    None => None,
                };
                let t = FailedTest { name, error_message, file_location };
                proof {
                    let d = collect_detail(lv, i + 1 as int, end as int, init);
                    assert(d == (Detail {
                        msg: msg@,
                        loc: match loc {
                            Some(v) => Some(v@),
                            None => None,
                        },
                    }));
                    assert(ft_view(t) == ft_at(lv, i as int));
                }
                r.push(t);
                proof {
                    assert(r@.map_values(|t: FailedTest| ft_view(t)) =~= prev.push(ft_at(
                        lv,
                        i as int,
                    )));
                    assert(prev.push(ft_at(lv, i as int)) =~= prev + seq![ft_at(lv, i as int)]);
                    assert((prev + seq![ft_at(lv, i as int)]) + failed_tests_from(lv, i + 1 as int)
                        =~= prev + (seq![ft_at(lv, i as int)] + failed_tests_from(
                        lv,
                        i + 1 as int,
                    )));
                }
            }
            i += 1;
        }
        proof {
            assert(failed_tests_from(ls.deep_view(), n as int) =~= Seq::<FtView>::empty());
            assert(r@.map_values(|t: FailedTest| ft_view(t)) + Seq::<FtView>::empty() =~= r@
                .map_values(|t: FailedTest| ft_view(t)));
        }
        r
    }

    /// The lines of the error stream holding an "error:" or "Error:" marker.
    pub fn parse_errors(&self, stderr: &str) -> (r: Vec<String>)
        ensures
            r.deep_view() == parse_errors_spec(stderr@),
    {
        let cs = chars_of(stderr);
        let ls = split_lines(&cs);
        let lower_pat = chars_of("error:");
        let upper_pat = chars_of("Error:");
        let n = ls.len();
        let mut r: Vec<String> = Vec::new();
        let mut i: usize = 0;
        proof {
            assert(ls.deep_view().take(0) =~= Seq::<Seq<char>>::empty());
            assert(r.deep_view() =~~= error_lines_from(ls.deep_view().take(0)));
        }
        while i < n
            invariant
                0 <= i <= n,
                n == ls@.len(),
                n == ls.deep_view().len(),
                ls.deep_view() == lines_spec(cs@),
                cs@ == stderr@,
                lower_pat@ == "error:"@,
                upper_pat@ == "Error:"@,
                r.deep_view() == error_lines_from(ls.deep_view().take(i as int)),
            decreases n - i,
        {
            let ghost lv = ls.deep_view();
            let ghost prev = r.deep_view();
            let line = &ls[i];
            proof {
                assert(line@ == lv[i as int]);
                assert(lv.take(i + 1 as int).drop_last() =~= lv.take(i as int));
                assert(lv.take(i + 1 as int).last() == lv[i as int]);
            }
            if contains_sub(line, &lower_pat) || contains_sub(line, &upper_pat) {
                let s = string_of(line);
                r.push(s);
                proof {
                    assert(r.deep_view() =~~= prev.push(line@));
                }
            }
            i += 1;
        }
        proof {
            assert(ls.deep_view().take(n as int) =~= ls.deep_view());
        }
        r
    }

    /// The `TestResult` for one completed run: the verdict is the exit
    /// status, counts and failures are parsed from the captured standard
    /// output, compile errors from the captured error stream.
    pub fn interpret_test_run(&self, success: bool, stdout: &str, stderr: &str, duration_ms: u64)
        -> (r: TestResult)
        ensures
            r.success == success,
            r.passed == test_counts_spec(stdout@).passed,
            r.failed == test_counts_spec(stdout@).failed,
            r.ignored == test_counts_spec(stdout@).ignored,
            ({
                let c = test_counts_spec(stdout@);
                &&& c.passed + c.failed + c.ignored <= usize::MAX ==> r.total == c.passed + c.failed
                    + c.ignored
                &&& c.passed + c.failed + c.ignored > usize::MAX ==> r.total == usize::MAX
            }),
            r.duration_ms == duration_ms,
            r.output@ == combined_output_spec(stdout@, stderr@),
            r.errors.deep_view() == parse_errors_spec(stderr@),
            r.failed_tests@.map_values(|t: FailedTest| ft_view(t)) == failed_tests_spec(stdout@),
            !r.timed_out,
    {
        let (passed, failed, ignored, total) = self.parse_test_counts(stdout);
        let failed_tests = self.parse_failed_tests(stdout);
        let errors = self.parse_errors(stderr);
        let output = combined_output(stdout, stderr);
        TestResult {
            success,
            passed,
            failed,
            ignored,
            total,
            duration_ms,
            output,
            errors,
            failed_tests,
            timed_out: false,
        }
    }

    /// The `TestResult` for a run that exceeded the wall-clock budget: a
    /// distinct failure kind, not folded into the failed-test count.
    pub fn interpret_timeout(&self, duration_ms: u64, partial_output: &str) -> (r: TestResult)
        ensures
            r.timed_out,
            !r.success,
            r.passed == 0 && r.failed == 0 && r.ignored == 0 && r.total == 0,
            r.duration_ms == duration_ms,
            r.output@ == partial_output@,
            r.errors.deep_view() == Seq::<Seq<char>>::empty(),
            r.failed_tests@.len() == 0,
    {
        let r = TestResult {
            success: false,
            passed: 0,
            failed: 0,
            ignored: 0,
            total: 0,
            duration_ms,
            output: String::from_str(partial_output),
            errors: Vec::new(),
            failed_tests: Vec::new(),
            timed_out: true,
        };
        proof {
            assert(r.errors.deep_view() =~~= Seq::<Seq<char>>::empty());
        }
        r
    }
}

} // verus!

verus! {

impl Default for TestExecutor {
    /// The same configuration `new` gives: the five-minute budget, verbose.
    fn default() -> (r: Self)
        ensures
            r.timeout_ms_spec() == Some(300000u64),
            r.verbose_spec(),
    {
        TestExecutor::new()
    }
}

} // verus!
