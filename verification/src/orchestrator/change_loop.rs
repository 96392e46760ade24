//! The autonomous change loop: sanitization of generated text into a
//! unified diff, and the bounded retry state machine that strings context
//! building, generation, patch application and test runs together. Each
//! piece of outside work (a generation call, a patch-utility run, a test
//! run) is one event handed back to the machine; every decision in between
//! is verified.

use vstd::prelude::*;

use crate::edit::patch::{valid_diff_spec, CodePatcher, PatchResult};
use crate::hooks::autotest::{failed_tests_spec, ft_view, test_counts_spec, FailedTest, FtView,
    TestResult};
use crate::orchestrator::memory::{
    format_context_spec, msg_view, MemoryManager, MessageRole, MsgView,
};
use crate::strutil::{
    all_digits, chars_of, clone_strings, contains_spec, copy_range, dec_chars, find_spec, find_sub,
    is_digit, join_char, join_char_spec, lines_spec, push_char, split_lines, starts_with,
    starts_with_spec, string_of, to_lower, trim, trim_spec, trim_start, trim_start_spec,
    usize_chars,
};

verus! {

/// The payload between the first fence and the next (the whole output when
/// no fence is present), an optional language tag and one leading newline
/// dropped, trimmed.
pub open spec fn extract_fenced_spec(raw: Seq<char>) -> Seq<char> {
    match find_spec(raw, "```"@) {
        Some(i) => {
            let s1 = raw.skip(i + 3);
            let s2 = if starts_with_spec(s1, "diff"@) {
                s1.skip(4)
            } else {
                s1
            };
            let s3 = if s2.len() > 0 && s2[0] == '\n' {
                s2.skip(1)
            } else {
                s2
            };
            match find_spec(s3, "```"@) {
                Some(j) => trim_spec(s3.take(j)),
                None => trim_spec(s3),
            }
        },
        None => trim_spec(raw),
    }
}

/// One line with a line-number rendering artifact removed: when everything
/// before the first pipe is digits (after trimming), the prefix goes.
pub open spec fn strip_line_no(l: Seq<char>) -> Seq<char> {
    match find_spec(l, seq!['|']) {
        Some(p) => if all_digits(trim_spec(l.take(p))) {
            trim_start_spec(l.skip(p + 1))
        } else {
            l
        },
        None => l,
    }
}

pub open spec fn strip_line_nos(ls: Seq<Seq<char>>) -> Seq<Seq<char>>
    decreases ls.len(),
{
    if ls.len() == 0 {
        Seq::empty()
    } else {
        strip_line_nos(ls.drop_last()).push(strip_line_no(ls.last()))
    }
}

/// A line of the unified-diff grammar: a file header, a hunk header, or an
/// added, removed or context line.
pub open spec fn is_diff_line(l: Seq<char>) -> bool {
    ||| starts_with_spec(l, "--- "@)
    ||| starts_with_spec(l, "+++ "@)
    ||| starts_with_spec(l, "@@"@)
    ||| (l.len() > 0 && (l[0] == '+' || l[0] == '-' || l[0] == ' '))
}

pub open spec fn filter_diff_lines(ls: Seq<Seq<char>>) -> Seq<Seq<char>>
    decreases ls.len(),
{
    if ls.len() == 0 {
        Seq::empty()
    } else {
        let rest = filter_diff_lines(ls.drop_last());
        if is_diff_line(ls.last()) {
            rest.push(ls.last())
        } else {
            rest
        }
    }
}

/// What the sanitizer makes of raw generation output: the fenced payload,
/// line-number artifacts stripped per line, then only diff-grammar lines
/// kept, joined by newlines.
pub open spec fn sanitize_spec(raw: Seq<char>) -> Seq<char> {
    join_char_spec(
        filter_diff_lines(
            lines_spec(join_char_spec(strip_line_nos(lines_spec(extract_fenced_spec(raw))), '\n')),
        ),
        '\n',
    )
}

/// The fenced payload of the raw output.
fn extract_fenced(raw: &Vec<char>) -> (r: Vec<char>)
    ensures
        r@ == extract_fenced_spec(raw@),
{
    let n = raw.len();
    let fence = chars_of("```");
    let diff_tag = chars_of("diff");
    proof {
        reveal_strlit("```");
        reveal_strlit("diff");
        assert("```"@.len() == 3);
        assert("diff"@.len() == 4);
    }
    match find_sub(raw, &fence) {
        Some(i) => {
            proof {
                crate::strutil::lemma_find_from_found(raw@, fence@, 0);
            }
            let s1 = copy_range(raw, i + 3, n);
            proof {
                assert(s1@ =~= raw@.skip(i + 3));
            }
            let s2 = if starts_with(&s1, &diff_tag) {
                let t = copy_range(&s1, 4, s1.len());
                proof {
                    assert(t@ =~= s1@.skip(4));
                }
                t
            } else {
                s1
            };
            let s3 = if s2.len() > 0 && s2[0] == '\n' {
                let t = copy_range(&s2, 1, s2.len());
                proof {
                    assert(t@ =~= s2@.skip(1));
                }
                t
            } else {
                s2
            };
            match find_sub(&s3, &fence) {
                Some(j) => {
                    proof {
                        crate::strutil::lemma_find_from_found(s3@, fence@, 0);
                    }
                    let h = copy_range(&s3, 0, j);
                    proof {
                        assert(h@ =~= s3@.take(j as int));
                    }
                    trim(&h)
                },
                None => trim(&s3),
            }
        },
        None => trim(raw),
    }
}

/// One line with a digits-then-pipe prefix stripped.
fn strip_line_no_ex(l: &Vec<char>) -> (r: Vec<char>)
    ensures
        r@ == strip_line_no(l@),
{
    let pipe = chars_of("|");
    proof {
        reveal_strlit("|");
        assert("|"@.len() == 1);
        assert("|"@ =~= seq!['|']);
    }
    match find_sub(l, &pipe) {
        Some(p) => {
            proof {
                crate::strutil::lemma_find_from_found(l@, pipe@, 0);
            }
            let left = copy_range(l, 0, p);
            proof {
                assert(left@ =~= l@.take(p as int));
            }
            let left_t = trim(&left);
            let mut ok = true;
            let m = left_t.len();
            let mut j: usize = 0;
            while j < m && ok
                invariant
                    0 <= j <= m,
                    m == left_t@.len(),
                    ok ==> (forall|t: int| 0 <= t < j ==> is_digit(#[trigger] left_t@[t])),
                    !ok ==> !all_digits(left_t@),
                decreases m - j,
            {
                if !crate::strutil::digit_char(left_t[j]) {
                    ok = false;
                }
                j += 1;
            }
            if ok {
                let llen = l.len();
                let right = copy_range(l, p + 1, llen);
                proof {
                    assert(right@ =~= l@.skip(p + 1));
                }
                trim_start(&right)
            } else {
                copy_range(l, 0, l.len())
            }
        },
        None => copy_range(l, 0, l.len()),
    }
}

/// Raw generation output reduced to a unified diff: anything that is not a
/// diff line is discarded.
pub fn sanitize(raw: &str) -> (r: String)
    ensures
        r@ == sanitize_spec(raw@),
{
    let cs = chars_of(raw);
    let fenced = extract_fenced(&cs);
    let ls = split_lines(&fenced);
    let n = ls.len();
    let mut stripped: Vec<Vec<char>> = Vec::new();
    let mut i: usize = 0;
    proof {
        assert(ls.deep_view().take(0) =~= Seq::<Seq<char>>::empty());
        assert(stripped.deep_view() =~~= strip_line_nos(ls.deep_view().take(0)));
    }
    while i < n
        invariant
            0 <= i <= n,
            n == ls@.len(),
            n == ls.deep_view().len(),
            stripped.deep_view() == strip_line_nos(ls.deep_view().take(i as int)),
        decreases n - i,
    {
        let ghost prev = stripped.deep_view();
        proof {
            assert(ls.deep_view().take(i + 1 as int).drop_last() =~= ls.deep_view().take(i as int));
            assert(ls.deep_view().take(i + 1 as int).last() == ls.deep_view()[i as int]);
            assert(ls@[i as int]@ == ls.deep_view()[i as int]);
        }
        let sl = strip_line_no_ex(&ls[i]);
        stripped.push(sl);
        proof {
            assert(stripped.deep_view() =~~= prev.push(strip_line_no(ls.deep_view()[i as int])));
        }
        i += 1;
    }
    proof {
        assert(ls.deep_view().take(n as int) =~= ls.deep_view());
    }
    let cleaned = join_char(&stripped, '\n');
    let cls = split_lines(&cleaned);
    let m = cls.len();
    let mut kept: Vec<Vec<char>> = Vec::new();
    let h1 = chars_of("--- ");
    let h2 = chars_of("+++ ");
    let h3 = chars_of("@@");
    let mut k: usize = 0;
    proof {
        assert(cls.deep_view().take(0) =~= Seq::<Seq<char>>::empty());
        assert(kept.deep_view() =~~= filter_diff_lines(cls.deep_view().take(0)));
    }
    while k < m
        invariant
            0 <= k <= m,
            m == cls@.len(),
            m == cls.deep_view().len(),
            h1@ == "--- "@,
            h2@ == "+++ "@,
            h3@ == "@@"@,
            kept.deep_view() == filter_diff_lines(cls.deep_view().take(k as int)),
        decreases m - k,
    {
        let ghost prev = kept.deep_view();
        proof {
            assert(cls.deep_view().take(k + 1 as int).drop_last() =~= cls.deep_view().take(
                k as int,
            ));
            assert(cls.deep_view().take(k + 1 as int).last() == cls.deep_view()[k as int]);
            assert(cls@[k as int]@ == cls.deep_view()[k as int]);
        }
        let line = &cls[k];
        let first_marker = line.len() > 0 && (line[0] == '+' || line[0] == '-' || line[0] == ' ');
        if starts_with(line, &h1) || starts_with(line, &h2) || starts_with(line, &h3)
            || first_marker {
            let c = copy_range(line, 0, line.len());
            proof {
                assert(c@ =~= line@);
            }
            kept.push(c);
            proof {
                assert(kept.deep_view() =~~= prev.push(cls.deep_view()[k as int]));
            }
        }
        k += 1;
    }
    proof {
        assert(cls.deep_view().take(m as int) =~= cls.deep_view());
    }
    let joined = join_char(&kept, '\n');
    string_of(&joined)
}

} // verus!

verus! {

/// The knobs of one loop invocation.
#[derive(Debug, Clone, Copy, PartialEq, Eq, Structural)]
pub struct LoopConfig {
    pub max_retries: usize,
    pub dry_run: bool,
    pub skip_tests: bool,
}

/// Where the machine stands between events.
#[derive(Debug, Clone, Copy, PartialEq, Eq, Structural)]
pub enum LoopPhase {
    Idle,
    BuildingContext,
    GeneratingDiff,
    ApplyingPatch,
    RunningTests,
    Done,
}

/// How a finished loop ended.
#[derive(Debug, Clone)]
pub enum LoopOutcome {
    Success { attempts: usize, files_modified: Vec<String> },
    ExhaustedRetries { attempts: usize },
}

/// What the caller must do next.
#[derive(Debug, Clone)]
pub enum LoopAction {
    BuildContext,
    Generate(String),
    ApplyPatch(String),
    RunTests,
    Finish(LoopOutcome),
}

/// The System entry recorded when sanitized output is not a valid diff.
pub open spec fn invalid_diff_note() -> Seq<char> {
    "Sanitised output is not a valid unified diff"@
}

/// The System entry recorded when application fails, carrying the error.
pub open spec fn patch_failed_note(err: Seq<char>) -> Seq<char> {
    "Patch application failed: "@ + err
}

/// The System entry recorded on success.
pub open spec fn tests_passed_note() -> Seq<char> {
    "Tests passed! Task completed successfully."@
}

/// The per-test failures flattened into one line each: "name: message",
/// joined by semicolons.
pub open spec fn joined_failures(fts: Seq<FtView>) -> Seq<char>
    decreases fts.len(),
{
    if fts.len() == 0 {
        Seq::empty()
    } else if fts.len() == 1 {
        fts[0].name + ": "@ + fts[0].error_message
    } else {
        joined_failures(fts.drop_last()) + "; "@ + fts.last().name + ": "@
            + fts.last().error_message
    }
}

/// The System entry recorded when tests fail: the counts and the flattened
/// per-test failures.
pub open spec fn tests_failed_note(passed: int, failed: int, fts: Seq<FtView>) -> Seq<char> {
    "Tests failed: "@ + dec_chars(passed) + " passed, "@ + dec_chars(failed)
        + " failed. Errors: "@ + joined_failures(fts)
}

/// The history block prepended to the prompt on retries.
pub open spec fn history_note_spec(log: Seq<MsgView>, attempt: int) -> Seq<char> {
    if attempt > 1 {
        "Your previous attempt failed. Here is the conversation history for context:\n---\n"@
            + format_context_spec(log, 10) + "\n---"@
    } else {
        Seq::empty()
    }
}

/// The whole generation prompt for one attempt.
pub open spec fn llm_prompt_spec(user: Seq<char>, history: Seq<char>, ctx: Seq<char>) -> Seq<char> {
    "\nYou are an expert Rust programmer working as a command-line tool.\nYour SOLE purpose is to generate a valid, standard unified diff for the user's request.\nDo NOT provide any explanation, preamble, or narrative.\nDo NOT wrap the diff in markdown code blocks.\n\nUSER REQUEST: \""@
        + user + "\"\n\n"@ + history
        + "\n\nHere are the relevant files and their contents:\n---\n"@ + ctx
        + "\n---\n\nGenerate the unified diff to accomplish the user request."@
}

/// The bounded retry machine. It owns the conversation log; each method
/// consumes one event and returns the next action.
pub struct ChangeLoop {
    config: LoopConfig,
    memory: MemoryManager,
    attempt: usize,
    phase: LoopPhase,
    last_files: Vec<String>,
}

impl ChangeLoop {
    pub closed spec fn config_spec(&self) -> LoopConfig {
        self.config
    }

    pub closed spec fn attempt_spec(&self) -> int {
        self.attempt as int
    }

    pub closed spec fn phase_spec(&self) -> LoopPhase {
        self.phase
    }

    pub closed spec fn log(&self) -> Seq<MsgView> {
        self.memory.log()
    }

    pub closed spec fn last_files_spec(&self) -> Seq<Seq<char>> {
        self.last_files.deep_view()
    }

    /// The machine is between valid states: the log is well formed, the
    /// attempt counter starts at one and never passes the retry bound.
    pub closed spec fn wf(&self) -> bool {
        &&& self.memory.wf()
        &&& 1 <= self.attempt
        &&& self.attempt <= self.config.max_retries
        &&& self.config.max_retries >= 1
    }

    /// A fresh machine around an existing log.
    pub fn new(config: LoopConfig, memory: MemoryManager) -> (r: Self)
        requires
            config.max_retries >= 1,
            memory.wf(),
        ensures
            r.wf(),
            r.phase_spec() is Idle,
            r.attempt_spec() == 1,
            r.config_spec() == config,
            r.log() == memory.log(),
    {
        ChangeLoop { config, memory, attempt: 1, phase: LoopPhase::Idle, last_files: Vec::new() }
    }

    /// The current attempt, one-based.
    pub fn attempt(&self) -> (r: usize)
        ensures
            r == self.attempt_spec(),
    {
        self.attempt
    }

    /// A view into the conversation log.
    pub fn memory(&self) -> (r: &MemoryManager)
        ensures
            r.log() == self.log(),
            self.wf() ==> r.wf(),
    {
        &self.memory
    }

    /// Starts the loop: the request is logged as the user's message and
    /// context building begins.
    pub fn begin(&mut self, user_prompt: &str) -> (r: Result<LoopAction, String>)
        requires
            old(self).wf(),
            old(self).phase_spec() is Idle,
        ensures
            final (self).wf(),
            final (self).config_spec() == old(self).config_spec(),
            match r {
                Ok(a) => {
                    &&& a is BuildContext
                    &&& final (self).phase_spec() is BuildingContext
                    &&& final (self).attempt_spec() == 1
                    &&& final (self).log().len() == old(self).log().len() + 1
                    &&& final (self).log().subrange(0, old(self).log().len() as int) == old(
                        self,
                    ).log()
                    &&& final (self).log().last().role == MessageRole::User
                    &&& final (self).log().last().content == user_prompt@
                },
                Err(_) => old(self).log().len() + 2 > i64::MAX,
            },
    {
        match self.memory.add_message(MessageRole::User, user_prompt) {
            Ok(_) => {},
            Err(e) => {
                self.phase = LoopPhase::Done;
                return Err(e);
            },
        }
        self.attempt = 1;
        self.phase = LoopPhase::BuildingContext;
        Ok(LoopAction::BuildContext)
    }

    /// Context is ready: the prompt is assembled, with the recent history
    /// prepended on every attempt after the first, and generation begins.
    pub fn on_context_built(&mut self, context_str: &str, user_prompt: &str) -> (r: Result<
        LoopAction,
        String,
    >)
        requires
            old(self).wf(),
            old(self).phase_spec() is BuildingContext,
        ensures
            final (self).wf(),
            final (self).config_spec() == old(self).config_spec(),
            final (self).log() == old(self).log(),
            final (self).attempt_spec() == old(self).attempt_spec(),
            r matches Ok(a) && a matches LoopAction::Generate(p) && p@ == llm_prompt_spec(
                user_prompt@,
                history_note_spec(old(self).log(), old(self).attempt_spec()),
                context_str@,
            ),
            final (self).phase_spec() is GeneratingDiff,
    {
        let history: String;
        if self.attempt > 1 {
            let ctx = match self.memory.format_context(10) {
                Ok(s) => s,
                Err(e) => {
                    proof {
                        assert(false);
                    }
                    return Err(e);
                },
            };
            let mut h = String::from_str(
                "Your previous attempt failed. Here is the conversation history for context:\n---\n",
            );
            h.append(ctx.as_str());
            h.append("\n---");
            proof {
                assert(h@ =~= history_note_spec(self.log(), self.attempt as int));
            }
            history = h;
        } else {
            history = String::new();
            proof {
                assert(history@ =~= history_note_spec(self.log(), self.attempt as int));
            }
        }
        let mut p = String::from_str(
            "\nYou are an expert Rust programmer working as a command-line tool.\nYour SOLE purpose is to generate a valid, standard unified diff for the user's request.\nDo NOT provide any explanation, preamble, or narrative.\nDo NOT wrap the diff in markdown code blocks.\n\nUSER REQUEST: \"",
        );
        p.append(user_prompt);
        p.append("\"\n\n");
        p.append(history.as_str());
        p.append("\n\nHere are the relevant files and their contents:\n---\n");
        p.append(context_str);
        p.append("\n---\n\nGenerate the unified diff to accomplish the user request.");
        proof {
            assert(p@ =~= llm_prompt_spec(
                user_prompt@,
                history_note_spec(self.log(), self.attempt as int),
                context_str@,
            ));
        }
        self.phase = LoopPhase::GeneratingDiff;
        Ok(LoopAction::Generate(p))
    }
}

} // verus!

verus! {

/// The error text recorded for a failed application.
pub open spec fn patch_error_text(o: PatchResult) -> Seq<char> {
    match o.error {
        Some(e) => e@,
        None => Seq::empty(),
    }
}

impl ChangeLoop {
    /// Moves to the next attempt, or finishes with exhausted retries when
    /// the bound is reached.
    fn advance(&mut self) -> (r: LoopAction)
        requires
            old(self).wf(),
        ensures
            final (self).wf(),
            final (self).config_spec() == old(self).config_spec(),
            final (self).log() == old(self).log(),
            final (self).last_files_spec() == old(self).last_files_spec(),
            old(self).attempt_spec() == old(self).config_spec().max_retries ==> (r
                matches LoopAction::Finish(o) && o matches LoopOutcome::ExhaustedRetries {
                attempts,
            } && attempts == old(self).attempt_spec() && final (self).phase_spec() is Done
                && final (self).attempt_spec() == old(self).attempt_spec()),
            old(self).attempt_spec() < old(self).config_spec().max_retries ==> (r
                is BuildContext && final (self).phase_spec() is BuildingContext
                && final (self).attempt_spec() == old(self).attempt_spec() + 1),
    {
        if self.attempt == self.config.max_retries {
            self.phase = LoopPhase::Done;
            LoopAction::Finish(LoopOutcome::ExhaustedRetries { attempts: self.attempt })
        } else {
            self.attempt = self.attempt + 1;
            self.phase = LoopPhase::BuildingContext;
            LoopAction::BuildContext
        }
    }

    /// Generation returned: the output is sanitized and logged as the
    /// assistant's entry; a valid diff moves on to application, an invalid
    /// one is noted as a System entry and the attempt advances without
    /// touching the tree.
    pub fn on_generation(&mut self, llm_response: &str) -> (r: Result<LoopAction, String>)
        requires
            old(self).wf(),
            old(self).phase_spec() is GeneratingDiff,
        ensures
            final (self).wf(),
            final (self).config_spec() == old(self).config_spec(),
            match r {
                Ok(a) => {
                    let d = sanitize_spec(llm_response@);
                    let n0 = old(self).log().len() as int;
                    &&& final (self).log().len() >= n0 + 1
                    &&& final (self).log().subrange(0, n0) == old(self).log()
                    &&& final (self).log()[n0].role == MessageRole::Assistant
                    &&& final (self).log()[n0].content == d
                    &&& if valid_diff_spec(d) {
                        &&& a matches LoopAction::ApplyPatch(diff) && diff@ == d
                        &&& final (self).phase_spec() is ApplyingPatch
                        &&& final (self).attempt_spec() == old(self).attempt_spec()
                        &&& final (self).log().len() == n0 + 1
                    } else {
                        &&& final (self).log().len() == n0 + 2
                        &&& final (self).log().last().role == MessageRole::System
                        &&& final (self).log().last().content == invalid_diff_note()
                        &&& if old(self).attempt_spec() == old(self).config_spec().max_retries {
                            a matches LoopAction::Finish(o) && o
                                matches LoopOutcome::ExhaustedRetries { attempts } && attempts
                                == old(self).attempt_spec() && final (self).phase_spec() is Done
                        } else {
                            a is BuildContext && final (self).phase_spec() is BuildingContext
                                && final (self).attempt_spec() == old(self).attempt_spec() + 1
                        }
                    }
                },
                Err(_) => old(self).log().len() + 3 > i64::MAX,
            },
    {
        let ghost n0 = self.log().len() as int;
        let sanitized = sanitize(llm_response);
        match self.memory.add_message(MessageRole::Assistant, sanitized.as_str()) {
            Ok(_) => {},
            Err(e) => {
                self.phase = LoopPhase::Done;
                return Err(e);
            },
        }
        let ghost log1 = self.log();
        if !CodePatcher::validate_diff(sanitized.as_str()) {
            let note = String::from_str("Sanitised output is not a valid unified diff");
            match self.memory.add_message(MessageRole::System, note.as_str()) {
                Ok(_) => {},
                Err(e) => {
                    self.phase = LoopPhase::Done;
                    return Err(e);
                },
            }
            proof {
                assert(self.log().subrange(0, n0) =~= log1.subrange(0, n0));
            }
            Ok(self.advance())
        } else {
            self.phase = LoopPhase::ApplyingPatch;
            Ok(LoopAction::ApplyPatch(sanitized))
        }
    }

    /// Application finished: a failure is noted as a System entry and the
    /// attempt advances; a success in dry-run or skip-tests mode ends the
    /// loop at once, otherwise the tests run.
    pub fn on_patch_applied(&mut self, outcome: &PatchResult) -> (r: Result<LoopAction, String>)
        requires
            old(self).wf(),
            old(self).phase_spec() is ApplyingPatch,
        ensures
            final (self).wf(),
            final (self).config_spec() == old(self).config_spec(),
            match r {
                Ok(a) => {
                    let n0 = old(self).log().len() as int;
                    if outcome.success {
                        &&& final (self).log() == old(self).log()
                        &&& final (self).last_files_spec() == outcome.files_modified.deep_view()
                        &&& final (self).attempt_spec() == old(self).attempt_spec()
                        &&& if old(self).config_spec().dry_run || old(self).config_spec().skip_tests {
                            a matches LoopAction::Finish(o) && o matches LoopOutcome::Success {
                                attempts,
                                files_modified,
                            } && attempts == old(self).attempt_spec()
                                && files_modified.deep_view()
                                == outcome.files_modified.deep_view()
                                && final (self).phase_spec() is Done
                        } else {
                            a is RunTests && final (self).phase_spec() is RunningTests
                        }
                    } else {
                        &&& final (self).log().len() == n0 + 1
                        &&& final (self).log().subrange(0, n0) == old(self).log()
                        &&& final (self).log().last().role == MessageRole::System
                        &&& final (self).log().last().content == patch_failed_note(
                            patch_error_text(*outcome),
                        )
                        &&& if old(self).attempt_spec() == old(self).config_spec().max_retries {
                            a matches LoopAction::Finish(o) && o
                                matches LoopOutcome::ExhaustedRetries { attempts } && attempts
                                == old(self).attempt_spec() && final (self).phase_spec() is Done
                        } else {
                            a is BuildContext && final (self).phase_spec() is BuildingContext
                                && final (self).attempt_spec() == old(self).attempt_spec() + 1
                        }
                    }
                },
                Err(_) => old(self).log().len() + 2 > i64::MAX,
            },
    {
        if !outcome.success {
            let mut note = String::from_str("Patch application failed: ");
            match &outcome.error {
                Some(e) => {
                    note.append(e.as_str());
                },
                None => {},
            }
            proof {
                assert(note@ =~= patch_failed_note(patch_error_text(*outcome)));
            }
            match self.memory.add_message(MessageRole::System, note.as_str()) {
                Ok(_) => {},
                Err(e) => {
                    self.phase = LoopPhase::Done;
                    return Err(e);
                },
            }
            Ok(self.advance())
        } else {
            self.last_files = clone_strings(&outcome.files_modified);
            if self.config.dry_run || self.config.skip_tests {
                self.phase = LoopPhase::Done;
                let files = clone_strings(&outcome.files_modified);
                Ok(
                    LoopAction::Finish(
                        LoopOutcome::Success { attempts: self.attempt, files_modified: files },
                    ),
                )
            } else {
                self.phase = LoopPhase::RunningTests;
                Ok(LoopAction::RunTests)
            }
        }
    }

    /// Tests finished: success ends the loop with the accepted attempt and
    /// the modified files; failure is summarised into a System entry and
    /// the attempt advances, exhausting the retries on the last one.
    pub fn on_tests_finished(&mut self, result: &TestResult) -> (r: Result<LoopAction, String>)
        requires
            old(self).wf(),
            old(self).phase_spec() is RunningTests,
        ensures
            final (self).wf(),
            final (self).config_spec() == old(self).config_spec(),
            match r {
                Ok(a) => {
                    let n0 = old(self).log().len() as int;
                    &&& final (self).log().len() == n0 + 1
                    &&& final (self).log().subrange(0, n0) == old(self).log()
                    &&& final (self).log().last().role == MessageRole::System
                    &&& if result.success {
                        &&& final (self).log().last().content == tests_passed_note()
                        &&& a matches LoopAction::Finish(o) && o matches LoopOutcome::Success {
                            attempts,
                            files_modified,
                        } && attempts == old(self).attempt_spec() && files_modified.deep_view()
                            == old(self).last_files_spec()
                        &&& final (self).phase_spec() is Done
                    } else {
                        &&& final (self).log().last().content == tests_failed_note(
                            result.passed as int,
                            result.failed as int,
                            result.failed_tests@.map_values(|t: FailedTest| ft_view(t)),
                        )
                        &&& if old(self).attempt_spec() == old(self).config_spec().max_retries {
                            a matches LoopAction::Finish(o) && o
                                matches LoopOutcome::ExhaustedRetries { attempts } && attempts
                                == old(self).attempt_spec() && final (self).phase_spec() is Done
                        } else {
                            a is BuildContext && final (self).phase_spec() is BuildingContext
                                && final (self).attempt_spec() == old(self).attempt_spec() + 1
                        }
                    }
                },
                Err(_) => old(self).log().len() + 2 > i64::MAX,
            },
    {
        if result.success {
            let note = String::from_str("Tests passed! Task completed successfully.");
            match self.memory.add_message(MessageRole::System, note.as_str()) {
                Ok(_) => {},
                Err(e) => {
                    self.phase = LoopPhase::Done;
                    return Err(e);
                },
            }
            self.phase = LoopPhase::Done;
            let files = clone_strings(&self.last_files);
            Ok(
                LoopAction::Finish(
                    LoopOutcome::Success { attempts: self.attempt, files_modified: files },
                ),
            )
        } else {
            let ghost ftv = result.failed_tests@.map_values(|t: FailedTest| ft_view(t));
            let mut note = String::from_str("Tests failed: ");
            let d1 = string_of(&usize_chars(result.passed));
            note.append(d1.as_str());
            note.append(" passed, ");
            let d2 = string_of(&usize_chars(result.failed));
            note.append(d2.as_str());
            note.append(" failed. Errors: ");
            let ghost head = "Tests failed: "@ + dec_chars(result.passed as int) + " passed, "@
                + dec_chars(result.failed as int) + " failed. Errors: "@;
            proof {
                assert(note@ =~= head);
                assert(ftv.take(0) =~= Seq::<FtView>::empty());
                assert(note@ =~= head + joined_failures(ftv.take(0)));
            }
            let n = result.failed_tests.len();
            let mut i: usize = 0;
            while i < n
                invariant
                    0 <= i <= n,
                    n == result.failed_tests@.len(),
                    n == ftv.len(),
                    ftv == result.failed_tests@.map_values(|t: FailedTest| ft_view(t)),
                    note@ == head + joined_failures(ftv.take(i as int)),
                    head == "Tests failed: "@ + dec_chars(result.passed as int) + " passed, "@
                        + dec_chars(result.failed as int) + " failed. Errors: "@,
                decreases n - i,
            {
                proof {
                    assert(ftv.take(i + 1 as int).drop_last() =~= ftv.take(i as int));
                    assert(ftv.take(i + 1 as int).last() == ftv[i as int]);
                    assert(ft_view(result.failed_tests@[i as int]) == ftv[i as int]);
                }
                if i > 0 {
                    note.append("; ");
                }
                let t = &result.failed_tests[i];
                note.append(t.name.as_str());
                note.append(": ");
                note.append(t.error_message.as_str());
                proof {
                    if i == 0 {
                        assert(ftv.take(1int).len() == 1);
                        assert(joined_failures(ftv.take(1int)) == ftv[0].name + ": "@
                            + ftv[0].error_message);
                        assert(note@ =~= head + joined_failures(ftv.take(1int)));
                    } else {
                        assert(ftv.take(i + 1 as int).len() > 1);
                        assert(note@ =~= head + (joined_failures(ftv.take(i as int)) + "; "@
                            + ftv[i as int].name + ": "@ + ftv[i as int].error_message));
                    }
                }
                i += 1;
            }
            proof {
                assert(ftv.take(n as int) =~= ftv);
            }
            match self.memory.add_message(MessageRole::System, note.as_str()) {
                Ok(_) => {},
                Err(e) => {
                    self.phase = LoopPhase::Done;
                    return Err(e);
                },
            }
            Ok(self.advance())
        }
    }
}

} // verus!

verus! {

/// Dropping a trailing carriage return keeps a diff line a diff line.
proof fn lemma_strip_cr_diff(l: Seq<char>)
    requires
        is_diff_line(l),
    ensures
        is_diff_line(crate::strutil::strip_cr(l)),
{
    reveal_strlit("--- ");
    reveal_strlit("+++ ");
    reveal_strlit("@@");
    assert("--- "@.len() == 4);
    assert("+++ "@.len() == 4);
    assert("@@"@.len() == 2);
    let t = crate::strutil::strip_cr(l);
    if l.len() > 0 && l.last() == '\r' {
        if l.len() > 0 && (l[0] == '+' || l[0] == '-' || l[0] == ' ') {
            assert(l[0] != '\r');
            assert(l.len() >= 2);
            assert(t[0] == l[0]);
        } else if starts_with_spec(l, "--- "@) {
            assert("--- "@[3] == ' ');
            assert(l.subrange(0, 4)[3] == l[3]);
            assert(l[3] == ' ');
            assert(l.len() >= 5);
            assert(t.subrange(0, 4) =~= l.subrange(0, 4));
        } else if starts_with_spec(l, "+++ "@) {
            assert("+++ "@[0] == '+');
            assert(l.subrange(0, 4)[0] == l[0]);
            assert(l[0] == '+');
            assert(l.len() >= 5);
            assert(t[0] == l[0]);
        } else {
            assert(starts_with_spec(l, "@@"@));
            assert("@@"@[1] == '@');
            assert(l.subrange(0, 2)[1] == l[1]);
            assert(l[1] == '@');
            assert(l.len() >= 3);
            assert(t.subrange(0, 2) =~= l.subrange(0, 2));
        }
    }
}

/// Every kept line is a diff line and free of newlines, provided the input
/// lines were free of newlines.
proof fn lemma_filter_diff_props(ls: Seq<Seq<char>>)
    requires
        forall|i: int| 0 <= i < ls.len() ==> crate::strutil::free_of(#[trigger] ls[i], '\n'),
    ensures
        forall|i: int|
            0 <= i < filter_diff_lines(ls).len() ==> is_diff_line(
                #[trigger] filter_diff_lines(ls)[i],
            ) && crate::strutil::free_of(filter_diff_lines(ls)[i], '\n'),
    decreases ls.len(),
{
    if ls.len() > 0 {
        assert(forall|i: int|
            0 <= i < ls.drop_last().len() ==> crate::strutil::free_of(
                #[trigger] ls.drop_last()[i],
                '\n',
            )) by {
            assert(forall|i: int| 0 <= i < ls.drop_last().len() ==> ls.drop_last()[i] == ls[i]);
        }
        lemma_filter_diff_props(ls.drop_last());
        assert(crate::strutil::free_of(ls.last(), '\n'));
        let f = filter_diff_lines(ls);
        let r = filter_diff_lines(ls.drop_last());
        if is_diff_line(ls.last()) {
            assert(f == r.push(ls.last()));
            assert(forall|i: int|
                0 <= i < f.len() ==> (#[trigger] f[i]) == if i < r.len() {
                    r[i]
                } else {
                    ls.last()
                });
        } else {
            assert(f == r);
        }
    }
}

/// The lines of diff lines joined by newlines are still all diff lines.
proof fn lemma_lines_join_diff(ps: Seq<Seq<char>>)
    requires
        forall|i: int|
            0 <= i < ps.len() ==> crate::strutil::free_of(#[trigger] ps[i], '\n') && is_diff_line(
                ps[i],
            ),
    ensures
        forall|i: int|
            0 <= i < lines_spec(join_char_spec(ps, '\n')).len() ==> is_diff_line(
                #[trigger] lines_spec(join_char_spec(ps, '\n'))[i],
            ),
    decreases ps.len(),
{
    if ps.len() == 0 {
    } else if ps.len() == 1 {
        let s = ps[0];
        assert(join_char_spec(ps, '\n') == s);
        crate::strutil::lemma_find_from_found(s, seq!['\n'], 0);
        match find_spec(s, seq!['\n']) {
            Some(i) => {
                assert(s.subrange(i, i + 1) =~= seq!['\n']);
                assert(s.subrange(i, i + 1)[0] == s[i]);
                assert(s[i] == '\n');
                assert(false);
            },
            None => {},
        }
        if s.len() > 0 {
            assert(lines_spec(s) == seq![s]);
        }
    } else {
        let rest = join_char_spec(ps.skip(1), '\n');
        assert(join_char_spec(ps, '\n') == ps[0] + seq!['\n'] + rest);
        crate::strutil::lemma_lines_cons(ps[0], rest);
        assert(forall|i: int|
            0 <= i < ps.skip(1).len() ==> crate::strutil::free_of(#[trigger] ps.skip(1)[i], '\n')
                && is_diff_line(ps.skip(1)[i])) by {
            assert(forall|i: int| 0 <= i < ps.skip(1).len() ==> ps.skip(1)[i] == ps[i + 1]);
        }
        lemma_lines_join_diff(ps.skip(1));
        lemma_strip_cr_diff(ps[0]);
        assert(lines_spec(join_char_spec(ps, '\n')) == seq![crate::strutil::strip_cr(ps[0])]
            + lines_spec(rest));
        assert(forall|k: int|
            0 <= k < lines_spec(join_char_spec(ps, '\n')).len() ==> (#[trigger] lines_spec(
                join_char_spec(ps, '\n'),
            )[k]) == if k == 0 {
                crate::strutil::strip_cr(ps[0])
            } else {
                lines_spec(rest)[k - 1]
            });
    }
}

/// No prose survives sanitization: every line of the sanitizer's output is
/// a line of the unified-diff grammar, so the output is never a hybrid of
/// diff and narration. Whether the kept lines amount to a grammar-valid
/// diff is decided by the validation gate before any patch is applied.
pub proof fn lemma_sanitize_no_hybrid(raw: Seq<char>)
    ensures
        forall|i: int|
            0 <= i < lines_spec(sanitize_spec(raw)).len() ==> is_diff_line(
                #[trigger] lines_spec(sanitize_spec(raw))[i],
            ),
{
    let cleaned = join_char_spec(strip_line_nos(lines_spec(extract_fenced_spec(raw))), '\n');
    let kept = filter_diff_lines(lines_spec(cleaned));
    crate::strutil::lemma_lines_no_nl(cleaned);
    lemma_filter_diff_props(lines_spec(cleaned));
    lemma_lines_join_diff(kept);
}

} // verus!
