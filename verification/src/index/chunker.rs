//! Line-and-brace based extraction of top-level Rust items (functions,
//! structs, enums, impl blocks) from source text, with names, line ranges
//! and the item's own text.

use vstd::prelude::*;

use crate::strutil::{
    after_first, before_first, chars_of, contains_spec, copy_range, find_sub,
    join_char, join_char_spec, lemma_sum_lens_nonneg, lemma_sum_lens_take_bound,
    lemma_sum_lens_take_succ, lemma_lines_sum_bound, lines_spec, split_lines, starts_with,
    starts_with_spec, string_of, sum_lens, trim, trim_spec,
};

verus! {

#[derive(Debug, Clone, Copy, PartialEq, Eq, Structural)]
pub enum ChunkType {
    Function,
    Struct,
    Enum,
    Impl,
    Module,
    Const,
    Static,
    Type,
}

#[derive(Debug, Clone)]
pub struct CodeChunk {
    pub chunk_type: ChunkType,
    pub name: String,
    pub code: String,
    pub start_line: usize,
    pub end_line: usize,
    pub file_path: String,
}

/// Ghost image of a `CodeChunk`, for contracts.
pub ghost struct ChunkView {
    pub chunk_type: ChunkType,
    pub name: Seq<char>,
    pub code: Seq<char>,
    pub start_line: int,
    pub end_line: int,
    pub file_path: Seq<char>,
}

pub open spec fn chunk_view(c: CodeChunk) -> ChunkView {
    ChunkView {
        chunk_type: c.chunk_type,
        name: c.name@,
        code: c.code@,
        start_line: c.start_line as int,
        end_line: c.end_line as int,
        file_path: c.file_path@,
    }
}

pub struct CodeChunker;

/// Running brace state: open braces minus closed ones, and whether an
/// opening brace has been seen at all.
pub ghost struct BraceState {
    pub cnt: int,
    pub found: bool,
}

pub open spec fn step_char(st: BraceState, c: char) -> BraceState {
    if c == '{' {
        BraceState { cnt: st.cnt + 1, found: true }
    } else if c == '}' {
        BraceState { cnt: st.cnt - 1, found: st.found }
    } else {
        st
    }
}

/// This closing brace returns the count to zero after an opening was seen.
pub open spec fn closes(st: BraceState, c: char) -> bool {
    c == '}' && st.found && st.cnt == 1
}

/// The state in which a block scan begins.
pub open spec fn init_brace() -> BraceState {
    BraceState { cnt: 0, found: false }
}

/// Scans one line from position `j`: None when the block closes on this
/// line, else the state after the line.
pub open spec fn scan_line_from(cs: Seq<char>, j: int, st: BraceState) -> Option<BraceState>
    decreases cs.len() - j,
{
    if j < 0 || j >= cs.len() {
        Some(st)
    } else if closes(st, cs[j]) {
        None
    } else {
        scan_line_from(cs, j + 1, step_char(st, cs[j]))
    }
}

/// Index of the line on which the block that starts in state `st` at line
/// `i` closes, if it closes at all.
pub open spec fn find_block_end_spec(ls: Seq<Seq<char>>, i: int, st: BraceState) -> Option<int>
    decreases ls.len() - i,
{
    if i < 0 || i >= ls.len() {
        None
    } else {
        match scan_line_from(ls[i], 0, st) {
            None => Some(i),
            Some(st2) => find_block_end_spec(ls, i + 1, st2),
        }
    }
}

pub proof fn lemma_find_block_end_bounds(ls: Seq<Seq<char>>, i: int, st: BraceState)
    requires
        0 <= i,
    ensures
        find_block_end_spec(ls, i, st) matches Some(e) ==> i <= e < ls.len(),
    decreases ls.len() - i,
{
    if 0 <= i < ls.len() {
        match scan_line_from(ls[i], 0, st) {
            None => {},
            Some(st2) => {
                lemma_find_block_end_bounds(ls, i + 1, st2);
            },
        }
    }
}

} // verus!

verus! {

/// Ghost image of one extracted block before it becomes a chunk.
pub ghost struct BlockView {
    pub name: Seq<char>,
    pub start_line: int,
    pub end_line: int,
    pub code: Seq<char>,
}

/// The function name on a declaration line: what stands between "fn " and
/// the parameter list.
pub open spec fn fn_name_spec(l: Seq<char>) -> Seq<char> {
    let t = trim_spec(l);
    if contains_spec(t, "fn "@) {
        let after = after_first(t, "fn "@);
        if contains_spec(after, "("@) {
            trim_spec(before_first(after, "("@))
        } else {
            "unnamed"@
        }
    } else {
        "unnamed"@
    }
}

/// A character that ends an item name.
pub open spec fn is_name_end(c: char) -> bool {
    c == ' ' || c == '{' || c == '<'
}

pub open spec fn name_end_from(s: Seq<char>, j: int) -> int
    decreases s.len() - j,
{
    if j < 0 || j >= s.len() {
        s.len() as int
    } else if is_name_end(s[j]) {
        j
    } else {
        name_end_from(s, j + 1)
    }
}

/// The item name on a declaration line: what follows the keyword, up to a
/// space, opening brace or generic bracket.
pub open spec fn block_name_spec(l: Seq<char>, kw: Seq<char>) -> Seq<char> {
    let t = trim_spec(l);
    if contains_spec(t, kw) {
        let after = after_first(t, kw);
        trim_spec(after.take(name_end_from(after, 0)))
    } else {
        "unnamed"@
    }
}

/// The block starting at line `i`, with the given name: its one-based line
/// range and its text, lines joined by newlines.
pub open spec fn block_at(ls: Seq<Seq<char>>, i: int, name: Seq<char>) -> Option<BlockView> {
    match find_block_end_spec(ls, i, init_brace()) {
        Some(e) => Some(
            BlockView {
                name,
                start_line: i + 1,
                end_line: e + 1,
                code: join_char_spec(ls.subrange(i, e + 1), '\n'),
            },
        ),
        None => None,
    }
}

pub open spec fn fn_block_at(ls: Seq<Seq<char>>, i: int) -> Option<BlockView> {
    block_at(ls, i, fn_name_spec(ls[i]))
}

impl CodeChunker {
    pub fn new() -> (r: Result<Self, String>)
        ensures
            r is Ok,
    {
        Ok(CodeChunker)
    }
}

/// Index of the line where the block beginning at line `start` closes.
fn find_block_end(lines: &Vec<Vec<char>>, start: usize) -> (r: Option<usize>)
    requires
        sum_lens(lines.deep_view()) <= usize::MAX,
    ensures
        match r {
            Some(e) => find_block_end_spec(lines.deep_view(), start as int, init_brace()) == Some(
                e as int,
            ) && start <= e < lines@.len(),
            None => find_block_end_spec(lines.deep_view(), start as int, init_brace()) is None,
        },
{
    let ghost lv = lines.deep_view();
    let n = lines.len();
    let mut opens: usize = 0;
    let mut closed: usize = 0;
    let mut found = false;
    let mut i: usize = start;
    if start >= n {
        return None;
    }
    proof {
        lemma_sum_lens_nonneg(lv.take(start as int));
        lemma_sum_lens_take_bound(lv, start as int);
    }
    while i < n
        invariant
            start <= i <= n,
            n == lines@.len(),
            n == lv.len(),
            lv == lines.deep_view(),
            sum_lens(lv) <= usize::MAX,
            opens <= sum_lens(lv.take(i as int)),
            closed <= sum_lens(lv.take(i as int)),
            find_block_end_spec(lv, start as int, init_brace()) == find_block_end_spec(
                lv,
                i as int,
                (BraceState { cnt: opens - closed, found }),
            ),
        decreases n - i,
    {
        let cs = &lines[i];
        let m = cs.len();
        let mut j: usize = 0;
        let ghost st_in = BraceState { cnt: opens - closed, found };
        proof {
            assert(cs@ == lv[i as int]);
            lemma_sum_lens_take_succ(lv, i as int);
            lemma_sum_lens_take_bound(lv, i + 1 as int);
        }
        while j < m
            invariant
                0 <= j <= m,
                m == cs@.len(),
                cs@ == lv[i as int],
                0 <= i < n,
                n == lv.len(),
                lv == lines.deep_view(),
                sum_lens(lv) <= usize::MAX,
                opens <= sum_lens(lv.take(i as int)) + j,
                closed <= sum_lens(lv.take(i as int)) + j,
                sum_lens(lv.take(i as int)) + m <= sum_lens(lv),
                find_block_end_spec(lv, start as int, init_brace()) == find_block_end_spec(
                    lv,
                    i as int,
                    st_in,
                ),
                start <= i,
                scan_line_from(cs@, 0, st_in) == scan_line_from(
                    cs@,
                    j as int,
                    (BraceState { cnt: opens - closed, found }),
                ),
            decreases m - j,
        {
            let c = cs[j];
            let ghost cur = BraceState { cnt: opens - closed, found };
            if c == '}' && found && opens >= closed && opens - closed == 1 {
                proof {
                    assert(closes(cur, cs@[j as int]));
                    assert(scan_line_from(cs@, j as int, cur) is None);
                    assert(scan_line_from(cs@, 0, st_in) is None);
                    assert(scan_line_from(lv[i as int], 0, st_in) is None);
                    assert(find_block_end_spec(lv, i as int, st_in) == Some(i as int));
                    assert(find_block_end_spec(lv, start as int, init_brace()) == Some(
                        i as int,
                    ));
                    assert(start <= i < lines@.len());
                }
                return Some(i);
            }
            proof {
                assert(!closes(cur, cs@[j as int]));
                assert(scan_line_from(cs@, j as int, cur) == scan_line_from(
                    cs@,
                    j + 1 as int,
                    step_char(cur, cs@[j as int]),
                ));
            }
            if c == '{' {
                opens += 1;
                found = true;
            } else if c == '}' {
                closed += 1;
            }
            j += 1;
        }
        proof {
            assert(scan_line_from(cs@, m as int, (BraceState { cnt: opens - closed, found }))
                == Some(BraceState { cnt: opens - closed, found }));
            assert(find_block_end_spec(lv, i as int, st_in) == find_block_end_spec(
                lv,
                i + 1 as int,
                (BraceState { cnt: opens - closed, found }),
            ));
        }
        i += 1;
    }
    None
}

/// Name, one-based line range, and text of the function block at
/// `start_idx`, if its braces close.
impl CodeChunker {
    pub fn extract_function_block(&self, lines: &Vec<Vec<char>>, start_idx: usize) -> (r: Option<
        (String, usize, usize, String),
    >)
        requires
            start_idx < lines@.len(),
            sum_lens(lines.deep_view()) <= usize::MAX,
        ensures
            match r {
                Some(t) => fn_block_at(lines.deep_view(), start_idx as int) matches Some(b)
                    && t.0@ == b.name && t.1 == b.start_line && t.2 == b.end_line && t.3@ == b.code,
                None => fn_block_at(lines.deep_view(), start_idx as int) is None,
            },
    {
        let ghost lv = lines.deep_view();
        let n = lines.len();
        proof {
            assert(n == lv.len());
        }
        let end = match find_block_end(lines, start_idx) {
            Some(e) => e,
            None => {
                return None;
            },
        };
        let line = &lines[start_idx];
        proof {
            assert(line@ == lv[start_idx as int]);
        }
        let t = trim(line);
        let fn_pat = chars_of("fn ");
        let paren_pat = chars_of("(");
        let namev = match find_sub(&t, &fn_pat) {
            Some(_) => {
                let after = crate::strutil::after_first_ex(&t, &fn_pat);
                match find_sub(&after, &paren_pat) {
                    Some(_) => {
                        let before = crate::strutil::before_first_ex(&after, &paren_pat);
                        trim(&before)
                    },
                    None => chars_of("unnamed"),
                }
            },
            None => chars_of("unnamed"),
        };
        proof {
            assert(namev@ == fn_name_spec(lv[start_idx as int]));
        }
        let code = join_range(lines, start_idx, end);
        let name = string_of(&namev);
        Some((name, start_idx + 1, end + 1, code))
    }
}

/// The lines `lo..=hi`, joined with newlines.
fn join_range(lines: &Vec<Vec<char>>, lo: usize, hi: usize) -> (r: String)
    requires
        lo <= hi < lines@.len(),
    ensures
        r@ == join_char_spec(lines.deep_view().subrange(lo as int, hi + 1 as int), '\n'),
{
    let ghost lv = lines.deep_view();
    let n = lines.len();
    proof {
        assert(n == lv.len());
    }
    let mut sub: Vec<Vec<char>> = Vec::new();
    let mut k: usize = lo;
    proof {
        assert(sub.deep_view() =~~= lv.subrange(lo as int, lo as int));
    }
    while k <= hi
        invariant
            lo <= k <= hi + 1,
            hi < n,
            n == lines@.len(),
            hi < lv.len(),
            lv == lines.deep_view(),
            sub.deep_view() == lv.subrange(lo as int, k as int),
        decreases hi + 1 - k,
    {
        let ghost prev = sub.deep_view();
        let piece = copy_range(&lines[k], 0, lines[k].len());
        proof {
            assert(lines@[k as int]@ == lv[k as int]);
            assert(piece@ == lv[k as int]);
        }
        sub.push(piece);
        proof {
            assert(sub.deep_view() =~~= prev.push(piece@));
            assert(prev.push(lv[k as int]) =~= lv.subrange(lo as int, k + 1 as int));
        }
        k += 1;
    }
    let joined = join_char(&sub, '\n');
    string_of(&joined)
}

} // verus!

verus! {

impl CodeChunker {
    /// Name, one-based line range, and text of the block (struct, enum or
    /// impl) that starts at `start_idx`, if its braces close.
    pub fn extract_block(&self, lines: &Vec<Vec<char>>, start_idx: usize, block_type: &str) -> (r:
        Option<(String, usize, usize, String)>)
        requires
            start_idx < lines@.len(),
            sum_lens(lines.deep_view()) <= usize::MAX,
        ensures
            match r {
                Some(t) => block_at(
                    lines.deep_view(),
                    start_idx as int,
                    block_name_spec(lines.deep_view()[start_idx as int], block_type@ + seq![' ']),
                ) matches Some(b) && t.0@ == b.name && t.1 == b.start_line && t.2 == b.end_line
                    && t.3@ == b.code,
                None => block_at(
                    lines.deep_view(),
                    start_idx as int,
                    block_name_spec(lines.deep_view()[start_idx as int], block_type@ + seq![' ']),
                ) is None,
            },
    {
        let ghost lv = lines.deep_view();
        let n = lines.len();
        proof {
            assert(n == lv.len());
        }
        let end = match find_block_end(lines, start_idx) {
            Some(e) => e,
            None => {
                return None;
            },
        };
        let line = &lines[start_idx];
        proof {
            assert(line@ == lv[start_idx as int]);
        }
        let t = trim(line);
        let mut kw = chars_of(block_type);
        kw.push(' ');
        proof {
            assert(kw@ =~= block_type@ + seq![' ']);
        }
        let namev = match find_sub(&t, &kw) {
            Some(_) => {
                let after = crate::strutil::after_first_ex(&t, &kw);
                let alen = after.len();
                let mut e: usize = 0;
                while e < alen && !(after[e] == ' ' || after[e] == '{' || after[e] == '<')
                    invariant
                        0 <= e <= alen,
                        alen == after@.len(),
                        name_end_from(after@, 0) == name_end_from(after@, e as int),
                    decreases alen - e,
                {
                    e += 1;
                }
                proof {
                    assert(name_end_from(after@, e as int) == e as int);
                }
                let head = copy_range(&after, 0, e);
                proof {
                    assert(head@ =~= after@.take(name_end_from(after@, 0)));
                }
                trim(&head)
            },
            None => chars_of("unnamed"),
        };
        proof {
            assert(namev@ == block_name_spec(lv[start_idx as int], block_type@ + seq![' ']));
        }
        let code = join_range(lines, start_idx, end);
        let name = string_of(&namev);
        Some((name, start_idx + 1, end + 1, code))
    }
}

/// The declaration-line test for each kind of chunk the walker extracts.
pub open spec fn kind_matches(k: ChunkType, l: Seq<char>) -> bool {
    let t = trim_spec(l);
    match k {
        ChunkType::Function => starts_with_spec(t, "fn "@) || starts_with_spec(t, "pub fn "@)
            || starts_with_spec(t, "async fn "@) || starts_with_spec(t, "pub async fn "@),
        ChunkType::Struct => starts_with_spec(t, "struct "@) || starts_with_spec(
            t,
            "pub struct "@,
        ),
        ChunkType::Enum => starts_with_spec(t, "enum "@) || starts_with_spec(t, "pub enum "@),
        ChunkType::Impl => starts_with_spec(t, "impl "@),
        _ => false,
    }
}

/// The name read off a matching declaration line, per kind.
pub open spec fn kind_name(k: ChunkType, l: Seq<char>) -> Seq<char> {
    match k {
        ChunkType::Function => fn_name_spec(l),
        ChunkType::Struct => block_name_spec(l, "struct"@ + seq![' ']),
        ChunkType::Enum => block_name_spec(l, "enum"@ + seq![' ']),
        ChunkType::Impl => block_name_spec(l, "impl"@ + seq![' ']),
        _ => Seq::empty(),
    }
}

pub open spec fn kind_supported(k: ChunkType) -> bool {
    k is Function || k is Struct || k is Enum || k is Impl
}

pub open spec fn cv_of(k: ChunkType, b: BlockView, path: Seq<char>) -> ChunkView {
    ChunkView {
        chunk_type: k,
        name: b.name,
        code: b.code,
        start_line: b.start_line,
        end_line: b.end_line,
        file_path: path,
    }
}

/// The chunks of one kind found at or after line `i`: each matching
/// declaration line opens a block; when the block closes, the walk resumes
/// on the line after its last one.
pub open spec fn chunks_from(ls: Seq<Seq<char>>, path: Seq<char>, i: int, k: ChunkType) -> Seq<
    ChunkView,
>
    decreases ls.len() - i,
    via chunks_from_dec
{
    if i < 0 || i >= ls.len() {
        Seq::empty()
    } else if kind_matches(k, ls[i]) {
        match block_at(ls, i, kind_name(k, ls[i])) {
            Some(b) => seq![cv_of(k, b, path)] + chunks_from(ls, path, b.end_line, k),
            None => chunks_from(ls, path, i + 1, k),
        }
    } else {
        chunks_from(ls, path, i + 1, k)
    }
}

#[via_fn]
proof fn chunks_from_dec(ls: Seq<Seq<char>>, path: Seq<char>, i: int, k: ChunkType) {
    if 0 <= i < ls.len() {
        lemma_find_block_end_bounds(ls, i, init_brace());
    }
}

/// All chunks of all kinds, in the order the walker emits them: functions,
/// then structs, then enums, then impl blocks.
pub open spec fn chunk_code_spec(src: Seq<char>, path: Seq<char>) -> Seq<ChunkView> {
    let ls = lines_spec(src);
    chunks_from(ls, path, 0, ChunkType::Function) + chunks_from(ls, path, 0, ChunkType::Struct)
        + chunks_from(ls, path, 0, ChunkType::Enum) + chunks_from(ls, path, 0, ChunkType::Impl)
}

} // verus!

verus! {

/// Whether the line opens an item of the given kind.
fn kind_line_matches(kind: ChunkType, line: &Vec<char>) -> (r: bool)
    requires
        kind_supported(kind),
    ensures
        r == kind_matches(kind, line@),
{
    let t = trim(line);
    match kind {
        ChunkType::Function => {
            let p1 = chars_of("fn ");
            let p2 = chars_of("pub fn ");
            let p3 = chars_of("async fn ");
            let p4 = chars_of("pub async fn ");
            starts_with(&t, &p1) || starts_with(&t, &p2) || starts_with(&t, &p3) || starts_with(
                &t,
                &p4,
            )
        },
        ChunkType::Struct => {
            let p1 = chars_of("struct ");
            let p2 = chars_of("pub struct ");
            starts_with(&t, &p1) || starts_with(&t, &p2)
        },
        ChunkType::Enum => {
            let p1 = chars_of("enum ");
            let p2 = chars_of("pub enum ");
            starts_with(&t, &p1) || starts_with(&t, &p2)
        },
        ChunkType::Impl => {
            let p1 = chars_of("impl ");
            starts_with(&t, &p1)
        },
        _ => {
            proof {
                assert(false);
            }
            false
        },
    }
}

impl CodeChunker {
    /// The walk for one kind: every matching line yields a chunk when its
    /// block closes, and the walk resumes after the block.
    fn extract_kind(
        &self,
        lines: &Vec<Vec<char>>,
        file_path: &str,
        kind: ChunkType,
        chunks: &mut Vec<CodeChunk>,
    )
        requires
            kind_supported(kind),
            sum_lens(lines.deep_view()) <= usize::MAX,
        ensures
            final (chunks)@.map_values(|c: CodeChunk| chunk_view(c)) == old(chunks)@.map_values(
                |c: CodeChunk| chunk_view(c),
            ) + chunks_from(lines.deep_view(), file_path@, 0, kind),
    {
        let ghost lv = lines.deep_view();
        let ghost base = old(chunks)@.map_values(|c: CodeChunk| chunk_view(c));
        let n = lines.len();
        let mut i: usize = 0;
        proof {
            assert(n == lv.len());
            assert(base + chunks_from(lv, file_path@, 0, kind) =~= base + chunks_from(
                lv,
                file_path@,
                0,
                kind,
            ));
        }
        while i < n
            invariant
                0 <= i <= n,
                n == lines@.len(),
                n == lv.len(),
                lv == lines.deep_view(),
                kind_supported(kind),
                sum_lens(lv) <= usize::MAX,
                base + chunks_from(lv, file_path@, 0, kind) == chunks@.map_values(
                    |c: CodeChunk| chunk_view(c),
                ) + chunks_from(lv, file_path@, i as int, kind),
            decreases n - i,
        {
            let ghost prev = chunks@.map_values(|c: CodeChunk| chunk_view(c));
            let line = &lines[i];
            proof {
                assert(line@ == lv[i as int]);
            }
            if kind_line_matches(kind, line) {
                let blk = match kind {
                    ChunkType::Function => self.extract_function_block(lines, i),
                    ChunkType::Struct => self.extract_block(lines, i, "struct"),
                    ChunkType::Enum => self.extract_block(lines, i, "enum"),
                    ChunkType::Impl => self.extract_block(lines, i, "impl"),
                    _ => {
                        proof {
                            assert(false);
                        }
                        None
                    },
                };
                proof {
                    lemma_find_block_end_bounds(lv, i as int, init_brace());
                }
                match blk {
                    Some(t) => {
                        let (name, sl, el, code) = t;
                        let ghost b = block_at(lv, i as int, kind_name(kind, lv[i as int]))
                            .unwrap();
                        let c = CodeChunk {
                            chunk_type: kind,
                            name,
                            code,
                            start_line: sl,
                            end_line: el,
                            file_path: String::from_str(file_path),
                        };
                        proof {
                            assert(chunk_view(c) == cv_of(kind, b, file_path@));
                            assert(chunks_from(lv, file_path@, i as int, kind) == seq![
                                cv_of(kind, b, file_path@),
                            ] + chunks_from(lv, file_path@, b.end_line, kind));
                        }
                        chunks.push(c);
                        proof {
                            assert(chunks@.map_values(|c: CodeChunk| chunk_view(c)) =~= prev.push(
                                cv_of(kind, b, file_path@),
                            ));
                            assert(prev.push(cv_of(kind, b, file_path@)) =~= prev + seq![
                                cv_of(kind, b, file_path@),
                            ]);
                            assert((prev + seq![cv_of(kind, b, file_path@)]) + chunks_from(
                                lv,
                                file_path@,
                                b.end_line,
                                kind,
                            ) =~= prev + (seq![cv_of(kind, b, file_path@)] + chunks_from(
                                lv,
                                file_path@,
                                b.end_line,
                                kind,
                            )));
                        }
                        i = el;
                    },
                    None => {
                        proof {
                            assert(chunks_from(lv, file_path@, i as int, kind) == chunks_from(
                                lv,
                                file_path@,
                                i + 1 as int,
                                kind,
                            ));
                        }
                        i += 1;
                    },
                }
            } else {
                proof {
                    assert(chunks_from(lv, file_path@, i as int, kind) == chunks_from(
                        lv,
                        file_path@,
                        i + 1 as int,
                        kind,
                    ));
                }
                i += 1;
            }
        }
        proof {
            assert(chunks_from(lv, file_path@, n as int, kind) =~= Seq::<ChunkView>::empty());
            assert(chunks@.map_values(|c: CodeChunk| chunk_view(c)) + Seq::<ChunkView>::empty()
                =~= chunks@.map_values(|c: CodeChunk| chunk_view(c)));
        }
    }

    /// Appends every function chunk of the source text.
    pub fn extract_functions_regex(
        &self,
        source_code: &str,
        file_path: &str,
        chunks: &mut Vec<CodeChunk>,
    )
        ensures
            final (chunks)@.map_values(|c: CodeChunk| chunk_view(c)) == old(chunks)@.map_values(
                |c: CodeChunk| chunk_view(c),
            ) + chunks_from(lines_spec(source_code@), file_path@, 0, ChunkType::Function),
    {
        let cs = chars_of(source_code);
        let total = cs.len();
        let ls = split_lines(&cs);
        proof {
            lemma_lines_sum_bound(cs@);
        }
        self.extract_kind(&ls, file_path, ChunkType::Function, chunks);
    }

    /// Appends every struct chunk of the source text.
    pub fn extract_structs_regex(
        &self,
        source_code: &str,
        file_path: &str,
        chunks: &mut Vec<CodeChunk>,
    )
        ensures
            final (chunks)@.map_values(|c: CodeChunk| chunk_view(c)) == old(chunks)@.map_values(
                |c: CodeChunk| chunk_view(c),
            ) + chunks_from(lines_spec(source_code@), file_path@, 0, ChunkType::Struct),
    {
        let cs = chars_of(source_code);
        let total = cs.len();
        let ls = split_lines(&cs);
        proof {
            lemma_lines_sum_bound(cs@);
        }
        self.extract_kind(&ls, file_path, ChunkType::Struct, chunks);
    }

    /// Appends every enum chunk of the source text.
    pub fn extract_enums_regex(
        &self,
        source_code: &str,
        file_path: &str,
        chunks: &mut Vec<CodeChunk>,
    )
        ensures
            final (chunks)@.map_values(|c: CodeChunk| chunk_view(c)) == old(chunks)@.map_values(
                |c: CodeChunk| chunk_view(c),
            ) + chunks_from(lines_spec(source_code@), file_path@, 0, ChunkType::Enum),
    {
        let cs = chars_of(source_code);
        let total = cs.len();
        let ls = split_lines(&cs);
        proof {
            lemma_lines_sum_bound(cs@);
        }
        self.extract_kind(&ls, file_path, ChunkType::Enum, chunks);
    }

    /// Appends every impl-block chunk of the source text.
    pub fn extract_impls_regex(
        &self,
        source_code: &str,
        file_path: &str,
        chunks: &mut Vec<CodeChunk>,
    )
        ensures
            final (chunks)@.map_values(|c: CodeChunk| chunk_view(c)) == old(chunks)@.map_values(
                |c: CodeChunk| chunk_view(c),
            ) + chunks_from(lines_spec(source_code@), file_path@, 0, ChunkType::Impl),
    {
        let cs = chars_of(source_code);
        let total = cs.len();
        let ls = split_lines(&cs);
        proof {
            lemma_lines_sum_bound(cs@);
        }
        self.extract_kind(&ls, file_path, ChunkType::Impl, chunks);
    }

    /// Every function, struct, enum and impl chunk of the source text, in
    /// that order of kinds; the walk itself cannot fail.
    pub fn chunk_code(&self, source_code: &str, file_path: &str) -> (r: Result<
        Vec<CodeChunk>,
        String,
    >)
        ensures
            r matches Ok(cs) && cs@.map_values(|c: CodeChunk| chunk_view(c)) == chunk_code_spec(
                source_code@,
                file_path@,
            ),
    {
        let mut chunks: Vec<CodeChunk> = Vec::new();
        proof {
            assert(chunks@.map_values(|c: CodeChunk| chunk_view(c)) =~= Seq::<ChunkView>::empty());
        }
        self.extract_functions_regex(source_code, file_path, &mut chunks);
        self.extract_structs_regex(source_code, file_path, &mut chunks);
        self.extract_enums_regex(source_code, file_path, &mut chunks);
        self.extract_impls_regex(source_code, file_path, &mut chunks);
        proof {
            let ls = lines_spec(source_code@);
            let p = file_path@;
            assert(chunks@.map_values(|c: CodeChunk| chunk_view(c)) =~= chunks_from(
                ls,
                p,
                0,
                ChunkType::Function,
            ) + chunks_from(ls, p, 0, ChunkType::Struct) + chunks_from(ls, p, 0, ChunkType::Enum)
                + chunks_from(ls, p, 0, ChunkType::Impl));
        }
        Ok(chunks)
    }
}

} // verus!
