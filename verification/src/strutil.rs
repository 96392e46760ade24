//! Verified text helpers: conversion between `String` and `Vec<char>`,
//! substring search, trimming, splitting, and decimal parsing/printing.
//! Every other module states its contracts over the spec functions here.

use vstd::prelude::*;

verus! {

/// ASCII decimal digit.
pub open spec fn is_digit(c: char) -> bool {
    48 <= c as u32 && c as u32 <= 57
}

/// ASCII whitespace: the set the trimming and splitting helpers treat as blank.
pub open spec fn is_space(c: char) -> bool {
    c == ' ' || c == '\t' || c == '\n' || c == '\r' || c == '\u{b}' || c == '\u{c}'
}

pub fn digit_char(c: char) -> (r: bool)
    ensures
        r == is_digit(c),
{
    let u = c as u32;
    48 <= u && u <= 57
}

pub fn space_char(c: char) -> (r: bool)
    ensures
        r == is_space(c),
{
    c == ' ' || c == '\t' || c == '\n' || c == '\r' || c == '\u{b}' || c == '\u{c}'
}

/// Relies on String::push: appends exactly the given character.
#[verifier::external_body]
pub fn push_char(s: &mut String, c: char)
    ensures
        final(s)@ == old(s)@.push(c),
{
    s.push(c);
}

/// The characters of a string slice, as a vector.
pub fn chars_of(s: &str) -> (r: Vec<char>)
    ensures
        r@ == s@,
{
    let n = s.unicode_len();
    let mut v: Vec<char> = Vec::new();
    let mut i: usize = 0;
    while i < n
        invariant
            i <= n,
            n == s@.len(),
            v@ == s@.take(i as int),
        decreases n - i,
    {
        let c = s.get_char(i);
        v.push(c);
        proof {
            assert(s@.take(i + 1 as int) =~= s@.take(i as int).push(s@[i as int]));
        }
        i += 1;
    }
    proof {
        assert(s@.take(n as int) =~= s@);
    }
    v
}

/// A freshly allocated string with exactly the given characters.
pub fn string_of(v: &Vec<char>) -> (r: String)
    ensures
        r@ == v@,
{
    let mut s = String::new();
    let mut i: usize = 0;
    while i < v.len()
        invariant
            i <= v@.len(),
            s@ == v@.take(i as int),
        decreases v@.len() - i,
    {
        push_char(&mut s, v[i]);
        proof {
            assert(v@.take(i + 1 as int) =~= v@.take(i as int).push(v@[i as int]));
        }
        i += 1;
    }
    proof {
        assert(v@.take(v@.len() as int) =~= v@);
    }
    s
}

/// The pattern `p` occurs in `s` at position `i`.
pub open spec fn match_at_spec(s: Seq<char>, p: Seq<char>, i: int) -> bool {
    0 <= i && i + p.len() <= s.len() && s.subrange(i, i + p.len()) == p
}

/// Position of the first occurrence of `p` in `s` at or after `from`.
pub open spec fn find_from_spec(s: Seq<char>, p: Seq<char>, from: int) -> Option<int>
    decreases s.len() + p.len() - from,
{
    if from < 0 || from + p.len() > s.len() {
        None
    } else if p.len() == 0 || s.subrange(from, from + p.len()) == p {
        Some(from)
    } else {
        find_from_spec(s, p, from + 1)
    }
}

/// Position of the first occurrence of `p` in `s`, if any.
pub open spec fn find_spec(s: Seq<char>, p: Seq<char>) -> Option<int> {
    find_from_spec(s, p, 0)
}

pub open spec fn contains_spec(s: Seq<char>, p: Seq<char>) -> bool {
    find_spec(s, p) is Some
}

pub open spec fn starts_with_spec(s: Seq<char>, p: Seq<char>) -> bool {
    p.len() <= s.len() && s.subrange(0, p.len() as int) == p
}

pub open spec fn ends_with_spec(s: Seq<char>, p: Seq<char>) -> bool {
    p.len() <= s.len() && s.subrange(s.len() - p.len(), s.len() as int) == p
}

/// A found position is a match, and is the first one at or after `from`.
pub proof fn lemma_find_from_found(s: Seq<char>, p: Seq<char>, from: int)
    requires
        0 <= from,
    ensures
        match find_from_spec(s, p, from) {
            Some(i) => match_at_spec(s, p, i) && from <= i && (forall|j: int|
                from <= j < i ==> !match_at_spec(s, p, j)),
            None => forall|j: int| from <= j ==> !match_at_spec(s, p, j),
        },
    decreases s.len() + p.len() - from,
{
    if from + p.len() > s.len() {
    } else if p.len() == 0 || s.subrange(from, from + p.len()) == p {
        assert(s.subrange(from, from + p.len()) =~= p) by {
            if p.len() == 0 {
            }
        }
    } else {
        lemma_find_from_found(s, p, from + 1);
    }
}

/// Whether `p` occurs in `s` exactly at position `i`.
pub fn match_at(s: &Vec<char>, p: &Vec<char>, i: usize) -> (r: bool)
    requires
        i + p@.len() <= s@.len(),
    ensures
        r == match_at_spec(s@, p@, i as int),
{
    let n = s.len();
    let plen = p.len();
    let mut j: usize = 0;
    while j < plen
        invariant
            j <= plen,
            plen == p@.len(),
            n == s@.len(),
            i + plen <= n,
            s@.subrange(i as int, i + j) =~= p@.take(j as int),
        decreases plen - j,
    {
        if s[i + j] != p[j] {
            proof {
                assert(s@.subrange(i as int, i + p@.len())[j as int] != p@[j as int]);
            }
            return false;
        }
        proof {
            assert(s@.subrange(i as int, i + j + 1) =~= s@.subrange(i as int, i + j).push(
                s@[i + j],
            ));
            assert(p@.take(j + 1 as int) =~= p@.take(j as int).push(p@[j as int]));
        }
        j += 1;
    }
    proof {
        assert(p@.take(p@.len() as int) =~= p@);
    }
    true
}

/// First occurrence of `p` in `s` at or after `from`, by linear scan.
pub fn find_sub_from(s: &Vec<char>, p: &Vec<char>, from: usize) -> (r: Option<usize>)
    ensures
        match r {
            Some(i) => find_from_spec(s@, p@, from as int) == Some(i as int),
            None => find_from_spec(s@, p@, from as int) is None,
        },
{
    let n = s.len();
    let plen = p.len();
    if plen > n {
        return None;
    }
    if plen == 0 {
        if from <= n {
            return Some(from);
        } else {
            return None;
        }
    }
    let last = n - plen;
    let mut i: usize = from;
    while i <= last
        invariant
            n == s@.len(),
            plen == p@.len(),
            1 <= plen,
            last == n - plen,
            find_from_spec(s@, p@, from as int) == find_from_spec(s@, p@, i as int),
        decreases last + 1 - i,
    {
        if match_at(s, p, i) {
            return Some(i);
        }
        proof {
            assert(find_from_spec(s@, p@, i as int) == find_from_spec(s@, p@, i + 1 as int));
        }
        i += 1;
    }
    None
}

/// First occurrence of `p` in `s`.
pub fn find_sub(s: &Vec<char>, p: &Vec<char>) -> (r: Option<usize>)
    ensures
        match r {
            Some(i) => find_spec(s@, p@) == Some(i as int),
            None => find_spec(s@, p@) is None,
        },
{
    find_sub_from(s, p, 0)
}

pub fn contains_sub(s: &Vec<char>, p: &Vec<char>) -> (r: bool)
    ensures
        r == contains_spec(s@, p@),
{
    match find_sub(s, p) {
        Some(_) => true,
        None => false,
    }
}

pub fn starts_with(s: &Vec<char>, p: &Vec<char>) -> (r: bool)
    ensures
        r == starts_with_spec(s@, p@),
{
    if p.len() > s.len() {
        return false;
    }
    match_at(s, p, 0)
}

pub fn ends_with(s: &Vec<char>, p: &Vec<char>) -> (r: bool)
    ensures
        r == ends_with_spec(s@, p@),
{
    if p.len() > s.len() {
        return false;
    }
    let i = s.len() - p.len();
    match_at(s, p, i)
}

/// Copy of `s[lo..hi]`.
pub fn copy_range(s: &Vec<char>, lo: usize, hi: usize) -> (r: Vec<char>)
    requires
        lo <= hi <= s@.len(),
    ensures
        r@ == s@.subrange(lo as int, hi as int),
{
    let mut v: Vec<char> = Vec::new();
    let mut i: usize = lo;
    while i < hi
        invariant
            lo <= i <= hi <= s@.len(),
            v@ == s@.subrange(lo as int, i as int),
        decreases hi - i,
    {
        v.push(s[i]);
        proof {
            assert(s@.subrange(lo as int, i + 1 as int) =~= s@.subrange(lo as int, i as int).push(
                s@[i as int],
            ));
        }
        i += 1;
    }
    v
}

} // verus!

verus! {

/// Both vectors hold the same characters.
pub fn seq_eq(a: &Vec<char>, b: &Vec<char>) -> (r: bool)
    ensures
        r == (a@ == b@),
{
    if a.len() != b.len() {
        proof {
            assert(a@.len() != b@.len());
        }
        return false;
    }
    let n = a.len();
    let mut i: usize = 0;
    while i < n
        invariant
            i <= n,
            n == a@.len(),
            n == b@.len(),
            a@.take(i as int) =~= b@.take(i as int),
        decreases n - i,
    {
        if a[i] != b[i] {
            proof {
                assert(a@.take(i + 1)[i as int] == a@[i as int]);
            }
            return false;
        }
        proof {
            assert(a@.take(i + 1 as int) =~= a@.take(i as int).push(a@[i as int]));
            assert(b@.take(i + 1 as int) =~= b@.take(i as int).push(b@[i as int]));
        }
        i += 1;
    }
    proof {
        assert(a@.take(n as int) =~= a@);
        assert(b@.take(n as int) =~= b@);
    }
    true
}

/// `s` without its leading ASCII whitespace.
pub open spec fn trim_start_spec(s: Seq<char>) -> Seq<char>
    decreases s.len(),
{
    if s.len() > 0 && is_space(s[0]) {
        trim_start_spec(s.drop_first())
    } else {
        s
    }
}

/// `s` without its trailing ASCII whitespace.
pub open spec fn trim_end_spec(s: Seq<char>) -> Seq<char>
    decreases s.len(),
{
    if s.len() > 0 && is_space(s.last()) {
        trim_end_spec(s.drop_last())
    } else {
        s
    }
}

/// `s` without leading and trailing ASCII whitespace.
pub open spec fn trim_spec(s: Seq<char>) -> Seq<char> {
    trim_end_spec(trim_start_spec(s))
}

proof fn lemma_trim_start_skip(s: Seq<char>, lo: int)
    requires
        0 <= lo <= s.len(),
        forall|j: int| 0 <= j < lo ==> is_space(s[j]),
    ensures
        trim_start_spec(s) == trim_start_spec(s.skip(lo)),
    decreases lo,
{
    if lo > 0 {
        assert(is_space(s[0]));
        assert(s.drop_first() =~= s.skip(1));
        lemma_trim_start_skip(s.skip(1), lo - 1);
        assert(s.skip(1).skip(lo - 1) =~= s.skip(lo));
    } else {
        assert(s.skip(0) =~= s);
    }
}

proof fn lemma_trim_end_take(s: Seq<char>, hi: int)
    requires
        0 <= hi <= s.len(),
        forall|j: int| hi <= j < s.len() ==> is_space(s[j]),
    ensures
        trim_end_spec(s) == trim_end_spec(s.take(hi)),
    decreases s.len() - hi,
{
    if hi < s.len() {
        assert(is_space(s.last()));
        assert(s.drop_last() =~= s.take(s.len() - 1));
        lemma_trim_end_take(s.take(s.len() - 1), hi);
        assert(s.take(s.len() - 1).take(hi) =~= s.take(hi));
    } else {
        assert(s.take(hi) =~= s);
    }
}

/// Copy of `s` with leading and trailing ASCII whitespace removed.
pub fn trim(s: &Vec<char>) -> (r: Vec<char>)
    ensures
        r@ == trim_spec(s@),
{
    let n = s.len();
    let mut lo: usize = 0;
    while lo < n && space_char(s[lo])
        invariant
            0 <= lo <= n,
            n == s@.len(),
            forall|j: int| 0 <= j < lo ==> is_space(s@[j]),
        decreases n - lo,
    {
        lo += 1;
    }
    proof {
        lemma_trim_start_skip(s@, lo as int);
        // past this point the head is fixed: trim_start_spec(s@) == s@.skip(lo)
        if lo < n {
            assert(!is_space(s@.skip(lo as int)[0]));
        }
        assert(trim_start_spec(s@.skip(lo as int)) == s@.skip(lo as int));
    }
    let mut hi: usize = n;
    while hi > lo && space_char(s[hi - 1])
        invariant
            lo <= hi <= n,
            n == s@.len(),
            forall|j: int| hi <= j < n ==> is_space(s@[j]),
        decreases hi,
    {
        hi -= 1;
    }
    proof {
        let t = s@.skip(lo as int);
        assert(forall|j: int| hi - lo <= j < t.len() ==> is_space(#[trigger] t[j]));
        lemma_trim_end_take(t, hi - lo);
        if hi > lo {
            assert(!is_space(t.take(hi - lo).last()));
        }
        assert(trim_end_spec(t.take(hi - lo)) == t.take(hi - lo));
        assert(t.take(hi - lo) =~= s@.subrange(lo as int, hi as int));
    }
    copy_range(s, lo, hi)
}

/// Copy of `s` with leading ASCII whitespace removed.
pub fn trim_start(s: &Vec<char>) -> (r: Vec<char>)
    ensures
        r@ == trim_start_spec(s@),
{
    let n = s.len();
    let mut lo: usize = 0;
    while lo < n && space_char(s[lo])
        invariant
            0 <= lo <= n,
            n == s@.len(),
            forall|j: int| 0 <= j < lo ==> is_space(s@[j]),
        decreases n - lo,
    {
        lo += 1;
    }
    proof {
        lemma_trim_start_skip(s@, lo as int);
        if lo < n {
            assert(!is_space(s@.skip(lo as int)[0]));
        }
        assert(trim_start_spec(s@.skip(lo as int)) == s@.skip(lo as int));
        assert(s@.skip(lo as int) =~= s@.subrange(lo as int, n as int));
    }
    copy_range(s, lo, n)
}

} // verus!

verus! {

/// Searching in `s` from `from` is searching in `s.skip(from)`, shifted.
pub proof fn lemma_find_shift(s: Seq<char>, p: Seq<char>, from: int)
    requires
        0 <= from <= s.len(),
    ensures
        find_from_spec(s, p, from) == match find_from_spec(s.skip(from), p, 0) {
            Some(k) => Some(k + from),
            None => None::<int>,
        },
    decreases s.len() - from,
{
    let t = s.skip(from);
    if from + p.len() > s.len() {
    } else if p.len() == 0 {
    } else if s.subrange(from, from + p.len()) == p {
        assert(t.subrange(0, p.len() as int) =~= s.subrange(from, from + p.len()));
    } else {
        assert(t.subrange(0, p.len() as int) =~= s.subrange(from, from + p.len()));
        lemma_find_shift(s, p, from + 1);
        lemma_find_shift(t, p, 1);
        assert(t.skip(1) =~= s.skip(from + 1));
    }
}

/// One trailing carriage return removed, as `str::lines` does to each
/// newline-terminated piece.
pub open spec fn strip_cr(l: Seq<char>) -> Seq<char> {
    if l.len() > 0 && l.last() == '\r' {
        l.drop_last()
    } else {
        l
    }
}

/// The lines of `s`: pieces split at '\n', one trailing '\r' stripped from
/// every piece that a '\n' closed, and a final empty remainder dropped.
pub open spec fn lines_spec(s: Seq<char>) -> Seq<Seq<char>>
    decreases s.len(),
    via lines_spec_dec
{
    if s.len() == 0 {
        Seq::empty()
    } else {
        match find_spec(s, seq!['\n']) {
            Some(i) => seq![strip_cr(s.take(i))] + lines_spec(s.skip(i + 1)),
            None => seq![s],
        }
    }
}

#[via_fn]
proof fn lines_spec_dec(s: Seq<char>) {
    if s.len() > 0 {
        lemma_find_from_found(s, seq!['\n'], 0);
    }
}

/// The lines of `s`, each as a fresh vector.
pub fn split_lines(s: &Vec<char>) -> (r: Vec<Vec<char>>)
    ensures
        r.deep_view() == lines_spec(s@),
{
    let n = s.len();
    let nl: Vec<char> = vec!['\n'];
    let mut r: Vec<Vec<char>> = Vec::new();
    let mut pos: usize = 0;
    proof {
        assert(s@.skip(0) =~= s@);
        assert(r.deep_view() + lines_spec(s@) =~= lines_spec(s@));
    }
    while pos < n
        invariant
            0 <= pos <= n,
            n == s@.len(),
            nl@ == seq!['\n'],
            lines_spec(s@) == r.deep_view() + lines_spec(s@.skip(pos as int)),
        decreases n - pos,
    {
        let ghost rest = s@.skip(pos as int);
        let ghost prev = r.deep_view();
        let found = find_sub_from(s, &nl, pos);
        proof {
            lemma_find_shift(s@, nl@, pos as int);
        }
        match found {
            Some(j) => {
                proof {
                    lemma_find_from_found(s@, nl@, pos as int);
                    assert(pos <= j < n);
                    assert(find_spec(rest, seq!['\n']) == Some(j - pos as int));
                    assert(rest.take(j - pos as int) =~= s@.subrange(pos as int, j as int));
                    assert(rest.skip(j - pos + 1 as int) =~= s@.skip(j + 1 as int));
                }
                let piece = if j > pos && s[j - 1] == '\r' {
                    let p = copy_range(s, pos, j - 1);
                    proof {
                        assert(s@.subrange(pos as int, j as int).last() == '\r');
                        assert(s@.subrange(pos as int, j as int).drop_last() =~= s@.subrange(
                            pos as int,
                            j - 1 as int,
                        ));
                    }
                    p
                } else {
                    let p = copy_range(s, pos, j);
                    proof {
                        if j > pos {
                            assert(s@.subrange(pos as int, j as int).last() == s@[j - 1 as int]);
                        }
                    }
                    p
                };
                proof {
                    assert(piece@ == strip_cr(rest.take(j - pos as int)));
                }
                r.push(piece);
                proof {
                    assert(r.deep_view() =~~= prev.push(piece@));
                    assert(lines_spec(rest) == seq![piece@] + lines_spec(s@.skip(j + 1 as int)));
                    assert(prev.push(piece@) =~= prev + seq![piece@]);
                    assert((prev + seq![piece@]) + lines_spec(s@.skip(j + 1 as int)) =~= prev + (
                    seq![piece@] + lines_spec(s@.skip(j + 1 as int))));
                }
                pos = j + 1;
            },
            None => {
                proof {
                    assert(find_spec(rest, seq!['\n']) is None);
                    assert(rest =~= s@.subrange(pos as int, n as int));
                    assert(lines_spec(rest) == seq![rest]);
                }
                let piece = copy_range(s, pos, n);
                r.push(piece);
                proof {
                    assert(r.deep_view() =~~= prev.push(piece@));
                    assert(prev.push(piece@) =~= prev + seq![rest]);
                    assert(s@.skip(n as int).len() == 0);
                }
                pos = n;
            },
        }
    }
    proof {
        assert(s@.skip(pos as int).len() == 0);
        assert(lines_spec(s@.skip(pos as int)) == Seq::<Seq<char>>::empty());
        assert(r.deep_view() + Seq::<Seq<char>>::empty() =~= r.deep_view());
    }
    r
}

} // verus!

verus! {

/// Pieces of `s` split at every occurrence of `sep`; a trailing separator
/// yields a final empty piece, as `str::split` does.
pub open spec fn split_char_spec(s: Seq<char>, sep: char) -> Seq<Seq<char>>
    decreases s.len(),
    via split_char_dec
{
    match find_spec(s, seq![sep]) {
        Some(i) => seq![s.take(i)] + split_char_spec(s.skip(i + 1), sep),
        None => seq![s],
    }
}

#[via_fn]
proof fn split_char_dec(s: Seq<char>, sep: char) {
    lemma_find_from_found(s, seq![sep], 0);
}

/// The pieces of `s` around `sep`, each as a fresh vector.
pub fn split_char(s: &Vec<char>, sep: char) -> (r: Vec<Vec<char>>)
    ensures
        r.deep_view() == split_char_spec(s@, sep),
{
    let n = s.len();
    let sepv: Vec<char> = vec![sep];
    let mut r: Vec<Vec<char>> = Vec::new();
    let mut pos: usize = 0;
    let mut done = false;
    proof {
        assert(s@.skip(0) =~= s@);
        assert(r.deep_view() + split_char_spec(s@, sep) =~= split_char_spec(s@, sep));
    }
    while !done
        invariant
            0 <= pos <= n,
            n == s@.len(),
            sepv@ == seq![sep],
            !done ==> split_char_spec(s@, sep) == r.deep_view() + split_char_spec(
                s@.skip(pos as int),
                sep,
            ),
            done ==> split_char_spec(s@, sep) == r.deep_view(),
        decreases n - pos + (if done { 0int } else { 1 }),
    {
        let ghost rest = s@.skip(pos as int);
        let ghost prev = r.deep_view();
        let found = find_sub_from(s, &sepv, pos);
        proof {
            lemma_find_shift(s@, sepv@, pos as int);
        }
        match found {
            Some(j) => {
                proof {
                    lemma_find_from_found(s@, sepv@, pos as int);
                    assert(pos <= j < n);
                    assert(find_spec(rest, seq![sep]) == Some(j - pos as int));
                    assert(rest.take(j - pos as int) =~= s@.subrange(pos as int, j as int));
                    assert(rest.skip(j - pos + 1 as int) =~= s@.skip(j + 1 as int));
                }
                let piece = copy_range(s, pos, j);
                r.push(piece);
                proof {
                    assert(r.deep_view() =~~= prev.push(piece@));
                    assert(prev.push(piece@) =~= prev + seq![piece@]);
                    assert((prev + seq![piece@]) + split_char_spec(s@.skip(j + 1 as int), sep)
                        =~= prev + (seq![piece@] + split_char_spec(s@.skip(j + 1 as int), sep)));
                }
                pos = j + 1;
            },
            None => {
                proof {
                    assert(find_spec(rest, seq![sep]) is None);
                    assert(rest =~= s@.subrange(pos as int, n as int));
                    assert(split_char_spec(rest, sep) == seq![rest]);
                }
                let piece = copy_range(s, pos, n);
                r.push(piece);
                proof {
                    assert(r.deep_view() =~~= prev.push(piece@));
                    assert(prev.push(piece@) =~= prev + seq![rest]);
                }
                done = true;
            },
        }
    }
    r
}

/// The pieces joined, with `sep` between consecutive pieces.
pub open spec fn join_char_spec(ps: Seq<Seq<char>>, sep: char) -> Seq<char>
    decreases ps.len(),
{
    if ps.len() == 0 {
        Seq::empty()
    } else if ps.len() == 1 {
        ps[0]
    } else {
        ps[0] + seq![sep] + join_char_spec(ps.skip(1), sep)
    }
}

pub proof fn lemma_join_push(ps: Seq<Seq<char>>, sep: char, x: Seq<char>)
    ensures
        join_char_spec(ps.push(x), sep) == if ps.len() == 0 {
            x
        } else {
            join_char_spec(ps, sep) + seq![sep] + x
        },
    decreases ps.len(),
{
    if ps.len() == 0 {
        assert(ps.push(x).len() == 1);
        assert(join_char_spec(ps.push(x), sep) == ps.push(x)[0]);
    } else if ps.len() == 1 {
        assert(ps.push(x).skip(1) =~= seq![x]);
        assert(ps.push(x).len() == 2);
        assert(join_char_spec(seq![x], sep) == seq![x][0]);
        assert(join_char_spec(ps.push(x), sep) == ps.push(x)[0] + seq![sep] + join_char_spec(
            ps.push(x).skip(1),
            sep,
        ));
        assert(join_char_spec(ps.push(x), sep) == ps[0] + seq![sep] + x);
    } else {
        lemma_join_push(ps.skip(1), sep, x);
        assert(ps.push(x).skip(1) =~= ps.skip(1).push(x));
        assert(join_char_spec(ps.push(x), sep) == ps[0] + seq![sep] + join_char_spec(
            ps.skip(1).push(x),
            sep,
        ));
        assert(ps[0] + seq![sep] + (join_char_spec(ps.skip(1), sep) + seq![sep] + x) =~= (ps[0]
            + seq![sep] + join_char_spec(ps.skip(1), sep)) + seq![sep] + x);
    }
}

/// The pieces joined into one vector, with `sep` between consecutive pieces.
pub fn join_char(ps: &Vec<Vec<char>>, sep: char) -> (r: Vec<char>)
    ensures
        r@ == join_char_spec(ps.deep_view(), sep),
{
    let n = ps.len();
    let mut r: Vec<char> = Vec::new();
    let mut i: usize = 0;
    while i < n
        invariant
            0 <= i <= n,
            n == ps@.len(),
            n == ps.deep_view().len(),
            r@ == join_char_spec(ps.deep_view().take(i as int), sep),
        decreases n - i,
    {
        let ghost prefix = ps.deep_view().take(i as int);
        if i > 0 {
            r.push(sep);
        }
        let piece = &ps[i];
        let mut k: usize = 0;
        let ghost base = r@;
        while k < piece.len()
            invariant
                0 <= k <= piece@.len(),
                r@ == base + piece@.take(k as int),
            decreases piece@.len() - k,
        {
            r.push(piece[k]);
            proof {
                assert(piece@.take(k + 1 as int) =~= piece@.take(k as int).push(piece@[k as int]));
                assert(base + piece@.take(k as int).push(piece@[k as int]) =~= (base + piece@.take(
                    k as int,
                )).push(piece@[k as int]));
            }
            k += 1;
        }
        proof {
            assert(piece@.take(piece@.len() as int) =~= piece@);
            assert(piece@ == ps.deep_view()[i as int]);
            lemma_join_push(prefix, sep, piece@);
            assert(ps.deep_view().take(i + 1 as int) =~= prefix.push(ps.deep_view()[i as int]));
            if i == 0 {
                assert(base =~= Seq::<char>::empty());
                assert(base + piece@ =~= piece@);
            } else {
                assert(prefix.len() > 0);
                assert(base =~= join_char_spec(prefix, sep).push(sep));
                assert(base + piece@ =~= join_char_spec(prefix, sep) + seq![sep] + piece@);
            }
        }
        i += 1;
    }
    proof {
        assert(ps.deep_view().take(n as int) =~= ps.deep_view());
    }
    r
}

} // verus!

verus! {

/// First position at or after `i` whose character's `is_space` equals `space`
/// (the length of `s` if there is none).
pub open spec fn scan_to(s: Seq<char>, i: int, space: bool) -> int
    decreases s.len() - i,
{
    if i < 0 || i >= s.len() {
        s.len() as int
    } else if is_space(s[i]) == space {
        i
    } else {
        scan_to(s, i + 1, space)
    }
}

pub proof fn lemma_scan_to_bounds(s: Seq<char>, i: int, space: bool)
    requires
        0 <= i <= s.len(),
    ensures
        i <= scan_to(s, i, space) <= s.len(),
        forall|j: int| i <= j < scan_to(s, i, space) ==> is_space(s[j]) != space,
        scan_to(s, i, space) < s.len() ==> is_space(s[scan_to(s, i, space)]) == space,
    decreases s.len() - i,
{
    if i < s.len() && is_space(s[i]) != space {
        lemma_scan_to_bounds(s, i + 1, space);
    }
}

/// The maximal runs of non-whitespace characters starting at or after `i`.
pub open spec fn split_ws_from(s: Seq<char>, i: int) -> Seq<Seq<char>>
    decreases s.len() - i,
    via split_ws_dec
{
    if i < 0 || i >= s.len() {
        Seq::empty()
    } else if is_space(s[i]) {
        split_ws_from(s, i + 1)
    } else {
        seq![s.subrange(i, scan_to(s, i, true))] + split_ws_from(s, scan_to(s, i, true))
    }
}

#[via_fn]
proof fn split_ws_dec(s: Seq<char>, i: int) {
    if 0 <= i < s.len() && !is_space(s[i]) {
        lemma_scan_to_bounds(s, i, true);
        assert(scan_to(s, i, true) > i);
    }
}

/// The maximal whitespace-separated words of `s`, as `str::split_whitespace`.
pub open spec fn split_ws_spec(s: Seq<char>) -> Seq<Seq<char>> {
    split_ws_from(s, 0)
}

/// The whitespace-separated words of `s`, each as a fresh vector.
pub fn split_ws(s: &Vec<char>) -> (r: Vec<Vec<char>>)
    ensures
        r.deep_view() == split_ws_spec(s@),
{
    let n = s.len();
    let mut r: Vec<Vec<char>> = Vec::new();
    let mut pos: usize = 0;
    proof {
        assert(r.deep_view() + split_ws_from(s@, 0) =~= split_ws_from(s@, 0));
    }
    while pos < n
        invariant
            0 <= pos <= n,
            n == s@.len(),
            split_ws_spec(s@) == r.deep_view() + split_ws_from(s@, pos as int),
        decreases n - pos,
    {
        if space_char(s[pos]) {
            pos += 1;
        } else {
            let ghost prev = r.deep_view();
            let mut e: usize = pos;
            while e < n && !space_char(s[e])
                invariant
                    pos <= e <= n,
                    n == s@.len(),
                    scan_to(s@, pos as int, true) == scan_to(s@, e as int, true),
                decreases n - e,
            {
                e += 1;
            }
            proof {
                assert(scan_to(s@, e as int, true) == e as int);
            }
            let word = copy_range(s, pos, e);
            r.push(word);
            proof {
                assert(r.deep_view() =~~= prev.push(word@));
                assert(prev.push(word@) =~= prev + seq![word@]);
                assert(split_ws_from(s@, pos as int) == seq![word@] + split_ws_from(s@, e as int));
                assert((prev + seq![word@]) + split_ws_from(s@, e as int) =~= prev + (seq![word@]
                    + split_ws_from(s@, e as int)));
            }
            pos = e;
        }
    }
    r
}

/// The numeric value of a digit string, most significant first.
pub open spec fn digits_val(s: Seq<char>) -> int
    decreases s.len(),
{
    if s.len() == 0 {
        0
    } else {
        digits_val(s.drop_last()) * 10 + (s.last() as u32 - 48)
    }
}

pub open spec fn all_digits(s: Seq<char>) -> bool {
    forall|i: int| 0 <= i < s.len() ==> is_digit(s[i])
}

/// What `str::parse::<usize>` yields on `s`: the decimal value, unless `s` is
/// empty, holds a non-digit, or the value overflows.
pub open spec fn parse_usize_spec(s: Seq<char>) -> Option<usize> {
    if s.len() > 0 && all_digits(s) && digits_val(s) <= usize::MAX {
        Some(digits_val(s) as usize)
    } else {
        None
    }
}

proof fn lemma_digits_val_step(s: Seq<char>, i: int)
    requires
        0 <= i < s.len(),
    ensures
        digits_val(s.take(i + 1)) == digits_val(s.take(i)) * 10 + (s[i] as u32 - 48),
{
    assert(s.take(i + 1).drop_last() =~= s.take(i));
    assert(s.take(i + 1).last() == s[i]);
}

proof fn lemma_digits_val_nonneg(s: Seq<char>)
    requires
        all_digits(s),
    ensures
        digits_val(s) >= 0,
    decreases s.len(),
{
    if s.len() > 0 {
        assert(all_digits(s.drop_last())) by {
            assert(forall|i: int|
                0 <= i < s.drop_last().len() ==> s.drop_last()[i] == s[i] && is_digit(s[i]));
        }
        lemma_digits_val_nonneg(s.drop_last());
        assert(is_digit(s.last()));
    }
}

proof fn lemma_digits_val_mono(s: Seq<char>, i: int)
    requires
        all_digits(s),
        0 <= i <= s.len(),
    ensures
        digits_val(s) >= digits_val(s.take(i)),
    decreases s.len() - i,
{
    assert(all_digits(s.take(i))) by {
        assert(forall|j: int| 0 <= j < i ==> s.take(i)[j] == s[j] && is_digit(s[j]));
    }
    if i < s.len() {
        lemma_digits_val_step(s, i);
        lemma_digits_val_nonneg(s.take(i));
        assert(digits_val(s.take(i + 1)) >= digits_val(s.take(i)));
        lemma_digits_val_mono(s, i + 1);
    } else {
        assert(s.take(i) =~= s);
    }
}

/// Decimal parse of `s`, exactly as `str::parse::<usize>` behaves.
pub fn parse_usize(s: &Vec<char>) -> (r: Option<usize>)
    ensures
        r == parse_usize_spec(s@),
{
    let n = s.len();
    if n == 0 {
        return None;
    }
    let mut acc: usize = 0;
    let mut i: usize = 0;
    while i < n
        invariant
            0 <= i <= n,
            n == s@.len(),
            all_digits(s@.take(i as int)),
            acc == digits_val(s@.take(i as int)),
        decreases n - i,
    {
        let c = s[i];
        if !digit_char(c) {
            proof {
                assert(!all_digits(s@));
            }
            return None;
        }
        let d: usize = ((c as u32) - 48) as usize;
        proof {
            lemma_digits_val_step(s@, i as int);
            assert(all_digits(s@.take(i + 1 as int))) by {
                assert(forall|j: int|
                    0 <= j < i + 1 ==> s@.take(i + 1 as int)[j] == s@[j]);
            }
        }
        let m = match acc.checked_mul(10) {
            Some(m) => m,
            None => {
                proof {
                    if all_digits(s@) {
                        lemma_digits_val_mono(s@, i + 1 as int);
                    }
                }
                return None;
            },
        };
        acc = match m.checked_add(d) {
            Some(a) => a,
            None => {
                proof {
                    if all_digits(s@) {
                        lemma_digits_val_mono(s@, i + 1 as int);
                    }
                }
                return None;
            },
        };
        i += 1;
    }
    proof {
        assert(s@.take(n as int) =~= s@);
    }
    Some(acc)
}

/// The decimal digit character for `d` (0 to 9).
pub open spec fn digit_of(d: int) -> char {
    ((48 + d) as u8) as char
}

/// The decimal rendering of a non-negative number.
pub open spec fn dec_chars(n: int) -> Seq<char>
    decreases n,
{
    if n < 10 {
        seq![digit_of(if n < 0 { 0 } else { n })]
    } else {
        dec_chars(n / 10).push(digit_of(n % 10))
    }
}

/// The decimal rendering of `x`, as `usize` formatting prints it.
pub fn usize_chars(x: usize) -> (r: Vec<char>)
    ensures
        r@ == dec_chars(x as int),
{
    let mut digits: Vec<char> = Vec::new();
    let mut v: usize = x;
    let mut stop = false;
    while !stop
        invariant
            v <= x,
            !stop ==> (if v > 0 {
                dec_chars(x as int) =~= dec_chars(v as int) + digits@.reverse()
            } else {
                digits@.len() == 0 && x == 0
            }),
            stop ==> dec_chars(x as int) =~= digits@.reverse(),
        decreases v + (if stop { 0int } else { 2 }),
    {
        let d: u8 = (48 + (v % 10) as u8);
        let c: char = d as char;
        let ghost olddigits = digits@;
        digits.push(c);
        proof {
            assert(digits@.reverse() =~= seq![c] + olddigits.reverse());
            assert(c == digit_of(v as int % 10));
        }
        let oldv = v;
        v = v / 10;
        if v == 0 {
            stop = true;
            proof {
                if oldv > 0 || x == 0 {
                    assert(oldv < 10);
                    assert(dec_chars(oldv as int) == seq![digit_of(oldv as int)]);
                    assert(c == digit_of(oldv as int)) by {
                        assert(oldv as int % 10 == oldv as int);
                    }
                    assert(seq![c] + olddigits.reverse() =~= dec_chars(oldv as int)
                        + olddigits.reverse());
                }
            }
        } else {
            proof {
                assert(oldv >= 10);
                assert(dec_chars(oldv as int) == dec_chars(oldv as int / 10).push(digit_of(
                    oldv as int % 10,
                )));
                assert(dec_chars(v as int).push(c) + olddigits.reverse() =~= dec_chars(v as int) + (
                seq![c] + olddigits.reverse()));
            }
        }
    }
    let m = digits.len();
    let mut r: Vec<char> = Vec::new();
    let mut i: usize = 0;
    while i < m
        invariant
            0 <= i <= m,
            m == digits@.len(),
            r@ =~= digits@.reverse().take(i as int),
        decreases m - i,
    {
        r.push(digits[m - 1 - i]);
        proof {
            assert(digits@.reverse()[i as int] == digits@[m - 1 - i as int]);
            assert(digits@.reverse().take(i + 1 as int) =~= digits@.reverse().take(i as int).push(
                digits@.reverse()[i as int],
            ));
        }
        i += 1;
    }
    proof {
        assert(digits@.reverse().take(m as int) =~= digits@.reverse());
    }
    r
}

/// ASCII lowercase of one character.
pub open spec fn lower_char(c: char) -> char {
    if 65 <= c as u32 && c as u32 <= 90 {
        (((c as u32) + 32) as u8) as char
    } else {
        c
    }
}

/// ASCII lowercase, applied to each character.
pub open spec fn to_lower_spec(s: Seq<char>) -> Seq<char> {
    s.map_values(|c: char| lower_char(c))
}

pub fn lower(c: char) -> (r: char)
    ensures
        r == lower_char(c),
{
    let u = c as u32;
    if 65 <= u && u <= 90 {
        ((u + 32) as u8) as char
    } else {
        c
    }
}

/// Copy of `s` with every ASCII uppercase letter lowered.
pub fn to_lower(s: &Vec<char>) -> (r: Vec<char>)
    ensures
        r@ == to_lower_spec(s@),
{
    let n = s.len();
    let mut r: Vec<char> = Vec::new();
    let mut i: usize = 0;
    while i < n
        invariant
            0 <= i <= n,
            n == s@.len(),
            r@ =~= to_lower_spec(s@.take(i as int)),
        decreases n - i,
    {
        r.push(lower(s[i]));
        proof {
            assert(to_lower_spec(s@.take(i + 1 as int)) =~= to_lower_spec(s@.take(i as int)).push(
                lower_char(s@[i as int]),
            ));
        }
        i += 1;
    }
    proof {
        assert(s@.take(n as int) =~= s@);
    }
    r
}

} // verus!

verus! {

/// How a child process's two captured streams are combined into one
/// recorded raw output.
pub open spec fn combined_output_spec(out: Seq<char>, err: Seq<char>) -> Seq<char> {
    "STDOUT:\n"@ + out + "\nSTDERR:\n"@ + err
}

pub fn combined_output(stdout: &str, stderr: &str) -> (r: String)
    ensures
        r@ == combined_output_spec(stdout@, stderr@),
{
    let mut o = String::from_str("STDOUT:\n");
    o.append(stdout);
    o.append("\nSTDERR:\n");
    o.append(stderr);
    proof {
        assert(o@ =~= combined_output_spec(stdout@, stderr@));
    }
    o
}

/// The suffix of `s` after the first occurrence of `p` (empty when `p` does
/// not occur).
pub open spec fn after_first(s: Seq<char>, p: Seq<char>) -> Seq<char> {
    match find_spec(s, p) {
        Some(i) => s.skip(i + p.len()),
        None => Seq::empty(),
    }
}

/// The prefix of `s` before the first occurrence of `p` (all of `s` when
/// `p` does not occur).
pub open spec fn before_first(s: Seq<char>, p: Seq<char>) -> Seq<char> {
    match find_spec(s, p) {
        Some(i) => s.take(i),
        None => s,
    }
}

/// Copy of the suffix of `s` after the first occurrence of `p`.
pub fn after_first_ex(s: &Vec<char>, p: &Vec<char>) -> (r: Vec<char>)
    ensures
        r@ == after_first(s@, p@),
{
    let n = s.len();
    match find_sub(s, p) {
        Some(i) => {
            proof {
                lemma_find_from_found(s@, p@, 0);
            }
            let r = copy_range(s, i + p.len(), n);
            proof {
                assert(r@ =~= s@.skip(i + p@.len()));
            }
            r
        },
        None => Vec::new(),
    }
}

/// Copy of the prefix of `s` before the first occurrence of `p`.
pub fn before_first_ex(s: &Vec<char>, p: &Vec<char>) -> (r: Vec<char>)
    ensures
        r@ == before_first(s@, p@),
{
    match find_sub(s, p) {
        Some(i) => {
            proof {
                lemma_find_from_found(s@, p@, 0);
            }
            let r = copy_range(s, 0, i);
            proof {
                assert(r@ =~= s@.take(i as int));
            }
            r
        },
        None => {
            let r = copy_range(s, 0, s.len());
            proof {
                assert(r@ =~= s@);
            }
            r
        },
    }
}

} // verus!

verus! {

/// Total character count of a sequence of lines.
pub open spec fn sum_lens(ls: Seq<Seq<char>>) -> int
    decreases ls.len(),
{
    if ls.len() == 0 {
        0
    } else {
        sum_lens(ls.drop_last()) + ls.last().len()
    }
}

pub proof fn lemma_sum_lens_nonneg(ls: Seq<Seq<char>>)
    ensures
        sum_lens(ls) >= 0,
    decreases ls.len(),
{
    if ls.len() > 0 {
        lemma_sum_lens_nonneg(ls.drop_last());
    }
}

pub proof fn lemma_sum_lens_take_succ(ls: Seq<Seq<char>>, i: int)
    requires
        0 <= i < ls.len(),
    ensures
        sum_lens(ls.take(i + 1)) == sum_lens(ls.take(i)) + ls[i].len(),
{
    assert(ls.take(i + 1).drop_last() =~= ls.take(i));
    assert(ls.take(i + 1).last() == ls[i]);
}

pub proof fn lemma_sum_lens_take_bound(ls: Seq<Seq<char>>, i: int)
    requires
        0 <= i <= ls.len(),
    ensures
        sum_lens(ls.take(i)) <= sum_lens(ls),
    decreases ls.len() - i,
{
    if i == ls.len() {
        assert(ls.take(i) =~= ls);
    } else {
        lemma_sum_lens_take_succ(ls, i);
        lemma_sum_lens_take_bound(ls, i + 1);
    }
}

pub proof fn lemma_sum_lens_cons(x: Seq<char>, ys: Seq<Seq<char>>)
    ensures
        sum_lens(seq![x] + ys) == x.len() + sum_lens(ys),
    decreases ys.len(),
{
    if ys.len() == 0 {
        assert(seq![x] + ys =~= seq![x]);
        assert(seq![x].drop_last() =~= Seq::<Seq<char>>::empty());
        assert(sum_lens(Seq::<Seq<char>>::empty()) == 0);
        assert(seq![x].last() == x);
        assert(sum_lens(seq![x]) == sum_lens(seq![x].drop_last()) + x.len());
        assert(sum_lens(ys) == 0);
    } else {
        lemma_sum_lens_cons(x, ys.drop_last());
        assert((seq![x] + ys).drop_last() =~= seq![x] + ys.drop_last());
        assert((seq![x] + ys).last() == ys.last());
        assert(sum_lens(seq![x] + ys) == sum_lens(seq![x] + ys.drop_last()) + ys.last().len());
        assert(sum_lens(ys) == sum_lens(ys.drop_last()) + ys.last().len());
    }
}

/// The lines of a text never hold more characters than the text.
pub proof fn lemma_lines_sum_bound(s: Seq<char>)
    ensures
        sum_lens(lines_spec(s)) <= s.len(),
    decreases s.len(),
{
    if s.len() == 0 {
    } else {
        lemma_find_from_found(s, seq!['\n'], 0);
        match find_spec(s, seq!['\n']) {
            Some(i) => {
                assert(0 <= i < s.len());
                assert(lines_spec(s) == seq![strip_cr(s.take(i))] + lines_spec(s.skip(i + 1)));
                lemma_lines_sum_bound(s.skip(i + 1));
                lemma_sum_lens_cons(strip_cr(s.take(i)), lines_spec(s.skip(i + 1)));
                assert(s.take(i).len() == i);
                assert(strip_cr(s.take(i)).len() <= i);
                assert(s.skip(i + 1).len() == s.len() - i - 1);
            },
            None => {
                assert(lines_spec(s) == seq![s]);
                assert(seq![s].drop_last() =~= Seq::<Seq<char>>::empty());
                assert(sum_lens(Seq::<Seq<char>>::empty()) == 0);
                assert(seq![s].last() == s);
                assert(sum_lens(seq![s]) == sum_lens(seq![s].drop_last()) + s.len());
            },
        }
    }
}

} // verus!

verus! {

/// ASCII letter or digit.
pub open spec fn is_alnum(c: char) -> bool {
    (97 <= c as u32 && c as u32 <= 122) || (65 <= c as u32 && c as u32 <= 90) || (48 <= c as u32
        && c as u32 <= 57)
}

pub fn alnum_char(c: char) -> (r: bool)
    ensures
        r == is_alnum(c),
{
    let u = c as u32;
    (97 <= u && u <= 122) || (65 <= u && u <= 90) || (48 <= u && u <= 57)
}

/// ASCII uppercase letter.
pub open spec fn is_upper(c: char) -> bool {
    65 <= c as u32 && c as u32 <= 90
}

pub fn upper_char(c: char) -> (r: bool)
    ensures
        r == is_upper(c),
{
    let u = c as u32;
    65 <= u && u <= 90
}

/// A character a keyword may keep: letter, digit, or dot.
pub open spec fn is_kw_char(c: char) -> bool {
    is_alnum(c) || c == '.'
}

pub open spec fn kw_trim_start_spec(s: Seq<char>) -> Seq<char>
    decreases s.len(),
{
    if s.len() > 0 && !is_kw_char(s[0]) {
        kw_trim_start_spec(s.drop_first())
    } else {
        s
    }
}

pub open spec fn kw_trim_end_spec(s: Seq<char>) -> Seq<char>
    decreases s.len(),
{
    if s.len() > 0 && !is_kw_char(s.last()) {
        kw_trim_end_spec(s.drop_last())
    } else {
        s
    }
}

/// `s` with every character that no keyword keeps removed from both ends,
/// as `str::trim_matches` with that class does.
pub open spec fn kw_trim_spec(s: Seq<char>) -> Seq<char> {
    kw_trim_end_spec(kw_trim_start_spec(s))
}

proof fn lemma_kw_trim_start_skip(s: Seq<char>, lo: int)
    requires
        0 <= lo <= s.len(),
        forall|j: int| 0 <= j < lo ==> !is_kw_char(s[j]),
    ensures
        kw_trim_start_spec(s) == kw_trim_start_spec(s.skip(lo)),
    decreases lo,
{
    if lo > 0 {
        assert(!is_kw_char(s[0]));
        assert(s.drop_first() =~= s.skip(1));
        lemma_kw_trim_start_skip(s.skip(1), lo - 1);
        assert(s.skip(1).skip(lo - 1) =~= s.skip(lo));
    } else {
        assert(s.skip(0) =~= s);
    }
}

proof fn lemma_kw_trim_end_take(s: Seq<char>, hi: int)
    requires
        0 <= hi <= s.len(),
        forall|j: int| hi <= j < s.len() ==> !is_kw_char(s[j]),
    ensures
        kw_trim_end_spec(s) == kw_trim_end_spec(s.take(hi)),
    decreases s.len() - hi,
{
    if hi < s.len() {
        assert(!is_kw_char(s.last()));
        assert(s.drop_last() =~= s.take(s.len() - 1));
        lemma_kw_trim_end_take(s.take(s.len() - 1), hi);
        assert(s.take(s.len() - 1).take(hi) =~= s.take(hi));
    } else {
        assert(s.take(hi) =~= s);
    }
}

/// Copy of `s` with non-keyword characters removed from both ends.
pub fn kw_trim(s: &Vec<char>) -> (r: Vec<char>)
    ensures
        r@ == kw_trim_spec(s@),
{
    let n = s.len();
    let mut lo: usize = 0;
    while lo < n && !(alnum_char(s[lo]) || s[lo] == '.')
        invariant
            0 <= lo <= n,
            n == s@.len(),
            forall|j: int| 0 <= j < lo ==> !is_kw_char(s@[j]),
        decreases n - lo,
    {
        lo += 1;
    }
    proof {
        lemma_kw_trim_start_skip(s@, lo as int);
        if lo < n {
            assert(is_kw_char(s@.skip(lo as int)[0]));
        }
        assert(kw_trim_start_spec(s@.skip(lo as int)) == s@.skip(lo as int));
    }
    let mut hi: usize = n;
    while hi > lo && !(alnum_char(s[hi - 1]) || s[hi - 1] == '.')
        invariant
            lo <= hi <= n,
            n == s@.len(),
            forall|j: int| hi <= j < n ==> !is_kw_char(s@[j]),
        decreases hi,
    {
        hi -= 1;
    }
    proof {
        let t = s@.skip(lo as int);
        assert(forall|j: int| hi - lo <= j < t.len() ==> !is_kw_char(#[trigger] t[j]));
        lemma_kw_trim_end_take(t, hi - lo);
        if hi > lo {
            assert(is_kw_char(t.take(hi - lo).last()));
        }
        assert(kw_trim_end_spec(t.take(hi - lo)) == t.take(hi - lo));
        assert(t.take(hi - lo) =~= s@.subrange(lo as int, hi as int));
    }
    copy_range(s, lo, hi)
}

} // verus!

verus! {

/// The decimal rendering of `x`, as `u64` formatting prints it.
pub fn u64_chars(x: u64) -> (r: Vec<char>)
    ensures
        r@ == dec_chars(x as int),
{
    let mut digits: Vec<char> = Vec::new();
    let mut v: u64 = x;
    let mut stop = false;
    while !stop
        invariant
            v <= x,
            !stop ==> (if v > 0 {
                dec_chars(x as int) =~= dec_chars(v as int) + digits@.reverse()
            } else {
                digits@.len() == 0 && x == 0
            }),
            stop ==> dec_chars(x as int) =~= digits@.reverse(),
        decreases v + (if stop { 0int } else { 2 }),
    {
        let d: u8 = (48 + (v % 10) as u8);
        let c: char = d as char;
        let ghost olddigits = digits@;
        digits.push(c);
        proof {
            assert(digits@.reverse() =~= seq![c] + olddigits.reverse());
            assert(c == digit_of(v as int % 10));
        }
        let oldv = v;
        v = v / 10;
        if v == 0 {
            stop = true;
            proof {
                if oldv > 0 || x == 0 {
                    assert(oldv < 10);
                    assert(dec_chars(oldv as int) == seq![digit_of(oldv as int)]);
                    assert(c == digit_of(oldv as int)) by {
                        assert(oldv as int % 10 == oldv as int);
                    }
                    assert(seq![c] + olddigits.reverse() =~= dec_chars(oldv as int)
                        + olddigits.reverse());
                }
            }
        } else {
            proof {
                assert(oldv >= 10);
                assert(dec_chars(oldv as int) == dec_chars(oldv as int / 10).push(digit_of(
                    oldv as int % 10,
                )));
                assert(dec_chars(v as int).push(c) + olddigits.reverse() =~= dec_chars(v as int) + (
                seq![c] + olddigits.reverse()));
            }
        }
    }
    let m = digits.len();
    let mut r: Vec<char> = Vec::new();
    let mut i: usize = 0;
    while i < m
        invariant
            0 <= i <= m,
            m == digits@.len(),
            r@ =~= digits@.reverse().take(i as int),
        decreases m - i,
    {
        r.push(digits[m - 1 - i]);
        proof {
            assert(digits@.reverse()[i as int] == digits@[m - 1 - i as int]);
            assert(digits@.reverse().take(i + 1 as int) =~= digits@.reverse().take(i as int).push(
                digits@.reverse()[i as int],
            ));
        }
        i += 1;
    }
    proof {
        assert(digits@.reverse().take(m as int) =~= digits@.reverse());
    }
    r
}

} // verus!

verus! {

/// Fresh copies of the strings, views preserved.
pub fn clone_strings(v: &Vec<String>) -> (r: Vec<String>)
    ensures
        r.deep_view() == v.deep_view(),
{
    let n = v.len();
    let mut out: Vec<String> = Vec::new();
    let mut i: usize = 0;
    proof {
        assert(out.deep_view() =~~= v.deep_view().take(0));
    }
    while i < n
        invariant
            0 <= i <= n,
            n == v@.len(),
            n == v.deep_view().len(),
            out.deep_view() == v.deep_view().take(i as int),
        decreases n - i,
    {
        let ghost prev = out.deep_view();
        let s = String::from_str(v[i].as_str());
        proof {
            assert(s@ == v.deep_view()[i as int]);
        }
        out.push(s);
        proof {
            assert(out.deep_view() =~~= prev.push(v.deep_view()[i as int]));
            assert(prev.push(v.deep_view()[i as int]) =~= v.deep_view().take(i + 1 as int));
        }
        i += 1;
    }
    proof {
        assert(v.deep_view().take(n as int) =~= v.deep_view());
    }
    out
}

} // verus!

verus! {

/// A match at `k` with no earlier match pins the find result.
pub proof fn lemma_find_is_first(s: Seq<char>, p: Seq<char>, k: int)
    requires
        match_at_spec(s, p, k),
        forall|j: int| 0 <= j < k ==> !match_at_spec(s, p, j),
    ensures
        find_spec(s, p) == Some(k),
{
    lemma_find_from_found(s, p, 0);
    match find_spec(s, p) {
        Some(i) => {
            if i < k {
                assert(match_at_spec(s, p, i));
            }
            if k < i {
                assert(!match_at_spec(s, p, k));
            }
        },
        None => {
            assert(!match_at_spec(s, p, k));
        },
    }
}

/// No character of `s` is `c`.
pub open spec fn free_of(s: Seq<char>, c: char) -> bool {
    forall|i: int| 0 <= i < s.len() ==> s[i] != c
}

/// The lines of a newline-terminated head followed by a tail.
pub proof fn lemma_lines_cons(l: Seq<char>, rest: Seq<char>)
    requires
        free_of(l, '\n'),
    ensures
        lines_spec(l + seq!['\n'] + rest) == seq![strip_cr(l)] + lines_spec(rest),
{
    let s = l + seq!['\n'] + rest;
    assert(s.len() > 0);
    assert(s[l.len() as int] == '\n');
    assert(s.subrange(l.len() as int, l.len() as int + 1) =~= seq!['\n']);
    assert(match_at_spec(s, seq!['\n'], l.len() as int));
    assert forall|j: int| 0 <= j < l.len() implies !match_at_spec(s, seq!['\n'], j) by {
        if 0 <= j < l.len() {
            assert(s[j] == l[j]);
            if match_at_spec(s, seq!['\n'], j) {
                assert(s.subrange(j, j + 1)[0] == s[j]);
            }
        }
    }
    lemma_find_is_first(s, seq!['\n'], l.len() as int);
    assert(s.take(l.len() as int) =~= l);
    assert(s.skip(l.len() as int + 1) =~= rest);
}

/// Every line produced by the line splitter is free of newlines.
pub proof fn lemma_lines_no_nl(s: Seq<char>)
    ensures
        forall|i: int|
            0 <= i < lines_spec(s).len() ==> free_of(#[trigger] lines_spec(s)[i], '\n'),
    decreases s.len(),
{
    if s.len() == 0 {
    } else {
        lemma_find_from_found(s, seq!['\n'], 0);
        match find_spec(s, seq!['\n']) {
            Some(i) => {
                assert(0 <= i < s.len());
                lemma_lines_no_nl(s.skip(i + 1));
                let head = strip_cr(s.take(i));
                assert(free_of(head, '\n')) by {
                    assert forall|j: int| 0 <= j < head.len() implies head[j] != '\n' by {
                        assert(head[j] == s[j]);
                        if s[j] == '\n' {
                            assert(s.subrange(j, j + 1) =~= seq!['\n']);
                            assert(match_at_spec(s, seq!['\n'], j));
                        }
                    }
                }
                assert(lines_spec(s) == seq![head] + lines_spec(s.skip(i + 1)));
                assert(forall|k: int|
                    0 <= k < lines_spec(s).len() ==> (#[trigger] lines_spec(s)[k]) == if k == 0 {
                        head
                    } else {
                        lines_spec(s.skip(i + 1))[k - 1]
                    });
            },
            None => {
                assert(lines_spec(s) == seq![s]);
                assert(free_of(s, '\n')) by {
                    assert forall|j: int| 0 <= j < s.len() implies s[j] != '\n' by {
                        if s[j] == '\n' {
                            assert(s.subrange(j, j + 1) =~= seq!['\n']);
                            assert(match_at_spec(s, seq!['\n'], j));
                        }
                    }
                }
            },
        }
    }
}

/// Pieces, each closed by one newline.
pub open spec fn nl_block(ps: Seq<Seq<char>>) -> Seq<char>
    decreases ps.len(),
{
    if ps.len() == 0 {
        Seq::empty()
    } else {
        ps[0] + seq!['\n'] + nl_block(ps.skip(1))
    }
}

/// The lines of a block of newline-terminated pieces followed by a tail.
pub proof fn lemma_lines_of_block(ps: Seq<Seq<char>>, tail: Seq<char>)
    requires
        forall|i: int| 0 <= i < ps.len() ==> free_of(#[trigger] ps[i], '\n'),
    ensures
        lines_spec(nl_block(ps) + tail) == ps.map_values(|p: Seq<char>| strip_cr(p)) + lines_spec(
            tail,
        ),
    decreases ps.len(),
{
    if ps.len() == 0 {
        assert(nl_block(ps) + tail =~= tail);
        assert(ps.map_values(|p: Seq<char>| strip_cr(p)) + lines_spec(tail) =~= lines_spec(tail));
    } else {
        lemma_lines_of_block(ps.skip(1), tail);
        assert(nl_block(ps) + tail =~= ps[0] + seq!['\n'] + (nl_block(ps.skip(1)) + tail));
        lemma_lines_cons(ps[0], nl_block(ps.skip(1)) + tail);
        assert(ps.skip(1).map_values(|p: Seq<char>| strip_cr(p)) =~= ps.map_values(
            |p: Seq<char>| strip_cr(p),
        ).skip(1));
        assert(lines_spec(nl_block(ps) + tail) =~= ps.map_values(|p: Seq<char>| strip_cr(p))
            + lines_spec(tail));
    }
}

/// Appending one piece to a block.
pub proof fn lemma_nl_block_push(ps: Seq<Seq<char>>, x: Seq<char>)
    ensures
        nl_block(ps.push(x)) == nl_block(ps) + x + seq!['\n'],
    decreases ps.len(),
{
    if ps.len() == 0 {
        assert(ps.push(x)[0] == x);
        assert(ps.push(x).skip(1) =~= Seq::<Seq<char>>::empty());
        assert(nl_block(Seq::<Seq<char>>::empty()) == Seq::<char>::empty());
        assert(nl_block(ps.push(x)) == ps.push(x)[0] + seq!['\n'] + nl_block(ps.push(x).skip(1)));
        assert(nl_block(ps.push(x)) =~= x + seq!['\n']);
        assert(nl_block(ps) + x + seq!['\n'] =~= x + seq!['\n']);
    } else {
        lemma_nl_block_push(ps.skip(1), x);
        assert(ps.push(x).skip(1) =~= ps.skip(1).push(x));
        assert(ps.push(x)[0] == ps[0]);
        assert(nl_block(ps.push(x)) == ps[0] + seq!['\n'] + nl_block(ps.skip(1).push(x)));
        assert(ps[0] + seq!['\n'] + (nl_block(ps.skip(1)) + x + seq!['\n']) =~= (ps[0] + seq!['\n']
            + nl_block(ps.skip(1))) + x + seq!['\n']);
    }
}

} // verus!

verus! {

/// Splitting cannot introduce characters: lines of a text free of `c` are
/// free of `c`.
pub proof fn lemma_lines_free_of(s: Seq<char>, c: char)
    requires
        free_of(s, c),
    ensures
        forall|i: int|
            0 <= i < lines_spec(s).len() ==> free_of(#[trigger] lines_spec(s)[i], c),
    decreases s.len(),
{
    if s.len() > 0 {
        lemma_find_from_found(s, seq!['\n'], 0);
        match find_spec(s, seq!['\n']) {
            Some(i) => {
                assert(0 <= i < s.len());
                assert(free_of(s.skip(i + 1), c)) by {
                    assert(forall|j: int|
                        0 <= j < s.skip(i + 1).len() ==> (#[trigger] s.skip(i + 1)[j]) == s[j + i
                            + 1]);
                }
                lemma_lines_free_of(s.skip(i + 1), c);
                let head = strip_cr(s.take(i));
                assert(free_of(head, c)) by {
                    assert(forall|j: int| 0 <= j < head.len() ==> head[j] == s[j]);
                }
                assert(lines_spec(s) == seq![head] + lines_spec(s.skip(i + 1)));
                assert(forall|k: int|
                    0 <= k < lines_spec(s).len() ==> (#[trigger] lines_spec(s)[k]) == if k == 0 {
                        head
                    } else {
                        lines_spec(s.skip(i + 1))[k - 1]
                    });
            },
            None => {
                assert(lines_spec(s) == seq![s]);
            },
        }
    }
}

/// Decimal renderings hold only digit characters.
pub proof fn lemma_dec_chars_digits(n: int)
    ensures
        forall|i: int| 0 <= i < dec_chars(n).len() ==> is_digit(#[trigger] dec_chars(n)[i]),
    decreases n,
{
    if n < 10 {
        let d: int = if n < 0 {
            0
        } else {
            n
        };
        assert(dec_chars(n) == seq![digit_of(d)]);
        assert(is_digit(digit_of(d)));
    } else {
        lemma_dec_chars_digits(n / 10);
        assert(0 <= n % 10 < 10);
        assert(is_digit(digit_of(n % 10)));
        assert(dec_chars(n) == dec_chars(n / 10).push(digit_of(n % 10)));
    }
}

/// A block distributes over concatenation.
pub proof fn lemma_nl_block_concat(a: Seq<Seq<char>>, b: Seq<Seq<char>>)
    ensures
        nl_block(a + b) == nl_block(a) + nl_block(b),
    decreases a.len(),
{
    if a.len() == 0 {
        assert(a + b =~= b);
        assert(nl_block(a) + nl_block(b) =~= nl_block(b));
    } else {
        lemma_nl_block_concat(a.skip(1), b);
        assert((a + b).skip(1) =~= a.skip(1) + b);
        assert((a + b)[0] == a[0]);
        assert(nl_block(a + b) == (a + b)[0] + seq!['\n'] + nl_block((a + b).skip(1)));
        assert(a[0] + seq!['\n'] + (nl_block(a.skip(1)) + nl_block(b)) =~= (a[0] + seq!['\n']
            + nl_block(a.skip(1))) + nl_block(b));
    }
}

} // verus!
