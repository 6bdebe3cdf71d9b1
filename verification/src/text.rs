//! Splitting raw file bytes into lines and whitespace-separated tokens.
//!
//! A file is split into lines on every newline byte, keeping empty
//! segments, as a plain split does: a file of `n` newlines has `n + 1`
//! lines. A line is split into tokens on runs of ASCII whitespace, and
//! empty tokens are dropped.

use vstd::prelude::*;
use vstd::slice::{slice_subrange, slice_to_vec};

verus! {

pub open spec fn is_space(b: u8) -> bool {
    b == 32 || b == 9 || b == 10 || b == 13 || b == 12
}

pub open spec fn is_newline(b: u8) -> bool {
    b == 10
}

/// The least index at or after `i` holding whitespace, or the length.
pub open spec fn tok_end(s: Seq<u8>, i: int) -> int
    decreases s.len() - i,
    when 0 <= i <= s.len()
{
    if i >= s.len() {
        i
    } else if is_space(s[i]) {
        i
    } else {
        tok_end(s, i + 1)
    }
}

pub proof fn lemma_tok_end(s: Seq<u8>, i: int)
    requires
        0 <= i <= s.len(),
    ensures
        i <= tok_end(s, i) <= s.len(),
        i < s.len() && !is_space(s[i]) ==> tok_end(s, i) >= i + 1,
    decreases s.len() - i,
{
    if i < s.len() && !is_space(s[i]) {
        lemma_tok_end(s, i + 1);
    }
}

/// The tokens of `s[i..]`: maximal runs of non-whitespace bytes.
pub open spec fn tokens_from(s: Seq<u8>, i: int) -> Seq<Seq<u8>>
    decreases s.len() - i,
    when 0 <= i <= s.len()
    via tokens_from_decreases
{
    if i >= s.len() {
        seq![]
    } else if is_space(s[i]) {
        tokens_from(s, i + 1)
    } else {
        seq![s.subrange(i, tok_end(s, i))] + tokens_from(s, tok_end(s, i))
    }
}

#[via_fn]
proof fn tokens_from_decreases(s: Seq<u8>, i: int) {
    if 0 <= i < s.len() && !is_space(s[i]) {
        lemma_tok_end(s, i);
    }
}

/// The whitespace-separated tokens of a line.
pub open spec fn tokens_of(line: Seq<u8>) -> Seq<Seq<u8>> {
    tokens_from(line, 0)
}

/// The least index at or after `i` holding a newline, or the length.
pub open spec fn line_end(s: Seq<u8>, i: int) -> int
    decreases s.len() - i,
    when 0 <= i <= s.len()
{
    if i >= s.len() {
        i
    } else if is_newline(s[i]) {
        i
    } else {
        line_end(s, i + 1)
    }
}

pub proof fn lemma_line_end(s: Seq<u8>, i: int)
    requires
        0 <= i <= s.len(),
    ensures
        i <= line_end(s, i) <= s.len(),
    decreases s.len() - i,
{
    if i < s.len() && !is_newline(s[i]) {
        lemma_line_end(s, i + 1);
    }
}

/// The lines of `s[i..]`: the segments between newline bytes, empty
/// segments kept.
pub open spec fn lines_from(s: Seq<u8>, i: int) -> Seq<Seq<u8>>
    decreases s.len() - i,
    when 0 <= i <= s.len()
    via lines_from_decreases
{
    let j = line_end(s, i);
    if j >= s.len() {
        seq![s.subrange(i, s.len() as int)]
    } else {
        seq![s.subrange(i, j)] + lines_from(s, j + 1)
    }
}

#[via_fn]
proof fn lines_from_decreases(s: Seq<u8>, i: int) {
    lemma_line_end(s, i);
}

/// The lines of a whole file.
pub open spec fn lines_of(s: Seq<u8>) -> Seq<Seq<u8>> {
    lines_from(s, 0)
}

/// Scans for the next newline at or after `i`.
fn find_newline(s: &[u8], i: usize) -> (r: usize)
    requires
        i <= s@.len(),
    ensures
        r == line_end(s@, i as int),
        i <= r <= s@.len(),
{
    let n = s.len();
    let mut j = i;
    while j < n
        invariant
            i <= j <= n,
            n == s@.len(),
            line_end(s@, i as int) == line_end(s@, j as int),
        decreases n - j,
    {
        if s[j] == 10 {
            return j;
        }
        j = j + 1;
    }
    j
}

/// Splits a file's bytes into its lines.
pub fn split_lines(s: &[u8]) -> (r: Vec<Vec<u8>>)
    ensures
        r.deep_view() == lines_of(s@),
{
    let n = s.len();
    let mut r: Vec<Vec<u8>> = Vec::new();
    let mut i: usize = 0;
    loop
        invariant
            i <= n,
            n == s@.len(),
            r.deep_view() + lines_from(s@, i as int) =~= lines_of(s@),
        decreases n - i,
    {
        let j = find_newline(s, i);
        let seg = slice_to_vec(slice_subrange(s, i, j));
        let ghost old_r = r.deep_view();
        r.push(seg);
        proof {
            assert(r.deep_view() =~~= old_r + seq![s@.subrange(i as int, j as int)]);
        }
        if j == n {
            proof {
                assert(s@.subrange(i as int, j as int) =~= s@.subrange(i as int, s@.len() as int));
                assert(lines_from(s@, i as int) =~= seq![s@.subrange(i as int, s@.len() as int)]);
                assert(r.deep_view() =~= lines_of(s@));
            }
            return r;
        }
        proof {
            assert(lines_from(s@, i as int) =~= seq![s@.subrange(i as int, j as int)] + lines_from(
                s@,
                j + 1,
            ));
        }
        i = j + 1;
    }
}

/// Scans for the next whitespace byte at or after `i`.
fn find_space(s: &[u8], i: usize) -> (r: usize)
    requires
        i <= s@.len(),
    ensures
        r == tok_end(s@, i as int),
        i <= r <= s@.len(),
{
    let n = s.len();
    let mut j = i;
    while j < n
        invariant
            i <= j <= n,
            n == s@.len(),
            tok_end(s@, i as int) == tok_end(s@, j as int),
        decreases n - j,
    {
        let b = s[j];
        if b == 32 || b == 9 || b == 10 || b == 13 || b == 12 {
            return j;
        }
        j = j + 1;
    }
    j
}

/// Splits a line into its whitespace-separated tokens.
pub fn split_tokens(s: &[u8]) -> (r: Vec<Vec<u8>>)
    ensures
        r.deep_view() == tokens_of(s@),
{
    let n = s.len();
    let mut r: Vec<Vec<u8>> = Vec::new();
    let mut i: usize = 0;
    while i < n
        invariant
            i <= n,
            n == s@.len(),
            r.deep_view() + tokens_from(s@, i as int) =~= tokens_of(s@),
        decreases n - i,
    {
        let b = s[i];
        if b == 32 || b == 9 || b == 10 || b == 13 || b == 12 {
            proof {
                assert(tokens_from(s@, i as int) =~= tokens_from(s@, i + 1));
            }
            i = i + 1;
        } else {
            let j = find_space(s, i);
            proof {
                lemma_tok_end(s@, i as int);
                assert(tokens_from(s@, i as int) =~= seq![
                    s@.subrange(i as int, j as int),
                ] + tokens_from(s@, j as int));
            }
            let tok = slice_to_vec(slice_subrange(s, i, j));
            let ghost old_r = r.deep_view();
            r.push(tok);
            proof {
                assert(r.deep_view() =~~= old_r + seq![s@.subrange(i as int, j as int)]);
            }
            i = j;
        }
    }
    proof {
        assert(tokens_from(s@, i as int) =~= Seq::<Seq<u8>>::empty());
        assert(r.deep_view() =~= tokens_of(s@));
    }
    r
}

} // verus!
