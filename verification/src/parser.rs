//! Decoding one sample file into an ordered run of samples and the two
//! header parameters.
//!
//! A file's first line is a banner and is discarded. The next line carries
//! the run's parameters as whitespace-separated tokens; the tokens at
//! positions 17 and 20, with trailing commas stripped, are the `he` and
//! `gamma` parameter strings, and the line must have at least 21 tokens.
//! Every later line except trailing empty ones is a data line: at least
//! three whitespace-separated tokens, the first three each a valid numeric
//! token, giving one sample `(x, y, y')`. Samples keep file order; nothing
//! is sorted.

use vstd::prelude::*;
use vstd::slice::{slice_subrange, slice_to_vec};

use crate::float_token::is_float_token;
use crate::float_token::float_token_ok;
use crate::text::{lines_of, tokens_of};
use crate::text::{split_lines, split_tokens};

verus! {

/// One data point: the token bytes of the independent variable, the
/// primary quantity, and its derivative, in file order. The tokens are
/// kept as written; the shell converts them to machine floats at its edge.
#[derive(Clone, Debug, PartialEq, Eq)]
pub struct Sample {
    pub x: Vec<u8>,
    pub y: Vec<u8>,
    pub yp: Vec<u8>,
}

pub struct SampleView {
    pub x: Seq<u8>,
    pub y: Seq<u8>,
    pub yp: Seq<u8>,
}

impl View for Sample {
    type V = SampleView;

    open spec fn view(&self) -> SampleView {
        SampleView { x: self.x@, y: self.y@, yp: self.yp@ }
    }
}

impl DeepView for Sample {
    type V = SampleView;

    open spec fn deep_view(&self) -> SampleView {
        self@
    }
}

/// Why a file was rejected. `Unreadable` is for a file whose bytes could
/// not be read as text at all; the reading edge reports it, never `parse`.
/// `MalformedSample` carries the position of the offending line among the
/// data lines, counted from zero.
#[derive(Clone, Copy, PartialEq, Eq, Structural, Debug)]
pub enum ParseError {
    Unreadable,
    MalformedHeader,
    MalformedSample(usize),
}

/// A decoded file: its samples in file order and the two parameter
/// strings.
#[derive(Clone, Debug, PartialEq, Eq)]
pub struct Parsed {
    pub samples: Vec<Sample>,
    pub he: Vec<u8>,
    pub gamma: Vec<u8>,
}

pub struct ParsedView {
    pub samples: Seq<SampleView>,
    pub he: Seq<u8>,
    pub gamma: Seq<u8>,
}

impl View for Parsed {
    type V = ParsedView;

    open spec fn view(&self) -> ParsedView {
        ParsedView { samples: self.samples.deep_view(), he: self.he@, gamma: self.gamma@ }
    }
}

/// The token with every trailing comma removed.
pub open spec fn strip_trailing_commas(t: Seq<u8>) -> Seq<u8>
    decreases t.len(),
{
    if t.len() > 0 && t.last() == 44 {
        strip_trailing_commas(t.drop_last())
    } else {
        t
    }
}

/// The run of lines with every trailing empty line removed.
pub open spec fn trim_trailing_empty(q: Seq<Seq<u8>>) -> Seq<Seq<u8>>
    decreases q.len(),
{
    if q.len() > 0 && q.last().len() == 0 {
        trim_trailing_empty(q.drop_last())
    } else {
        q
    }
}

/// Whether a data line is well formed: at least three tokens, the first
/// three each a valid numeric token.
pub open spec fn good_line(line: Seq<u8>) -> bool {
    let toks = tokens_of(line);
    toks.len() >= 3 && is_float_token(toks[0]) && is_float_token(toks[1]) && is_float_token(
        toks[2],
    )
}

/// The sample a well-formed data line denotes.
pub open spec fn sample_of_line(line: Seq<u8>) -> SampleView {
    let toks = tokens_of(line);
    SampleView { x: toks[0], y: toks[1], yp: toks[2] }
}

/// The samples of a run of data lines, in order.
pub open spec fn samples_of(dls: Seq<Seq<u8>>) -> Seq<SampleView> {
    dls.map_values(|l: Seq<u8>| sample_of_line(l))
}

/// The least index at or after `i` of an ill-formed data line, or the
/// length.
pub open spec fn first_bad(dls: Seq<Seq<u8>>, i: int) -> int
    decreases dls.len() - i,
    when 0 <= i <= dls.len()
{
    if i >= dls.len() {
        i
    } else if !good_line(dls[i]) {
        i
    } else {
        first_bad(dls, i + 1)
    }
}

/// What parsing a file yields, stated over the file's bytes alone.
pub enum ParseOutcome {
    Parsed(ParsedView),
    BadHeader,
    BadSample(int),
}

/// The data lines of a file: everything after the banner and the
/// parameter line, with trailing empty lines dropped.
pub open spec fn data_lines_of(s: Seq<u8>) -> Seq<Seq<u8>> {
    trim_trailing_empty(lines_of(s).skip(2))
}

/// The full meaning of `parse`, as a function of the file's bytes.
pub open spec fn spec_parse(s: Seq<u8>) -> ParseOutcome {
    let ls = lines_of(s);
    if ls.len() < 2 {
        ParseOutcome::BadHeader
    } else {
        let ptoks = tokens_of(ls[1]);
        if ptoks.len() < 21 {
            ParseOutcome::BadHeader
        } else {
            let dls = data_lines_of(s);
            let bad = first_bad(dls, 0);
            if bad < dls.len() {
                ParseOutcome::BadSample(bad)
            } else {
                ParseOutcome::Parsed(
                    ParsedView {
                        samples: samples_of(dls),
                        he: strip_trailing_commas(ptoks[17]),
                        gamma: strip_trailing_commas(ptoks[20]),
                    },
                )
            }
        }
    }
}

/// Copies a byte token.
pub(crate) fn clone_bytes(v: &Vec<u8>) -> (r: Vec<u8>)
    ensures
        r@ == v@,
{
    let r = v.clone();
    proof {
        assert forall|i: int| 0 <= i < v@.len() implies r@[i] == v@[i] by {
            assert(cloned::<u8>(v@[i], r@[i]));
        }
        assert(r@ =~= v@);
    }
    r
}

/// The token with every trailing comma removed.
#[verifier::loop_isolation(false)]
fn strip_commas(t: &Vec<u8>) -> (r: Vec<u8>)
    ensures
        r@ == strip_trailing_commas(t@),
{
    let mut e = t.len();
    proof {
        assert(t@.subrange(0, t@.len() as int) =~= t@);
    }
    while e > 0 && t[e - 1] == 44
        invariant
            e <= t@.len(),
            strip_trailing_commas(t@) == strip_trailing_commas(t@.subrange(0, e as int)),
        decreases e,
    {
        proof {
            let sub = t@.subrange(0, e as int);
            assert(sub.last() == t@[e - 1]);
            assert(sub.drop_last() =~= t@.subrange(0, e - 1));
        }
        e = e - 1;
    }
    proof {
        let sub = t@.subrange(0, e as int);
        if e > 0 {
            assert(sub.last() == t@[e - 1]);
        }
        assert(strip_trailing_commas(sub) == sub);
    }
    slice_to_vec(slice_subrange(t.as_slice(), 0, e))
}

/// Decodes a file's bytes. Returns the decoded samples and parameters, or
/// says which part of the file is ill formed; the outcome is a function of
/// the bytes alone, so decoding the same file twice yields identical
/// results.
#[verifier::loop_isolation(false)]
pub fn parse(contents: &[u8]) -> (r: Result<Parsed, ParseError>)
    ensures
        r matches Ok(p) ==> spec_parse(contents@) == ParseOutcome::Parsed(p@),
        r matches Err(e) ==> e != ParseError::Unreadable,
        (r matches Err(e) && e == ParseError::MalformedHeader) ==> spec_parse(contents@)
            == ParseOutcome::BadHeader,
        r matches Err(e) ==> (e matches ParseError::MalformedSample(i) ==> spec_parse(contents@)
            == ParseOutcome::BadSample(i as int)),
{
    let lines = split_lines(contents);
    let ghost ls = lines_of(contents@);
    if lines.len() < 2 {
        return Err(ParseError::MalformedHeader);
    }
    let ptoks = split_tokens(lines[1].as_slice());
    proof {
        assert(lines.deep_view()[1] == lines[1]@);
        assert(ptoks.deep_view() == tokens_of(ls[1]));
    }
    if ptoks.len() < 21 {
        return Err(ParseError::MalformedHeader);
    }
    let he = strip_commas(&ptoks[17]);
    let gamma = strip_commas(&ptoks[20]);
    proof {
        assert(ptoks[17]@ == ptoks.deep_view()[17]);
        assert(ptoks[20]@ == ptoks.deep_view()[20]);
    }

    // Trailing empty lines are not data.
    let mut end = lines.len();
    while end > 2 && lines[end - 1].len() == 0
        invariant
            2 <= end <= lines@.len(),
            lines.deep_view() == ls,
            ls.len() >= 2,
            trim_trailing_empty(ls.skip(2)) == trim_trailing_empty(
                ls.subrange(2, end as int),
            ),
        decreases end,
    {
        proof {
            let sub = ls.subrange(2, end as int);
            assert(sub.last() == ls[end - 1]);
            assert(ls[end - 1] == lines[end - 1]@);
            assert(sub.drop_last() =~= ls.subrange(2, end - 1));
        }
        end = end - 1;
    }
    let ghost dls = data_lines_of(contents@);
    proof {
        let sub = ls.subrange(2, end as int);
        if end > 2 {
            assert(sub.last() == ls[end - 1]);
            assert(ls[end - 1] == lines[end - 1]@);
            assert(sub.last().len() != 0);
        }
        assert(trim_trailing_empty(sub) == sub);
        assert(ls.skip(2) =~= ls.subrange(2, ls.len() as int));
        assert(dls == ls.subrange(2, end as int));
    }

    let mut samples: Vec<Sample> = Vec::new();
    let mut k: usize = 2;
    while k < end
        invariant
            2 <= k <= end <= lines@.len(),
            lines.deep_view() == ls,
            dls == ls.subrange(2, end as int),
            first_bad(dls, 0) == first_bad(dls, k - 2),
            samples.deep_view() =~= samples_of(dls).subrange(0, k - 2),
        decreases end - k,
    {
        let toks = split_tokens(lines[k].as_slice());
        proof {
            assert(lines[k as int]@ == ls[k as int]);
            assert(dls[k - 2] == ls[k as int]);
            assert(toks.deep_view() == tokens_of(dls[k - 2]));
        }
        let ok = if toks.len() < 3 {
            false
        } else {
            let ghost tv = toks.deep_view();
            let ok0 = float_token_ok(toks[0].as_slice());
            let ok1 = float_token_ok(toks[1].as_slice());
            let ok2 = float_token_ok(toks[2].as_slice());
            proof {
                assert(toks[0]@ == tv[0] && toks[1]@ == tv[1] && toks[2]@ == tv[2]);
            }
            ok0 && ok1 && ok2
        };
        if !ok {
            proof {
                assert(!good_line(dls[k - 2]));
                assert(first_bad(dls, k - 2) == k - 2);
            }
            return Err(ParseError::MalformedSample(k - 2));
        }
        proof {
            assert(good_line(dls[k - 2]));
            assert(first_bad(dls, k - 2) == first_bad(dls, k - 1));
        }
        let s = Sample {
            x: clone_bytes(&toks[0]),
            y: clone_bytes(&toks[1]),
            yp: clone_bytes(&toks[2]),
        };
        let ghost old_samples = samples.deep_view();
        samples.push(s);
        proof {
            let ghost tv = toks.deep_view();
            assert(samples.deep_view() =~~= old_samples + seq![
                SampleView { x: tv[0], y: tv[1], yp: tv[2] },
            ]);
            assert(samples_of(dls)[k - 2] == sample_of_line(dls[k - 2]));
            assert(samples.deep_view() =~= samples_of(dls).subrange(0, k - 1));
        }
        k = k + 1;
    }
    proof {
        assert(first_bad(dls, k - 2) == dls.len());
        assert(samples.deep_view() =~= samples_of(dls));
    }
    Ok(Parsed { samples, he, gamma })
}

/// Decoding is deterministic: two results of `parse` on the same bytes
/// agree — the same samples, `he` and `gamma` byte for byte, or the same
/// error.
pub proof fn lemma_parse_deterministic(
    contents: &[u8],
    r1: Result<Parsed, ParseError>,
    r2: Result<Parsed, ParseError>,
)
    requires
        call_ensures(parse, (contents,), r1),
        call_ensures(parse, (contents,), r2),
    ensures
        match (r1, r2) {
            (Ok(p1), Ok(p2)) => p1@ == p2@,
            (Err(e1), Err(e2)) => e1 == e2,
            _ => false,
        },
{
}

} // verus!
