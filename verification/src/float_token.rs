//! Validity of a numeric token.
//!
//! A data token is accepted exactly when it matches the grammar that std
//! documents for reading a double-precision value from text: an optional
//! sign, then `inf`, `infinity` or `nan` in any letter case, or a decimal
//! number — digits with at most one dot and at least one digit — followed
//! by an optional exponent (`e` or `E`, an optional sign, one or more
//! digits). The library never converts an accepted token to a machine
//! float; it keeps the token's bytes, and the shell converts at the edge.

use vstd::prelude::*;

verus! {

pub open spec fn is_digit(b: u8) -> bool {
    48 <= b && b <= 57
}

pub open spec fn is_sign(b: u8) -> bool {
    b == 43 || b == 45
}

pub open spec fn is_dot(b: u8) -> bool {
    b == 46
}

pub open spec fn is_exp_byte(b: u8) -> bool {
    b == 101 || b == 69
}

/// The byte with an ASCII upper-case letter folded to lower case.
pub open spec fn to_lower(b: u8) -> u8 {
    if 65 <= b && b <= 90 {
        (b + 32) as u8
    } else {
        b
    }
}

pub open spec fn all_digits(s: Seq<u8>) -> bool {
    forall|i: int| 0 <= i < s.len() ==> is_digit(s[i])
}

/// Byte-wise equality up to ASCII letter case.
pub open spec fn matches_ci(s: Seq<u8>, t: Seq<u8>) -> bool {
    s.len() == t.len() && forall|i: int| 0 <= i < s.len() ==> to_lower(s[i]) == to_lower(t[i])
}

/// `inf`, `infinity` or `nan`, in any letter case.
pub open spec fn is_special(s: Seq<u8>) -> bool {
    ||| matches_ci(s, seq![105u8, 110u8, 102u8])
    ||| matches_ci(s, seq![105u8, 110u8, 102u8, 105u8, 110u8, 105u8, 116u8, 121u8])
    ||| matches_ci(s, seq![110u8, 97u8, 110u8])
}

/// Digits with at most one dot among them, and at least one digit.
pub open spec fn is_mantissa(s: Seq<u8>) -> bool {
    &&& exists|i: int| 0 <= i < s.len() && is_digit(s[i])
    &&& forall|i: int| 0 <= i < s.len() ==> is_digit(s[i]) || is_dot(s[i])
    &&& forall|i: int, j: int|
        0 <= i < s.len() && 0 <= j < s.len() && is_dot(s[i]) && is_dot(s[j]) ==> i == j
}

/// What may follow the exponent marker: an optional sign, then one or
/// more digits.
pub open spec fn is_exp_tail(s: Seq<u8>) -> bool {
    if s.len() > 0 && is_sign(s[0]) {
        s.len() > 1 && all_digits(s.skip(1))
    } else {
        s.len() > 0 && all_digits(s)
    }
}

/// A mantissa, optionally followed by an exponent marker and its tail.
pub open spec fn is_number(s: Seq<u8>) -> bool {
    ||| is_mantissa(s)
    ||| exists|k: int|
        0 <= k < s.len() && is_exp_byte(s[k]) && is_mantissa(s.take(k)) && is_exp_tail(
            s.skip(k + 1),
        )
}

pub open spec fn strip_sign(s: Seq<u8>) -> Seq<u8> {
    if s.len() > 0 && is_sign(s[0]) {
        s.skip(1)
    } else {
        s
    }
}

/// Whether a token is a valid numeric token.
pub open spec fn is_float_token(s: Seq<u8>) -> bool {
    ||| is_special(strip_sign(s))
    ||| is_number(strip_sign(s))
}

fn lower_byte(b: u8) -> (r: u8)
    ensures
        r == to_lower(b),
{
    if 65 <= b && b <= 90 {
        b + 32
    } else {
        b
    }
}

fn digit_byte(b: u8) -> (r: bool)
    ensures
        r == is_digit(b),
{
    48 <= b && b <= 57
}

/// Whether `t[start..]` is one of the spelled-out special values.
fn check_special(t: &[u8], start: usize) -> (r: bool)
    requires
        start <= t@.len(),
    ensures
        r == is_special(t@.skip(start as int)),
{
    let ghost s = t@.skip(start as int);
    let n = t.len();
    let rem = n - start;
    if rem == 3 {
        let b0 = lower_byte(t[start]);
        let b1 = lower_byte(t[start + 1]);
        let b2 = lower_byte(t[start + 2]);
        let inf = b0 == 105 && b1 == 110 && b2 == 102;
        let nan = b0 == 110 && b1 == 97 && b2 == 110;
        proof {
            assert(s.len() == 3);
            assert(s[0] == t@[start as int] && s[1] == t@[start + 1] && s[2] == t@[start + 2]);
            if inf {
                assert(matches_ci(s, seq![105u8, 110u8, 102u8])) by {
                    assert(forall|i: int|
                        0 <= i < 3 ==> to_lower(s[i]) == to_lower(seq![105u8, 110u8, 102u8][i]));
                }
            }
            if nan {
                assert(matches_ci(s, seq![110u8, 97u8, 110u8])) by {
                    assert(forall|i: int|
                        0 <= i < 3 ==> to_lower(s[i]) == to_lower(seq![110u8, 97u8, 110u8][i]));
                }
            }
            if !inf && !nan {
                assert(!matches_ci(s, seq![105u8, 110u8, 102u8]));
                assert(!matches_ci(s, seq![110u8, 97u8, 110u8]));
            }
        }
        inf || nan
    } else if rem == 8 {
        let ghost pat = seq![105u8, 110u8, 102u8, 105u8, 110u8, 105u8, 116u8, 121u8];
        let r = lower_byte(t[start]) == 105 && lower_byte(t[start + 1]) == 110 && lower_byte(
            t[start + 2],
        ) == 102 && lower_byte(t[start + 3]) == 105 && lower_byte(t[start + 4]) == 110
            && lower_byte(t[start + 5]) == 105 && lower_byte(t[start + 6]) == 116 && lower_byte(
            t[start + 7],
        ) == 121;
        proof {
            assert(s.len() == 8);
            assert(forall|i: int| 0 <= i < 8 ==> s[i] == t@[start + i]);
            if r {
                assert(matches_ci(s, pat)) by {
                    assert(forall|i: int| 0 <= i < 8 ==> to_lower(s[i]) == to_lower(pat[i]));
                }
            } else {
                assert(!matches_ci(s, pat));
            }
        }
        r
    } else {
        false
    }
}

/// The least index at or after `start` holding an exponent marker.
fn find_exp(t: &[u8], start: usize) -> (r: Option<usize>)
    requires
        start <= t@.len(),
    ensures
        match r {
            Some(k) => start <= k < t@.len() && is_exp_byte(t@[k as int]) && forall|j: int|
                start <= j < k ==> !is_exp_byte(t@[j]),
            None => forall|j: int| start <= j < t@.len() ==> !is_exp_byte(t@[j]),
        },
{
    let n = t.len();
    let mut i = start;
    while i < n
        invariant
            start <= i <= n,
            n == t@.len(),
            forall|j: int| start <= j < i ==> !is_exp_byte(t@[j]),
        decreases n - i,
    {
        let b = t[i];
        if b == 101 || b == 69 {
            return Some(i);
        }
        i = i + 1;
    }
    None
}

/// Whether `t[from..to]` is a mantissa.
fn check_mantissa(t: &[u8], from: usize, to: usize) -> (r: bool)
    requires
        from <= to <= t@.len(),
    ensures
        r == is_mantissa(t@.subrange(from as int, to as int)),
{
    let ghost s = t@.subrange(from as int, to as int);
    proof {
        assert(forall|p: int| 0 <= p < s.len() ==> s[p] == t@[from + p]);
    }
    let mut i = from;
    let mut has_digit = false;
    let mut has_dot = false;
    while i < to
        invariant
            from <= i <= to <= t@.len(),
            s == t@.subrange(from as int, to as int),
            forall|p: int| 0 <= p < s.len() ==> s[p] == t@[from + p],
            forall|p: int| 0 <= p < i - from ==> is_digit(s[p]) || is_dot(s[p]),
            has_digit == exists|p: int| 0 <= p < i - from && is_digit(s[p]),
            has_dot == exists|p: int| 0 <= p < i - from && is_dot(s[p]),
            forall|p: int, q: int|
                0 <= p < i - from && 0 <= q < i - from && is_dot(s[p]) && is_dot(s[q]) ==> p == q,
        decreases to - i,
    {
        let b = t[i];
        if digit_byte(b) {
            proof {
                assert(is_digit(s[i - from]));
                assert(!is_dot(s[i - from]));
                if has_dot {
                    let p = choose|p: int| 0 <= p < i - from && is_dot(s[p]);
                    assert(0 <= p < i + 1 - from && is_dot(s[p]));
                }
                if has_digit {
                    let p = choose|p: int| 0 <= p < i - from && is_digit(s[p]);
                    assert(0 <= p < i + 1 - from && is_digit(s[p]));
                }
            }
            has_digit = true;
        } else if b == 46 {
            if has_dot {
                proof {
                    let p = choose|p: int| 0 <= p < i - from && is_dot(s[p]);
                    assert(is_dot(s[i - from]));
                    assert(!is_mantissa(s));
                }
                return false;
            }
            proof {
                assert(is_dot(s[i - from]));
                assert(!is_digit(s[i - from]));
                if has_digit {
                    let p = choose|p: int| 0 <= p < i - from && is_digit(s[p]);
                    assert(0 <= p < i + 1 - from && is_digit(s[p]));
                }
            }
            has_dot = true;
        } else {
            proof {
                assert(!is_digit(s[i - from]) && !is_dot(s[i - from]));
                assert(!is_mantissa(s));
            }
            return false;
        }
        i = i + 1;
    }
    proof {
        if has_digit {
            assert(is_mantissa(s));
        } else {
            assert(!is_mantissa(s));
        }
    }
    has_digit
}

/// Whether `t[from..]` is an exponent tail.
fn check_exp_tail(t: &[u8], from: usize) -> (r: bool)
    requires
        from <= t@.len(),
    ensures
        r == is_exp_tail(t@.skip(from as int)),
{
    let ghost s = t@.skip(from as int);
    proof {
        assert(forall|p: int| 0 <= p < s.len() ==> s[p] == t@[from + p]);
    }
    let n = t.len();
    let mut i = from;
    if i < n && (t[i] == 43 || t[i] == 45) {
        i = i + 1;
    }
    let ghost body = if s.len() > 0 && is_sign(s[0]) {
        s.skip(1)
    } else {
        s
    };
    proof {
        assert(forall|p: int| 0 <= p < body.len() ==> body[p] == t@[i + p]);
        assert(is_exp_tail(s) == (body.len() > 0 && all_digits(body)));
    }
    if i == n {
        proof {
            assert(body.len() == 0);
        }
        return false;
    }
    let mut j = i;
    while j < n
        invariant
            i <= j <= n,
            n == t@.len(),
            i < n,
            body.len() == n - i,
            is_exp_tail(t@.skip(from as int)) == (body.len() > 0 && all_digits(body)),
            forall|p: int| 0 <= p < body.len() ==> body[p] == t@[i + p],
            forall|p: int| 0 <= p < j - i ==> is_digit(body[p]),
        decreases n - j,
    {
        let b = t[j];
        if !digit_byte(b) {
            proof {
                assert(!is_digit(body[j - i]));
                assert(!all_digits(body));
            }
            return false;
        }
        j = j + 1;
    }
    proof {
        assert(all_digits(body));
        assert(body.len() > 0);
    }
    true
}

/// Whether `t[start..]` is a number, with or without an exponent part.
fn check_number(t: &[u8], start: usize) -> (r: bool)
    requires
        start <= t@.len(),
    ensures
        r == is_number(t@.skip(start as int)),
{
    let ghost s = t@.skip(start as int);
    proof {
        assert(forall|p: int| 0 <= p < s.len() ==> s[p] == t@[start + p]);
    }
    let n = t.len();
    match find_exp(t, start) {
        None => {
            let r = check_mantissa(t, start, n);
            proof {
                assert(t@.subrange(start as int, n as int) =~= s);
                if !r {
                    assert forall|k: int|
                        0 <= k < s.len() implies !(is_exp_byte(s[k]) && is_mantissa(s.take(k))
                        && is_exp_tail(s.skip(k + 1))) by {
                        assert(!is_exp_byte(t@[start + k]));
                    }
                }
            }
            r
        },
        Some(k) => {
            let m = check_mantissa(t, start, k);
            if !m {
                proof {
                    let ghost kk = k - start;
                    assert(t@.subrange(start as int, k as int) =~= s.take(kk));
                    assert(is_exp_byte(s[kk]));
                    assert(!is_digit(s[kk]) && !is_dot(s[kk]));
                    assert(!is_mantissa(s));
                    assert forall|k2: int|
                        0 <= k2 < s.len() implies !(is_exp_byte(s[k2]) && is_mantissa(s.take(k2))
                        && is_exp_tail(s.skip(k2 + 1))) by {
                        if is_exp_byte(s[k2]) && k2 != kk {
                            if k2 < kk {
                                assert(is_exp_byte(t@[start + k2]));
                                assert(false);
                            } else {
                                assert(s.take(k2)[kk] == s[kk]);
                                assert(is_exp_byte(s[kk]));
                                assert(!is_mantissa(s.take(k2)));
                            }
                        }
                    }
                }
                return false;
            }
            let e = check_exp_tail(t, k + 1);
            proof {
                let ghost kk = k - start;
                assert(t@.subrange(start as int, k as int) =~= s.take(kk));
                assert(t@.skip(k + 1) =~= s.skip(kk + 1));
                assert(is_exp_byte(s[kk]));
                if e {
                    assert(is_number(s));
                } else {
                    assert(!is_mantissa(s)) by {
                        assert(!is_digit(s[kk]) && !is_dot(s[kk]));
                    }
                    assert forall|k2: int|
                        0 <= k2 < s.len() implies !(is_exp_byte(s[k2]) && is_mantissa(s.take(k2))
                        && is_exp_tail(s.skip(k2 + 1))) by {
                        if is_exp_byte(s[k2]) {
                            if k2 < kk {
                                assert(is_exp_byte(t@[start + k2]));
                                assert(false);
                            } else if k2 > kk {
                                assert(s.take(k2)[kk] == s[kk]);
                                assert(!is_mantissa(s.take(k2)));
                            }
                        }
                    }
                }
            }
            e
        },
    }
}

/// Whether a token is a valid numeric token.
pub fn float_token_ok(t: &[u8]) -> (r: bool)
    ensures
        r == is_float_token(t@),
{
    let n = t.len();
    let start: usize = if n > 0 && (t[0] == 43 || t[0] == 45) {
        1
    } else {
        0
    };
    proof {
        assert(strip_sign(t@) =~= t@.skip(start as int));
    }
    let special = check_special(t, start);
    if special {
        return true;
    }
    check_number(t, start)
}

} // verus!
