//! Resource-name text utilities: splitting a name into `/`-separated
//! segments and decoding the declared-size segment.
//!
//! `splitn` follows the usual "at most `n` parts" convention: the first
//! `n - 1` parts are the text between consecutive separators, and the last
//! part is the unsplit remainder.

use vstd::prelude::*;

verus! {

/// The index of the first '/' of `s`, or -1 when there is none.
pub open spec fn slash_index(s: Seq<char>) -> int
    decreases s.len(),
{
    if s.len() == 0 {
        -1
    } else if s[0] == '/' {
        0
    } else if slash_index(s.skip(1)) == -1 {
        -1
    } else {
        1 + slash_index(s.skip(1))
    }
}

/// `slash_index` finds exactly the first '/', when there is one.
proof fn lemma_slash_index(s: Seq<char>)
    ensures
        slash_index(s) >= -1,
        slash_index(s) == -1 ==> forall|i: int| 0 <= i < s.len() ==> s[i] != '/',
        slash_index(s) >= 0 ==> slash_index(s) < s.len() && s[slash_index(s)] == '/',
        slash_index(s) >= 0 ==> (forall|i: int| 0 <= i < slash_index(s) ==> s[i] != '/'),
    decreases s.len(),
{
    if s.len() == 0 {
    } else if s[0] == '/' {
    } else {
        let t = s.skip(1);
        assert(t.len() == s.len() - 1);
        assert(forall|j: int| 0 <= j < t.len() ==> #[trigger] t[j] == s[j + 1]);
        lemma_slash_index(t);
        if slash_index(t) == -1 {
            assert(slash_index(s) == -1);
            assert forall|i: int| 0 <= i < s.len() implies s[i] != '/' by {
                if i > 0 {
                    assert(t[i - 1] == s[i]);
                    assert(t[i - 1] != '/');
                }
            }
        } else {
            assert(slash_index(s) == 1 + slash_index(t));
            assert(s[slash_index(s)] == t[slash_index(t)]);
            assert forall|i: int| 0 <= i < slash_index(s) implies s[i] != '/' by {
                if i > 0 {
                    assert(t[i - 1] == s[i]);
                    assert(t[i - 1] != '/');
                }
            }
        }
    }
}

/// The index of the first '/' of `s`, or `None` when there is none.
fn find_slash(s: &str) -> (r: Option<usize>)
    requires
        s@.len() <= usize::MAX,
    ensures
        match r {
            Some(i) => slash_index(s@) == i as int,
            None => slash_index(s@) == -1,
        },
{
    let n: usize = s.unicode_len();
    let mut i: usize = 0;
    while i < n
        invariant
            i <= n,
            n as int == s@.len(),
            forall|m: int| 0 <= m < i ==> s@[m] != '/',
        decreases n - i,
    {
        let c = s.get_char(i);
        if c == '/' {
            proof {
                lemma_slash_index(s@);
            }
            return Some(i);
        }
        i = i + 1;
    }
    proof {
        lemma_slash_index(s@);
    }
    None
}

/// `s` split on '/' into at most `n` parts; the last part keeps any
/// remaining separators.
pub open spec fn splitn(s: Seq<char>, n: nat) -> Seq<Seq<char>>
    decreases n,
{
    if n == 0 {
        Seq::empty()
    } else if n == 1 || slash_index(s) == -1 {
        seq![s]
    } else {
        seq![s.take(slash_index(s))] + splitn(s.skip(slash_index(s) + 1), (n - 1) as nat)
    }
}

/// Splits `s` on '/' into at most `n` owned parts.
pub fn split_name(s: &str, n: usize) -> (parts: Vec<String>)
    requires
        1 <= n,
        s@.len() <= usize::MAX,
    ensures
        parts@.map_values(|p: String| p@) == splitn(s@, n as nat),
    decreases n,
{
    if n == 1 {
        let mut out: Vec<String> = Vec::new();
        out.push(String::from_str(s));
        proof {
            assert(out@.map_values(|p: String| p@) =~= splitn(s@, n as nat));
        }
        return out;
    }
    match find_slash(s) {
        None => {
            let mut out: Vec<String> = Vec::new();
            out.push(String::from_str(s));
            proof {
                assert(out@.map_values(|p: String| p@) =~= splitn(s@, n as nat));
            }
            out
        },
        Some(i) => {
            let len: usize = s.unicode_len();
            proof {
                lemma_slash_index(s@);
            }
            let head = s.substring_char(0, i);
            let tail = s.substring_char(i + 1, len);
            let mut rest = split_name(tail, n - 1);
            let mut out: Vec<String> = Vec::new();
            out.push(String::from_str(head));
            out.append(&mut rest);
            proof {
                assert(head@ == s@.take(i as int));
                assert(tail@ == s@.skip(i as int + 1));
                assert(out@.map_values(|p: String| p@) =~= splitn(s@, n as nat));
            }
            out
        },
    }
}

/// The value of a decimal digit, or -1 for any other character.
pub open spec fn dec_digit_value(c: char) -> int {
    let u = c as u32;
    if 48 <= u && u <= 57 {
        u - 48
    } else {
        -1
    }
}

/// Whether every character of `s` is a decimal digit.
pub open spec fn all_dec_digits(s: Seq<char>) -> bool {
    forall|i: int| 0 <= i < s.len() ==> #[trigger] dec_digit_value(s[i]) >= 0
}

/// The numeric value of a decimal digit string, most significant first.
pub open spec fn dec_value(s: Seq<char>) -> int
    decreases s.len(),
{
    if s.len() == 0 {
        0
    } else {
        dec_value(s.drop_last()) * 10 + dec_digit_value(s.last())
    }
}

/// The digits of a size segment: an optional leading '+' is dropped.
pub open spec fn size_digits(s: Seq<char>) -> Seq<char> {
    if s.len() > 0 && s[0] == '+' {
        s.skip(1)
    } else {
        s
    }
}

/// The declared size encoded by `s`: a non-negative decimal integer with an
/// optional leading '+', rejected when empty, non-numeric, or too large for
/// `usize`.
pub open spec fn parse_size_spec(s: Seq<char>) -> Option<usize> {
    let d = size_digits(s);
    if d.len() > 0 && all_dec_digits(d) && dec_value(d) <= usize::MAX {
        Some(dec_value(d) as usize)
    } else {
        None
    }
}

proof fn lemma_dec_value_nonneg(s: Seq<char>)
    requires
        all_dec_digits(s),
    ensures
        dec_value(s) >= 0,
    decreases s.len(),
{
    if s.len() > 0 {
        assert(all_dec_digits(s.drop_last())) by {
            assert forall|i: int| 0 <= i < s.drop_last().len() implies #[trigger] dec_digit_value(
                s.drop_last()[i],
            ) >= 0 by {
                assert(s.drop_last()[i] == s[i]);
                assert(dec_digit_value(s[i]) >= 0);
            }
        }
        lemma_dec_value_nonneg(s.drop_last());
    }
}

/// The value of a digit string is at least the value of any of its prefixes.
proof fn lemma_dec_value_prefix_le(s: Seq<char>, k: int)
    requires
        all_dec_digits(s),
        0 <= k <= s.len(),
    ensures
        dec_value(s.take(k)) <= dec_value(s),
    decreases s.len() - k,
{
    if k == s.len() {
        assert(s.take(k) =~= s);
    } else {
        assert(s.take(k + 1).drop_last() =~= s.take(k));
        assert(s.take(k + 1).last() == s[k]);
        assert(all_dec_digits(s.take(k))) by {
            assert forall|i: int| 0 <= i < s.take(k).len() implies #[trigger] dec_digit_value(
                s.take(k)[i],
            ) >= 0 by {
                assert(s.take(k)[i] == s[i]);
                assert(dec_digit_value(s[i]) >= 0);
            }
        }
        lemma_dec_value_nonneg(s.take(k));
        assert(dec_value(s.take(k)) <= dec_value(s.take(k + 1)));
        lemma_dec_value_prefix_le(s, k + 1);
    }
}

/// The value of one decimal digit character.
fn dec_digit(c: char) -> (r: Option<u8>)
    ensures
        r is Some ==> dec_digit_value(c) == r.unwrap() as int,
        r is None ==> dec_digit_value(c) < 0,
{
    let u: u32 = c as u32;
    if 48 <= u && u <= 57 {
        Some((u - 48) as u8)
    } else {
        None
    }
}

/// Decodes the declared-size segment of a resource name.
pub fn parse_size(s: &str) -> (r: Option<usize>)
    requires
        s@.len() <= usize::MAX,
    ensures
        r == parse_size_spec(s@),
{
    let n: usize = s.unicode_len();
    if n == 0 {
        return None;
    }
    let first = s.get_char(0);
    let start: usize = if first == '+' {
        1
    } else {
        0
    };
    let ghost d = size_digits(s@);
    proof {
        assert(s@.skip(0) =~= s@);
        assert(d == s@.skip(start as int));
    }
    if n == start {
        return None;
    }
    let mut acc: usize = 0;
    let mut i: usize = start;
    while i < n
        invariant
            start <= i <= n,
            start <= 1,
            n as int == s@.len(),
            d == s@.skip(start as int),
            d == size_digits(s@),
            forall|m: int| 0 <= m < i - start ==> #[trigger] dec_digit_value(d[m]) >= 0,
            acc as int == dec_value(d.take(i - start)),
        decreases n - i,
    {
        let ghost j = i - start;
        let c = s.get_char(i);
        proof {
            assert(c == d[j]);
        }
        match dec_digit(c) {
            None => {
                proof {
                    assert(dec_digit_value(d[j]) < 0);
                }
                return None;
            },
            Some(v) => {
                proof {
                    assert(d.take(j + 1).drop_last() =~= d.take(j));
                    assert(d.take(j + 1).last() == d[j]);
                }
                let big = match acc.checked_mul(10) {
                    Some(m) => m.checked_add(v as usize),
                    None => None,
                };
                match big {
                    None => {
                        proof {
                            if all_dec_digits(d) && dec_value(d) <= usize::MAX {
                                lemma_dec_value_prefix_le(d, j + 1);
                                assert(false);
                            }
                        }
                        return None;
                    },
                    Some(a) => {
                        acc = a;
                        i = i + 1;
                    },
                }
            },
        }
    }
    proof {
        assert(d.take(d.len() as int) =~= d);
        assert(all_dec_digits(d));
    }
    Some(acc)
}

} // verus!
