//! Content fingerprints and their canonical hex-string encoding.
//!
//! A fingerprint is a fixed-width (256-bit) identifier for a blob, carried
//! in resource names as 64 hex characters. The store does not verify that
//! bytes actually hash to their key, so decoding the hex text is the only
//! fingerprint operation the stub needs.

use vstd::prelude::*;

verus! {

/// A fixed-width 256-bit content identifier, held as four 64-bit words in
/// the order of its canonical hex encoding (most significant first).
#[derive(Clone, Copy, Debug, PartialEq, Eq, Hash, Structural)]
pub struct Fingerprint {
    pub w0: u64,
    pub w1: u64,
    pub w2: u64,
    pub w3: u64,
}

/// A (fingerprint, declared byte size) pair identifying a blob.
#[derive(Clone, Copy, Debug, PartialEq, Eq, Hash, Structural)]
pub struct Digest(pub Fingerprint, pub usize);

/// The value of a hex digit, or -1 for any other character.
pub open spec fn hex_digit_value(c: char) -> int {
    let u = c as u32;
    if 48 <= u && u <= 57 {
        u - 48
    } else if 97 <= u && u <= 102 {
        u - 87
    } else if 65 <= u && u <= 70 {
        u - 55
    } else {
        -1
    }
}

/// Whether every character of `s` is a hex digit.
pub open spec fn is_hex_seq(s: Seq<char>) -> bool {
    forall|i: int| 0 <= i < s.len() ==> #[trigger] hex_digit_value(s[i]) >= 0
}

/// The numeric value of a hex digit string, most significant digit first.
pub open spec fn hex_word(s: Seq<char>) -> int
    decreases s.len(),
{
    if s.len() == 0 {
        0
    } else {
        hex_word(s.drop_last()) * 16 + hex_digit_value(s.last())
    }
}

/// 16 to the power `n`.
pub open spec fn pow16(n: nat) -> int
    decreases n,
{
    if n == 0 {
        1
    } else {
        16 * pow16((n - 1) as nat)
    }
}

proof fn lemma_pow16_positive(n: nat)
    ensures
        pow16(n) >= 1,
    decreases n,
{
    if n > 0 {
        lemma_pow16_positive((n - 1) as nat);
    }
}

proof fn lemma_pow16_nondecreasing(a: nat, b: nat)
    requires
        a <= b,
    ensures
        pow16(a) <= pow16(b),
    decreases b,
{
    if a < b {
        lemma_pow16_nondecreasing(a, (b - 1) as nat);
        lemma_pow16_positive((b - 1) as nat);
    }
}

/// The fingerprint encoded by `s`, when `s` is exactly 64 hex characters.
pub open spec fn fingerprint_from_hex(s: Seq<char>) -> Option<Fingerprint> {
    if s.len() == 64 && is_hex_seq(s) {
        Some(
            Fingerprint {
                w0: hex_word(s.subrange(0, 16)) as u64,
                w1: hex_word(s.subrange(16, 32)) as u64,
                w2: hex_word(s.subrange(32, 48)) as u64,
                w3: hex_word(s.subrange(48, 64)) as u64,
            },
        )
    } else {
        None
    }
}

/// The value of one hex digit character.
fn hex_digit(c: char) -> (r: Option<u8>)
    ensures
        r is Some ==> hex_digit_value(c) == r.unwrap() as int,
        r is None ==> hex_digit_value(c) < 0,
{
    let u: u32 = c as u32;
    if 48 <= u && u <= 57 {
        Some((u - 48) as u8)
    } else if 97 <= u && u <= 102 {
        Some((u - 87) as u8)
    } else if 65 <= u && u <= 70 {
        Some((u - 55) as u8)
    } else {
        None
    }
}

/// The value of the 16 hex characters of `s` starting at `start`, or `None`
/// when one of them is not a hex digit.
fn parse_hex_word(s: &str, start: usize) -> (r: Option<u64>)
    requires
        start + 16 <= s@.len(),
        s@.len() <= usize::MAX,
    ensures
        match r {
            Some(w) => {
                &&& is_hex_seq(s@.subrange(start as int, start as int + 16))
                &&& w as int == hex_word(s@.subrange(start as int, start as int + 16))
            },
            None => !is_hex_seq(s@.subrange(start as int, start as int + 16)),
        },
{
    let ghost sub = s@.subrange(start as int, start as int + 16);
    let mut w: u64 = 0;
    let mut j: usize = 0;
    while j < 16
        invariant
            j <= 16,
            start + 16 <= s@.len(),
            s@.len() <= usize::MAX,
            sub == s@.subrange(start as int, start as int + 16),
            forall|m: int| 0 <= m < j ==> #[trigger] hex_digit_value(sub[m]) >= 0,
            w as int == hex_word(sub.take(j as int)),
            (w as int) < pow16(j as nat),
        decreases 16 - j,
    {
        let c = s.get_char(start + j);
        proof {
            assert(c == sub[j as int]);
        }
        match hex_digit(c) {
            None => {
                proof {
                    assert(hex_digit_value(sub[j as int]) < 0);
                }
                return None;
            },
            Some(v) => {
                proof {
                    lemma_pow16_nondecreasing((j + 1) as nat, 16);
                    assert(pow16(16) == 0x1_0000_0000_0000_0000) by {
                        reveal_with_fuel(pow16, 17);
                    }
                    assert(sub.take(j + 1).drop_last() =~= sub.take(j as int));
                    assert(sub.take(j + 1).last() == sub[j as int]);
                }
                w = w * 16 + (v as u64);
                j = j + 1;
            },
        }
    }
    proof {
        assert(sub.take(16) =~= sub);
    }
    Some(w)
}

impl Fingerprint {
    /// Decodes the canonical 64-character hex encoding of a fingerprint;
    /// any other text yields `None`.
    pub fn from_hex_string(s: &str) -> (r: Option<Fingerprint>)
        ensures
            r == fingerprint_from_hex(s@),
    {
        let n: usize = s.unicode_len();
        if n != 64 {
            return None;
        }
        let q0 = parse_hex_word(s, 0);
        let q1 = parse_hex_word(s, 16);
        let q2 = parse_hex_word(s, 32);
        let q3 = parse_hex_word(s, 48);
        match (q0, q1, q2, q3) {
            (Some(w0), Some(w1), Some(w2), Some(w3)) => {
                proof {
                    assert forall|i: int| 0 <= i < s@.len() implies #[trigger] hex_digit_value(
                        s@[i],
                    ) >= 0 by {
                        if i < 16 {
                            assert(hex_digit_value(s@.subrange(0, 16)[i]) >= 0);
                            assert(s@.subrange(0, 16)[i] == s@[i]);
                        } else if i < 32 {
                            assert(hex_digit_value(s@.subrange(16, 32)[i - 16]) >= 0);
                            assert(s@.subrange(16, 32)[i - 16] == s@[i]);
                        } else if i < 48 {
                            assert(hex_digit_value(s@.subrange(32, 48)[i - 32]) >= 0);
                            assert(s@.subrange(32, 48)[i - 32] == s@[i]);
                        } else {
                            assert(hex_digit_value(s@.subrange(48, 64)[i - 48]) >= 0);
                            assert(s@.subrange(48, 64)[i - 48] == s@[i]);
                        }
                    }
                }
                Some(Fingerprint { w0, w1, w2, w3 })
            },
            _ => {
                proof {
                    if is_hex_seq(s@) {
                        assert forall|q: int| 0 <= q < 4 implies is_hex_seq(
                            #[trigger] s@.subrange(16 * q, 16 * q + 16),
                        ) by {
                            assert forall|m: int| 0 <= m < 16 implies #[trigger] hex_digit_value(
                                s@.subrange(16 * q, 16 * q + 16)[m],
                            ) >= 0 by {
                                assert(s@.subrange(16 * q, 16 * q + 16)[m] == s@[16 * q + m]);
                                assert(hex_digit_value(s@[16 * q + m]) >= 0);
                            }
                        }
                        assert(is_hex_seq(s@.subrange(0, 16)));
                        assert(is_hex_seq(s@.subrange(16, 32)));
                        assert(is_hex_seq(s@.subrange(32, 48)));
                        assert(is_hex_seq(s@.subrange(48, 64)));
                        assert(false);
                    }
                }
                None
            },
        }
    }
}

} // verus!
