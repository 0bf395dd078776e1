//! Turning a line of input into a guess: trim whitespace, then read an
//! optional sign and a run of decimal digits, rejecting anything else and
//! anything outside the range of `i32`. Only ASCII whitespace is trimmed: a
//! line padded with any other Unicode whitespace does not parse.

use vstd::prelude::*;

verus! {

/// An ASCII whitespace byte: the bytes that trimming removes.
pub open spec fn is_ws(b: u8) -> bool {
    b == 32 || (9 <= b && b <= 13)
}

/// An ASCII decimal digit.
pub open spec fn is_digit(b: u8) -> bool {
    48 <= b <= 57
}

/// The input without its trailing ASCII whitespace.
pub open spec fn trim_end(s: Seq<u8>) -> Seq<u8>
    decreases s.len(),
{
    if s.len() > 0 && is_ws(s.last()) {
        trim_end(s.drop_last())
    } else {
        s
    }
}

/// The input without its leading and trailing ASCII whitespace.
pub open spec fn trim(s: Seq<u8>) -> Seq<u8>
    decreases s.len(),
{
    if s.len() > 0 && is_ws(s.first()) {
        trim(s.drop_first())
    } else {
        trim_end(s)
    }
}

/// Every byte is a decimal digit.
pub open spec fn all_digits(s: Seq<u8>) -> bool {
    forall|i: int| 0 <= i < s.len() ==> is_digit(s[i])
}

/// The value of a run of decimal digits, most significant first.
pub open spec fn digits_value(s: Seq<u8>) -> int
    decreases s.len(),
{
    if s.len() == 0 {
        0
    } else {
        digits_value(s.drop_last()) * 10 + (s.last() - 48)
    }
}

/// An integer literal: an optional sign followed by at least one digit.
pub open spec fn is_int_literal(t: Seq<u8>) -> bool {
    if t.len() == 0 {
        false
    } else if t[0] == 43 || t[0] == 45 {
        t.len() > 1 && all_digits(t.drop_first())
    } else {
        all_digits(t)
    }
}

/// The value an integer literal denotes.
pub open spec fn int_literal_value(t: Seq<u8>) -> int
    recommends
        is_int_literal(t),
{
    if t.len() > 0 && t[0] == 45 {
        -digits_value(t.drop_first())
    } else if t.len() > 0 && t[0] == 43 {
        digits_value(t.drop_first())
    } else {
        digits_value(t)
    }
}

/// What parsing a line returns: the value of the trimmed line where it is an
/// integer literal whose value fits in `i32`, and nothing otherwise.
pub open spec fn parse_result(s: Seq<u8>) -> Option<int> {
    let t = trim(s);
    if is_int_literal(t) && i32::MIN <= int_literal_value(t) <= i32::MAX {
        Some(int_literal_value(t))
    } else {
        None
    }
}

/// A run of digits has a nonnegative value.
proof fn lemma_digits_value_nonneg(s: Seq<u8>)
    requires
        all_digits(s),
    ensures
        digits_value(s) >= 0,
    decreases s.len(),
{
    if s.len() > 0 {
        assert(all_digits(s.drop_last()));
        lemma_digits_value_nonneg(s.drop_last());
    }
}

/// Appending digits to a run of digits never lowers its value.
proof fn lemma_digits_value_grows(s: Seq<u8>, k: int)
    requires
        all_digits(s),
        0 <= k <= s.len(),
    ensures
        digits_value(s) >= digits_value(s.take(k)),
    decreases s.len() - k,
{
    if k == s.len() {
        assert(s.take(k) =~= s);
    } else {
        lemma_digits_value_grows(s, k + 1);
        assert(s.take(k + 1).drop_last() =~= s.take(k));
        assert(all_digits(s.take(k)));
        lemma_digits_value_nonneg(s.take(k));
        assert(digits_value(s.take(k + 1)) == digits_value(s.take(k)) * 10 + (s[k] - 48));
    }
}

/// Whether a byte is ASCII whitespace.
pub fn is_ws_byte(b: u8) -> (r: bool)
    ensures
        r == is_ws(b),
{
    b == 32 || (9 <= b && b <= 13)
}

/// Whether a byte is an ASCII decimal digit.
pub fn is_digit_byte(b: u8) -> (r: bool)
    ensures
        r == is_digit(b),
{
    48 <= b && b <= 57
}

/// Parse a line of input as a guess: after trimming ASCII whitespace the line
/// must be an optional sign followed by decimal digits, and the value must
/// fit in `i32`; anything else is rejected.
#[verifier::loop_isolation(false)]
pub fn parse_i32(s: &[u8]) -> (r: Option<i32>)
    ensures
        match r {
            Some(v) => parse_result(s@) == Some(v as int),
            None => parse_result(s@) is None,
        },
{
    let len: usize = s.len();
    let mut lo: usize = 0;
    proof {
        assert(s@.skip(0) =~= s@);
    }
    while lo < len && is_ws_byte(s[lo])
        invariant
            lo <= len,
            trim(s@) == trim(s@.skip(lo as int)),
        decreases len - lo,
    {
        proof {
            assert(s@.skip(lo as int).drop_first() =~= s@.skip(lo as int + 1));
        }
        lo = lo + 1;
    }
    let mut hi: usize = len;
    proof {
        assert(s@.skip(lo as int) =~= s@.subrange(lo as int, hi as int));
        assert(trim(s@) == trim_end(s@.subrange(lo as int, hi as int)));
    }
    while hi > lo && is_ws_byte(s[hi - 1])
        invariant
            lo <= hi <= len,
            trim(s@) == trim_end(s@.subrange(lo as int, hi as int)),
        decreases hi,
    {
        proof {
            assert(s@.subrange(lo as int, hi as int).drop_last() =~= s@.subrange(
                lo as int,
                hi as int - 1,
            ));
        }
        hi = hi - 1;
    }
    let ghost t: Seq<u8> = s@.subrange(lo as int, hi as int);
    proof {
        assert(trim(s@) == t);
    }
    if hi == lo {
        return None;
    }
    let first: u8 = s[lo];
    let neg: bool = first == 45;
    let has_sign: bool = first == 43 || first == 45;
    let ds: usize = if has_sign {
        lo + 1
    } else {
        lo
    };
    if ds == hi {
        return None;
    }
    let limit: i64 = if neg {
        2147483648
    } else {
        2147483647
    };
    let mut acc: i64 = 0;
    let mut i: usize = ds;
    proof {
        assert(s@.subrange(ds as int, ds as int) =~= Seq::<u8>::empty());
    }
    while i < hi
        invariant
            ds <= i <= hi,
            0 <= acc <= limit,
            acc == digits_value(s@.subrange(ds as int, i as int)),
            all_digits(s@.subrange(ds as int, i as int)),
        decreases hi - i,
    {
        let b: u8 = s[i];
        if !is_digit_byte(b) {
            proof {
                if is_int_literal(t) {
                    if has_sign {
                        assert(t.drop_first()[i - lo - 1] == s@[i as int]);
                    } else {
                        assert(t[i - lo] == s@[i as int]);
                    }
                    assert(false);
                }
            }
            return None;
        }
        let d: i64 = (b - 48) as i64;
        let next: i64 = acc * 10 + d;
        let ghost pre = s@.subrange(ds as int, i as int);
        let ghost ext = s@.subrange(ds as int, i as int + 1);
        proof {
            assert(ext.drop_last() =~= pre);
            assert(ext.last() == s@[i as int]);
            assert(digits_value(ext) == digits_value(pre) * 10 + (s@[i as int] - 48));
            assert(all_digits(ext)) by {
                assert forall|j: int| 0 <= j < ext.len() implies is_digit(ext[j]) by {
                    if j < pre.len() {
                        assert(ext[j] == pre[j]);
                    } else {
                        assert(ext[j] == s@[i as int]);
                    }
                }
            }
        }
        if next > limit {
            proof {
                if is_int_literal(t) {
                    let full = s@.subrange(ds as int, hi as int);
                    if has_sign {
                        assert(t.drop_first() =~= full);
                    } else {
                        assert(t =~= full);
                    }
                    assert(all_digits(full));
                    assert(ext =~= full.take(i + 1 - ds));
                    lemma_digits_value_grows(full, i + 1 - ds);
                    assert(digits_value(full) > limit as int);
                }
            }
            return None;
        }
        acc = next;
        i = i + 1;
    }
    proof {
        let full = s@.subrange(ds as int, hi as int);
        if has_sign {
            assert(t.drop_first() =~= full);
        } else {
            assert(t =~= full);
        }
        assert(is_int_literal(t));
        assert(int_literal_value(t) == if neg {
            -(acc as int)
        } else {
            acc as int
        });
    }
    if neg {
        Some((-acc) as i32)
    } else {
        Some(acc as i32)
    }
}

} // verus!
