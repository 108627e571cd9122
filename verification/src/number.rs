//! Decimal integers as they stand in event bodies.

use vstd::prelude::*;

verus! {

/// `c` is one of `0` to `9`.
pub open spec fn is_digit(c: char) -> bool {
    '0' <= c <= '9'
}

/// Every character of `s` is a decimal digit.
pub open spec fn all_digits(s: Seq<char>) -> bool {
    forall|i: int| 0 <= i < s.len() ==> is_digit(#[trigger] s[i])
}

/// The number that a run of decimal digits writes.
pub open spec fn digits_value(s: Seq<char>) -> int
    decreases s.len(),
{
    if s.len() == 0 {
        0
    } else {
        10 * digits_value(s.drop_last()) + (s.last() as int - '0' as int)
    }
}

/// The number that `s` writes as a signed decimal: an optional `+` or `-`,
/// then at least one digit and nothing else.
pub open spec fn signed_decimal(s: Seq<char>) -> Option<int> {
    let negative = s.len() > 0 && s[0] == '-';
    let digits = if s.len() > 0 && (s[0] == '-' || s[0] == '+') {
        s.skip(1)
    } else {
        s
    };
    if digits.len() == 0 || !all_digits(digits) {
        None
    } else if negative {
        Some(-digits_value(digits))
    } else {
        Some(digits_value(digits))
    }
}

/// The 32-bit signed integer that `s` writes, if it writes one.
pub open spec fn decimal_i32(s: Seq<char>) -> Option<int> {
    match signed_decimal(s) {
        Some(v) => if i32::MIN <= v <= i32::MAX {
            Some(v)
        } else {
            None
        },
        None => None,
    }
}

/// The byte that `s` writes, if it writes one: an optional `+`, digits, and
/// a value of at most 255.
pub open spec fn decimal_u8(s: Seq<char>) -> Option<int> {
    if s.len() > 0 && s[0] == '-' {
        None
    } else {
        match signed_decimal(s) {
            Some(v) => if v <= u8::MAX {
                Some(v)
            } else {
                None
            },
            None => None,
        }
    }
}

proof fn lemma_digits_nonnegative(s: Seq<char>)
    requires
        all_digits(s),
    ensures
        digits_value(s) >= 0,
    decreases s.len(),
{
    if s.len() > 0 {
        lemma_digits_nonnegative(s.drop_last());
    }
}

proof fn lemma_digits_grow(s: Seq<char>, n: int)
    requires
        all_digits(s),
        0 <= n <= s.len(),
    ensures
        digits_value(s.take(n)) <= digits_value(s),
    decreases s.len() - n,
{
    if n == s.len() {
        assert(s.take(n) =~= s);
    } else {
        lemma_digits_grow(s, n + 1);
        assert(s.take(n + 1).drop_last() =~= s.take(n));
        assert(all_digits(s.take(n))) by {
            assert forall|i: int| 0 <= i < s.take(n).len() implies is_digit(
                #[trigger] s.take(n)[i],
            ) by {
                assert(s.take(n)[i] == s[i]);
            }
        }
        lemma_digits_nonnegative(s.take(n));
    }
}

/// Reads `s[lo..hi]` as a run of digits whose value is at most `cap`.
fn parse_digits(s: &Vec<char>, lo: usize, hi: usize, cap: u64) -> (r: Option<u64>)
    requires
        lo <= hi <= s.len(),
        cap <= 0x1_0000_0000,
    ensures
        match r {
            Some(v) => {
                let d = s@.subrange(lo as int, hi as int);
                d.len() > 0 && all_digits(d) && digits_value(d) == v && v <= cap
            },
            None => {
                let d = s@.subrange(lo as int, hi as int);
                d.len() == 0 || !all_digits(d) || digits_value(d) > cap
            },
        },
{
    let ghost d = s@.subrange(lo as int, hi as int);
    if lo == hi {
        return None;
    }
    let mut acc: u64 = 0;
    let mut over: bool = false;
    let mut i: usize = lo;
    while i < hi
        invariant
            lo <= i <= hi <= s.len(),
            cap <= 0x1_0000_0000,
            d == s@.subrange(lo as int, hi as int),
            all_digits(d.take(i - lo)),
            !over ==> acc == digits_value(d.take(i - lo)) && acc <= cap,
            over ==> digits_value(d.take(i - lo)) > cap,
        decreases hi - i,
    {
        let c = s[i];
        if !(c >= '0' && c <= '9') {
            assert(!is_digit(d[i - lo]));
            return None;
        }
        proof {
            assert(d.take(i - lo + 1).drop_last() =~= d.take(i - lo));
            assert(d.take(i - lo + 1).last() == c);
            assert forall|k: int| 0 <= k < d.take(i - lo + 1).len() implies is_digit(
                #[trigger] d.take(i - lo + 1)[k],
            ) by {
                if k < i - lo {
                    assert(d.take(i - lo)[k] == d.take(i - lo + 1)[k]);
                }
            }
        }
        if !over {
            let digit: u64 = (c as u32 - '0' as u32) as u64;
            let next: u64 = acc * 10 + digit;
            if next > cap {
                over = true;
            } else {
                acc = next;
            }
        }
        i += 1;
    }
    proof {
        assert(d.take(hi - lo) =~= d);
    }
    if over {
        None
    } else {
        Some(acc)
    }
}

/// Reads a signed decimal that fits 32 bits.
pub fn parse_i32(s: &Vec<char>) -> (r: Option<i32>)
    ensures
        match r {
            Some(v) => decimal_i32(s@) == Some(v as int),
            None => decimal_i32(s@) is None,
        },
{
    let negative: bool = s.len() > 0 && s[0] == '-';
    let start: usize = if s.len() > 0 && (s[0] == '-' || s[0] == '+') {
        1
    } else {
        0
    };
    assert(s@.subrange(start as int, s.len() as int) =~= if start == 1 {
        s@.skip(1)
    } else {
        s@
    });
    let cap: u64 = if negative {
        0x8000_0000
    } else {
        0x7fff_ffff
    };
    match parse_digits(s, start, s.len(), cap) {
        Some(v) => {
            if negative {
                Some((0 - (v as i64)) as i32)
            } else {
                Some(v as i32)
            }
        },
        None => {
            proof {
                let d = s@.subrange(start as int, s.len() as int);
                if d.len() > 0 && all_digits(d) {
                    lemma_digits_nonnegative(d);
                }
            }
            None
        },
    }
}

/// Reads `s[lo..hi]` as a byte written in decimal.
pub fn parse_u8_range(s: &Vec<char>, lo: usize, hi: usize) -> (r: Option<u8>)
    requires
        lo <= hi <= s.len(),
    ensures
        match r {
            Some(v) => decimal_u8(s@.subrange(lo as int, hi as int)) == Some(v as int),
            None => decimal_u8(s@.subrange(lo as int, hi as int)) is None,
        },
{
    let ghost t = s@.subrange(lo as int, hi as int);
    if lo < hi && s[lo] == '-' {
        assert(t[0] == '-');
        return None;
    }
    let start: usize = if lo < hi && s[lo] == '+' {
        lo + 1
    } else {
        lo
    };
    proof {
        if lo < hi {
            assert(t[0] == s@[lo as int]);
        }
        assert(s@.subrange(start as int, hi as int) =~= if start == lo + 1 {
            t.skip(1)
        } else {
            t
        });
    }
    match parse_digits(s, start, hi, 255) {
        Some(v) => Some(v as u8),
        None => None,
    }
}

} // verus!
