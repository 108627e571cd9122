//! Byte vectors written out as text, such as `[72, 105]`, and the strings
//! they may stand for.

use vstd::prelude::*;
use vstd::utf8::{decode_utf8, valid_utf8};
use crate::number::{all_digits, decimal_u8, digits_value, is_digit, parse_u8_range};
use crate::text::{chars_of, text_of};
use crate::wire::utf8_text;

verus! {

/// `c` is white space as Unicode defines it.
pub open spec fn is_white_space(c: char) -> bool {
    ('\u{9}' <= c <= '\u{d}') || c == ' ' || c == '\u{85}' || c == '\u{a0}' || c == '\u{1680}' || (
    '\u{2000}' <= c <= '\u{200a}') || c == '\u{2028}' || c == '\u{2029}' || c == '\u{202f}' || c
        == '\u{205f}' || c == '\u{3000}'
}

/// Tells white space from other characters.
pub fn white_space(c: char) -> (r: bool)
    ensures
        r == is_white_space(c),
{
    (c >= '\u{9}' && c <= '\u{d}') || c == ' ' || c == '\u{85}' || c == '\u{a0}' || c == '\u{1680}'
        || (c >= '\u{2000}' && c <= '\u{200a}') || c == '\u{2028}' || c == '\u{2029}' || c
        == '\u{202f}' || c == '\u{205f}' || c == '\u{3000}'
}

/// `s` without the white space at its start.
pub open spec fn trim_front(s: Seq<char>) -> Seq<char>
    decreases s.len(),
{
    if s.len() > 0 && is_white_space(s[0]) {
        trim_front(s.drop_first())
    } else {
        s
    }
}

/// `s` without the white space at its end.
pub open spec fn trim_back(s: Seq<char>) -> Seq<char>
    decreases s.len(),
{
    if s.len() > 0 && is_white_space(s.last()) {
        trim_back(s.drop_last())
    } else {
        s
    }
}

/// `s` without the white space at either end.
pub open spec fn trimmed(s: Seq<char>) -> Seq<char> {
    trim_back(trim_front(s))
}

/// The index of the first `c` in `s`.
pub open spec fn first_index(s: Seq<char>, c: char) -> Option<int>
    decreases s.len(),
{
    if s.len() == 0 {
        None
    } else if s[0] == c {
        Some(0)
    } else {
        match first_index(s.drop_first(), c) {
            Some(i) => Some(i + 1),
            None => None,
        }
    }
}

/// The index of the last `c` in `s`.
pub open spec fn last_index(s: Seq<char>, c: char) -> Option<int>
    decreases s.len(),
{
    if s.len() == 0 {
        None
    } else if s.last() == c {
        Some(s.len() - 1)
    } else {
        last_index(s.drop_last(), c)
    }
}

/// What is left of `s` when its brackets are taken off, pair after pair, at
/// most `rounds` times: each time what stands between the first `[` and the
/// last `]` is kept and trimmed. Taking off stops where there is no such
/// pair with the `[` before the `]`.
pub open spec fn peeled(s: Seq<char>, rounds: nat) -> Seq<char>
    decreases rounds,
{
    if rounds == 0 {
        s
    } else {
        match (first_index(s, '['), last_index(s, ']')) {
            (Some(open), Some(close)) => if open < close {
                peeled(trimmed(s.subrange(open + 1, close)), (rounds - 1) as nat)
            } else {
                s
            },
            _ => s,
        }
    }
}

/// The bytes that a comma-separated list writes, if every entry, trimmed, is
/// a byte in decimal.
pub open spec fn listed_bytes(s: Seq<char>) -> Option<Seq<u8>>
    decreases s.len(),
{
    match first_index(s, ',') {
        None => match decimal_u8(trimmed(s)) {
            Some(v) => Some(seq![v as u8]),
            None => None,
        },
        Some(i) => match decimal_u8(trimmed(s.take(i))) {
            Some(v) => if 0 <= i < s.len() {
                match listed_bytes(s.skip(i + 1)) {
                    Some(rest) => Some(seq![v as u8] + rest),
                    None => None,
                }
            } else {
                None
            },
            None => None,
        },
    }
}

/// The text that a written-out byte vector stands for. The input is trimmed
/// and its brackets are taken off. If what is left lists bytes that are
/// valid UTF-8, the result is the text they encode; otherwise it is what is
/// left.
pub open spec fn vector_text(input: Seq<char>) -> Seq<char> {
    let content = peeled(trimmed(input), input.len());
    match listed_bytes(content) {
        Some(bytes) => if valid_utf8(bytes) {
            decode_utf8(bytes)
        } else {
            content
        },
        None => content,
    }
}

/// The bounds of `s[lo..hi]` trimmed.
fn trim_range(s: &Vec<char>, lo: usize, hi: usize) -> (r: (usize, usize))
    requires
        lo <= hi <= s.len(),
    ensures
        lo <= r.0 <= r.1 <= hi,
        s@.subrange(r.0 as int, r.1 as int) == trimmed(s@.subrange(lo as int, hi as int)),
{
    let mut a: usize = lo;
    while a < hi && white_space(s[a])
        invariant
            lo <= a <= hi <= s.len(),
            trim_front(s@.subrange(lo as int, hi as int)) == trim_front(
                s@.subrange(a as int, hi as int),
            ),
        decreases hi - a,
    {
        assert(s@.subrange(a as int, hi as int).drop_first() =~= s@.subrange(a + 1, hi as int));
        a += 1;
    }
    let mut b: usize = hi;
    while a < b && white_space(s[b - 1])
        invariant
            a <= b <= hi <= s.len(),
            trim_back(s@.subrange(a as int, hi as int)) == trim_back(
                s@.subrange(a as int, b as int),
            ),
        decreases b - a,
    {
        assert(s@.subrange(a as int, b as int).drop_last() =~= s@.subrange(a as int, b - 1));
        b -= 1;
    }
    (a, b)
}

/// The first `c` in `s[lo..hi]`, as an index into `s`.
fn find_first(s: &Vec<char>, lo: usize, hi: usize, c: char) -> (r: Option<usize>)
    requires
        lo <= hi <= s.len(),
    ensures
        match r {
            Some(i) => lo <= i < hi && first_index(s@.subrange(lo as int, hi as int), c) == Some(
                i - lo,
            ),
            None => first_index(s@.subrange(lo as int, hi as int), c) is None,
        },
    decreases hi - lo,
{
    if lo == hi {
        None
    } else if s[lo] == c {
        Some(lo)
    } else {
        assert(s@.subrange(lo as int, hi as int).drop_first() =~= s@.subrange(lo + 1, hi as int));
        find_first(s, lo + 1, hi, c)
    }
}

/// The last `c` in `s[lo..hi]`, as an index into `s`.
fn find_last(s: &Vec<char>, lo: usize, hi: usize, c: char) -> (r: Option<usize>)
    requires
        lo <= hi <= s.len(),
    ensures
        match r {
            Some(i) => lo <= i < hi && last_index(s@.subrange(lo as int, hi as int), c) == Some(
                i - lo,
            ),
            None => last_index(s@.subrange(lo as int, hi as int), c) is None,
        },
    decreases hi - lo,
{
    if lo == hi {
        None
    } else if s[hi - 1] == c {
        Some(hi - 1)
    } else {
        assert(s@.subrange(lo as int, hi as int).drop_last() =~= s@.subrange(lo as int, hi - 1));
        find_last(s, lo, hi - 1, c)
    }
}

/// The bytes listed in `s[lo..hi]`.
fn read_listed(s: &Vec<char>, lo: usize, hi: usize) -> (r: Option<Vec<u8>>)
    requires
        lo <= hi <= s.len(),
    ensures
        match r {
            Some(bytes) => listed_bytes(s@.subrange(lo as int, hi as int)) == Some(bytes@),
            None => listed_bytes(s@.subrange(lo as int, hi as int)) is None,
        },
{
    let ghost whole = s@.subrange(lo as int, hi as int);
    let mut out: Vec<u8> = Vec::new();
    let mut at: usize = lo;
    loop
        invariant
            lo <= at <= hi <= s.len(),
            whole == s@.subrange(lo as int, hi as int),
            listed_bytes(whole) == match listed_bytes(s@.subrange(at as int, hi as int)) {
                Some(rest) => Some(out@ + rest),
                None => None,
            },
        decreases hi - at,
    {
        let ghost rest = s@.subrange(at as int, hi as int);
        let ghost before = out@;
        let comma = find_first(s, at, hi, ',');
        let end: usize = match comma {
            Some(i) => i,
            None => hi,
        };
        proof {
            assert(rest.take(end - at) =~= s@.subrange(at as int, end as int));
            assert(rest =~= s@.subrange(at as int, hi as int));
        }
        let bounds = trim_range(s, at, end);
        match parse_u8_range(s, bounds.0, bounds.1) {
            None => {
                return None;
            },
            Some(v) => {
                out.push(v);
                match comma {
                    None => {
                        assert(before + seq![v] =~= out@);
                        return Some(out);
                    },
                    Some(i) => {
                        proof {
                            assert(rest.skip(i - at + 1) =~= s@.subrange(i + 1, hi as int));
                            let tail = listed_bytes(s@.subrange(i + 1, hi as int));
                            if tail is Some {
                                assert(before + (seq![v] + tail->0) =~= out@ + tail->0);
                            }
                        }
                        at = i + 1;
                    },
                }
            },
        }
    }
}

/// Reads a written-out byte vector as the text it stands for.
pub fn parse_string_vectors(input: &str) -> (r: String)
    ensures
        r@ == vector_text(input@),
{
    let s = chars_of(input);
    assert(s@.subrange(0, s.len() as int) =~= s@);
    let first = trim_range(&s, 0, s.len());
    let mut lo: usize = first.0;
    let mut hi: usize = first.1;
    let ghost mut rounds: nat = s@.len();
    loop
        invariant
            lo <= hi <= s.len(),
            hi - lo <= rounds,
            peeled(trimmed(input@), input@.len()) == peeled(
                s@.subrange(lo as int, hi as int),
                rounds,
            ),
        ensures
            lo <= hi <= s.len(),
            peeled(trimmed(input@), input@.len()) == s@.subrange(lo as int, hi as int),
        decreases hi - lo,
    {
        let open = find_first(&s, lo, hi, '[');
        let close = find_last(&s, lo, hi, ']');
        match (open, close) {
            (Some(a), Some(b)) => {
                if a < b {
                    proof {
                        assert(s@.subrange(lo as int, hi as int).subrange(a - lo + 1, b - lo)
                            =~= s@.subrange(a + 1, b as int));
                    }
                    let inner = trim_range(&s, a + 1, b);
                    lo = inner.0;
                    hi = inner.1;
                    proof {
                        rounds = (rounds - 1) as nat;
                    }
                } else {
                    break ;
                }
            },
            _ => {
                break ;
            },
        }
    }
    let bytes = match read_listed(&s, lo, hi) {
        Some(bytes) => utf8_text(bytes),
        None => None,
    };
    match bytes {
        Some(text) => text,
        None => {
            let mut out: Vec<char> = Vec::new();
            let mut i: usize = lo;
            while i < hi
                invariant
                    lo <= i <= hi <= s.len(),
                    out@ == s@.subrange(lo as int, i as int),
                decreases hi - i,
            {
                out.push(s[i]);
                assert(s@.subrange(lo as int, i + 1) =~= s@.subrange(lo as int, i as int).push(
                    s@[i as int],
                ));
                i += 1;
            }
            text_of(&out)
        },
    }
}

/// The character of a decimal digit.
pub open spec fn digit_char(d: int) -> char {
    ('0' as int + d) as char
}

/// The decimal text of a byte, without leading zeros.
pub open spec fn decimal_of(v: u8) -> Seq<char> {
    if v < 10 {
        seq![digit_char(v as int)]
    } else if v < 100 {
        seq![digit_char(v as int / 10), digit_char(v as int % 10)]
    } else {
        seq![digit_char(v as int / 100), digit_char(v as int / 10 % 10), digit_char(v as int % 10)]
    }
}

/// The bytes written out in decimal, with a comma and a space between them.
pub open spec fn listed(bytes: Seq<u8>) -> Seq<char>
    decreases bytes.len(),
{
    if bytes.len() == 0 {
        Seq::empty()
    } else if bytes.len() == 1 {
        decimal_of(bytes[0])
    } else {
        decimal_of(bytes[0]) + seq![',', ' '] + listed(bytes.drop_first())
    }
}

/// A byte vector as it is printed for inspection: `[72, 105]`.
pub open spec fn printed(bytes: Seq<u8>) -> Seq<char> {
    seq!['['] + listed(bytes) + seq![']']
}

proof fn lemma_decimal_of(v: u8)
    ensures
        1 <= decimal_of(v).len() <= 3,
        all_digits(decimal_of(v)),
        digits_value(decimal_of(v)) == v,
        decimal_u8(decimal_of(v)) == Some(v as int),
{
    let d = decimal_of(v);
    reveal_with_fuel(digits_value, 4);
    if v < 10 {
        assert(d.drop_last() =~= Seq::<char>::empty());
    } else if v < 100 {
        assert(d.drop_last() =~= seq![digit_char(v as int / 10)]);
        assert(d.drop_last().drop_last() =~= Seq::<char>::empty());
    } else {
        assert(d.drop_last() =~= seq![digit_char(v as int / 100), digit_char(v as int / 10 % 10)]);
        assert(d.drop_last().drop_last() =~= seq![digit_char(v as int / 100)]);
        assert(d.drop_last().drop_last().drop_last() =~= Seq::<char>::empty());
    }
    assert(all_digits(d));
    assert(digits_value(d) == v);
    assert(is_digit(d[0]));
}

proof fn lemma_first_index_absent(s: Seq<char>, c: char)
    requires
        forall|i: int| 0 <= i < s.len() ==> s[i] != c,
    ensures
        first_index(s, c) is None,
    decreases s.len(),
{
    if s.len() > 0 {
        let rest = s.drop_first();
        assert forall|i: int| 0 <= i < rest.len() implies rest[i] != c by {
            assert(rest[i] == s[i + 1]);
        }
        lemma_first_index_absent(rest, c);
    }
}

proof fn lemma_first_index_after(head: Seq<char>, rest: Seq<char>, c: char)
    requires
        forall|i: int| 0 <= i < head.len() ==> head[i] != c,
        rest.len() > 0,
        rest[0] == c,
    ensures
        first_index(head + rest, c) == Some(head.len() as int),
    decreases head.len(),
{
    let s = head + rest;
    if head.len() == 0 {
        assert(s[0] == c);
    } else {
        assert(s[0] == head[0]);
        let shorter = head.drop_first();
        assert forall|i: int| 0 <= i < shorter.len() implies shorter[i] != c by {
            assert(shorter[i] == head[i + 1]);
        }
        assert(s.drop_first() =~= shorter + rest);
        lemma_first_index_after(shorter, rest, c);
    }
}

/// Trimming takes nothing off a run of digits, and takes off one space
/// before it.
proof fn lemma_trimmed_digits(lead: Seq<char>, d: Seq<char>)
    requires
        lead.len() == 0 || lead == seq![' '],
        d.len() > 0,
        all_digits(d),
    ensures
        trimmed(lead + d) == d,
{
    assert(is_digit(d[0]));
    assert(is_digit(d.last()));
    let s = lead + d;
    assert(trim_front(d) == d);
    assert(trim_back(d) == d);
    if lead.len() == 0 {
        assert(s =~= d);
    } else {
        assert(s[0] == ' ');
        assert(s.drop_first() =~= d);
        assert(trim_front(s) == trim_front(s.drop_first()));
    }
}

/// Every character of the listing is a digit, a comma or a space; the
/// first and the last are digits.
proof fn lemma_listed_is_plain(bytes: Seq<u8>)
    ensures
        forall|i: int|
            0 <= i < listed(bytes).len() ==> {
                let c = #[trigger] listed(bytes)[i];
                is_digit(c) || c == ',' || c == ' '
            },
        bytes.len() > 0 ==> listed(bytes).len() > 0 && is_digit(listed(bytes)[0]) && is_digit(
            listed(bytes).last(),
        ),
    decreases bytes.len(),
{
    if bytes.len() > 0 {
        let d = decimal_of(bytes[0]);
        lemma_decimal_of(bytes[0]);
        assert(is_digit(d[0]));
        assert(is_digit(d.last()));
        if bytes.len() > 1 {
            let rest = bytes.drop_first();
            lemma_listed_is_plain(rest);
            let tail = listed(rest);
            let all = listed(bytes);
            assert(all =~= d + seq![',', ' '] + tail);
            assert forall|i: int| 0 <= i < all.len() implies {
                let c = #[trigger] all[i];
                is_digit(c) || c == ',' || c == ' '
            } by {
                if i < d.len() {
                    assert(all[i] == d[i]);
                } else if i >= d.len() + 2 {
                    assert(all[i] == tail[i - d.len() - 2]);
                }
            }
            assert(all[0] == d[0]);
            assert(all.last() == tail.last());
        }
    }
}

proof fn lemma_listed_reads_back(bytes: Seq<u8>, lead: Seq<char>)
    requires
        bytes.len() > 0,
        lead.len() == 0 || lead == seq![' '],
    ensures
        listed_bytes(lead + listed(bytes)) == Some(bytes),
    decreases bytes.len(),
{
    let d = decimal_of(bytes[0]);
    lemma_decimal_of(bytes[0]);
    let head = lead + d;
    assert forall|i: int| 0 <= i < head.len() implies head[i] != ',' by {
        if i >= lead.len() {
            assert(is_digit(d[i - lead.len()]));
        }
    }
    lemma_trimmed_digits(lead, d);
    if bytes.len() == 1 {
        let s = lead + listed(bytes);
        assert(s =~= head);
        lemma_first_index_absent(s, ',');
        assert(seq![bytes[0]] =~= bytes);
    } else {
        let rest = bytes.drop_first();
        let tail = listed(rest);
        let s = lead + listed(bytes);
        let after = seq![','] + (seq![' '] + tail);
        assert(s =~= head + after);
        lemma_first_index_after(head, after, ',');
        let i = head.len() as int;
        assert(s.take(i) =~= head);
        assert(s.skip(i + 1) =~= seq![' '] + tail);
        lemma_listed_reads_back(rest, seq![' ']);
        assert(seq![bytes[0]] + rest =~= bytes);
    }
}

/// The text that is printed for a byte vector is read back: where the bytes
/// are valid UTF-8 and there is at least one, as the text that they encode;
/// otherwise as the listing of the bytes without the brackets, from which
/// the bytes are read back unchanged.
pub proof fn printed_vector_reads_back(bytes: Seq<u8>)
    ensures
        vector_text(printed(bytes)) == if bytes.len() > 0 && valid_utf8(bytes) {
            decode_utf8(bytes)
        } else {
            listed(bytes)
        },
        bytes.len() > 0 ==> listed_bytes(listed(bytes)) == Some(bytes),
{
    let inner = listed(bytes);
    let p = printed(bytes);
    lemma_listed_is_plain(bytes);
    assert(p[0] == '[');
    assert(p.last() == ']');
    assert(p.len() == inner.len() + 2);
    // Nothing is trimmed off the brackets.
    assert(trimmed(p) == p);
    // One pair of brackets comes off.
    assert(first_index(p, '[') == Some(0int));
    assert(last_index(p, ']') == Some(p.len() - 1));
    assert(p.subrange(1, p.len() - 1) =~= inner);
    assert(trimmed(inner) == inner) by {
        if inner.len() > 0 {
            assert(is_digit(inner[0]));
            assert(is_digit(inner.last()));
        }
    }
    // No bracket is left inside.
    assert forall|i: int| 0 <= i < inner.len() implies inner[i] != '[' by {
        let c = inner[i];
        assert(is_digit(c) || c == ',' || c == ' ');
    }
    lemma_first_index_absent(inner, '[');
    assert(peeled(inner, (p.len() - 1) as nat) == inner);
    assert(peeled(p, p.len()) == inner);
    if bytes.len() > 0 {
        assert(Seq::<char>::empty() + inner =~= inner);
        lemma_listed_reads_back(bytes, Seq::empty());
    } else {
        assert(first_index(inner, ',') is None);
        assert(trimmed(inner) =~= Seq::<char>::empty());
    }
}

} // verus!
