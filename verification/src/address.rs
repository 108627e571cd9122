//! The canonical form of an account address.

use vstd::prelude::*;
use crate::text::{chars_of, text_of};

verus! {

/// The number of hexadecimal digits in a canonical address.
pub const ADDRESS_DIGITS: usize = 64;

/// The marker that opens a hexadecimal literal.
pub open spec fn hex_marker() -> Seq<char> {
    seq!['0', 'x']
}

/// `s` without a leading `0x`, if it has one.
pub open spec fn without_marker(s: Seq<char>) -> Seq<char> {
    if s.len() >= 2 && s[0] == '0' && s[1] == 'x' {
        s.skip(2)
    } else {
        s
    }
}

/// `s` filled with zeros on the left up to the canonical width; longer text is
/// left as it is.
pub open spec fn zero_padded(s: Seq<char>) -> Seq<char> {
    if s.len() >= ADDRESS_DIGITS {
        s
    } else {
        Seq::new((ADDRESS_DIGITS - s.len()) as nat, |i: int| '0') + s
    }
}

/// The canonical form: `0x`, then the digits padded to the fixed width.
pub open spec fn standard_address(s: Seq<char>) -> Seq<char> {
    hex_marker() + zero_padded(without_marker(s))
}

/// Copies `text` without a leading `0x`, if it has one.
pub fn strip_marker(text: &str) -> (r: String)
    ensures
        r@ == without_marker(text@),
{
    let chars = chars_of(text);
    let start: usize = if chars.len() >= 2 && chars[0] == '0' && chars[1] == 'x' {
        2
    } else {
        0
    };
    let mut out: Vec<char> = Vec::new();
    let mut j: usize = start;
    while j < chars.len()
        invariant
            start <= j <= chars.len(),
            out@ == chars@.subrange(start as int, j as int),
        decreases chars.len() - j,
    {
        out.push(chars[j]);
        assert(chars@.subrange(start as int, j + 1) =~= chars@.subrange(
            start as int,
            j as int,
        ).push(chars@[j as int]));
        j += 1;
    }
    assert(out@ =~= without_marker(text@));
    text_of(&out)
}

/// Brings an address to its canonical fixed-width form.
pub fn standardize_address(handle: &str) -> (r: String)
    ensures
        r@ == standard_address(handle@),
{
    let chars = chars_of(handle);
    let start: usize = if chars.len() >= 2 && chars[0] == '0' && chars[1] == 'x' {
        2
    } else {
        0
    };
    let digits: usize = chars.len() - start;
    let mut out: Vec<char> = Vec::new();
    out.push('0');
    out.push('x');
    let fill: usize = if digits >= ADDRESS_DIGITS {
        0
    } else {
        ADDRESS_DIGITS - digits
    };
    let mut i: usize = 0;
    while i < fill
        invariant
            0 <= i <= fill,
            out@.len() == 2 + i,
            out@[0] == '0',
            out@[1] == 'x',
            forall|k: int| 2 <= k < 2 + i ==> out@[k] == '0',
        decreases fill - i,
    {
        out.push('0');
        i += 1;
    }
    let mut j: usize = start;
    while j < chars.len()
        invariant
            start <= j <= chars.len(),
            out@.len() == 2 + fill + (j - start),
            out@[0] == '0',
            out@[1] == 'x',
            forall|k: int| 2 <= k < 2 + fill ==> out@[k] == '0',
            forall|k: int| start <= k < j ==> out@[2 + fill + (k - start)] == chars@[k],
        decreases chars.len() - j,
    {
        out.push(chars[j]);
        j += 1;
    }
    assert(out@ =~= standard_address(handle@));
    text_of(&out)
}

} // verus!
