//! Move type signatures and the layout trees they stand for.

use vstd::prelude::*;
use crate::text::{chars_of, has_prefix, range_equals, range_has_prefix};

verus! {

/// The shape of one call argument, as far as decoding needs it.
#[derive(Debug, PartialEq, Eq)]
pub enum Layout {
    Bool,
    U8,
    U16,
    U32,
    U64,
    U128,
    U256,
    Address,
    Signer,
    Vector(Box<Layout>),
}

/// `s` is `open`, then something, then `>`.
pub open spec fn is_wrapped(s: Seq<char>, open: Seq<char>) -> bool {
    has_prefix(s, open) && s.len() > open.len() && s.last() == '>'
}

/// What stands between `open` and the closing `>`.
pub open spec fn unwrapped(s: Seq<char>, open: Seq<char>) -> Seq<char> {
    s.subrange(open.len() as int, s.len() - 1)
}

/// A vector of whatever `inner` resolved to.
pub open spec fn vector_of(inner: Option<Layout>) -> Option<Layout> {
    match inner {
        Some(l) => Some(Layout::Vector(Box::new(l))),
        None => None,
    }
}

/// The layout a type signature resolves to, if it is one this crate knows.
///
/// Primitives map to themselves; an object handle is an address; a string is a
/// vector of bytes; `vector<T>` and `0x1::option::Option<T>` are vectors of
/// whatever `T` resolves to; everything else has no layout.
pub open spec fn layout_of(s: Seq<char>) -> Option<Layout>
    decreases s.len(), 1nat,
{
    if s == "address"@ {
        Some(Layout::Address)
    } else if s == "bool"@ {
        Some(Layout::Bool)
    } else if s == "u8"@ {
        Some(Layout::U8)
    } else if s == "u16"@ {
        Some(Layout::U16)
    } else if s == "u32"@ {
        Some(Layout::U32)
    } else if s == "u64"@ {
        Some(Layout::U64)
    } else if s == "u128"@ {
        Some(Layout::U128)
    } else if s == "u256"@ {
        Some(Layout::U256)
    } else if s == "&signer"@ {
        Some(Layout::Signer)
    } else if s == "0x1::object::Object"@ {
        Some(Layout::Address)
    } else if has_prefix(s, "0x1::object::Object<"@) {
        Some(Layout::Address)
    } else if s == "0x1::string::String"@ {
        Some(Layout::Vector(Box::new(Layout::U8)))
    } else {
        vector_layout_of(s)
    }
}

/// The layout of a signature that wraps another: `vector<T>` or
/// `0x1::option::Option<T>`.
pub open spec fn vector_layout_of(s: Seq<char>) -> Option<Layout>
    decreases s.len(), 0nat,
{
    if is_wrapped(s, "0x1::option::Option<"@) {
        vector_of(layout_of(unwrapped(s, "0x1::option::Option<"@)))
    } else if is_wrapped(s, "vector<"@) {
        vector_of(layout_of(unwrapped(s, "vector<"@)))
    } else {
        None
    }
}

fn literal_at(s: &Vec<char>, lo: usize, hi: usize, lit: &str) -> (r: bool)
    requires
        lo <= hi <= s.len(),
    ensures
        r == (s@.subrange(lo as int, hi as int) == lit@),
{
    let p = chars_of(lit);
    range_equals(s, lo, hi, &p)
}

fn wrapped_at(s: &Vec<char>, lo: usize, hi: usize, open: &str) -> (r: Option<usize>)
    requires
        lo <= hi <= s.len(),
    ensures
        r.is_some() == is_wrapped(s@.subrange(lo as int, hi as int), open@),
        r matches Some(start) ==> lo <= start < hi && s@.subrange(start as int, hi - 1)
            == unwrapped(s@.subrange(lo as int, hi as int), open@),
{
    let p = chars_of(open);
    if !range_has_prefix(s, lo, hi, &p) {
        return None;
    }
    if hi - lo <= p.len() {
        return None;
    }
    if s[hi - 1] != '>' {
        return None;
    }
    let start: usize = lo + p.len();
    assert(s@.subrange(start as int, hi - 1) =~= unwrapped(
        s@.subrange(lo as int, hi as int),
        open@,
    ));
    Some(start)
}

fn map_range(s: &Vec<char>, lo: usize, hi: usize) -> (r: Option<Layout>)
    requires
        lo <= hi <= s.len(),
    ensures
        r == layout_of(s@.subrange(lo as int, hi as int)),
    decreases hi - lo, 1nat,
{
    if literal_at(s, lo, hi, "address") {
        Some(Layout::Address)
    } else if literal_at(s, lo, hi, "bool") {
        Some(Layout::Bool)
    } else if literal_at(s, lo, hi, "u8") {
        Some(Layout::U8)
    } else if literal_at(s, lo, hi, "u16") {
        Some(Layout::U16)
    } else if literal_at(s, lo, hi, "u32") {
        Some(Layout::U32)
    } else if literal_at(s, lo, hi, "u64") {
        Some(Layout::U64)
    } else if literal_at(s, lo, hi, "u128") {
        Some(Layout::U128)
    } else if literal_at(s, lo, hi, "u256") {
        Some(Layout::U256)
    } else if literal_at(s, lo, hi, "&signer") {
        Some(Layout::Signer)
    } else if literal_at(s, lo, hi, "0x1::object::Object") {
        Some(Layout::Address)
    } else if range_has_prefix(s, lo, hi, &chars_of("0x1::object::Object<")) {
        Some(Layout::Address)
    } else if literal_at(s, lo, hi, "0x1::string::String") {
        Some(Layout::Vector(Box::new(Layout::U8)))
    } else {
        vector_range(s, lo, hi)
    }
}

fn vector_range(s: &Vec<char>, lo: usize, hi: usize) -> (r: Option<Layout>)
    requires
        lo <= hi <= s.len(),
    ensures
        r == vector_layout_of(s@.subrange(lo as int, hi as int)),
    decreases hi - lo, 0nat,
{
    let start = match wrapped_at(s, lo, hi, "0x1::option::Option<") {
        Some(start) => Some(start),
        None => wrapped_at(s, lo, hi, "vector<"),
    };
    match start {
        Some(start) => {
            match map_range(s, start, hi - 1) {
                Some(inner) => Some(Layout::Vector(Box::new(inner))),
                None => None,
            }
        },
        None => None,
    }
}

/// Resolves a type signature to its layout.
pub fn map_string_to_move_type(type_string: &str) -> (r: Option<Layout>)
    ensures
        r == layout_of(type_string@),
{
    let chars = chars_of(type_string);
    assert(chars@.subrange(0, chars.len() as int) =~= chars@);
    map_range(&chars, 0, chars.len())
}

/// Resolves a signature that wraps another (`vector<T>`, or an option, which
/// is decoded as a vector of at most one element).
pub fn parse_vector(type_string: &str) -> (r: Option<Layout>)
    ensures
        r == vector_layout_of(type_string@),
{
    let chars = chars_of(type_string);
    assert(chars@.subrange(0, chars.len() as int) =~= chars@);
    vector_range(&chars, 0, chars.len())
}

} // verus!
