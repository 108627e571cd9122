//! Call arguments on the wire: the shapes that the binary decoder knows, the
//! values it hands back, and the JSON they are flattened to.

use vstd::prelude::*;
use move_core_types::value::{MoveStructLayout, MoveTypeLayout, MoveValue};
use vstd::utf8::{decode_utf8, valid_utf8};
use vstd::string::*;
use crate::address::hex_marker;
use crate::hexcode::{hex_encode, hex_encoded};
use crate::json::{items_view, lemma_items_view, Json, JsonValue};
use crate::layout::Layout;

verus! {

/// The number of bytes in an account address.
pub const ADDRESS_BYTES: usize = 32;

/// A shape that the binary decoder can read.
#[derive(Debug, PartialEq, Eq)]
pub enum WireLayout {
    Bool,
    U8,
    U64,
    U128,
    /// An address of the decoder's own width, which is not that of an
    /// account address here; [`lowered`] never asks for it.
    Address,
    /// A signer, of the same width as the decoder's address.
    Signer,
    /// A length, then that many values of one shape.
    Vector(Box<WireLayout>),
    /// `count` values of one shape, one after the other.
    Tuple(Box<WireLayout>, usize),
}

/// A value as the binary decoder hands it back.
#[derive(Debug, PartialEq, Eq)]
pub enum WireValue {
    U8(u8),
    U64(u64),
    U128(u128),
    Bool(bool),
    /// The bytes of an address of the decoder's own width.
    Address(Vec<u8>),
    /// The bytes of a signer.
    Signer(Vec<u8>),
    Vector(Vec<WireValue>),
    Tuple(Vec<WireValue>),
}

/// The mathematical value of a [`WireValue`].
pub enum WireTree {
    U8(u8),
    U64(u64),
    U128(u128),
    Bool(bool),
    Address(Seq<u8>),
    Signer(Seq<u8>),
    Vector(Seq<WireTree>),
    Tuple(Seq<WireTree>),
}

impl View for WireValue {
    type V = WireTree;

    open spec fn view(&self) -> WireTree {
        wire_tree(*self)
    }
}

/// The mathematical value of `v`.
pub open spec fn wire_tree(v: WireValue) -> WireTree
    decreases v,
{
    match v {
        WireValue::U8(n) => WireTree::U8(n),
        WireValue::U64(n) => WireTree::U64(n),
        WireValue::U128(n) => WireTree::U128(n),
        WireValue::Bool(b) => WireTree::Bool(b),
        WireValue::Address(a) => WireTree::Address(a@),
        WireValue::Signer(a) => WireTree::Signer(a@),
        WireValue::Vector(items) => WireTree::Vector(wire_trees(items@)),
        WireValue::Tuple(items) => WireTree::Tuple(wire_trees(items@)),
    }
}

/// The values of a run of wire values, in order.
pub open spec fn wire_trees(items: Seq<WireValue>) -> Seq<WireTree>
    decreases items,
{
    if items.len() == 0 {
        Seq::empty()
    } else {
        wire_trees(items.drop_last()).push(wire_tree(items.last()))
    }
}

/// `wire_trees` maps item by item.
pub proof fn lemma_wire_trees(items: Seq<WireValue>)
    ensures
        wire_trees(items).len() == items.len(),
        forall|i: int| 0 <= i < items.len() ==> (#[trigger] wire_trees(items)[i]) == items[i]@,
    decreases items.len(),
{
    if items.len() > 0 {
        lemma_wire_trees(items.drop_last());
    }
}

/// The shape in which the decoder reads an argument of layout `l`. Integers
/// of 16 and 32 bits are read as their bytes, 256 bits as two halves, an
/// address or a signer as its bytes.
pub open spec fn lowered(l: Layout) -> WireLayout
    decreases l,
{
    match l {
        Layout::Bool => WireLayout::Bool,
        Layout::U8 => WireLayout::U8,
        Layout::U16 => WireLayout::Tuple(Box::new(WireLayout::U8), 2),
        Layout::U32 => WireLayout::Tuple(Box::new(WireLayout::U8), 4),
        Layout::U64 => WireLayout::U64,
        Layout::U128 => WireLayout::U128,
        Layout::U256 => WireLayout::Tuple(Box::new(WireLayout::U128), 2),
        Layout::Address => WireLayout::Tuple(Box::new(WireLayout::U8), ADDRESS_BYTES),
        Layout::Signer => WireLayout::Tuple(Box::new(WireLayout::U8), ADDRESS_BYTES),
        Layout::Vector(inner) => WireLayout::Vector(Box::new(lowered(*inner))),
    }
}

/// No tuple of the shape has more values than an address has bytes.
pub open spec fn tuples_are_small(w: WireLayout) -> bool
    decreases w,
{
    match w {
        WireLayout::Vector(inner) => tuples_are_small(*inner),
        WireLayout::Tuple(inner, count) => count <= ADDRESS_BYTES && tuples_are_small(*inner),
        _ => true,
    }
}

/// Computes [`lowered`].
pub fn lower(l: &Layout) -> (r: WireLayout)
    ensures
        r == lowered(*l),
        tuples_are_small(r),
    decreases l,
{
    proof {
        reveal_with_fuel(tuples_are_small, 3);
    }
    match l {
        Layout::Bool => WireLayout::Bool,
        Layout::U8 => WireLayout::U8,
        Layout::U16 => WireLayout::Tuple(Box::new(WireLayout::U8), 2),
        Layout::U32 => WireLayout::Tuple(Box::new(WireLayout::U8), 4),
        Layout::U64 => WireLayout::U64,
        Layout::U128 => WireLayout::U128,
        Layout::U256 => WireLayout::Tuple(Box::new(WireLayout::U128), 2),
        Layout::Address => WireLayout::Tuple(Box::new(WireLayout::U8), ADDRESS_BYTES),
        Layout::Signer => WireLayout::Tuple(Box::new(WireLayout::U8), ADDRESS_BYTES),
        Layout::Vector(inner) => WireLayout::Vector(Box::new(lower(inner))),
    }
}

/// The bytes of a run of values that are all single bytes.
pub open spec fn byte_items(items: Seq<WireTree>) -> Option<Seq<u8>> {
    if forall|i: int| 0 <= i < items.len() ==> #[trigger] items[i] is U8 {
        Some(Seq::new(items.len(), |i: int| items[i]->U8_0))
    } else {
        None
    }
}

/// The bytes of a tuple of exactly `count` single bytes.
pub open spec fn tuple_bytes(v: WireTree, count: nat) -> Option<Seq<u8>> {
    match v {
        WireTree::Tuple(items) => if items.len() == count {
            byte_items(items)
        } else {
            None
        },
        _ => None,
    }
}

/// The low 64 bits of `n`.
pub open spec fn low_64(n: u128) -> u64 {
    (n % 0x1_0000_0000_0000_0000) as u64
}

/// The number that little-endian bytes write.
pub open spec fn little_endian(bytes: Seq<u8>) -> int
    decreases bytes.len(),
{
    if bytes.len() == 0 {
        0
    } else {
        bytes[0] as int + 256 * little_endian(bytes.drop_first())
    }
}

/// The JSON text of an address: `0x` and the lower-case digits of its bytes.
pub open spec fn address_text(bytes: Seq<u8>) -> Seq<char> {
    hex_marker() + hex_encoded(bytes)
}

/// The JSON that a decoded argument is flattened to.
///
/// Numbers become JSON numbers, of which 128-bit and 256-bit ones keep only
/// their low 64 bits; booleans stay booleans; addresses and signers become
/// text. A vector becomes an array of its flattened items, except that a
/// vector of bytes which is valid UTF-8 becomes that text. A value that does
/// not have the shape of the layout becomes null.
pub open spec fn flattened(v: WireTree, l: Layout) -> JsonValue
    decreases l, 0nat,
{
    match l {
        Layout::Bool => match v {
            WireTree::Bool(b) => JsonValue::Bool(b),
            _ => JsonValue::Null,
        },
        Layout::U8 => match v {
            WireTree::U8(n) => JsonValue::Unsigned(n as u64),
            _ => JsonValue::Null,
        },
        Layout::U16 => match tuple_bytes(v, 2) {
            Some(b) => JsonValue::Unsigned(little_endian(b) as u64),
            None => JsonValue::Null,
        },
        Layout::U32 => match tuple_bytes(v, 4) {
            Some(b) => JsonValue::Unsigned(little_endian(b) as u64),
            None => JsonValue::Null,
        },
        Layout::U64 => match v {
            WireTree::U64(n) => JsonValue::Unsigned(n),
            _ => JsonValue::Null,
        },
        Layout::U128 => match v {
            WireTree::U128(n) => JsonValue::Unsigned(low_64(n)),
            _ => JsonValue::Null,
        },
        Layout::U256 => match v {
            WireTree::Tuple(items) => if items.len() == 2 && items[0] is U128 && items[1]
                is U128 {
                JsonValue::Unsigned(low_64(items[0]->U128_0))
            } else {
                JsonValue::Null
            },
            _ => JsonValue::Null,
        },
        Layout::Address => match tuple_bytes(v, ADDRESS_BYTES as nat) {
            Some(b) => JsonValue::Text(address_text(b)),
            None => JsonValue::Null,
        },
        Layout::Signer => match tuple_bytes(v, ADDRESS_BYTES as nat) {
            Some(b) => JsonValue::Text(address_text(b)),
            None => JsonValue::Null,
        },
        Layout::Vector(inner) => match v {
            WireTree::Vector(items) => if *inner is U8 && byte_items(items) is Some
                && valid_utf8(byte_items(items)->0) {
                JsonValue::Text(decode_utf8(byte_items(items)->0))
            } else {
                JsonValue::Array(flattened_items(items, *inner))
            },
            _ => JsonValue::Null,
        },
    }
}

/// Each item flattened by the same layout, in order.
pub open spec fn flattened_items(items: Seq<WireTree>, l: Layout) -> Seq<JsonValue>
    decreases l, 1 + items.len(),
{
    if items.len() == 0 {
        Seq::empty()
    } else {
        flattened_items(items.drop_last(), l).push(flattened(items.last(), l))
    }
}

/// `flattened_items` maps item by item.
pub proof fn lemma_flattened_items(items: Seq<WireTree>, l: Layout)
    ensures
        flattened_items(items, l).len() == items.len(),
        forall|i: int|
            0 <= i < items.len() ==> (#[trigger] flattened_items(items, l)[i]) == flattened(
                items[i],
                l,
            ),
    decreases items.len(),
{
    if items.len() > 0 {
        lemma_flattened_items(items.drop_last(), l);
    }
}

/// The bytes that a JSON array of small numbers writes.
pub open spec fn json_bytes(j: JsonValue) -> Option<Seq<u8>> {
    match j {
        JsonValue::Array(items) => if forall|i: int|
            0 <= i < items.len() ==> (#[trigger] items[i] matches JsonValue::Unsigned(n) && n
                <= u8::MAX) {
            Some(Seq::new(items.len(), |i: int| items[i]->Unsigned_0 as u8))
        } else {
            None
        },
        _ => None,
    }
}

/// A vector of bytes that is valid UTF-8 is flattened to that text. One that
/// is not is flattened to the array of its bytes, from which the bytes are
/// read back unchanged.
pub proof fn byte_vector_round_trip(items: Seq<WireTree>)
    requires
        byte_items(items) is Some,
    ensures
        ({
            let bytes = byte_items(items)->0;
            let json = flattened(WireTree::Vector(items), Layout::Vector(Box::new(Layout::U8)));
            if valid_utf8(bytes) {
                json == JsonValue::Text(decode_utf8(bytes))
            } else {
                json is Array && json_bytes(json) == Some(bytes)
            }
        }),
{
    let bytes = byte_items(items)->0;
    let json = flattened(WireTree::Vector(items), Layout::Vector(Box::new(Layout::U8)));
    if !valid_utf8(bytes) {
        lemma_flattened_items(items, Layout::U8);
        let out = flattened_items(items, Layout::U8);
        assert forall|i: int| 0 <= i < out.len() implies (#[trigger] out[i] matches JsonValue::Unsigned(
            n,
        ) && n <= u8::MAX) by {
            assert(items[i] is U8);
        }
        assert(json_bytes(json)->0 =~= bytes);
    }
}

/// `move_core_types::value::MoveTypeLayout`, carried through unopened.
#[verifier::external_type_specification]
#[verifier::external_body]
pub struct ExMoveTypeLayout(move_core_types::value::MoveTypeLayout);

/// `move_core_types::value::MoveValue`, carried through unopened.
#[verifier::external_type_specification]
#[verifier::external_body]
pub struct ExMoveValue(move_core_types::value::MoveValue);

/// `anyhow::Error`, the error of the binary decoder, carried through
/// unopened.
#[verifier::external_type_specification]
#[verifier::external_body]
pub struct ExAnyhowError(anyhow::Error);

/// The value that the binary decoder reads from `bytes` as `layout`, if the
/// bytes are exactly one such value.
pub uninterp spec fn wire_decoded(bytes: Seq<u8>, layout: WireLayout) -> Option<WireTree>;

/// Converts a shape to `MoveTypeLayout` for [`decode_wire`], variant by
/// variant; a tuple becomes a runtime struct with `count` fields of the one
/// shape.
#[verifier::external_body]
fn move_layout(layout: &WireLayout) -> MoveTypeLayout {
    match layout {
        WireLayout::Bool => MoveTypeLayout::Bool,
        WireLayout::U8 => MoveTypeLayout::U8,
        WireLayout::U64 => MoveTypeLayout::U64,
        WireLayout::U128 => MoveTypeLayout::U128,
        WireLayout::Address => MoveTypeLayout::Address,
        WireLayout::Signer => MoveTypeLayout::Signer,
        WireLayout::Vector(inner) => MoveTypeLayout::Vector(Box::new(move_layout(inner))),
        WireLayout::Tuple(inner, count) => MoveTypeLayout::Struct(
            MoveStructLayout::Runtime((0..*count).map(|_| move_layout(inner)).collect()),
        ),
    }
}

/// Converts a `MoveValue` for [`decode_wire`], variant by variant; a struct
/// becomes the tuple of its field values.
#[verifier::external_body]
fn wire_value(v: &MoveValue) -> WireValue {
    match v {
        MoveValue::U8(n) => WireValue::U8(*n),
        MoveValue::U64(n) => WireValue::U64(*n),
        MoveValue::U128(n) => WireValue::U128(*n),
        MoveValue::Bool(b) => WireValue::Bool(*b),
        MoveValue::Address(a) => WireValue::Address(a.to_vec()),
        MoveValue::Signer(a) => WireValue::Signer(a.to_vec()),
        MoveValue::Vector(items) => WireValue::Vector(items.iter().map(wire_value).collect()),
        MoveValue::Struct(s) => WireValue::Tuple(
            s.clone().into_fields().iter().map(wire_value).collect(),
        ),
    }
}

/// Decodes with `MoveValue::simple_deserialize`. What comes back depends on
/// the bytes and the shape alone: the call succeeds exactly when it reads
/// the bytes as one value of the shape, and then yields that value. Nothing
/// more is claimed of the format.
#[verifier::external_body]
fn decode_wire(bytes: &Vec<u8>, layout: &WireLayout) -> (r: Result<WireValue, anyhow::Error>)
    requires
        tuples_are_small(*layout),
    ensures
        r is Ok <==> wire_decoded(bytes@, *layout) is Some,
        r matches Ok(v) ==> wire_decoded(bytes@, *layout) == Some(v@),
{
    match MoveValue::simple_deserialize(bytes, &move_layout(layout)) {
        Ok(v) => Ok(wire_value(&v)),
        Err(e) => Err(e),
    }
}

/// Reads bytes as text with `String::from_utf8`: succeeds exactly on valid
/// UTF-8, and then yields the text that the bytes encode.
#[verifier::external_body]
pub(crate) fn utf8_text(bytes: Vec<u8>) -> (r: Option<String>)
    ensures
        r is Some <==> valid_utf8(bytes@),
        r matches Some(s) ==> s@ == decode_utf8(bytes@),
{
    String::from_utf8(bytes).ok()
}

/// The value that argument bytes hold under a layout.
pub open spec fn decoded_argument(bytes: Seq<u8>, l: Layout) -> JsonValue {
    match wire_decoded(bytes, lowered(l)) {
        Some(v) => flattened(v, l),
        None => JsonValue::Null,
    }
}

/// The bytes of a run of values, if every one of them is a single byte.
fn bytes_of_items(items: &Vec<WireValue>) -> (r: Option<Vec<u8>>)
    ensures
        match r {
            Some(bytes) => byte_items(wire_trees(items@)) == Some(bytes@),
            None => byte_items(wire_trees(items@)) is None,
        },
{
    proof {
        lemma_wire_trees(items@);
    }
    let ghost trees = wire_trees(items@);
    let mut out: Vec<u8> = Vec::new();
    let mut i: usize = 0;
    while i < items.len()
        invariant
            0 <= i <= items.len(),
            trees == wire_trees(items@),
            trees.len() == items.len(),
            forall|k: int| 0 <= k < items.len() ==> (#[trigger] trees[k]) == items[k]@,
            out.len() == i,
            forall|k: int| 0 <= k < i ==> (#[trigger] trees[k]) is U8 && out[k] == trees[k]->U8_0,
        decreases items.len() - i,
    {
        match &items[i] {
            WireValue::U8(n) => {
                assert(trees[i as int] == WireTree::U8(*n));
                out.push(*n);
            },
            _ => {
                assert(!(trees[i as int] is U8));
                return None;
            },
        }
        i += 1;
    }
    assert(byte_items(trees)->0 =~= out@);
    Some(out)
}

/// The bytes of a tuple of exactly `count` single bytes.
fn tuple_bytes_of(value: &WireValue, count: usize) -> (r: Option<Vec<u8>>)
    ensures
        match r {
            Some(bytes) => tuple_bytes(value@, count as nat) == Some(bytes@),
            None => tuple_bytes(value@, count as nat) is None,
        },
{
    match value {
        WireValue::Tuple(items) => {
            proof {
                lemma_wire_trees(items@);
            }
            if items.len() == count {
                bytes_of_items(items)
            } else {
                None
            }
        },
        _ => None,
    }
}

/// The number that at most four little-endian bytes write.
fn little_endian_of(bytes: &Vec<u8>) -> (r: u64)
    requires
        bytes.len() <= 4,
    ensures
        r == little_endian(bytes@),
        r < 0x1_0000_0000,
{
    let mut acc: u64 = 0;
    let mut i: usize = bytes.len();
    let ghost mut bound: int = 1;
    while i > 0
        invariant
            0 <= i <= bytes.len() <= 4,
            acc == little_endian(bytes@.skip(i as int)),
            acc < bound,
            bound <= 0x1_0000_0000,
            (bytes.len() - i == 0) ==> bound == 1,
            (bytes.len() - i == 1) ==> bound == 0x100,
            (bytes.len() - i == 2) ==> bound == 0x1_0000,
            (bytes.len() - i == 3) ==> bound == 0x100_0000,
            (bytes.len() - i == 4) ==> bound == 0x1_0000_0000,
        decreases i,
    {
        i -= 1;
        proof {
            assert(bytes@.skip(i as int).drop_first() =~= bytes@.skip(i + 1));
            bound = bound * 256;
        }
        acc = bytes[i] as u64 + 256 * acc;
    }
    assert(bytes@.skip(0) =~= bytes@);
    acc
}

/// The text of an address.
fn address_json(bytes: &Vec<u8>) -> (r: Json)
    ensures
        r@ == JsonValue::Text(address_text(bytes@)),
{
    let digits = hex_encode(bytes);
    let mut text = String::from_str("0x");
    proof {
        reveal_strlit("0x");
        assert("0x"@ =~= hex_marker());
    }
    text.append(digits.as_str());
    Json::Text(text)
}

/// Flattens a decoded argument to JSON.
pub fn parse_nested_move_values(input: &WireValue, layout: &Layout) -> (r: Json)
    ensures
        r@ == flattened(input@, *layout),
    decreases layout,
{
    match layout {
        Layout::Bool => match input {
            WireValue::Bool(b) => Json::Bool(*b),
            _ => Json::Null,
        },
        Layout::U8 => match input {
            WireValue::U8(n) => Json::Unsigned(*n as u64),
            _ => Json::Null,
        },
        Layout::U16 => match tuple_bytes_of(input, 2) {
            Some(b) => Json::Unsigned(little_endian_of(&b)),
            None => Json::Null,
        },
        Layout::U32 => match tuple_bytes_of(input, 4) {
            Some(b) => Json::Unsigned(little_endian_of(&b)),
            None => Json::Null,
        },
        Layout::U64 => match input {
            WireValue::U64(n) => Json::Unsigned(*n),
            _ => Json::Null,
        },
        Layout::U128 => match input {
            WireValue::U128(n) => Json::Unsigned((*n % 0x1_0000_0000_0000_0000) as u64),
            _ => Json::Null,
        },
        Layout::U256 => match input {
            WireValue::Tuple(items) => {
                proof {
                    lemma_wire_trees(items@);
                }
                if items.len() == 2 {
                    match (&items[0], &items[1]) {
                        (WireValue::U128(low), WireValue::U128(_)) => Json::Unsigned(
                            (*low % 0x1_0000_0000_0000_0000) as u64,
                        ),
                        _ => Json::Null,
                    }
                } else {
                    Json::Null
                }
            },
            _ => Json::Null,
        },
        Layout::Address => match tuple_bytes_of(input, ADDRESS_BYTES) {
            Some(b) => address_json(&b),
            None => Json::Null,
        },
        Layout::Signer => match tuple_bytes_of(input, ADDRESS_BYTES) {
            Some(b) => address_json(&b),
            None => Json::Null,
        },
        Layout::Vector(inner) => match input {
            WireValue::Vector(items) => {
                proof {
                    lemma_wire_trees(items@);
                }
                let ghost trees = wire_trees(items@);
                let text = match **inner {
                    Layout::U8 => match bytes_of_items(items) {
                        Some(bytes) => utf8_text(bytes),
                        None => None,
                    },
                    _ => None,
                };
                match text {
                    Some(s) => Json::Text(s),
                    None => {
                        let mut out: Vec<Json> = Vec::new();
                        let mut i: usize = 0;
                        while i < items.len()
                            invariant
                                layout is Vector,
                                layout->Vector_0 == *inner,
                                0 <= i <= items.len(),
                                trees == wire_trees(items@),
                                trees.len() == items.len(),
                                forall|k: int|
                                    0 <= k < items.len() ==> (#[trigger] trees[k]) == items[k]@,
                                out.len() == i,
                                forall|k: int|
                                    0 <= k < i ==> out[k]@ == flattened(trees[k], **inner),
                            decreases items.len() - i,
                        {
                            out.push(parse_nested_move_values(&items[i], inner));
                            i += 1;
                        }
                        proof {
                            lemma_flattened_items(trees, **inner);
                            lemma_items_view(out@);
                            assert(items_view(out@) =~= flattened_items(trees, **inner));
                        }
                        Json::Array(out)
                    },
                }
            },
            _ => Json::Null,
        },
    }
}

/// Decodes argument bytes under a layout and flattens what they hold; bytes
/// that are not a value of the layout give null.
pub fn decode_argument(bytes: &Vec<u8>, layout: &Layout) -> (r: Json)
    ensures
        r@ == decoded_argument(bytes@, *layout),
{
    let shape = lower(layout);
    match decode_wire(bytes, &shape) {
        Ok(v) => parse_nested_move_values(&v, layout),
        Err(_) => Json::Null,
    }
}

/// Reads back the bytes that a JSON array of small numbers writes.
pub fn json_to_bytes(j: &Json) -> (r: Option<Vec<u8>>)
    ensures
        match r {
            Some(bytes) => json_bytes(j@) == Some(bytes@),
            None => json_bytes(j@) is None,
        },
{
    match j {
        Json::Array(items) => {
            proof {
                lemma_items_view(items@);
            }
            let ghost values = items_view(items@);
            let mut out: Vec<u8> = Vec::new();
            let mut i: usize = 0;
            while i < items.len()
                invariant
                    0 <= i <= items.len(),
                    values == items_view(items@),
                    j@ == JsonValue::Array(values),
                    values.len() == items.len(),
                    forall|k: int| 0 <= k < items.len() ==> (#[trigger] values[k]) == items[k]@,
                    out.len() == i,
                    forall|k: int|
                        0 <= k < i ==> ((#[trigger] values[k]) matches JsonValue::Unsigned(n) && n
                            <= u8::MAX && out[k] == n as u8),
                decreases items.len() - i,
            {
                match &items[i] {
                    Json::Unsigned(n) => {
                        assert(values[i as int] == JsonValue::Unsigned(*n));
                        if *n > 255 {
                            return None;
                        }
                        out.push(*n as u8);
                    },
                    _ => {
                        assert(!(values[i as int] is Unsigned));
                        return None;
                    },
                }
                i += 1;
            }
            assert(json_bytes(j@)->0 =~= out@);
            Some(out)
        },
        _ => None,
    }
}

} // verus!
