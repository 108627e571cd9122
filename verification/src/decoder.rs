//! Decoding the arguments of a proposed call from its published signature.

use vstd::prelude::*;
use crate::address::{strip_marker, without_marker};
use crate::error::DecodeError;
use crate::hexcode::{hex_decode, hex_decoded};
use crate::json::{
    field_of, items_of_json, items_view, lemma_items_view, text_of_json, Json, JsonValue,
};
use crate::layout::{layout_of, map_string_to_move_type};
use crate::text::same_text;
use crate::payload::{bytes_of_each, MultisigTransactionPayload};
use crate::wire::{decode_argument, decoded_argument};

verus! {

/// The bytes of the call that a creation event proposes: the first entry of
/// `transaction.payload.vec`, read as hexadecimal text with or without `0x`.
pub open spec fn event_payload(body: JsonValue) -> Result<Seq<u8>, DecodeError> {
    match body.field("transaction"@).field("payload"@).field("vec"@).as_array() {
        None => Err(DecodeError::MissingField),
        Some(items) => if items.len() == 0 {
            Err(DecodeError::MissingField)
        } else {
            match items[0].as_text() {
                None => Err(DecodeError::MissingField),
                Some(text) => match hex_decoded(without_marker(text)) {
                    Some(bytes) => Ok(bytes),
                    None => Err(DecodeError::MalformedHex),
                },
            }
        },
    }
}

/// Reads the bytes of the proposed call out of a creation event's body.
pub fn decode_event_payload(event_data: &Json) -> (r: Result<Vec<u8>, DecodeError>)
    ensures
        match r {
            Ok(bytes) => event_payload(event_data@) == Ok::<Seq<u8>, DecodeError>(bytes@),
            Err(e) => event_payload(event_data@) == Err::<Seq<u8>, DecodeError>(e),
        },
{
    let holder = field_of(
        field_of(field_of(Some(event_data), "transaction"), "payload"),
        "vec",
    );
    match items_of_json(holder) {
        None => Err(DecodeError::MissingField),
        Some(items) => {
            proof {
                lemma_items_view(items@);
            }
            if items.len() == 0 {
                Err(DecodeError::MissingField)
            } else {
                match text_of_json(Some(&items[0])) {
                    None => Err(DecodeError::MissingField),
                    Some(text) => {
                        let digits = strip_marker(text.as_str());
                        match hex_decode(digits.as_str()) {
                            Some(bytes) => Ok(bytes),
                            None => Err(DecodeError::MalformedHex),
                        }
                    },
                }
            }
        },
    }
}

/// `f` describes the function called `name`.
pub open spec fn is_named(f: JsonValue, name: Seq<char>) -> bool {
    f.field("name"@).as_text() == Some(name)
}

/// The first description of a function called `name`.
pub open spec fn find_function(functions: Seq<JsonValue>, name: Seq<char>) -> Option<JsonValue>
    decreases functions.len(),
{
    if functions.len() == 0 {
        None
    } else if is_named(functions[0], name) {
        Some(functions[0])
    } else {
        find_function(functions.drop_first(), name)
    }
}

/// `p` is the implicit signer parameter.
pub open spec fn is_signer(p: JsonValue) -> bool {
    p.as_text() == Some("&signer"@)
}

/// The parameters that arguments are passed for: all but the signers.
pub open spec fn without_signers(params: Seq<JsonValue>) -> Seq<JsonValue>
    decreases params.len(),
{
    if params.len() == 0 {
        Seq::empty()
    } else if is_signer(params.last()) {
        without_signers(params.drop_last())
    } else {
        without_signers(params.drop_last()).push(params.last())
    }
}

/// The JSON value of one argument: null where the parameter is no type
/// signature, where the signature has no layout, and where the bytes are not
/// a value of the layout.
pub open spec fn argument_value(param: JsonValue, bytes: Seq<u8>) -> JsonValue {
    match param.as_text() {
        None => JsonValue::Null,
        Some(signature) => match layout_of(signature) {
            None => JsonValue::Null,
            Some(l) => decoded_argument(bytes, l),
        },
    }
}

/// The decoded arguments of a call of `function`, given the published
/// description of its module.
///
/// The description must list the function and its parameters. When the
/// number of parameters, signers left out, differs from the number of
/// arguments, nothing is decoded and the result is empty.
pub open spec fn parsed_arguments(
    details: JsonValue,
    args: Seq<Seq<u8>>,
    function: Seq<char>,
) -> Result<Seq<JsonValue>, DecodeError> {
    match details.field("abi"@).field("exposed_functions"@).as_array() {
        None => Err(DecodeError::FunctionDetailsMissing),
        Some(functions) => match find_function(functions, function) {
            None => Err(DecodeError::FunctionNotFound),
            Some(f) => match f.field("params"@).as_array() {
                None => Err(DecodeError::ParametersMissing),
                Some(params) => {
                    let kept = without_signers(params);
                    if kept.len() != args.len() {
                        Ok(Seq::empty())
                    } else {
                        Ok(Seq::new(args.len(), |i: int| argument_value(kept[i], args[i])))
                    }
                },
            },
        },
    }
}

fn find_function_in<'a>(functions: &'a Vec<Json>, name: &str) -> (r: Option<&'a Json>)
    ensures
        match r {
            Some(f) => find_function(items_view(functions@), name@) == Some(f@),
            None => find_function(items_view(functions@), name@) is None,
        },
{
    proof {
        lemma_items_view(functions@);
    }
    let ghost all = items_view(functions@);
    let mut i: usize = 0;
    assert(all.skip(0) =~= all);
    while i < functions.len()
        invariant
            0 <= i <= functions.len(),
            all == items_view(functions@),
            all.len() == functions.len(),
            forall|k: int| 0 <= k < functions.len() ==> (#[trigger] all[k]) == functions[k]@,
            find_function(all, name@) == find_function(all.skip(i as int), name@),
        decreases functions.len() - i,
    {
        let f = &functions[i];
        assert(all.skip(i as int)[0] == all[i as int]);
        let found = match text_of_json(field_of(Some(f), "name")) {
            Some(s) => same_text(s.as_str(), name),
            None => false,
        };
        if found {
            return Some(f);
        }
        assert(all.skip(i as int).drop_first() =~= all.skip(i + 1));
        i += 1;
    }
    assert(all.skip(i as int).len() == 0);
    None
}

fn is_signer_param(p: &Json) -> (r: bool)
    ensures
        r == is_signer(p@),
{
    match text_of_json(Some(p)) {
        Some(s) => same_text(s.as_str(), "&signer"),
        None => false,
    }
}

fn kept_params(params: &Vec<Json>) -> (r: Vec<usize>)
    ensures
        r.len() == without_signers(items_view(params@)).len(),
        forall|k: int|
            0 <= k < r.len() ==> (#[trigger] r[k]) < params.len() && params[r[k] as int]@
                == without_signers(items_view(params@))[k],
{
    proof {
        lemma_items_view(params@);
    }
    let ghost all = items_view(params@);
    let mut kept: Vec<usize> = Vec::new();
    let mut i: usize = 0;
    while i < params.len()
        invariant
            0 <= i <= params.len(),
            all == items_view(params@),
            all.len() == params.len(),
            forall|k: int| 0 <= k < params.len() ==> (#[trigger] all[k]) == params[k]@,
            kept.len() == without_signers(all.take(i as int)).len(),
            forall|k: int|
                0 <= k < kept.len() ==> (#[trigger] kept[k]) < params.len()
                    && params[kept[k] as int]@ == without_signers(all.take(i as int))[k],
        decreases params.len() - i,
    {
        let ghost before = without_signers(all.take(i as int));
        let ghost old_kept = kept@;
        proof {
            assert(all.take(i + 1).drop_last() =~= all.take(i as int));
            assert(all.take(i + 1).last() == all[i as int]);
            assert(all[i as int] == params[i as int]@);
        }
        if !is_signer_param(&params[i]) {
            kept.push(i);
            proof {
                assert(without_signers(all.take(i + 1)) == before.push(all[i as int]));
                assert forall|k: int| 0 <= k < kept.len() implies (#[trigger] kept[k])
                    < params.len() && params[kept[k] as int]@ == without_signers(
                    all.take(i + 1),
                )[k] by {
                    if k < old_kept.len() {
                        assert(kept[k] == old_kept[k]);
                    }
                }
            }
        } else {
            assert(without_signers(all.take(i + 1)) == before);
        }
        i += 1;
    }
    assert(all.take(params.len() as int) =~= all);
    kept
}

fn argument_json(param: &Json, bytes: &Vec<u8>) -> (r: Json)
    ensures
        r@ == argument_value(param@, bytes@),
{
    match text_of_json(Some(param)) {
        None => Json::Null,
        Some(signature) => match map_string_to_move_type(signature.as_str()) {
            None => Json::Null,
            Some(l) => decode_argument(bytes, &l),
        },
    }
}

/// Decodes the arguments of a call of `function` against the published
/// description of its module.
pub fn parse_function_args(
    function_details: &Json,
    args: &Vec<Vec<u8>>,
    function: &str,
) -> (r: Result<Vec<Json>, DecodeError>)
    ensures
        match r {
            Ok(values) => parsed_arguments(function_details@, bytes_of_each(args@), function@)
                == Ok::<Seq<JsonValue>, DecodeError>(items_view(values@)),
            Err(e) => parsed_arguments(function_details@, bytes_of_each(args@), function@)
                == Err::<Seq<JsonValue>, DecodeError>(e),
        },
{
    let listed = field_of(field_of(Some(function_details), "abi"), "exposed_functions");
    let functions = match items_of_json(listed) {
        Some(functions) => functions,
        None => {
            return Err(DecodeError::FunctionDetailsMissing);
        },
    };
    let f = match find_function_in(functions, function) {
        Some(f) => f,
        None => {
            return Err(DecodeError::FunctionNotFound);
        },
    };
    let params = match items_of_json(field_of(Some(f), "params")) {
        Some(params) => params,
        None => {
            return Err(DecodeError::ParametersMissing);
        },
    };
    let kept = kept_params(params);
    let ghost wanted = without_signers(items_view(params@));
    let mut out: Vec<Json> = Vec::new();
    if kept.len() != args.len() {
        proof {
            lemma_items_view(out@);
            assert(items_view(out@) =~= Seq::<JsonValue>::empty());
        }
        return Ok(out);
    }
    let mut i: usize = 0;
    while i < args.len()
        invariant
            0 <= i <= args.len(),
            kept.len() == args.len(),
            wanted.len() == kept.len(),
            forall|k: int|
                0 <= k < kept.len() ==> (#[trigger] kept[k]) < params.len()
                    && params[kept[k] as int]@ == wanted[k],
            out.len() == i,
            forall|k: int| 0 <= k < i ==> out[k]@ == argument_value(wanted[k], args[k]@),
        decreases args.len() - i,
    {
        let at: usize = kept[i];
        out.push(argument_json(&params[at], &args[i]));
        i += 1;
    }
    proof {
        lemma_items_view(out@);
        let expected = Seq::new(
            bytes_of_each(args@).len(),
            |i: int| argument_value(wanted[i], bytes_of_each(args@)[i]),
        );
        assert(items_view(out@) =~= expected);
    }
    Ok(out)
}

/// The structured payload with the decoded arguments attached under
/// `EntryFunction.parsed_args`.
pub open spec fn with_parsed_args(structured: JsonValue, parsed: Seq<JsonValue>) -> JsonValue {
    structured.with_field(
        "EntryFunction"@,
        structured.field("EntryFunction"@).with_field("parsed_args"@, JsonValue::Array(parsed)),
    )
}

/// The JSON of a proposed call with its decoded arguments, given the
/// published description of the called module.
pub open spec fn entry_function_json(
    payload: MultisigTransactionPayload,
    structured: JsonValue,
    details: JsonValue,
) -> Result<JsonValue, DecodeError> {
    match payload {
        MultisigTransactionPayload::EntryFunction(entry) => match parsed_arguments(
            details,
            bytes_of_each(entry.args@),
            entry.function@,
        ) {
            Ok(parsed) => Ok(with_parsed_args(structured, parsed)),
            Err(e) => Err(e),
        },
    }
}

/// Decodes the arguments of a proposed call and attaches them to its
/// structured form.
pub fn process_entry_function(
    payload_parsed: &MultisigTransactionPayload,
    structured: &Json,
    function_details: &Json,
) -> (r: Result<Json, DecodeError>)
    ensures
        match r {
            Ok(j) => entry_function_json(*payload_parsed, structured@, function_details@)
                == Ok::<JsonValue, DecodeError>(j@),
            Err(e) => entry_function_json(*payload_parsed, structured@, function_details@)
                == Err::<JsonValue, DecodeError>(e),
        },
{
    match payload_parsed {
        MultisigTransactionPayload::EntryFunction(entry) => {
            match parse_function_args(function_details, &entry.args, entry.function.as_str()) {
                Ok(parsed) => {
                    let inner = Json::copy_of(field_of(Some(structured), "EntryFunction"));
                    let inner = inner.with_field("parsed_args", Json::array(parsed));
                    Ok(structured.deep_copy().with_field("EntryFunction", inner))
                },
                Err(e) => Err(e),
            }
        },
    }
}

} // verus!
