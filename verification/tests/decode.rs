use multisig_processor::decoder::{
    decode_event_payload, parse_function_args, process_entry_function,
};
use multisig_processor::error::DecodeError;
use multisig_processor::json::{parse_event_data, Json};
use multisig_processor::layout::{map_string_to_move_type, Layout};
use multisig_processor::payload::{EntryFunction, ModuleId, MultisigTransactionPayload};
use multisig_processor::wire::{
    decode_argument, json_to_bytes, lower, parse_nested_move_values, WireLayout, WireValue,
};

fn vector(inner: Layout) -> Layout {
    Layout::Vector(Box::new(inner))
}

fn text(s: &str) -> Json {
    Json::Text(s.to_string())
}

fn address_bytes() -> Vec<u8> {
    let mut bytes = vec![0u8; 32];
    bytes[0] = 0xf9;
    bytes[31] = 0x01;
    bytes
}

fn address_text() -> String {
    format!("0xf9{}01", "00".repeat(30))
}

#[test]
fn numbers_become_numbers() {
    assert_eq!(decode_argument(&vec![5], &Layout::U8), Json::Unsigned(5));
    assert_eq!(decode_argument(&vec![0x02, 0x01], &Layout::U16), Json::Unsigned(0x0102));
    assert_eq!(decode_argument(&vec![0xff, 0xff], &Layout::U16), Json::Unsigned(65535));
    assert_eq!(
        decode_argument(&vec![0x04, 0x03, 0x02, 0x01], &Layout::U32),
        Json::Unsigned(0x01020304)
    );
    assert_eq!(
        decode_argument(&vec![0xff, 0xff, 0xff, 0xff], &Layout::U32),
        Json::Unsigned(4294967295)
    );
    assert_eq!(
        decode_argument(&1_000_000_007u64.to_le_bytes().to_vec(), &Layout::U64),
        Json::Unsigned(1_000_000_007)
    );
    assert_eq!(
        decode_argument(&u64::MAX.to_le_bytes().to_vec(), &Layout::U64),
        Json::Unsigned(u64::MAX)
    );
}

#[test]
fn wide_numbers_keep_their_low_64_bits() {
    let wide: u128 = (1u128 << 64) + 5;
    assert_eq!(decode_argument(&wide.to_le_bytes().to_vec(), &Layout::U128), Json::Unsigned(5));
    assert_eq!(decode_argument(&77u128.to_le_bytes().to_vec(), &Layout::U128), Json::Unsigned(77));
    let mut wider = 9u128.to_le_bytes().to_vec();
    wider.extend_from_slice(&3u128.to_le_bytes());
    assert_eq!(decode_argument(&wider, &Layout::U256), Json::Unsigned(9));
    let mut wider = ((1u128 << 100) + 11).to_le_bytes().to_vec();
    wider.extend_from_slice(&0u128.to_le_bytes());
    assert_eq!(decode_argument(&wider, &Layout::U256), Json::Unsigned(11));
}

#[test]
fn booleans_stay_booleans() {
    assert_eq!(decode_argument(&vec![1], &Layout::Bool), Json::Bool(true));
    assert_eq!(decode_argument(&vec![0], &Layout::Bool), Json::Bool(false));
}

#[test]
fn addresses_and_signers_become_text() {
    assert_eq!(decode_argument(&address_bytes(), &Layout::Address), text(&address_text()));
    assert_eq!(decode_argument(&address_bytes(), &Layout::Signer), text(&address_text()));
    assert_eq!(
        decode_argument(&vec![0xAB; 32], &Layout::Address),
        text(&format!("0x{}", "ab".repeat(32)))
    );
}

#[test]
fn byte_vectors_that_are_text_become_text() {
    assert_eq!(decode_argument(&vec![2, 72, 105], &vector(Layout::U8)), text("Hi"));
    assert_eq!(decode_argument(&vec![0], &vector(Layout::U8)), text(""));
    let snowman = "☃ ok".as_bytes().to_vec();
    let mut encoded = vec![snowman.len() as u8];
    encoded.extend_from_slice(&snowman);
    assert_eq!(decode_argument(&encoded, &vector(Layout::U8)), text("☃ ok"));
    let layout = map_string_to_move_type("0x1::string::String").unwrap();
    assert_eq!(decode_argument(&vec![2, 72, 105], &layout), text("Hi"));
}

#[test]
fn byte_vectors_that_are_not_text_become_arrays_and_read_back() {
    let bytes = vec![0xff, 0x00, 0xc3, 0x28];
    let mut encoded = vec![bytes.len() as u8];
    encoded.extend_from_slice(&bytes);
    let json = decode_argument(&encoded, &vector(Layout::U8));
    assert_eq!(
        json,
        Json::Array(vec![
            Json::Unsigned(255),
            Json::Unsigned(0),
            Json::Unsigned(195),
            Json::Unsigned(40)
        ])
    );
    assert_eq!(json_to_bytes(&json), Some(bytes));
}

#[test]
fn arrays_of_other_things_do_not_read_back_as_bytes() {
    assert_eq!(json_to_bytes(&Json::Array(vec![Json::Unsigned(256)])), None);
    assert_eq!(json_to_bytes(&Json::Array(vec![Json::Signed(-1)])), None);
    assert_eq!(json_to_bytes(&Json::Array(vec![text("a")])), None);
    assert_eq!(json_to_bytes(&text("a")), None);
    assert_eq!(json_to_bytes(&Json::Array(vec![])), Some(vec![]));
}

#[test]
fn nested_vectors_apply_the_same_rule() {
    let encoded = vec![2, 2, 72, 105, 1, 0xff];
    assert_eq!(
        decode_argument(&encoded, &vector(vector(Layout::U8))),
        Json::Array(vec![text("Hi"), Json::Array(vec![Json::Unsigned(255)])])
    );
    assert_eq!(decode_argument(&vec![0], &vector(vector(Layout::U8))), Json::Array(vec![]));
}

#[test]
fn other_vectors_become_arrays() {
    let mut encoded = vec![2u8];
    encoded.extend_from_slice(&7u64.to_le_bytes());
    encoded.extend_from_slice(&9u64.to_le_bytes());
    assert_eq!(
        decode_argument(&encoded, &vector(Layout::U64)),
        Json::Array(vec![Json::Unsigned(7), Json::Unsigned(9)])
    );
    assert_eq!(decode_argument(&vec![0], &vector(Layout::U64)), Json::Array(vec![]));
    assert_eq!(
        decode_argument(&vec![2, 1, 0], &vector(Layout::Bool)),
        Json::Array(vec![Json::Bool(true), Json::Bool(false)])
    );
    let mut encoded = vec![1u8];
    encoded.extend_from_slice(&address_bytes());
    assert_eq!(
        decode_argument(&encoded, &vector(Layout::Address)),
        Json::Array(vec![text(&address_text())])
    );
    assert_eq!(
        decode_argument(&vec![1, 0x02, 0x01], &vector(Layout::U16)),
        Json::Array(vec![Json::Unsigned(0x0102)])
    );
}

#[test]
fn options_decode_as_vectors() {
    let layout = map_string_to_move_type("0x1::option::Option<u64>").unwrap();
    let mut encoded = vec![1u8];
    encoded.extend_from_slice(&42u64.to_le_bytes());
    assert_eq!(decode_argument(&encoded, &layout), Json::Array(vec![Json::Unsigned(42)]));
    assert_eq!(decode_argument(&vec![0], &layout), Json::Array(vec![]));
}

#[test]
fn bytes_that_do_not_fit_the_layout_give_null() {
    assert_eq!(decode_argument(&vec![], &Layout::U8), Json::Null);
    assert_eq!(decode_argument(&vec![1, 2], &Layout::U8), Json::Null);
    assert_eq!(decode_argument(&vec![2], &Layout::Bool), Json::Null);
    assert_eq!(decode_argument(&vec![1, 2, 3], &Layout::U64), Json::Null);
    assert_eq!(decode_argument(&vec![0; 31], &Layout::Address), Json::Null);
    assert_eq!(decode_argument(&vec![0; 33], &Layout::Address), Json::Null);
    assert_eq!(decode_argument(&vec![3, 72, 105], &vector(Layout::U8)), Json::Null);
    assert_eq!(decode_argument(&vec![1], &Layout::U16), Json::Null);
}

#[test]
fn values_of_another_shape_flatten_to_null() {
    assert_eq!(parse_nested_move_values(&WireValue::U8(1), &Layout::Bool), Json::Null);
    assert_eq!(parse_nested_move_values(&WireValue::Bool(true), &Layout::U64), Json::Null);
    assert_eq!(
        parse_nested_move_values(&WireValue::Tuple(vec![WireValue::U8(1)]), &Layout::U16),
        Json::Null
    );
    assert_eq!(
        parse_nested_move_values(&WireValue::Vector(vec![WireValue::U8(1)]), &Layout::Address),
        Json::Null
    );
    assert_eq!(
        parse_nested_move_values(
            &WireValue::Vector(vec![WireValue::Bool(true)]),
            &vector(Layout::U8)
        ),
        Json::Array(vec![Json::Null])
    );
    assert_eq!(parse_nested_move_values(&WireValue::Address(vec![0; 16]), &Layout::Address), Json::Null);
}

#[test]
fn layouts_are_lowered_to_shapes_the_decoder_reads() {
    assert_eq!(lower(&Layout::U8), WireLayout::U8);
    assert_eq!(lower(&Layout::U16), WireLayout::Tuple(Box::new(WireLayout::U8), 2));
    assert_eq!(lower(&Layout::U32), WireLayout::Tuple(Box::new(WireLayout::U8), 4));
    assert_eq!(lower(&Layout::U256), WireLayout::Tuple(Box::new(WireLayout::U128), 2));
    assert_eq!(lower(&Layout::Address), WireLayout::Tuple(Box::new(WireLayout::U8), 32));
    assert_eq!(
        lower(&vector(Layout::U32)),
        WireLayout::Vector(Box::new(WireLayout::Tuple(Box::new(WireLayout::U8), 4)))
    );
}

#[test]
fn utf8_is_checked_before_bytes_become_text() {
    let bytes = |items: &[u8]| WireValue::Vector(items.iter().map(|b| WireValue::U8(*b)).collect());
    let layout = vector(Layout::U8);
    assert_eq!(parse_nested_move_values(&bytes(&[72, 105]), &layout), text("Hi"));
    assert_eq!(parse_nested_move_values(&bytes(&[0xe2, 0x98, 0x83]), &layout), text("☃"));
    assert_eq!(
        parse_nested_move_values(&bytes(&[0xe2, 0x98]), &layout),
        Json::Array(vec![Json::Unsigned(0xe2), Json::Unsigned(0x98)])
    );
    assert_eq!(parse_nested_move_values(&bytes(&[]), &layout), text(""));
}

#[test]
fn hexadecimal_payloads_take_either_case_and_an_even_length() {
    let with = |hex: &str| {
        parse_event_data(&format!("{{\"transaction\":{{\"payload\":{{\"vec\":[\"{}\"]}}}}}}", hex))
            .unwrap()
    };
    assert_eq!(decode_event_payload(&with("00ff10Ab")), Ok(vec![0x00, 0xff, 0x10, 0xab]));
    assert_eq!(decode_event_payload(&with("")), Ok(vec![]));
    assert_eq!(decode_event_payload(&with("abc")), Err(DecodeError::MalformedHex));
    assert_eq!(decode_event_payload(&with("0x0xab")), Err(DecodeError::MalformedHex));
    assert_eq!(decode_event_payload(&with("é")), Err(DecodeError::MalformedHex));
    assert_eq!(decode_event_payload(&with("a ")), Err(DecodeError::MalformedHex));
}

fn details() -> Json {
    parse_event_data(
        "{\"abi\":{\"exposed_functions\":[\
         {\"name\":\"other\",\"params\":[\"u8\"]},\
         {\"name\":\"transfer\",\"params\":[\"&signer\",\"address\",\"u64\",\"vector<u8>\"]},\
         {\"name\":\"odd\",\"params\":[\"&signer\",\"0x1::coin::Coin\",7,\"bool\"]},\
         {\"name\":\"bare\"}]}}",
    )
    .unwrap()
}

fn transfer_args() -> Vec<Vec<u8>> {
    vec![address_bytes(), 250u64.to_le_bytes().to_vec(), vec![2, 72, 105]]
}

#[test]
fn arguments_are_decoded_against_the_signature() {
    assert_eq!(
        parse_function_args(&details(), &transfer_args(), "transfer"),
        Ok(vec![text(&address_text()), Json::Unsigned(250), text("Hi")])
    );
    assert_eq!(parse_function_args(&details(), &vec![vec![9]], "other"), Ok(vec![Json::Unsigned(9)]));
}

#[test]
fn a_count_mismatch_gives_no_arguments() {
    assert_eq!(parse_function_args(&details(), &vec![vec![1]], "transfer"), Ok(vec![]));
    assert_eq!(parse_function_args(&details(), &vec![], "transfer"), Ok(vec![]));
    assert_eq!(parse_function_args(&details(), &vec![], "other"), Ok(vec![]));
}

#[test]
fn an_argument_that_cannot_be_decoded_is_null() {
    assert_eq!(
        parse_function_args(&details(), &vec![vec![1], vec![2], vec![1]], "odd"),
        Ok(vec![Json::Null, Json::Null, Json::Bool(true)])
    );
    assert_eq!(
        parse_function_args(&details(), &vec![vec![1], vec![2], vec![7]], "odd"),
        Ok(vec![Json::Null, Json::Null, Json::Null])
    );
    let mut args = transfer_args();
    args[1] = vec![1, 2, 3];
    assert_eq!(
        parse_function_args(&details(), &args, "transfer"),
        Ok(vec![text(&address_text()), Json::Null, text("Hi")])
    );
}

#[test]
fn a_description_without_the_function_is_an_error() {
    assert_eq!(
        parse_function_args(&Json::Null, &vec![], "transfer"),
        Err(DecodeError::FunctionDetailsMissing)
    );
    assert_eq!(
        parse_function_args(&parse_event_data("{\"abi\":{}}").unwrap(), &vec![], "transfer"),
        Err(DecodeError::FunctionDetailsMissing)
    );
    assert_eq!(
        parse_function_args(&details(), &vec![], "missing"),
        Err(DecodeError::FunctionNotFound)
    );
    assert_eq!(
        parse_function_args(&details(), &vec![], "bare"),
        Err(DecodeError::ParametersMissing)
    );
}

fn call() -> MultisigTransactionPayload {
    MultisigTransactionPayload::EntryFunction(EntryFunction::new(
        ModuleId { address: "0x1".to_string(), name: "coin".to_string() },
        "transfer".to_string(),
        vec![],
        transfer_args(),
    ))
}

#[test]
fn decoded_arguments_are_attached_to_the_call() {
    let structured =
        parse_event_data("{\"EntryFunction\":{\"function\":\"transfer\",\"ty_args\":[]}}").unwrap();
    let expected = Json::Object(vec![(
        "EntryFunction".to_string(),
        Json::Object(vec![
            ("function".to_string(), text("transfer")),
            ("ty_args".to_string(), Json::Array(vec![])),
            (
                "parsed_args".to_string(),
                Json::Array(vec![text(&address_text()), Json::Unsigned(250), text("Hi")]),
            ),
        ]),
    )]);
    assert_eq!(process_entry_function(&call(), &structured, &details()), Ok(expected));
}

#[test]
fn a_call_that_cannot_be_decoded_is_an_error() {
    let structured = Json::Null;
    assert_eq!(
        process_entry_function(&call(), &structured, &Json::Null),
        Err(DecodeError::FunctionDetailsMissing)
    );
}

#[test]
fn arguments_attach_to_a_call_without_structure() {
    assert_eq!(
        process_entry_function(&call(), &Json::Null, &details()),
        Ok(Json::Object(vec![(
            "EntryFunction".to_string(),
            Json::Object(vec![(
                "parsed_args".to_string(),
                Json::Array(vec![text(&address_text()), Json::Unsigned(250), text("Hi")]),
            )]),
        )]))
    );
}

#[test]
fn the_proposed_call_is_read_from_the_event() {
    let body = parse_event_data("{\"transaction\":{\"payload\":{\"vec\":[\"0x00ff\"]}}}").unwrap();
    assert_eq!(decode_event_payload(&body), Ok(vec![0x00, 0xff]));
    let body = parse_event_data("{\"transaction\":{\"payload\":{\"vec\":[\"00FF\"]}}}").unwrap();
    assert_eq!(decode_event_payload(&body), Ok(vec![0x00, 0xff]));
    let body = parse_event_data("{\"transaction\":{\"payload\":{\"vec\":[]}}}").unwrap();
    assert_eq!(decode_event_payload(&body), Err(DecodeError::MissingField));
    let body = parse_event_data("{\"transaction\":{\"payload\":{\"vec\":[7]}}}").unwrap();
    assert_eq!(decode_event_payload(&body), Err(DecodeError::MissingField));
    let body = parse_event_data("{\"transaction\":{\"payload\":{}}}").unwrap();
    assert_eq!(decode_event_payload(&body), Err(DecodeError::MissingField));
    let body = parse_event_data("{\"transaction\":{\"payload\":{\"vec\":[\"0xzz\"]}}}").unwrap();
    assert_eq!(decode_event_payload(&body), Err(DecodeError::MalformedHex));
    assert_eq!(decode_event_payload(&Json::Null), Err(DecodeError::MissingField));
}

#[test]
fn entry_function_parts_are_handed_out() {
    let entry = EntryFunction::new(
        ModuleId { address: "0x1".to_string(), name: "coin".to_string() },
        "transfer".to_string(),
        vec!["0x1::aptos_coin::AptosCoin".to_string()],
        vec![vec![1], vec![2, 3]],
    );
    assert_eq!(entry.module().name, "coin");
    assert_eq!(entry.function(), "transfer");
    assert_eq!(entry.ty_args(), ["0x1::aptos_coin::AptosCoin".to_string()]);
    assert_eq!(entry.args(), [vec![1u8], vec![2u8, 3u8]]);
    let plain = entry.as_entry_function_payload();
    assert_eq!(plain.account_address, "0x1");
    assert_eq!(plain.module_name, "coin");
    assert_eq!(plain.function_name, "transfer");
    assert_eq!(plain.ty_arg_names, vec!["0x1::aptos_coin::AptosCoin".to_string()]);
    assert_eq!(plain.args, vec![vec![1u8], vec![2u8, 3u8]]);
    let (module, function, ty_args, args) = entry.into_inner();
    assert_eq!(module.address, "0x1");
    assert_eq!(function, "transfer");
    assert_eq!(ty_args.len(), 1);
    assert_eq!(args.len(), 2);
}
