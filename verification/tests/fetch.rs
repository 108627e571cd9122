use multisig_processor::error::DecodeError;
use multisig_processor::fetch::{
    fetch_function_details, request_url, FetchReply, FetchStep, Network,
};
use multisig_processor::json::Json;
use multisig_processor::payload::ModuleId;

fn module() -> ModuleId {
    ModuleId { address: "0x1".to_string(), name: "coin".to_string() }
}

#[test]
fn urls_name_the_account_and_the_module() {
    assert_eq!(
        request_url(Network::Primary, &module()),
        "https://fullnode.mainnet.aptoslabs.com/v1/accounts/0x1/module/coin"
    );
    assert_eq!(
        request_url(Network::Secondary, &module()),
        "https://fullnode.testnet.aptoslabs.com/v1/accounts/0x1/module/coin"
    );
}

#[test]
fn a_missing_module_is_asked_for_on_the_second_network() {
    let reply = FetchReply::Body(
        "{\"message\":\"Module not found\",\"error_code\":\"module_not_found\"}".to_string(),
    );
    assert_eq!(fetch_function_details(Network::Primary, &reply), FetchStep::Ask(Network::Secondary));
}

#[test]
fn the_second_network_has_the_last_word() {
    let text = "{\"error_code\":\"module_not_found\"}";
    let reply = FetchReply::Body(text.to_string());
    let expected = Json::Object(vec![(
        "error_code".to_string(),
        Json::Text("module_not_found".to_string()),
    )]);
    assert_eq!(fetch_function_details(Network::Secondary, &reply), FetchStep::Done(Ok(expected)));
}

#[test]
fn a_description_ends_the_fetch() {
    let reply = FetchReply::Body("{\"abi\":{\"exposed_functions\":[]}}".to_string());
    let expected = Json::Object(vec![(
        "abi".to_string(),
        Json::Object(vec![("exposed_functions".to_string(), Json::Array(vec![]))]),
    )]);
    assert_eq!(fetch_function_details(Network::Primary, &reply), FetchStep::Done(Ok(expected)));
}

#[test]
fn the_mark_must_match_exactly() {
    let reply = FetchReply::Body("{\"error_code\":\"module_not-found\"}".to_string());
    match fetch_function_details(Network::Primary, &reply) {
        FetchStep::Done(Ok(_)) => {},
        other => panic!("unexpected step {:?}", other),
    }
    let reply = FetchReply::Body("{\"error_code\":\"MODULE_NOT_FOUND\"}".to_string());
    match fetch_function_details(Network::Primary, &reply) {
        FetchStep::Done(Ok(_)) => {},
        other => panic!("unexpected step {:?}", other),
    }
}

#[test]
fn failures_end_the_fetch_with_an_error() {
    assert_eq!(
        fetch_function_details(Network::Primary, &FetchReply::Failed),
        FetchStep::Done(Err(DecodeError::Transport))
    );
    assert_eq!(
        fetch_function_details(Network::Primary, &FetchReply::Body("<html>".to_string())),
        FetchStep::Done(Err(DecodeError::MalformedJson))
    );
    assert_eq!(
        fetch_function_details(
            Network::Primary,
            &FetchReply::Body("module_not_found".to_string())
        ),
        FetchStep::Done(Err(DecodeError::MalformedJson))
    );
}
