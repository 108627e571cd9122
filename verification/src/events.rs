//! The wallet state machine: what each resource write and each event of the
//! multisig contract changes in the store.

use vstd::prelude::*;
use vstd::string::*;
use crate::address::{standard_address, standardize_address, strip_marker, without_marker};
use crate::decoder::{
    decode_event_payload, entry_function_json, event_payload, process_entry_function,
};
use crate::error::DecodeError;
use crate::hexcode::{hex_decode, hex_decoded};
use crate::json::{
    field_of, flag_of_json, items_of_json, items_view, lemma_items_view, parse_event_data,
    parsed_json, text_of_json, Json, JsonValue,
};
use crate::models::{
    changes_of, status_code, Change, MembershipRow, MultisigOwner, MultisigTransaction,
    MultisigVotingTransaction, MultisigWallet, Mutation, OwnerRow, OwnersWallet, TransactionPatch,
    TransactionRow, TransactionStatus, TransactionUpdate, VoteRow, WalletRow,
};
use crate::number::{decimal_i32, parse_i32};
use crate::payload::MultisigTransactionPayload;
use crate::text::{chars_of, same_text};

verus! {

/// An event as the chain emitted it: the account it is keyed by, its type
/// and its JSON body.
#[derive(Debug, PartialEq, Eq)]
pub struct Event {
    pub account_address: String,
    pub type_str: String,
    pub data: String,
}

/// A resource as a transaction wrote it: the account that holds it, its type
/// and its JSON body.
#[derive(Debug, PartialEq, Eq)]
pub struct WriteResource {
    pub address: String,
    pub type_str: String,
    pub data: String,
}

/// What the outside world found out about one proposed call: the call, its
/// structured form, and the published description of the called module, or
/// `None` where neither network had it.
#[derive(Debug, PartialEq, Eq)]
pub struct ResolvedPayload {
    pub payload: MultisigTransactionPayload,
    pub structured: Json,
    pub function_details: Option<Json>,
}

/// The events of the multisig contract that change the store.
#[derive(Clone, Copy, Debug, PartialEq, Eq, Structural)]
pub enum EventKind {
    CreateTransaction,
    Vote,
    AddOwners,
    RemoveOwners,
    ExecutionSucceeded,
    ExecutionFailed,
    ExecuteRejected,
    Unrecognized,
}

/// The kind of an event, by exact match of its type.
pub open spec fn event_kind(type_str: Seq<char>) -> EventKind {
    if type_str == "0x1::multisig_account::CreateTransactionEvent"@ {
        EventKind::CreateTransaction
    } else if type_str == "0x1::multisig_account::RemoveOwnersEvent"@ {
        EventKind::RemoveOwners
    } else if type_str == "0x1::multisig_account::AddOwnersEvent"@ {
        EventKind::AddOwners
    } else if type_str == "0x1::multisig_account::TransactionExecutionFailedEvent"@ {
        EventKind::ExecutionFailed
    } else if type_str == "0x1::multisig_account::ExecuteRejectedTransactionEvent"@ {
        EventKind::ExecuteRejected
    } else if type_str == "0x1::multisig_account::TransactionExecutionSucceededEvent"@ {
        EventKind::ExecutionSucceeded
    } else if type_str == "0x1::multisig_account::VoteEvent"@ {
        EventKind::Vote
    } else {
        EventKind::Unrecognized
    }
}

/// Tells the kind of an event from its type.
pub fn classify(type_str: &str) -> (r: EventKind)
    ensures
        r == event_kind(type_str@),
{
    if same_text(type_str, "0x1::multisig_account::CreateTransactionEvent") {
        EventKind::CreateTransaction
    } else if same_text(type_str, "0x1::multisig_account::RemoveOwnersEvent") {
        EventKind::RemoveOwners
    } else if same_text(type_str, "0x1::multisig_account::AddOwnersEvent") {
        EventKind::AddOwners
    } else if same_text(type_str, "0x1::multisig_account::TransactionExecutionFailedEvent") {
        EventKind::ExecutionFailed
    } else if same_text(type_str, "0x1::multisig_account::ExecuteRejectedTransactionEvent") {
        EventKind::ExecuteRejected
    } else if same_text(type_str, "0x1::multisig_account::TransactionExecutionSucceededEvent") {
        EventKind::ExecutionSucceeded
    } else if same_text(type_str, "0x1::multisig_account::VoteEvent") {
        EventKind::Vote
    } else {
        EventKind::Unrecognized
    }
}

/// Whether a result is the given outcome: the same error, or mutations
/// with exactly these values.
pub open spec fn yields(
    r: Result<Vec<Mutation>, DecodeError>,
    expected: Result<Seq<Change>, DecodeError>,
) -> bool {
    match r {
        Ok(mutations) => expected == Ok::<Seq<Change>, DecodeError>(changes_of(mutations@)),
        Err(e) => expected == Err::<Seq<Change>, DecodeError>(e),
    }
}

/// The outcome of a handler that first reads the body as JSON.
pub open spec fn after_parsing(
    data: Seq<char>,
    expected: spec_fn(JsonValue) -> Result<Seq<Change>, DecodeError>,
) -> Result<Seq<Change>, DecodeError> {
    match parsed_json(data) {
        Some(body) => expected(body),
        None => Err(DecodeError::MalformedJson),
    }
}

/// The sequence number in an event's body: a string that writes a 32-bit
/// decimal.
pub open spec fn sequence_number_of(body: JsonValue) -> Result<i32, DecodeError> {
    match body.field("sequence_number"@).as_text() {
        None => Err(DecodeError::MissingField),
        Some(text) => match decimal_i32(text) {
            Some(v) => Ok(v as i32),
            None => Err(DecodeError::InvalidNumber),
        },
    }
}

fn read_sequence_number(body: &Json) -> (r: Result<i32, DecodeError>)
    ensures
        r == sequence_number_of(body@),
{
    match text_of_json(field_of(Some(body), "sequence_number")) {
        None => Err(DecodeError::MissingField),
        Some(text) => {
            let chars = chars_of(text.as_str());
            match parse_i32(&chars) {
                Some(v) => Ok(v),
                None => Err(DecodeError::InvalidNumber),
            }
        },
    }
}

/// The texts of a run of values that are all strings.
pub open spec fn all_texts(items: Seq<JsonValue>) -> Option<Seq<Seq<char>>> {
    if forall|i: int| 0 <= i < items.len() ==> (#[trigger] items[i]) is Text {
        Some(Seq::new(items.len(), |i: int| items[i]->Text_0))
    } else {
        None
    }
}

/// The addresses listed under `key`: an array of strings.
pub open spec fn addresses_under(body: JsonValue, key: Seq<char>) -> Result<
    Seq<Seq<char>>,
    DecodeError,
> {
    match body.field(key).as_array() {
        None => Err(DecodeError::MissingField),
        Some(items) => match all_texts(items) {
            None => Err(DecodeError::MissingField),
            Some(texts) => Ok(texts),
        },
    }
}

fn read_addresses<'a>(body: &'a Json, key: &str) -> (r: Result<Vec<&'a String>, DecodeError>)
    ensures
        match r {
            Ok(texts) => addresses_under(body@, key@) == Ok::<Seq<Seq<char>>, DecodeError>(
                Seq::new(texts.len() as nat, |i: int| texts[i]@),
            ),
            Err(e) => addresses_under(body@, key@) == Err::<Seq<Seq<char>>, DecodeError>(e),
        },
{
    let items = match items_of_json(field_of(Some(body), key)) {
        Some(items) => items,
        None => {
            return Err(DecodeError::MissingField);
        },
    };
    proof {
        lemma_items_view(items@);
    }
    let ghost values = items_view(items@);
    let mut out: Vec<&String> = Vec::new();
    let mut i: usize = 0;
    while i < items.len()
        invariant
            0 <= i <= items.len(),
            values == items_view(items@),
            body@.field(key@).as_array() == Some(values),
            values.len() == items.len(),
            forall|k: int| 0 <= k < items.len() ==> (#[trigger] values[k]) == items[k]@,
            out.len() == i,
            forall|k: int|
                0 <= k < i ==> (#[trigger] values[k]) is Text && out[k]@ == values[k]->Text_0,
        decreases items.len() - i,
    {
        match text_of_json(Some(&items[i])) {
            Some(s) => {
                assert(values[i as int] == JsonValue::Text(s@));
                out.push(s);
            },
            None => {
                assert(!(values[i as int] is Text));
                return Err(DecodeError::MissingField);
            },
        }
        i += 1;
    }
    assert(all_texts(values)->0 =~= Seq::new(out.len() as nat, |i: int| out[i]@));
    Ok(out)
}

/// A vote: the voter's row for the transaction is written, whatever stood
/// there. The voter is kept as the event gives it.
pub open spec fn vote_changes(body: JsonValue, wallet: Seq<char>, timestamp: i64) -> Result<
    Seq<Change>,
    DecodeError,
> {
    match sequence_number_of(body) {
        Err(e) => Err(e),
        Ok(sequence) => match body.field("owner"@).as_text() {
            None => Err(DecodeError::MissingField),
            Some(owner) => match body.field("approved"@).as_bool() {
                None => Err(DecodeError::MissingField),
                Some(approved) => Ok(
                    seq![
                        Change::UpsertVote(
                            VoteRow {
                                wallet_address: standard_address(wallet),
                                transaction_sequence: sequence,
                                voter_address: owner,
                                value: approved,
                                created_at: timestamp,
                            },
                        ),
                    ],
                ),
            },
        },
    }
}

/// Handles a vote event.
pub fn handle_vote_event(event: &Event, timestamp: i64) -> (r: Result<Vec<Mutation>, DecodeError>)
    ensures
        yields(
            r,
            after_parsing(
                event.data@,
                |body: JsonValue| vote_changes(body, event.account_address@, timestamp),
            ),
        ),
{
    let body = match parse_event_data(event.data.as_str()) {
        Ok(body) => body,
        Err(e) => {
            return Err(e);
        },
    };
    let sequence = match read_sequence_number(&body) {
        Ok(n) => n,
        Err(e) => {
            return Err(e);
        },
    };
    let owner = match text_of_json(field_of(Some(&body), "owner")) {
        Some(s) => s,
        None => {
            return Err(DecodeError::MissingField);
        },
    };
    let approved = match flag_of_json(field_of(Some(&body), "approved")) {
        Some(b) => b,
        None => {
            return Err(DecodeError::MissingField);
        },
    };
    let vote = MultisigVotingTransaction {
        wallet_address: standardize_address(event.account_address.as_str()),
        transaction_sequence: sequence,
        voter_address: owner.clone(),
        value: approved,
        created_at: timestamp,
    };
    let mut out: Vec<Mutation> = Vec::new();
    out.push(Mutation::UpsertVote(vote));
    assert(changes_of(out@) =~= seq![out@[0]@]);
    Ok(out)
}

/// Added owners: one membership in the wallet for each listed address, each
/// inserted unless it is already there.
pub open spec fn add_owner_changes(body: JsonValue, wallet: Seq<char>, timestamp: i64) -> Result<
    Seq<Change>,
    DecodeError,
> {
    match addresses_under(body, "owners_added"@) {
        Err(e) => Err(e),
        Ok(owners) => Ok(
            Seq::new(
                owners.len(),
                |i: int|
                    Change::InsertOwnerWallet(
                        MembershipRow {
                            owner_address: owners[i],
                            wallet_address: standard_address(wallet),
                            created_at: timestamp,
                        },
                    ),
            ),
        ),
    }
}

/// Handles an event that adds owners to a wallet.
pub fn handle_add_owners(event: &Event, timestamp: i64) -> (r: Result<Vec<Mutation>, DecodeError>)
    ensures
        yields(
            r,
            after_parsing(
                event.data@,
                |body: JsonValue| add_owner_changes(body, event.account_address@, timestamp),
            ),
        ),
{
    let body = match parse_event_data(event.data.as_str()) {
        Ok(body) => body,
        Err(e) => {
            return Err(e);
        },
    };
    let owners = match read_addresses(&body, "owners_added") {
        Ok(owners) => owners,
        Err(e) => {
            return Err(e);
        },
    };
    let ghost expected = add_owner_changes(body@, event.account_address@, timestamp)->Ok_0;
    let mut out: Vec<Mutation> = Vec::new();
    let mut i: usize = 0;
    while i < owners.len()
        invariant
            0 <= i <= owners.len(),
            expected.len() == owners.len(),
            forall|k: int|
                0 <= k < owners.len() ==> (#[trigger] expected[k]) == Change::InsertOwnerWallet(
                    MembershipRow {
                        owner_address: owners[k]@,
                        wallet_address: standard_address(event.account_address@),
                        created_at: timestamp,
                    },
                ),
            out.len() == i,
            forall|k: int| 0 <= k < i ==> out[k]@ == expected[k],
        decreases owners.len() - i,
    {
        out.push(
            Mutation::InsertOwnerWallet(
                OwnersWallet {
                    owner_address: owners[i].clone(),
                    wallet_address: standardize_address(event.account_address.as_str()),
                    created_at: timestamp,
                },
            ),
        );
        i += 1;
    }
    assert(changes_of(out@) =~= expected);
    Ok(out)
}

/// Removed owners: the membership of each listed address in this wallet is
/// deleted, and nothing else.
pub open spec fn remove_owner_changes(body: JsonValue, wallet: Seq<char>) -> Result<
    Seq<Change>,
    DecodeError,
> {
    match addresses_under(body, "owners_removed"@) {
        Err(e) => Err(e),
        Ok(owners) => Ok(
            Seq::new(
                owners.len(),
                |i: int|
                    Change::RemoveOwnerWallet {
                        owner_address: owners[i],
                        wallet_address: standard_address(wallet),
                    },
            ),
        ),
    }
}

/// Handles an event that removes owners from a wallet.
pub fn handle_remove_owners(event: &Event) -> (r: Result<Vec<Mutation>, DecodeError>)
    ensures
        yields(
            r,
            after_parsing(
                event.data@,
                |body: JsonValue| remove_owner_changes(body, event.account_address@),
            ),
        ),
{
    let body = match parse_event_data(event.data.as_str()) {
        Ok(body) => body,
        Err(e) => {
            return Err(e);
        },
    };
    let owners = match read_addresses(&body, "owners_removed") {
        Ok(owners) => owners,
        Err(e) => {
            return Err(e);
        },
    };
    let ghost expected = remove_owner_changes(body@, event.account_address@)->Ok_0;
    let mut out: Vec<Mutation> = Vec::new();
    let mut i: usize = 0;
    while i < owners.len()
        invariant
            0 <= i <= owners.len(),
            expected.len() == owners.len(),
            forall|k: int|
                0 <= k < owners.len() ==> (#[trigger] expected[k]) == (Change::RemoveOwnerWallet {
                    owner_address: owners[k]@,
                    wallet_address: standard_address(event.account_address@),
                }),
            out.len() == i,
            forall|k: int| 0 <= k < i ==> out[k]@ == expected[k],
        decreases owners.len() - i,
    {
        out.push(
            Mutation::RemoveOwnerWallet {
                owner_address: owners[i].clone(),
                wallet_address: standardize_address(event.account_address.as_str()),
            },
        );
        i += 1;
    }
    assert(changes_of(out@) =~= expected);
    Ok(out)
}

/// The executor named in an event's body, if it names one.
pub open spec fn executor_of(body: JsonValue) -> Option<Seq<char>> {
    body.field("executor"@).as_text()
}

fn read_executor(body: &Json) -> (r: Option<String>)
    ensures
        crate::models::text_view(r) == executor_of(body@),
{
    match text_of_json(field_of(Some(body), "executor")) {
        Some(s) => Some(s.clone()),
        None => None,
    }
}

/// A failed execution: the transaction is marked failed, with its executor,
/// the time, and the error that the event reports.
pub open spec fn failed_changes(body: JsonValue, wallet: Seq<char>, timestamp: i64) -> Result<
    Seq<Change>,
    DecodeError,
> {
    match sequence_number_of(body) {
        Err(e) => Err(e),
        Ok(sequence) => Ok(
            seq![
                Change::UpdateTransaction(
                    TransactionPatch {
                        wallet_address: standard_address(wallet),
                        sequence_number: sequence,
                        status: status_code(TransactionStatus::Failed),
                        executor: executor_of(body),
                        executed_at: Some(timestamp),
                        payload: None,
                        error: Some(body.field("execution_error"@)),
                    },
                ),
            ],
        ),
    }
}

/// Handles the event of an execution that failed.
pub fn handle_transaction_failed_event(event: &Event, timestamp: i64) -> (r: Result<
    Vec<Mutation>,
    DecodeError,
>)
    ensures
        yields(
            r,
            after_parsing(
                event.data@,
                |body: JsonValue| failed_changes(body, event.account_address@, timestamp),
            ),
        ),
{
    let body = match parse_event_data(event.data.as_str()) {
        Ok(body) => body,
        Err(e) => {
            return Err(e);
        },
    };
    let sequence = match read_sequence_number(&body) {
        Ok(n) => n,
        Err(e) => {
            return Err(e);
        },
    };
    let update = TransactionUpdate {
        wallet_address: standardize_address(event.account_address.as_str()),
        sequence_number: sequence,
        status: TransactionStatus::Failed.code(),
        executor: read_executor(&body),
        executed_at: Some(timestamp),
        payload: None,
        error: Some(Json::copy_of(field_of(Some(&body), "execution_error"))),
    };
    let mut out: Vec<Mutation> = Vec::new();
    out.push(Mutation::UpdateTransaction(update));
    assert(changes_of(out@) =~= seq![out@[0]@]);
    Ok(out)
}

/// The text under `transaction_payload`, empty where there is none.
pub open spec fn executed_text(body: JsonValue) -> Seq<char> {
    match body.field("transaction_payload"@).as_text() {
        Some(text) => text,
        None => Seq::empty(),
    }
}

/// The bytes of the executed call, empty where the text is not hexadecimal.
pub open spec fn executed_bytes(body: JsonValue) -> Seq<u8> {
    match hex_decoded(without_marker(executed_text(body))) {
        Some(bytes) => bytes,
        None => Seq::empty(),
    }
}

/// The JSON of a resolved call: the call with its decoded arguments, or
/// `fallback` where the module's description could not be had or used.
pub open spec fn resolved_json(resolved: ResolvedPayload, fallback: JsonValue) -> JsonValue {
    match resolved.function_details {
        Some(details) => match entry_function_json(
            resolved.payload,
            resolved.structured@,
            details@,
        ) {
            Ok(j) => j,
            Err(_) => fallback,
        },
        None => fallback,
    }
}

fn resolve_json(resolved: &ResolvedPayload, fallback: Json) -> (r: Json)
    ensures
        r@ == resolved_json(*resolved, fallback@),
{
    match &resolved.function_details {
        Some(details) => match process_entry_function(
            &resolved.payload,
            &resolved.structured,
            details,
        ) {
            Ok(j) => j,
            Err(_) => fallback,
        },
        None => fallback,
    }
}

/// The payload that a successful execution writes. Where the event carries
/// the bytes of a call and the call was resolved, it is the decoded form, or
/// the empty text where decoding failed. Otherwise it is whatever JSON value
/// the event's text writes, if it writes one that is not null.
pub open spec fn executed_payload(body: JsonValue, resolved: Option<ResolvedPayload>) -> Option<
    JsonValue,
> {
    if executed_bytes(body).len() > 0 && resolved is Some {
        Some(resolved_json(resolved->0, JsonValue::Text(Seq::empty())))
    } else {
        match parsed_json(executed_text(body)) {
            Some(v) => if v is Null {
                None
            } else {
                Some(v)
            },
            None => None,
        }
    }
}

fn read_executed_payload(body: &Json, resolved: Option<&ResolvedPayload>) -> (r: Option<Json>)
    ensures
        crate::models::json_view(r) == executed_payload(
            body@,
            match resolved {
                Some(p) => Some(*p),
                None => None,
            },
        ),
{
    let empty = String::new();
    let text = match text_of_json(field_of(Some(body), "transaction_payload")) {
        Some(s) => s,
        None => &empty,
    };
    assert(text@ =~= executed_text(body@));
    let digits = strip_marker(text.as_str());
    let has_bytes = match hex_decode(digits.as_str()) {
        Some(bytes) => bytes.len() > 0,
        None => false,
    };
    if has_bytes && resolved.is_some() {
        let fallback = Json::Text(String::new());
        Some(resolve_json(resolved.unwrap(), fallback))
    } else {
        match parse_event_data(text.as_str()) {
            Ok(v) => match v {
                Json::Null => None,
                other => Some(other),
            },
            Err(_) => None,
        }
    }
}

/// The end of a transaction without failure: it is marked executed or
/// rejected, with its executor and the time; a successful execution also
/// writes the payload it ran.
pub open spec fn status_changes(
    kind: EventKind,
    body: JsonValue,
    wallet: Seq<char>,
    timestamp: i64,
    resolved: Option<ResolvedPayload>,
) -> Result<Seq<Change>, DecodeError> {
    match sequence_number_of(body) {
        Err(e) => Err(e),
        Ok(sequence) => Ok(
            seq![
                Change::UpdateTransaction(
                    TransactionPatch {
                        wallet_address: standard_address(wallet),
                        sequence_number: sequence,
                        status: if kind == EventKind::ExecuteRejected {
                            status_code(TransactionStatus::Rejected)
                        } else if kind == EventKind::ExecutionSucceeded {
                            status_code(TransactionStatus::Success)
                        } else {
                            status_code(TransactionStatus::Pending)
                        },
                        executor: executor_of(body),
                        executed_at: Some(timestamp),
                        payload: if kind == EventKind::ExecutionSucceeded {
                            executed_payload(body, resolved)
                        } else {
                            None
                        },
                        error: None,
                    },
                ),
            ],
        ),
    }
}

/// Handles the event of an execution that succeeded, or of a rejected
/// transaction that was removed.
pub fn handle_transaction_status_event(
    event: &Event,
    timestamp: i64,
    resolved: Option<&ResolvedPayload>,
) -> (r: Result<Vec<Mutation>, DecodeError>)
    ensures
        yields(
            r,
            after_parsing(
                event.data@,
                |body: JsonValue|
                    status_changes(
                        event_kind(event.type_str@),
                        body,
                        event.account_address@,
                        timestamp,
                        match resolved {
                            Some(p) => Some(*p),
                            None => None,
                        },
                    ),
            ),
        ),
{
    let body = match parse_event_data(event.data.as_str()) {
        Ok(body) => body,
        Err(e) => {
            return Err(e);
        },
    };
    let sequence = match read_sequence_number(&body) {
        Ok(n) => n,
        Err(e) => {
            return Err(e);
        },
    };
    let kind = classify(event.type_str.as_str());
    let status = match kind {
        EventKind::ExecuteRejected => TransactionStatus::Rejected,
        EventKind::ExecutionSucceeded => TransactionStatus::Success,
        _ => TransactionStatus::Pending,
    };
    let payload = match kind {
        EventKind::ExecutionSucceeded => read_executed_payload(&body, resolved),
        _ => None,
    };
    let update = TransactionUpdate {
        wallet_address: standardize_address(event.account_address.as_str()),
        sequence_number: sequence,
        status: status.code(),
        executor: read_executor(&body),
        executed_at: Some(timestamp),
        payload,
        error: None,
    };
    let mut out: Vec<Mutation> = Vec::new();
    out.push(Mutation::UpdateTransaction(update));
    assert(changes_of(out@) =~= seq![out@[0]@]);
    Ok(out)
}

/// The bytes of the call that a creation event proposes, empty where it
/// carries none that can be read.
pub open spec fn proposed_bytes(body: JsonValue) -> Seq<u8> {
    match event_payload(body) {
        Ok(bytes) => bytes,
        Err(_) => Seq::empty(),
    }
}

/// The payload that a creation stores. Where the event carries the bytes of
/// a call and the call was resolved, it is the decoded form, or null where
/// decoding failed. Otherwise it is the payload as the event gives it.
pub open spec fn created_payload(body: JsonValue, resolved: Option<ResolvedPayload>) -> JsonValue {
    if proposed_bytes(body).len() > 0 && resolved is Some {
        resolved_json(resolved->0, JsonValue::Null)
    } else {
        body.field("transaction"@).field("payload"@)
    }
}

fn read_created_payload(body: &Json, resolved: Option<&ResolvedPayload>) -> (r: Json)
    ensures
        r@ == created_payload(
            body@,
            match resolved {
                Some(p) => Some(*p),
                None => None,
            },
        ),
{
    let has_bytes = match decode_event_payload(body) {
        Ok(bytes) => bytes.len() > 0,
        Err(_) => false,
    };
    if has_bytes && resolved.is_some() {
        resolve_json(resolved.unwrap(), Json::Null)
    } else {
        Json::copy_of(field_of(field_of(Some(body), "transaction"), "payload"))
    }
}

/// The address that created the transaction, empty where the event names
/// none.
pub open spec fn creator_of(body: JsonValue) -> Seq<char> {
    match body.field("creator"@).as_text() {
        Some(text) => text,
        None => Seq::empty(),
    }
}

/// The row of a newly proposed transaction: pending, not executed.
pub open spec fn created_row(
    body: JsonValue,
    wallet: Seq<char>,
    sequence: i32,
    timestamp: i64,
    resolved: Option<ResolvedPayload>,
) -> TransactionRow {
    TransactionRow {
        wallet_address: standard_address(wallet),
        initiated_by: creator_of(body),
        sequence_number: sequence,
        payload: created_payload(body, resolved),
        payload_hash: Some(body.field("transaction"@).field("payload_hash"@)),
        status: status_code(TransactionStatus::Pending),
        created_at: timestamp,
        executed_at: None,
        executor: None,
        error: None,
    }
}

/// The voter of the vote that comes with a creation, if the creation
/// carries a vote.
pub open spec fn first_voter(body: JsonValue) -> Option<Seq<char>> {
    match body.field("transaction"@).field("votes"@).field("data"@).as_array() {
        Some(votes) => if votes.len() == 0 {
            None
        } else {
            votes[0].field("key"@).as_text()
        },
        None => None,
    }
}

/// The voter of a vote event.
pub open spec fn voter_of(body: JsonValue) -> Option<Seq<char>> {
    body.field("owner"@).as_text()
}

/// The vote that comes with a creation: that of the first entry of the
/// transaction's votes, which is the creator's; none where the list is
/// empty. The voter is kept as the event gives it, as in a vote event, so
/// that a later vote by the same voter meets the same row.
pub open spec fn initial_vote_changes(
    body: JsonValue,
    wallet: Seq<char>,
    sequence: i32,
    timestamp: i64,
) -> Result<Seq<Change>, DecodeError> {
    match body.field("transaction"@).field("votes"@).field("data"@).as_array() {
        None => Err(DecodeError::MissingField),
        Some(votes) => if votes.len() == 0 {
            Ok(Seq::empty())
        } else {
            match votes[0].field("key"@).as_text() {
                None => Err(DecodeError::MissingField),
                Some(voter) => match votes[0].field("value"@).as_bool() {
                    None => Err(DecodeError::MissingField),
                    Some(value) => Ok(
                        seq![
                            Change::UpsertVote(
                                VoteRow {
                                    wallet_address: standard_address(wallet),
                                    transaction_sequence: sequence,
                                    voter_address: voter,
                                    value,
                                    created_at: timestamp,
                                },
                            ),
                        ],
                    ),
                },
            }
        },
    }
}

/// Reads the vote that comes with a creation.
pub fn process_votes(event: &Event, event_data: &Json, sequence: i32, timestamp: i64) -> (r:
    Result<Vec<Mutation>, DecodeError>)
    ensures
        yields(
            r,
            initial_vote_changes(event_data@, event.account_address@, sequence, timestamp),
        ),
{
    let listed = field_of(field_of(field_of(Some(event_data), "transaction"), "votes"), "data");
    let votes = match items_of_json(listed) {
        Some(votes) => votes,
        None => {
            return Err(DecodeError::MissingField);
        },
    };
    proof {
        lemma_items_view(votes@);
    }
    let mut out: Vec<Mutation> = Vec::new();
    if votes.len() == 0 {
        assert(changes_of(out@) =~= Seq::<Change>::empty());
        return Ok(out);
    }
    let first = &votes[0];
    let voter = match text_of_json(field_of(Some(first), "key")) {
        Some(s) => s,
        None => {
            return Err(DecodeError::MissingField);
        },
    };
    let value = match flag_of_json(field_of(Some(first), "value")) {
        Some(b) => b,
        None => {
            return Err(DecodeError::MissingField);
        },
    };
    out.push(
        Mutation::UpsertVote(
            MultisigVotingTransaction {
                wallet_address: standardize_address(event.account_address.as_str()),
                transaction_sequence: sequence,
                voter_address: voter.clone(),
                value,
                created_at: timestamp,
            },
        ),
    );
    assert(changes_of(out@) =~= seq![out@[0]@]);
    Ok(out)
}

/// A creation: the transaction's row is written as pending, and with it the
/// creator's vote.
pub open spec fn create_changes(
    body: JsonValue,
    wallet: Seq<char>,
    timestamp: i64,
    resolved: Option<ResolvedPayload>,
) -> Result<Seq<Change>, DecodeError> {
    match sequence_number_of(body) {
        Err(e) => Err(e),
        Ok(sequence) => match initial_vote_changes(body, wallet, sequence, timestamp) {
            Err(e) => Err(e),
            Ok(votes) => Ok(
                seq![
                    Change::UpsertTransaction(
                        created_row(body, wallet, sequence, timestamp, resolved),
                    ),
                ] + votes,
            ),
        },
    }
}

/// Handles the event that proposes a transaction.
pub fn handle_create_transaction_event(
    event: &Event,
    timestamp: i64,
    resolved: Option<&ResolvedPayload>,
) -> (r: Result<Vec<Mutation>, DecodeError>)
    ensures
        yields(
            r,
            after_parsing(
                event.data@,
                |body: JsonValue|
                    create_changes(
                        body,
                        event.account_address@,
                        timestamp,
                        match resolved {
                            Some(p) => Some(*p),
                            None => None,
                        },
                    ),
            ),
        ),
{
    let body = match parse_event_data(event.data.as_str()) {
        Ok(body) => body,
        Err(e) => {
            return Err(e);
        },
    };
    let sequence = match read_sequence_number(&body) {
        Ok(n) => n,
        Err(e) => {
            return Err(e);
        },
    };
    let mut votes = match process_votes(event, &body, sequence, timestamp) {
        Ok(votes) => votes,
        Err(e) => {
            return Err(e);
        },
    };
    let empty = String::new();
    let creator = match text_of_json(field_of(Some(&body), "creator")) {
        Some(s) => s,
        None => &empty,
    };
    assert(creator@ =~= creator_of(body@));
    let row = MultisigTransaction {
        wallet_address: standardize_address(event.account_address.as_str()),
        initiated_by: creator.clone(),
        sequence_number: sequence,
        payload: read_created_payload(&body, resolved),
        payload_hash: Some(
            Json::copy_of(field_of(field_of(Some(&body), "transaction"), "payload_hash")),
        ),
        status: TransactionStatus::Pending.code(),
        created_at: timestamp,
        executed_at: None,
        executor: None,
        error: None,
    };
    let ghost vote_changes = changes_of(votes@);
    let mut out: Vec<Mutation> = Vec::new();
    out.push(Mutation::UpsertTransaction(row));
    let ghost head = out@[0]@;
    out.append(&mut votes);
    assert(changes_of(out@) =~= seq![head] + vote_changes);
    Ok(out)
}

/// The type of the resource that holds a multisig wallet's configuration.
pub open spec fn is_wallet_resource(type_str: Seq<char>) -> bool {
    type_str == "0x1::multisig_account::MultisigAccount"@
}

/// The number of signatures that a wallet's configuration requires: a string
/// that writes a 32-bit decimal.
pub open spec fn required_signatures_of(body: JsonValue) -> Result<i32, DecodeError> {
    match body.field("num_signatures_required"@).as_text() {
        None => Err(DecodeError::MissingField),
        Some(text) => match decimal_i32(text) {
            Some(v) => Ok(v as i32),
            None => Err(DecodeError::InvalidNumber),
        },
    }
}

/// The changes that record a wallet's configuration: the wallet itself, then
/// every owner, then every owner's membership in the wallet. The wallet is
/// keyed, in its own row and in the memberships, by the canonical form of
/// the address that holds the resource, which is the form under which the
/// wallet's transactions and votes are keyed; the owners are kept as the
/// resource lists them.
pub open spec fn wallet_rows(
    wallet: Seq<char>,
    required_signatures: i32,
    metadata: JsonValue,
    owners: Seq<Seq<char>>,
    timestamp: i64,
) -> Seq<Change> {
    seq![
        Change::UpsertWallet(
            WalletRow {
                wallet_address: standard_address(wallet),
                required_signatures,
                metadata: Some(metadata),
                created_at: timestamp,
            },
        ),
    ] + Seq::new(
        owners.len(),
        |i: int| Change::UpsertOwner(OwnerRow { owner_address: owners[i], created_at: timestamp }),
    ) + Seq::new(
        owners.len(),
        |i: int|
            Change::InsertOwnerWallet(
                MembershipRow {
                    owner_address: owners[i],
                    wallet_address: standard_address(wallet),
                    created_at: timestamp,
                },
            ),
    )
}

/// What a wallet's configuration, as written on chain, changes.
pub open spec fn wallet_changes(body: JsonValue, wallet: Seq<char>, timestamp: i64) -> Result<
    Seq<Change>,
    DecodeError,
> {
    match required_signatures_of(body) {
        Err(e) => Err(e),
        Ok(required) => match addresses_under(body, "owners"@) {
            Err(e) => Err(e),
            Ok(owners) => Ok(
                wallet_rows(wallet, required, body.field("metadata"@), owners, timestamp),
            ),
        },
    }
}

/// What a resource write changes: nothing, unless it writes a wallet's
/// configuration.
pub open spec fn write_changes(write: WriteResource, timestamp: i64) -> Result<
    Seq<Change>,
    DecodeError,
> {
    if is_wallet_resource(write.type_str@) {
        after_parsing(write.data@, |body: JsonValue| wallet_changes(body, write.address@, timestamp))
    } else {
        Ok(Seq::empty())
    }
}

/// Records a wallet's configuration from the resource that holds it. The
/// wallet's row and its memberships carry the canonical form of the
/// resource's address, not the address as given, so that they meet the rows
/// that the wallet's events write.
pub fn process_write_resource(write_resource: &WriteResource, timestamp: i64) -> (r: Result<
    Vec<Mutation>,
    DecodeError,
>)
    ensures
        yields(r, write_changes(*write_resource, timestamp)),
{
    let mut out: Vec<Mutation> = Vec::new();
    if !same_text(write_resource.type_str.as_str(), "0x1::multisig_account::MultisigAccount") {
        assert(changes_of(out@) =~= Seq::<Change>::empty());
        return Ok(out);
    }
    let body = match parse_event_data(write_resource.data.as_str()) {
        Ok(body) => body,
        Err(e) => {
            return Err(e);
        },
    };
    let required = match text_of_json(field_of(Some(&body), "num_signatures_required")) {
        None => {
            return Err(DecodeError::MissingField);
        },
        Some(text) => {
            let chars = chars_of(text.as_str());
            match parse_i32(&chars) {
                Some(v) => v,
                None => {
                    return Err(DecodeError::InvalidNumber);
                },
            }
        },
    };
    let owners = match read_addresses(&body, "owners") {
        Ok(owners) => owners,
        Err(e) => {
            return Err(e);
        },
    };
    let ghost names = Seq::new(owners.len() as nat, |i: int| owners[i]@);
    let ghost expected = wallet_rows(
        write_resource.address@,
        required,
        body@.field("metadata"@),
        names,
        timestamp,
    );
    out.push(
        Mutation::UpsertWallet(
            MultisigWallet {
                wallet_address: standardize_address(write_resource.address.as_str()),
                required_signatures: required,
                metadata: Some(Json::copy_of(field_of(Some(&body), "metadata"))),
                created_at: timestamp,
            },
        ),
    );
    let n: usize = owners.len();
    let mut i: usize = 0;
    while i < n
        invariant
            0 <= i <= n,
            n == owners.len(),
            names == Seq::new(owners.len() as nat, |i: int| owners[i]@),
            expected == wallet_rows(
                write_resource.address@,
                required,
                body@.field("metadata"@),
                names,
                timestamp,
            ),
            out.len() == 1 + i,
            forall|k: int| 0 <= k < 1 + i ==> out[k]@ == expected[k],
        decreases n - i,
    {
        out.push(
            Mutation::UpsertOwner(
                MultisigOwner { owner_address: owners[i].clone(), created_at: timestamp },
            ),
        );
        i += 1;
    }
    let mut j: usize = 0;
    while j < n
        invariant
            0 <= j <= n,
            n == owners.len(),
            names == Seq::new(owners.len() as nat, |i: int| owners[i]@),
            expected == wallet_rows(
                write_resource.address@,
                required,
                body@.field("metadata"@),
                names,
                timestamp,
            ),
            out.len() == 1 + n + j,
            forall|k: int| 0 <= k < 1 + n + j ==> out[k]@ == expected[k],
        decreases n - j,
    {
        out.push(
            Mutation::InsertOwnerWallet(
                OwnersWallet {
                    owner_address: owners[j].clone(),
                    wallet_address: standardize_address(write_resource.address.as_str()),
                    created_at: timestamp,
                },
            ),
        );
        j += 1;
    }
    assert(changes_of(out@) =~= expected);
    Ok(out)
}

/// A resolution that may be absent, as a value.
pub open spec fn resolution_of(resolved: Option<&ResolvedPayload>) -> Option<ResolvedPayload> {
    match resolved {
        Some(p) => Some(*p),
        None => None,
    }
}

/// What one event changes: the transition of its kind, applied to its body;
/// nothing for an event of any other type.
pub open spec fn event_changes(
    event: Event,
    timestamp: i64,
    resolved: Option<ResolvedPayload>,
) -> Result<Seq<Change>, DecodeError> {
    let wallet = event.account_address@;
    let kind = event_kind(event.type_str@);
    match kind {
        EventKind::Unrecognized => Ok(Seq::empty()),
        EventKind::CreateTransaction => after_parsing(
            event.data@,
            |body: JsonValue| create_changes(body, wallet, timestamp, resolved),
        ),
        EventKind::Vote => after_parsing(
            event.data@,
            |body: JsonValue| vote_changes(body, wallet, timestamp),
        ),
        EventKind::AddOwners => after_parsing(
            event.data@,
            |body: JsonValue| add_owner_changes(body, wallet, timestamp),
        ),
        EventKind::RemoveOwners => after_parsing(
            event.data@,
            |body: JsonValue| remove_owner_changes(body, wallet),
        ),
        EventKind::ExecutionFailed => after_parsing(
            event.data@,
            |body: JsonValue| failed_changes(body, wallet, timestamp),
        ),
        _ => after_parsing(
            event.data@,
            |body: JsonValue| status_changes(kind, body, wallet, timestamp, resolved),
        ),
    }
}

/// Applies the transition of an event's kind.
pub fn handle_event(event: &Event, timestamp: i64, resolved: Option<&ResolvedPayload>) -> (r:
    Result<Vec<Mutation>, DecodeError>)
    ensures
        yields(r, event_changes(*event, timestamp, resolution_of(resolved))),
{
    match classify(event.type_str.as_str()) {
        EventKind::Unrecognized => {
            let out: Vec<Mutation> = Vec::new();
            assert(changes_of(out@) =~= Seq::<Change>::empty());
            Ok(out)
        },
        EventKind::CreateTransaction => handle_create_transaction_event(
            event,
            timestamp,
            resolved,
        ),
        EventKind::Vote => handle_vote_event(event, timestamp),
        EventKind::AddOwners => handle_add_owners(event, timestamp),
        EventKind::RemoveOwners => handle_remove_owners(event),
        EventKind::ExecutionFailed => handle_transaction_failed_event(event, timestamp),
        _ => handle_transaction_status_event(event, timestamp, resolved),
    }
}

/// The bytes of the call that an event carries and that must be resolved
/// before the event is handled: those of a creation or of a successful
/// execution, where there are any.
pub open spec fn requested_payload(event: Event) -> Option<Seq<u8>> {
    let bytes = match parsed_json(event.data@) {
        Some(body) => match event_kind(event.type_str@) {
            EventKind::CreateTransaction => proposed_bytes(body),
            EventKind::ExecutionSucceeded => executed_bytes(body),
            _ => Seq::empty(),
        },
        None => Seq::empty(),
    };
    if bytes.len() > 0 {
        Some(bytes)
    } else {
        None
    }
}

/// Tells which bytes, if any, must be resolved before the event is handled.
pub fn payload_to_resolve(event: &Event) -> (r: Option<Vec<u8>>)
    ensures
        match r {
            Some(bytes) => requested_payload(*event) == Some(bytes@),
            None => requested_payload(*event) is None,
        },
{
    let kind = classify(event.type_str.as_str());
    let body = match parse_event_data(event.data.as_str()) {
        Ok(body) => body,
        Err(_) => {
            return None;
        },
    };
    let bytes = match kind {
        EventKind::CreateTransaction => match decode_event_payload(&body) {
            Ok(bytes) => bytes,
            Err(_) => Vec::new(),
        },
        EventKind::ExecutionSucceeded => {
            let empty = String::new();
            let text = match text_of_json(field_of(Some(&body), "transaction_payload")) {
                Some(s) => s,
                None => &empty,
            };
            assert(text@ =~= executed_text(body@));
            let digits = strip_marker(text.as_str());
            match hex_decode(digits.as_str()) {
                Some(bytes) => bytes,
                None => Vec::new(),
            }
        },
        _ => Vec::new(),
    };
    if bytes.len() > 0 {
        Some(bytes)
    } else {
        None
    }
}

/// What a transaction carries besides its resource writes.
#[derive(Debug, PartialEq, Eq)]
pub enum TransactionData {
    /// The record holds no transaction data.
    Missing,
    /// Anything but a user transaction.
    NotUser,
    /// A user transaction: whether the user's request is there, and the
    /// events it emitted.
    User { has_request: bool, events: Vec<Event> },
}

/// One transaction of a batch. The time is in seconds since the epoch.
#[derive(Debug, PartialEq, Eq)]
pub struct Transaction {
    pub version: u64,
    pub timestamp: i64,
    pub data: TransactionData,
    pub changes: Vec<WriteResource>,
}

/// The changes of an outcome: none for one that failed to decode.
pub open spec fn effect(outcome: Result<Seq<Change>, DecodeError>) -> Seq<Change> {
    match outcome {
        Ok(changes) => changes,
        Err(_) => Seq::empty(),
    }
}

/// The changes of a run of resource writes, in order; a write that cannot be
/// decoded is passed over.
pub open spec fn writes_changes(writes: Seq<WriteResource>, timestamp: i64) -> Seq<Change>
    decreases writes.len(),
{
    if writes.len() == 0 {
        Seq::empty()
    } else {
        writes_changes(writes.drop_last(), timestamp) + effect(
            write_changes(writes.last(), timestamp),
        )
    }
}

/// The resolution for the event at `index`: none where the list is shorter.
pub open spec fn resolution_at(resolutions: Seq<Option<ResolvedPayload>>, index: int) -> Option<
    ResolvedPayload,
> {
    if 0 <= index < resolutions.len() {
        resolutions[index]
    } else {
        None
    }
}

/// The changes of a run of events, in order; an event that cannot be decoded
/// is passed over.
pub open spec fn events_changes(
    events: Seq<Event>,
    timestamp: i64,
    resolutions: Seq<Option<ResolvedPayload>>,
) -> Seq<Change>
    decreases events.len(),
{
    if events.len() == 0 {
        Seq::empty()
    } else {
        events_changes(events.drop_last(), timestamp, resolutions) + effect(
            event_changes(
                events.last(),
                timestamp,
                resolution_at(resolutions, events.len() - 1),
            ),
        )
    }
}

/// The changes of one transaction: those of its resource writes, then those
/// of its events. Only a user transaction with its request changes anything;
/// one without its request is passed over.
pub open spec fn transaction_changes(
    txn: Transaction,
    resolutions: Seq<Option<ResolvedPayload>>,
) -> Seq<Change> {
    match txn.data {
        TransactionData::User { has_request, events } => if has_request {
            writes_changes(txn.changes@, txn.timestamp) + events_changes(
                events@,
                txn.timestamp,
                resolutions,
            )
        } else {
            Seq::empty()
        },
        _ => Seq::empty(),
    }
}

/// The values of mutations that were put one run after another.
pub proof fn changes_of_concat(a: Seq<Mutation>, b: Seq<Mutation>)
    ensures
        changes_of(a + b) == changes_of(a) + changes_of(b),
{
    assert(changes_of(a + b) =~= changes_of(a) + changes_of(b));
}

/// The part of a transaction that could not be decoded: a resource write or
/// an event, by its position.
#[derive(Clone, Copy, Debug, PartialEq, Eq, Structural)]
pub enum Place {
    Write(usize),
    Event(usize),
}

/// A resource write or an event that was passed over, and why.
#[derive(Clone, Copy, Debug, PartialEq, Eq, Structural)]
pub struct DecodeFailure {
    pub version: u64,
    pub place: Place,
    pub error: DecodeError,
}

/// The failure that an outcome reports, if it is one.
pub open spec fn failure_of(
    outcome: Result<Seq<Change>, DecodeError>,
    version: u64,
    place: Place,
) -> Seq<DecodeFailure> {
    match outcome {
        Ok(_) => Seq::empty(),
        Err(error) => seq![DecodeFailure { version, place, error }],
    }
}

/// The resource writes of a run that could not be decoded, in order.
pub open spec fn writes_failures(writes: Seq<WriteResource>, timestamp: i64, version: u64) -> Seq<
    DecodeFailure,
>
    decreases writes.len(),
{
    if writes.len() == 0 {
        Seq::empty()
    } else {
        writes_failures(writes.drop_last(), timestamp, version) + failure_of(
            write_changes(writes.last(), timestamp),
            version,
            Place::Write((writes.len() - 1) as usize),
        )
    }
}

/// The events of a run that could not be decoded, in order.
pub open spec fn events_failures(
    events: Seq<Event>,
    timestamp: i64,
    version: u64,
    resolutions: Seq<Option<ResolvedPayload>>,
) -> Seq<DecodeFailure>
    decreases events.len(),
{
    if events.len() == 0 {
        Seq::empty()
    } else {
        events_failures(events.drop_last(), timestamp, version, resolutions) + failure_of(
            event_changes(
                events.last(),
                timestamp,
                resolution_at(resolutions, events.len() - 1),
            ),
            version,
            Place::Event((events.len() - 1) as usize),
        )
    }
}

/// What could not be decoded in one transaction: first among its resource
/// writes, then among its events.
pub open spec fn transaction_failures(
    txn: Transaction,
    resolutions: Seq<Option<ResolvedPayload>>,
) -> Seq<DecodeFailure> {
    match txn.data {
        TransactionData::User { has_request, events } => if has_request {
            writes_failures(txn.changes@, txn.timestamp, txn.version) + events_failures(
                events@,
                txn.timestamp,
                txn.version,
                resolutions,
            )
        } else {
            Seq::empty()
        },
        _ => Seq::empty(),
    }
}

/// What one transaction comes to: the changes to make, in order, and what
/// was passed over.
#[derive(Debug, PartialEq, Eq)]
pub struct Processed {
    pub mutations: Vec<Mutation>,
    pub failures: Vec<DecodeFailure>,
}

/// Works out everything that one transaction changes.
pub fn process_transaction(txn: &Transaction, resolutions: &Vec<Option<ResolvedPayload>>) -> (r:
    Processed)
    ensures
        changes_of(r.mutations@) == transaction_changes(*txn, resolutions@),
        r.failures@ == transaction_failures(*txn, resolutions@),
{
    let mut out: Vec<Mutation> = Vec::new();
    let mut failures: Vec<DecodeFailure> = Vec::new();
    assert(changes_of(out@) =~= Seq::<Change>::empty());
    let events = match &txn.data {
        TransactionData::User { has_request, events } => {
            if !*has_request {
                return Processed { mutations: out, failures };
            }
            events
        },
        _ => {
            return Processed { mutations: out, failures };
        },
    };
    let timestamp = txn.timestamp;
    let version = txn.version;
    let mut i: usize = 0;
    while i < txn.changes.len()
        invariant
            0 <= i <= txn.changes.len(),
            changes_of(out@) == writes_changes(txn.changes@.take(i as int), timestamp),
            failures@ == writes_failures(txn.changes@.take(i as int), timestamp, version),
        decreases txn.changes.len() - i,
    {
        proof {
            assert(txn.changes@.take(i + 1).drop_last() =~= txn.changes@.take(i as int));
        }
        match process_write_resource(&txn.changes[i], timestamp) {
            Ok(mut mutations) => {
                proof {
                    changes_of_concat(out@, mutations@);
                    assert(failures@ + Seq::<DecodeFailure>::empty() =~= failures@);
                }
                out.append(&mut mutations);
            },
            Err(error) => {
                assert(changes_of(out@) + Seq::<Change>::empty() =~= changes_of(out@));
                let ghost before = failures@;
                failures.push(DecodeFailure { version, place: Place::Write(i), error });
                assert(failures@ =~= before + seq![
                    DecodeFailure { version, place: Place::Write(i), error },
                ]);
            },
        }
        i += 1;
    }
    assert(txn.changes@.take(i as int) =~= txn.changes@);
    let ghost written = changes_of(out@);
    let ghost unwritten = failures@;
    let mut j: usize = 0;
    assert(written + Seq::<Change>::empty() =~= written);
    assert(unwritten + Seq::<DecodeFailure>::empty() =~= unwritten);
    while j < events.len()
        invariant
            0 <= j <= events.len(),
            changes_of(out@) == written + events_changes(
                events@.take(j as int),
                timestamp,
                resolutions@,
            ),
            failures@ == unwritten + events_failures(
                events@.take(j as int),
                timestamp,
                version,
                resolutions@,
            ),
        decreases events.len() - j,
    {
        proof {
            assert(events@.take(j + 1).drop_last() =~= events@.take(j as int));
        }
        let resolved = if j < resolutions.len() {
            match &resolutions[j] {
                Some(p) => Some(p),
                None => None,
            }
        } else {
            None
        };
        let ghost before = events_changes(events@.take(j as int), timestamp, resolutions@);
        let ghost failed = events_failures(
            events@.take(j as int),
            timestamp,
            version,
            resolutions@,
        );
        match handle_event(&events[j], timestamp, resolved) {
            Ok(mut mutations) => {
                proof {
                    changes_of_concat(out@, mutations@);
                    assert((written + before) + changes_of(mutations@) =~= written + (before
                        + changes_of(mutations@)));
                    assert(failed + Seq::<DecodeFailure>::empty() =~= failed);
                }
                out.append(&mut mutations);
            },
            Err(error) => {
                assert(before + Seq::<Change>::empty() =~= before);
                failures.push(DecodeFailure { version, place: Place::Event(j), error });
                assert(failures@ =~= unwritten + (failed + seq![
                    DecodeFailure { version, place: Place::Event(j), error },
                ]));
            },
        }
        j += 1;
    }
    assert(events@.take(j as int) =~= events@);
    Processed { mutations: out, failures }
}

/// The resolutions for the transaction at `index`: none where the list is
/// shorter.
pub open spec fn resolutions_at(
    resolutions: Seq<Vec<Option<ResolvedPayload>>>,
    index: int,
) -> Seq<Option<ResolvedPayload>> {
    if 0 <= index < resolutions.len() {
        resolutions[index]@
    } else {
        Seq::empty()
    }
}

/// The changes of a batch: those of its transactions, in order.
pub open spec fn batch_changes(
    transactions: Seq<Transaction>,
    resolutions: Seq<Vec<Option<ResolvedPayload>>>,
) -> Seq<Change>
    decreases transactions.len(),
{
    if transactions.len() == 0 {
        Seq::empty()
    } else {
        batch_changes(transactions.drop_last(), resolutions) + transaction_changes(
            transactions.last(),
            resolutions_at(resolutions, transactions.len() - 1),
        )
    }
}

/// What could not be decoded in a batch, transaction by transaction.
pub open spec fn batch_failures(
    transactions: Seq<Transaction>,
    resolutions: Seq<Vec<Option<ResolvedPayload>>>,
) -> Seq<DecodeFailure>
    decreases transactions.len(),
{
    if transactions.len() == 0 {
        Seq::empty()
    } else {
        batch_failures(transactions.drop_last(), resolutions) + transaction_failures(
            transactions.last(),
            resolutions_at(resolutions, transactions.len() - 1),
        )
    }
}

/// The transaction is of unknown type: it carries no data, or is no user
/// transaction.
pub open spec fn is_unknown(txn: Transaction) -> bool {
    txn.data is Missing || txn.data is NotUser
}

/// The number of transactions of a batch that are of unknown type.
pub open spec fn skipped_transactions(transactions: Seq<Transaction>) -> nat
    decreases transactions.len(),
{
    if transactions.len() == 0 {
        0
    } else if is_unknown(transactions.last()) {
        skipped_transactions(transactions.drop_last()) + 1
    } else {
        skipped_transactions(transactions.drop_last())
    }
}

/// What the processing of a batch reports back.
#[derive(Clone, Copy, Debug, PartialEq, Eq)]
pub struct ProcessingResult {
    pub start_version: u64,
    pub end_version: u64,
    /// The time of the last transaction of the batch, if it has one.
    pub last_transaction_timestamp: Option<i64>,
}

/// A processed batch: what to write, in order, what to report, and what was
/// passed over.
#[derive(Debug, PartialEq, Eq)]
pub struct Batch {
    pub mutations: Vec<Mutation>,
    pub result: ProcessingResult,
    /// The resource writes and events that could not be decoded.
    pub failures: Vec<DecodeFailure>,
    /// The number of transactions of unknown type: those that carry no data
    /// and those that are no user transactions. A user transaction without
    /// its request is passed over without being counted.
    pub skipped_transactions: usize,
}

fn is_of_unknown_type(txn: &Transaction) -> (r: bool)
    ensures
        r == is_unknown(*txn),
{
    match &txn.data {
        TransactionData::User { .. } => false,
        _ => true,
    }
}

/// Works out everything that a batch of transactions changes, in arrival
/// order, and the summary of the batch.
pub fn process_transactions(
    transactions: &Vec<Transaction>,
    resolutions: &Vec<Vec<Option<ResolvedPayload>>>,
    start_version: u64,
    end_version: u64,
) -> (r: Batch)
    ensures
        changes_of(r.mutations@) == batch_changes(transactions@, resolutions@),
        r.failures@ == batch_failures(transactions@, resolutions@),
        r.skipped_transactions == skipped_transactions(transactions@),
        r.result.start_version == start_version,
        r.result.end_version == end_version,
        r.result.last_transaction_timestamp == if transactions.len() == 0 {
            None
        } else {
            Some(transactions@.last().timestamp)
        },
{
    let mut out: Vec<Mutation> = Vec::new();
    let mut failures: Vec<DecodeFailure> = Vec::new();
    let mut skipped: usize = 0;
    assert(changes_of(out@) =~= Seq::<Change>::empty());
    let nothing: Vec<Option<ResolvedPayload>> = Vec::new();
    let mut i: usize = 0;
    while i < transactions.len()
        invariant
            0 <= i <= transactions.len(),
            nothing@.len() == 0,
            changes_of(out@) == batch_changes(transactions@.take(i as int), resolutions@),
            failures@ == batch_failures(transactions@.take(i as int), resolutions@),
            skipped == skipped_transactions(transactions@.take(i as int)),
            skipped <= i,
        decreases transactions.len() - i,
    {
        proof {
            assert(transactions@.take(i + 1).drop_last() =~= transactions@.take(i as int));
        }
        let given = if i < resolutions.len() {
            &resolutions[i]
        } else {
            &nothing
        };
        assert(given@ =~= resolutions_at(resolutions@, i as int));
        if is_of_unknown_type(&transactions[i]) {
            skipped += 1;
        }
        let mut done = process_transaction(&transactions[i], given);
        proof {
            changes_of_concat(out@, done.mutations@);
        }
        out.append(&mut done.mutations);
        failures.append(&mut done.failures);
        i += 1;
    }
    assert(transactions@.take(i as int) =~= transactions@);
    let last = if transactions.len() == 0 {
        None
    } else {
        Some(transactions[transactions.len() - 1].timestamp)
    };
    Batch {
        mutations: out,
        result: ProcessingResult {
            start_version,
            end_version,
            last_transaction_timestamp: last,
        },
        failures,
        skipped_transactions: skipped,
    }
}

} // verus!
