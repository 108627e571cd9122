use ahash::AHashMap;
use multisig_processor::address::standardize_address;
use multisig_processor::events::{
    process_transactions, Event, ResolvedPayload, Transaction, TransactionData, WriteResource,
};
use multisig_processor::json::{parse_event_data, Json};
use multisig_processor::memory::MemoryStore;
use multisig_processor::models::{
    MultisigOwner, MultisigTransaction, MultisigVotingTransaction, MultisigWallet, Mutation,
    OwnersWallet, TransactionStatus, TransactionUpdate,
};
use multisig_processor::payload::{EntryFunction, ModuleId, MultisigTransactionPayload};
use multisig_processor::processor::{MultisigProcessor, PoolState};

const CREATE: &str = "0x1::multisig_account::CreateTransactionEvent";
const VOTE: &str = "0x1::multisig_account::VoteEvent";
const ADD: &str = "0x1::multisig_account::AddOwnersEvent";
const REMOVE: &str = "0x1::multisig_account::RemoveOwnersEvent";
const SUCCEEDED: &str = "0x1::multisig_account::TransactionExecutionSucceededEvent";
const FAILED: &str = "0x1::multisig_account::TransactionExecutionFailedEvent";
const ACCOUNT: &str = "0x1::multisig_account::MultisigAccount";

fn event(wallet: &str, type_str: &str, data: &str) -> Event {
    Event {
        account_address: wallet.to_string(),
        type_str: type_str.to_string(),
        data: data.to_string(),
    }
}

fn text(s: &str) -> Json {
    Json::Text(s.to_string())
}

fn user(timestamp: i64, changes: Vec<WriteResource>, events: Vec<Event>) -> Transaction {
    Transaction {
        version: timestamp as u64,
        timestamp,
        data: TransactionData::User { has_request: true, events },
        changes,
    }
}

fn account(wallet: &str, required: &str, owners: &[&str]) -> WriteResource {
    let owners: Vec<String> = owners.iter().map(|o| format!("\"{}\"", o)).collect();
    WriteResource {
        address: wallet.to_string(),
        type_str: ACCOUNT.to_string(),
        data: format!(
            "{{\"num_signatures_required\":\"{}\",\"metadata\":{{\"name\":\"team\"}},\"owners\":[{}]}}",
            required,
            owners.join(",")
        ),
    }
}

fn resolved() -> ResolvedPayload {
    ResolvedPayload {
        payload: MultisigTransactionPayload::EntryFunction(EntryFunction::new(
            ModuleId { address: "0x1".to_string(), name: "coin".to_string() },
            "set".to_string(),
            vec![],
            vec![vec![7]],
        )),
        structured: parse_event_data("{\"EntryFunction\":{\"function\":\"set\"}}").unwrap(),
        function_details: Some(
            parse_event_data(
                "{\"abi\":{\"exposed_functions\":[{\"name\":\"set\",\"params\":[\"u8\"]}]}}",
            )
            .unwrap(),
        ),
    }
}

fn decoded_call() -> Json {
    Json::Object(vec![(
        "EntryFunction".to_string(),
        Json::Object(vec![
            ("function".to_string(), text("set")),
            ("parsed_args".to_string(), Json::Array(vec![Json::Unsigned(7)])),
        ]),
    )])
}

fn batch() -> (Vec<Transaction>, Vec<Vec<Option<ResolvedPayload>>>) {
    let create = "{\"sequence_number\":\"3\",\"creator\":\"0xA1\",\"transaction\":{\
                  \"payload\":{\"vec\":[\"0x00ab\"]},\"payload_hash\":{\"vec\":[]},\
                  \"votes\":{\"data\":[{\"key\":\"0xA1\",\"value\":true}]}}}";
    let vote = "{\"sequence_number\":\"3\",\"owner\":\"0xB2\",\"approved\":false}";
    let revote = "{\"sequence_number\":\"3\",\"owner\":\"0xB2\",\"approved\":true}";
    let executed = "{\"sequence_number\":\"3\",\"executor\":\"0xB2\",\
                    \"transaction_payload\":\"0x00ab\"}";
    let transactions = vec![
        user(100, vec![account("0xW", "2", &["0xA1", "0xB2", "0xC3"])], vec![]),
        user(
            110,
            vec![],
            vec![
                event("0xW", CREATE, create),
                event("0xW", VOTE, vote),
                event("0xW", REMOVE, "{\"owners_removed\":[\"0xC3\"]}"),
                event("0xW", ADD, "{\"owners_added\":[\"0xD4\"]}"),
            ],
        ),
        user(
            120,
            vec![account("0xW", "1", &["0xA1", "0xB2", "0xD4"])],
            vec![event("0xW", VOTE, revote), event("0xW", SUCCEEDED, executed)],
        ),
    ];
    let resolutions =
        vec![vec![], vec![Some(resolved())], vec![None, Some(resolved())]];
    (transactions, resolutions)
}

fn mutations_of_batch() -> Vec<Mutation> {
    let (transactions, resolutions) = batch();
    process_transactions(&transactions, &resolutions, 100, 120).mutations
}

fn snapshot(store: &MemoryStore) -> String {
    let wallet = standardize_address("0xW");
    let mut out = format!("rows={}\n", store.row_count());
    out += &format!("{:?}\n", store.wallet(&wallet));
    for owner in ["0xA1", "0xB2", "0xC3", "0xD4"] {
        out += &format!("{:?}\n", store.owner(owner));
        out += &format!("{:?}\n", store.membership(owner, &wallet));
        out += &format!("{:?}\n", store.vote(&wallet, 3, owner));
    }
    out += &format!("{:?}\n", store.transaction(&wallet, 3));
    out
}

#[test]
fn a_wallet_write_leaves_one_row_per_owner_and_membership() {
    let wallet = standardize_address("0xW");
    let (transactions, _) = batch();
    let done = process_transactions(&transactions[..1].to_vec_by_copy(), &vec![], 100, 100);
    let mut store = MemoryStore::new();
    store.apply_all(done.mutations);
    assert_eq!(store.row_count(), 7);
    assert_eq!(
        store.wallet(&wallet),
        Some(&MultisigWallet {
            wallet_address: wallet.clone(),
            required_signatures: 2,
            metadata: Some(Json::Object(vec![("name".to_string(), text("team"))])),
            created_at: 100,
        })
    );
    for owner in ["0xA1", "0xB2", "0xC3"] {
        assert_eq!(
            store.owner(owner),
            Some(&MultisigOwner { owner_address: owner.to_string(), created_at: 100 })
        );
        assert_eq!(
            store.membership(owner, &wallet),
            Some(&OwnersWallet {
                owner_address: owner.to_string(),
                wallet_address: wallet.clone(),
                created_at: 100,
            })
        );
    }
    assert_eq!(store.owner("0xD4"), None);
    assert_eq!(store.membership("0xD4", &wallet), None);
}

trait CopyTransactions {
    fn to_vec_by_copy(&self) -> Vec<Transaction>;
}

impl CopyTransactions for [Transaction] {
    fn to_vec_by_copy(&self) -> Vec<Transaction> {
        self.iter()
            .map(|t| Transaction {
                version: t.version,
                timestamp: t.timestamp,
                data: match &t.data {
                    TransactionData::Missing => TransactionData::Missing,
                    TransactionData::NotUser => TransactionData::NotUser,
                    TransactionData::User { has_request, events } => TransactionData::User {
                        has_request: *has_request,
                        events: events
                            .iter()
                            .map(|e| Event {
                                account_address: e.account_address.clone(),
                                type_str: e.type_str.clone(),
                                data: e.data.clone(),
                            })
                            .collect(),
                    },
                },
                changes: t
                    .changes
                    .iter()
                    .map(|w| WriteResource {
                        address: w.address.clone(),
                        type_str: w.type_str.clone(),
                        data: w.data.clone(),
                    })
                    .collect(),
            })
            .collect()
    }
}

#[test]
fn the_whole_batch_ends_in_the_expected_state() {
    let wallet = standardize_address("0xW");
    let mut store = MemoryStore::new();
    store.apply_all(mutations_of_batch());
    assert_eq!(
        store.wallet(&wallet),
        Some(&MultisigWallet {
            wallet_address: wallet.clone(),
            required_signatures: 1,
            metadata: Some(Json::Object(vec![("name".to_string(), text("team"))])),
            created_at: 120,
        })
    );
    assert_eq!(store.owner("0xC3").map(|o| o.created_at), Some(100));
    assert_eq!(store.owner("0xA1").map(|o| o.created_at), Some(120));
    assert_eq!(store.owner("0xD4").map(|o| o.created_at), Some(120));
    assert_eq!(store.membership("0xC3", &wallet), None);
    assert_eq!(store.membership("0xA1", &wallet).map(|m| m.created_at), Some(100));
    assert_eq!(store.membership("0xD4", &wallet).map(|m| m.created_at), Some(110));
    assert_eq!(
        store.transaction(&wallet, 3),
        Some(&MultisigTransaction {
            wallet_address: wallet.clone(),
            initiated_by: "0xA1".to_string(),
            sequence_number: 3,
            payload: decoded_call(),
            payload_hash: Some(Json::Object(vec![("vec".to_string(), Json::Array(vec![]))])),
            status: TransactionStatus::Success.code(),
            created_at: 110,
            executed_at: Some(120),
            executor: Some("0xB2".to_string()),
            error: None,
        })
    );
    assert_eq!(store.vote(&wallet, 3, "0xB2").map(|v| (v.value, v.created_at)), Some((true, 120)));
    assert_eq!(
        store.vote(&wallet, 3, "0xA1").map(|v| (v.value, v.created_at)),
        Some((true, 110))
    );
    assert_eq!(store.row_count(), 1 + 4 + 3 + 1 + 2);
}

#[test]
fn processing_a_batch_twice_changes_nothing() {
    let mut store = MemoryStore::new();
    store.apply_all(mutations_of_batch());
    let once = snapshot(&store);
    store.apply_all(mutations_of_batch());
    assert_eq!(snapshot(&store), once);
    store.apply_all(mutations_of_batch());
    assert_eq!(snapshot(&store), once);
}

#[test]
fn processing_is_the_same_through_the_processor() {
    let (transactions, resolutions) = batch();
    let mut sizes: AHashMap<String, usize> = AHashMap::new();
    sizes.insert("multisig_votes".to_string(), 5);
    let processor =
        MultisigProcessor::new(PoolState { connections: 4, idle_connections: 1 }, sizes);
    assert_eq!(processor.chunk_size("multisig_owners", 2), 16383);
    assert_eq!(processor.name(), "multisig_processor");
    assert_eq!(processor.connection_pool().connections, 4);
    assert_eq!(processor.chunk_size("multisig_votes", 5), 5);
    let done = processor.process_transactions(&transactions, &resolutions, 100, 120);
    assert_eq!(done.mutations, mutations_of_batch());
    assert_eq!(done.result.last_transaction_timestamp, Some(120));
}

#[test]
fn creation_then_success_leaves_one_executed_row() {
    let wallet = standardize_address("0xW");
    let create = "{\"sequence_number\":\"9\",\"creator\":\"0xA1\",\"transaction\":{\
                  \"payload\":{\"vec\":[\"0x00ab\"]},\"votes\":{\"data\":[]}}}";
    let executed = "{\"sequence_number\":\"9\",\"executor\":\"0xE\",\
                    \"transaction_payload\":\"0x00ab\"}";
    let mut store = MemoryStore::new();
    let first = process_transactions(
        &vec![user(10, vec![], vec![event("0xW", CREATE, create)])],
        &vec![vec![None]],
        1,
        1,
    );
    store.apply_all(first.mutations);
    let row = store.transaction(&wallet, 9).unwrap();
    assert_eq!(row.status, TransactionStatus::Pending.code());
    assert_eq!(row.executor, None);
    assert_eq!(row.executed_at, None);
    assert_eq!(row.payload, Json::Object(vec![("vec".to_string(), Json::Array(vec![text("0x00ab")]))]));
    let second = process_transactions(
        &vec![user(20, vec![], vec![event("0xW", SUCCEEDED, executed)])],
        &vec![vec![Some(resolved())]],
        2,
        2,
    );
    store.apply_all(second.mutations);
    assert_eq!(store.row_count(), 1);
    let row = store.transaction(&wallet, 9).unwrap();
    assert_eq!(row.status, TransactionStatus::Success.code());
    assert_eq!(row.executor, Some("0xE".to_string()));
    assert_eq!(row.executed_at, Some(20));
    assert_eq!(row.created_at, 10);
    assert_eq!(row.initiated_by, "0xA1");
    assert_eq!(row.payload, decoded_call());
}

#[test]
fn a_later_vote_by_the_creator_replaces_the_vote_of_the_creation() {
    let wallet = standardize_address("0xb0b");
    let create = "{\"sequence_number\":\"3\",\"creator\":\"0xA1\",\"transaction\":{\
                  \"payload\":{\"vec\":[]},\
                  \"votes\":{\"data\":[{\"key\":\"0xA1\",\"value\":true}]}}}";
    let vote = "{\"sequence_number\":\"3\",\"owner\":\"0xA1\",\"approved\":false}";
    let mut store = MemoryStore::new();
    let created = process_transactions(
        &vec![user(100, vec![], vec![event("0xb0b", CREATE, create)])],
        &vec![],
        1,
        1,
    );
    store.apply_all(created.mutations);
    assert_eq!(store.row_count(), 2);
    assert_eq!(
        store.vote(&wallet, 3, "0xA1"),
        Some(&MultisigVotingTransaction {
            wallet_address: wallet.clone(),
            transaction_sequence: 3,
            voter_address: "0xA1".to_string(),
            value: true,
            created_at: 100,
        })
    );
    assert_eq!(store.vote(&wallet, 3, &standardize_address("0xA1")), None);
    let voted = process_transactions(
        &vec![user(200, vec![], vec![event("0xb0b", VOTE, vote)])],
        &vec![],
        2,
        2,
    );
    store.apply_all(voted.mutations);
    assert_eq!(store.row_count(), 2);
    assert_eq!(
        store.vote(&wallet, 3, "0xA1"),
        Some(&MultisigVotingTransaction {
            wallet_address: wallet.clone(),
            transaction_sequence: 3,
            voter_address: "0xA1".to_string(),
            value: false,
            created_at: 200,
        })
    );
    assert_eq!(store.vote(&wallet, 3, &standardize_address("0xA1")), None);
}

#[test]
fn creation_and_vote_in_one_batch_leave_one_vote() {
    let wallet = standardize_address("0xb0b");
    let create = "{\"sequence_number\":\"3\",\"creator\":\"0xA1\",\"transaction\":{\
                  \"votes\":{\"data\":[{\"key\":\"0xA1\",\"value\":true}]}}}";
    let vote = "{\"sequence_number\":\"3\",\"owner\":\"0xA1\",\"approved\":false}";
    let done = process_transactions(
        &vec![user(
            100,
            vec![],
            vec![event("0xb0b", CREATE, create), event("0xb0b", VOTE, vote)],
        )],
        &vec![],
        1,
        1,
    );
    let mut store = MemoryStore::new();
    store.apply_all(done.mutations);
    assert_eq!(store.row_count(), 2);
    assert_eq!(store.vote(&wallet, 3, "0xA1").map(|v| v.value), Some(false));
}

#[test]
fn a_second_vote_overwrites_the_first() {
    let wallet = standardize_address("0xW");
    let mut store = MemoryStore::new();
    store.apply(Mutation::UpsertVote(MultisigVotingTransaction {
        wallet_address: wallet.clone(),
        transaction_sequence: 3,
        voter_address: "0xB2".to_string(),
        value: false,
        created_at: 1,
    }));
    store.apply(Mutation::UpsertVote(MultisigVotingTransaction {
        wallet_address: wallet.clone(),
        transaction_sequence: 3,
        voter_address: "0xC3".to_string(),
        value: false,
        created_at: 1,
    }));
    assert_eq!(store.row_count(), 2);
    store.apply(Mutation::UpsertVote(MultisigVotingTransaction {
        wallet_address: wallet.clone(),
        transaction_sequence: 3,
        voter_address: "0xB2".to_string(),
        value: true,
        created_at: 2,
    }));
    assert_eq!(store.row_count(), 2);
    assert_eq!(
        store.vote(&wallet, 3, "0xB2"),
        Some(&MultisigVotingTransaction {
            wallet_address: wallet.clone(),
            transaction_sequence: 3,
            voter_address: "0xB2".to_string(),
            value: true,
            created_at: 2,
        })
    );
    assert_eq!(store.vote(&wallet, 3, "0xC3").map(|v| v.value), Some(false));
    assert_eq!(store.vote(&wallet, 4, "0xB2"), None);
}

#[test]
fn removing_an_owner_deletes_only_that_membership() {
    let one = standardize_address("0xW");
    let other = standardize_address("0xV");
    let mut store = MemoryStore::new();
    let setup = process_transactions(
        &vec![user(
            1,
            vec![account("0xW", "1", &["0xA1", "0xB2"]), account("0xV", "1", &["0xA1"])],
            vec![],
        )],
        &vec![],
        1,
        1,
    );
    store.apply_all(setup.mutations);
    assert_eq!(store.row_count(), 2 + 2 + 3);
    let removal = process_transactions(
        &vec![user(2, vec![], vec![event("0xW", REMOVE, "{\"owners_removed\":[\"0xA1\"]}")])],
        &vec![],
        2,
        2,
    );
    store.apply_all(removal.mutations);
    assert_eq!(store.row_count(), 2 + 2 + 2);
    assert_eq!(store.membership("0xA1", &one), None);
    assert!(store.membership("0xA1", &other).is_some());
    assert!(store.membership("0xB2", &one).is_some());
    assert!(store.owner("0xA1").is_some());
    assert!(store.owner("0xB2").is_some());
    let again = process_transactions(
        &vec![user(3, vec![], vec![event("0xW", REMOVE, "{\"owners_removed\":[\"0xA1\",\"0xZ\"]}")])],
        &vec![],
        3,
        3,
    );
    store.apply_all(again.mutations);
    assert_eq!(store.row_count(), 2 + 2 + 2);
}

#[test]
fn a_membership_is_not_stamped_again() {
    let wallet = standardize_address("0xW");
    let mut store = MemoryStore::new();
    for at in [5, 9] {
        store.apply(Mutation::InsertOwnerWallet(OwnersWallet {
            owner_address: "0xA1".to_string(),
            wallet_address: wallet.clone(),
            created_at: at,
        }));
    }
    assert_eq!(store.row_count(), 1);
    assert_eq!(store.membership("0xA1", &wallet).map(|m| m.created_at), Some(5));
}

#[test]
fn an_owner_is_stamped_again() {
    let mut store = MemoryStore::new();
    for at in [5, 9] {
        store.apply(Mutation::UpsertOwner(MultisigOwner {
            owner_address: "0xA1".to_string(),
            created_at: at,
        }));
    }
    assert_eq!(store.row_count(), 1);
    assert_eq!(store.owner("0xA1").map(|o| o.created_at), Some(9));
}

fn pending(wallet: &str, sequence: i32, created_at: i64, payload: Json) -> MultisigTransaction {
    MultisigTransaction {
        wallet_address: wallet.to_string(),
        initiated_by: "0xA1".to_string(),
        sequence_number: sequence,
        payload,
        payload_hash: Some(text("hash")),
        status: 1,
        created_at,
        executed_at: None,
        executor: None,
        error: None,
    }
}

#[test]
fn an_outcome_without_a_row_writes_nothing() {
    let mut store = MemoryStore::new();
    store.apply(Mutation::UpdateTransaction(TransactionUpdate {
        wallet_address: "w".to_string(),
        sequence_number: 1,
        status: 3,
        executor: Some("0xE".to_string()),
        executed_at: Some(5),
        payload: None,
        error: None,
    }));
    assert_eq!(store.row_count(), 0);
    assert_eq!(store.transaction("w", 1), None);
}

#[test]
fn an_outcome_keeps_the_fields_it_does_not_carry() {
    let mut store = MemoryStore::new();
    store.apply(Mutation::UpsertTransaction(pending("w", 1, 10, text("call"))));
    store.apply(Mutation::UpdateTransaction(TransactionUpdate {
        wallet_address: "w".to_string(),
        sequence_number: 1,
        status: 4,
        executor: None,
        executed_at: Some(20),
        payload: None,
        error: Some(text("boom")),
    }));
    let row = store.transaction("w", 1).unwrap();
    assert_eq!(row.status, 4);
    assert_eq!(row.payload, text("call"));
    assert_eq!(row.executor, None);
    assert_eq!(row.executed_at, Some(20));
    assert_eq!(row.error, Some(text("boom")));
    assert_eq!(row.payload_hash, Some(text("hash")));
    store.apply(Mutation::UpdateTransaction(TransactionUpdate {
        wallet_address: "w".to_string(),
        sequence_number: 1,
        status: 3,
        executor: Some("0xE".to_string()),
        executed_at: None,
        payload: Some(text("decoded")),
        error: None,
    }));
    let row = store.transaction("w", 1).unwrap();
    assert_eq!(row.status, 3);
    assert_eq!(row.payload, text("decoded"));
    assert_eq!(row.executor, Some("0xE".to_string()));
    assert_eq!(row.executed_at, Some(20));
    assert_eq!(row.error, Some(text("boom")));
    assert_eq!(store.row_count(), 1);
}

#[test]
fn a_repeated_creation_refreshes_only_time_payload_and_status() {
    let mut store = MemoryStore::new();
    store.apply(Mutation::UpsertTransaction(pending("w", 1, 10, text("call"))));
    store.apply(Mutation::UpdateTransaction(TransactionUpdate {
        wallet_address: "w".to_string(),
        sequence_number: 1,
        status: 3,
        executor: Some("0xE".to_string()),
        executed_at: Some(20),
        payload: Some(text("decoded")),
        error: None,
    }));
    let mut again = pending("w", 1, 30, text("call again"));
    again.initiated_by = "0xZZ".to_string();
    again.payload_hash = None;
    store.apply(Mutation::UpsertTransaction(again));
    assert_eq!(
        store.transaction("w", 1),
        Some(&MultisigTransaction {
            wallet_address: "w".to_string(),
            initiated_by: "0xA1".to_string(),
            sequence_number: 1,
            payload: text("call again"),
            payload_hash: Some(text("hash")),
            status: 1,
            created_at: 30,
            executed_at: Some(20),
            executor: Some("0xE".to_string()),
            error: None,
        })
    );
    assert_eq!(store.row_count(), 1);
}

#[test]
fn rows_of_different_tables_do_not_collide() {
    let mut store = MemoryStore::new();
    store.apply(Mutation::UpsertWallet(MultisigWallet {
        wallet_address: "x".to_string(),
        required_signatures: 1,
        metadata: None,
        created_at: 1,
    }));
    store.apply(Mutation::UpsertOwner(MultisigOwner { owner_address: "x".to_string(), created_at: 2 }));
    store.apply(Mutation::UpsertTransaction(pending("x", 0, 3, Json::Null)));
    store.apply(Mutation::UpsertTransaction(pending("x", 1, 4, Json::Null)));
    assert_eq!(store.row_count(), 4);
    assert_eq!(store.wallet("x").map(|w| w.created_at), Some(1));
    assert_eq!(store.owner("x").map(|o| o.created_at), Some(2));
    assert_eq!(store.transaction("x", 0).map(|t| t.created_at), Some(3));
    assert_eq!(store.transaction("x", 1).map(|t| t.created_at), Some(4));
    assert_eq!(store.transaction("x", 2), None);
    assert_eq!(store.wallet("y"), None);
}

#[test]
fn an_outcome_before_the_creation_is_not_replayed_the_same() {
    let failed = "{\"sequence_number\":\"1\",\"executor\":\"0xE\",\"execution_error\":\"boom\"}";
    let create = "{\"sequence_number\":\"1\",\"transaction\":{\"votes\":{\"data\":[]}}}";
    let wallet = standardize_address("0xW");
    let out_of_order = || {
        process_transactions(
            &vec![user(5, vec![], vec![event("0xW", FAILED, failed), event("0xW", CREATE, create)])],
            &vec![],
            1,
            1,
        )
        .mutations
    };
    let mut store = MemoryStore::new();
    store.apply_all(out_of_order());
    assert_eq!(store.transaction(&wallet, 1).unwrap().executor, None);
    store.apply_all(out_of_order());
    assert_eq!(store.transaction(&wallet, 1).unwrap().executor, Some("0xE".to_string()));
    assert_eq!(store.row_count(), 1);
}
