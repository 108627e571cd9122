use ahash::AHashMap;
use multisig_processor::processor::{ConnectionStep, RetryPolicy};
use multisig_processor::models::{MultisigOwner, Mutation, OwnersWallet};
use multisig_processor::chunks::{
    chunk_ranges, get_config_table_chunk_size, plan_statements, MAX_DIESEL_PARAM_SIZE, OWNER_COLUMNS,
    OWNER_WALLET_COLUMNS, TRANSACTION_COLUMNS, VOTE_COLUMNS, WALLET_COLUMNS,
};

#[test]
fn default_size_comes_from_the_column_count() {
    let none: AHashMap<String, usize> = AHashMap::new();
    assert_eq!(MAX_DIESEL_PARAM_SIZE, 32767);
    assert_eq!(get_config_table_chunk_size("multisig_wallets", WALLET_COLUMNS, &none), 8191);
    assert_eq!(get_config_table_chunk_size("multisig_owners", OWNER_COLUMNS, &none), 16383);
    assert_eq!(get_config_table_chunk_size("owners_wallets", OWNER_WALLET_COLUMNS, &none), 10922);
    assert_eq!(
        get_config_table_chunk_size("multisig_transactions", TRANSACTION_COLUMNS, &none),
        3276
    );
    assert_eq!(
        get_config_table_chunk_size("multisig_voting_transactions", VOTE_COLUMNS, &none),
        6553
    );
}

#[test]
fn configured_size_is_used_for_its_table() {
    let mut sizes: AHashMap<String, usize> = AHashMap::new();
    sizes.insert("owners_wallets".to_string(), 10);
    sizes.insert("multisig_owners".to_string(), 20);
    assert_eq!(get_config_table_chunk_size("owners_wallets", 3, &sizes), 10);
    assert_eq!(get_config_table_chunk_size("multisig_owners", 2, &sizes), 20);
    assert_eq!(get_config_table_chunk_size("multisig_wallets", 4, &sizes), 8191);
}

#[test]
fn configured_size_never_breaks_the_limit() {
    let mut sizes: AHashMap<String, usize> = AHashMap::new();
    sizes.insert("t".to_string(), 1_000_000);
    sizes.insert("z".to_string(), 0);
    assert_eq!(get_config_table_chunk_size("t", 10, &sizes), 3276);
    assert_eq!(get_config_table_chunk_size("z", 10, &sizes), 1);
    assert_eq!(get_config_table_chunk_size("t", 0, &sizes), 1);
    assert_eq!(get_config_table_chunk_size("t", 40000, &sizes), 1);
}

#[test]
fn rows_are_cut_in_order() {
    assert_eq!(chunk_ranges(0, 3), vec![]);
    assert_eq!(chunk_ranges(1, 3), vec![(0, 1)]);
    assert_eq!(chunk_ranges(3, 3), vec![(0, 3)]);
    assert_eq!(chunk_ranges(7, 3), vec![(0, 3), (3, 6), (6, 7)]);
    assert_eq!(chunk_ranges(2, 0), vec![(0, 1), (1, 2)]);
    assert_eq!(chunk_ranges(5, usize::MAX), vec![(0, 5)]);
}

#[test]
fn every_chunk_stays_under_the_limit() {
    let none: AHashMap<String, usize> = AHashMap::new();
    for columns in 1..50usize {
        let size = get_config_table_chunk_size("any", columns, &none);
        for (lo, hi) in chunk_ranges(100_000, size) {
            assert!((hi - lo) * columns <= MAX_DIESEL_PARAM_SIZE);
        }
    }
}

#[test]
fn the_pool_is_asked_again_as_the_policy_says() {
    assert_eq!(RetryPolicy::Forever.after_attempt(0, true), ConnectionStep::Use);
    assert_eq!(RetryPolicy::AtMost(0).after_attempt(9, true), ConnectionStep::Use);
    assert_eq!(RetryPolicy::Forever.after_attempt(0, false), ConnectionStep::AskAgain { failed: 1 });
    assert_eq!(
        RetryPolicy::Forever.after_attempt(u64::MAX, false),
        ConnectionStep::AskAgain { failed: u64::MAX }
    );
    assert_eq!(
        RetryPolicy::AtMost(3).after_attempt(1, false),
        ConnectionStep::AskAgain { failed: 2 }
    );
    assert_eq!(RetryPolicy::AtMost(3).after_attempt(2, false), ConnectionStep::GiveUp { failed: 3 });
    assert_eq!(RetryPolicy::AtMost(0).after_attempt(0, false), ConnectionStep::GiveUp { failed: 1 });
}

fn membership(owner: &str) -> Mutation {
    Mutation::InsertOwnerWallet(OwnersWallet {
        owner_address: owner.to_string(),
        wallet_address: "w".to_string(),
        created_at: 1,
    })
}

fn owner(owner: &str) -> Mutation {
    Mutation::UpsertOwner(MultisigOwner { owner_address: owner.to_string(), created_at: 1 })
}

#[test]
fn new_memberships_go_out_together() {
    let mutations = vec![
        owner("a"),
        owner("b"),
        membership("a"),
        membership("b"),
        membership("c"),
        membership("d"),
        membership("e"),
        owner("c"),
        membership("f"),
        Mutation::RemoveOwnerWallet { owner_address: "a".to_string(), wallet_address: "w".to_string() },
        membership("g"),
        membership("h"),
    ];
    assert_eq!(
        plan_statements(&mutations, 2),
        vec![(0, 1), (1, 2), (2, 4), (4, 6), (6, 7), (7, 8), (8, 9), (9, 10), (10, 12)]
    );
    assert_eq!(
        plan_statements(&mutations, 100),
        vec![(0, 1), (1, 2), (2, 7), (7, 8), (8, 9), (9, 10), (10, 12)]
    );
    let alone: Vec<(usize, usize)> = (0..12).map(|i| (i, i + 1)).collect();
    assert_eq!(plan_statements(&mutations, 1), alone);
    assert_eq!(plan_statements(&mutations, 0), alone);
    assert_eq!(plan_statements(&vec![], 5), vec![]);
}
