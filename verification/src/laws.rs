//! What the transitions of the state machine do to the store.

use vstd::prelude::*;
use crate::address::standard_address;
use crate::events::{
    create_changes, created_payload, created_row, executed_payload, executor_of, first_voter,
    initial_vote_changes, remove_owner_changes, sequence_number_of, status_changes, vote_changes,
    voter_of, wallet_rows, EventKind, ResolvedPayload,
};
use crate::json::JsonValue;
use crate::models::{
    status_code, Change, MembershipRow, OwnerRow, TransactionStatus, VoteRow, WalletRow,
};
use crate::store::{
    agreeing_writes_settle, apply_all_concat, apply_all_one, rows_stay_without_removal,
    untouched_rows_stay, Key, Row, Store,
};

verus! {

/// Recording a wallet's configuration leaves the wallet's row with exactly
/// the required number of signatures and the metadata of the configuration,
/// one owner row for every listed owner, and one membership in the wallet
/// for every listed owner. The wallet has no member afterwards that is
/// neither listed nor was a member before; for a wallet that is new, its
/// members are exactly the listed owners.
///
/// The wallet's row and the memberships stand under the canonical form of
/// the address that holds the configuration, which is the address itself
/// where that is canonical already; the owners stand under their addresses
/// as listed.
pub proof fn wallet_configuration_is_recorded(
    store: Store,
    wallet: Seq<char>,
    required_signatures: i32,
    metadata: JsonValue,
    owners: Seq<Seq<char>>,
    timestamp: i64,
)
    ensures
        ({
            let address = standard_address(wallet);
            let after = store.apply_all(
                wallet_rows(wallet, required_signatures, metadata, owners, timestamp),
            );
            &&& after.wallet(address) == Some(
                WalletRow {
                    wallet_address: address,
                    required_signatures,
                    metadata: Some(metadata),
                    created_at: timestamp,
                },
            )
            &&& forall|i: int|
                0 <= i < owners.len() ==> after.owner(#[trigger] owners[i]) == Some(
                    OwnerRow { owner_address: owners[i], created_at: timestamp },
                )
            &&& forall|owner: Seq<char>|
                (#[trigger] after.get(Key::Membership { owner, wallet: address })) is Some <==> (
                owners.contains(owner) || store.get(Key::Membership { owner, wallet: address })
                    is Some)
            &&& forall|owner: Seq<char>|
                owners.contains(owner) && store.get(Key::Membership { owner, wallet: address })
                    is None ==> (#[trigger] after.membership(owner, address)) == Some(
                    MembershipRow {
                        owner_address: owner,
                        wallet_address: address,
                        created_at: timestamp,
                    },
                )
        }),
{
    let address = standard_address(wallet);
    let changes = wallet_rows(wallet, required_signatures, metadata, owners, timestamp);
    let after = store.apply_all(changes);
    let wallet_row = WalletRow {
        wallet_address: address,
        required_signatures,
        metadata: Some(metadata),
        created_at: timestamp,
    };
    assert(changes.len() == 1 + 2 * owners.len());
    assert(changes[0] == Change::UpsertWallet(wallet_row));
    assert forall|i: int| 0 <= i < owners.len() implies #[trigger] changes[1 + i]
        == Change::UpsertOwner(OwnerRow { owner_address: owners[i], created_at: timestamp }) by {}
    assert forall|i: int| 0 <= i < owners.len() implies #[trigger] changes[1 + owners.len() + i]
        == Change::InsertOwnerWallet(
        MembershipRow { owner_address: owners[i], wallet_address: address, created_at: timestamp },
    ) by {}
    assert forall|k: int| 0 <= k < changes.len() implies (k == 0 || (1 <= k < 1 + owners.len()
        && changes[k] == Change::UpsertOwner(
        OwnerRow { owner_address: owners[k - 1], created_at: timestamp },
    )) || (1 + owners.len() <= k && #[trigger] changes[k] == Change::InsertOwnerWallet(
        MembershipRow {
            owner_address: owners[k - 1 - owners.len()],
            wallet_address: address,
            created_at: timestamp,
        },
    ))) by {
        if 1 <= k < 1 + owners.len() {
            assert(changes[1 + (k - 1)] == changes[k]);
        } else if k >= 1 + owners.len() {
            assert(changes[1 + owners.len() + (k - 1 - owners.len())] == changes[k]);
        }
    }
    // The wallet's row.
    agreeing_writes_settle(
        store,
        changes,
        Key::Wallet { wallet: address },
        Some(Row::Wallet(wallet_row)),
    );
    // The owners' rows.
    assert forall|i: int| 0 <= i < owners.len() implies after.owner(#[trigger] owners[i]) == Some(
        OwnerRow { owner_address: owners[i], created_at: timestamp },
    ) by {
        let key = Key::Owner { owner: owners[i] };
        assert(changes[1 + i].key() == key);
        agreeing_writes_settle(
            store,
            changes,
            key,
            Some(Row::Owner(OwnerRow { owner_address: owners[i], created_at: timestamp })),
        );
    }
    // The memberships.
    assert forall|owner: Seq<char>|
        (#[trigger] after.get(Key::Membership { owner, wallet: address })) is Some <==> (
        owners.contains(owner) || store.get(Key::Membership { owner, wallet: address })
            is Some) by {
        let key = Key::Membership { owner, wallet: address };
        if owners.contains(owner) {
            let i = choose|i: int| 0 <= i < owners.len() && owners[i] == owner;
            let at = 1 + owners.len() + i;
            let head = changes.take(at + 1);
            let rest = changes.skip(at + 1);
            assert(changes =~= head + rest);
            apply_all_concat(store, head, rest);
            assert(head.last() == changes[at]);
            assert(store.apply_all(head).get(key) is Some);
            assert forall|j: int| 0 <= j < rest.len() implies !((#[trigger] rest[j])
                is RemoveOwnerWallet) by {
                assert(rest[j] == changes[at + 1 + j]);
            }
            rows_stay_without_removal(store.apply_all(head), rest, key);
        } else if store.get(key) is Some {
            rows_stay_without_removal(store, changes, key);
        } else {
            assert forall|k: int| 0 <= k < changes.len() implies (#[trigger] changes[k]).key()
                != key by {
                if k >= 1 + owners.len() {
                    assert(owners[k - 1 - owners.len()] != owner);
                }
            }
            untouched_rows_stay(store, changes, key);
        }
    }
    assert forall|owner: Seq<char>|
        owners.contains(owner) && store.get(Key::Membership { owner, wallet: address })
            is None implies (#[trigger] after.membership(owner, address)) == Some(
        MembershipRow { owner_address: owner, wallet_address: address, created_at: timestamp },
    ) by {
        let key = Key::Membership { owner, wallet: address };
        let row = MembershipRow {
            owner_address: owner,
            wallet_address: address,
            created_at: timestamp,
        };
        let i = choose|i: int| 0 <= i < owners.len() && owners[i] == owner;
        assert(changes[1 + owners.len() + i].key() == key);
        lemma_inserts_fill(store, changes, key, Row::Membership(row));
    }
}

/// Where a row is absent, every change to it inserts the same row unless one
/// is there, and at least one change is made to it, that row is there in the
/// end.
proof fn lemma_inserts_fill(store: Store, changes: Seq<Change>, key: Key, row: Row)
    requires
        store.get(key) is None,
        exists|i: int| 0 <= i < changes.len() && (#[trigger] changes[i]).key() == key,
        forall|i: int|
            0 <= i < changes.len() && (#[trigger] changes[i]).key() == key ==> changes[i].outcome(
                None,
            ) == Some(row) && changes[i].outcome(Some(row)) == Some(row),
    ensures
        store.apply_all(changes).get(key) == Some(row),
    decreases changes.len(),
{
    let rest = changes.drop_last();
    let last = changes.last();
    assert(last == changes[changes.len() - 1]);
    assert forall|j: int| 0 <= j < rest.len() && (#[trigger] rest[j]).key() == key implies rest[j].outcome(
        None,
    ) == Some(row) && rest[j].outcome(Some(row)) == Some(row) by {
        assert(rest[j] == changes[j]);
    }
    if exists|i: int| 0 <= i < rest.len() && (#[trigger] rest[i]).key() == key {
        lemma_inserts_fill(store, rest, key, row);
    } else {
        untouched_rows_stay(store, rest, key);
        let i = choose|i: int| 0 <= i < changes.len() && (#[trigger] changes[i]).key() == key;
        if i < rest.len() {
            assert(rest[i] == changes[i]);
        }
        assert(last.key() == key);
    }
}

/// A vote by a voter who has voted on the transaction before overwrites that
/// vote: the voter's row holds the new value, and the store holds a row for
/// exactly the keys it held before.
pub proof fn vote_overwrites_earlier_vote(
    store: Store,
    body: JsonValue,
    wallet: Seq<char>,
    timestamp: i64,
)
    requires
        vote_changes(body, wallet, timestamp) is Ok,
    ensures
        ({
            let changes = vote_changes(body, wallet, timestamp)->Ok_0;
            let vote = changes[0]->UpsertVote_0;
            let after = store.apply_all(changes);
            &&& changes.len() == 1
            &&& changes[0] is UpsertVote
            &&& vote.wallet_address == standard_address(wallet)
            &&& sequence_number_of(body) == Ok::<i32, crate::error::DecodeError>(
                vote.transaction_sequence,
            )
            &&& after.vote(vote.wallet_address, vote.transaction_sequence, vote.voter_address)
                == Some(vote)
            &&& forall|key: Key|
                key != changes[0].key() ==> (#[trigger] after.get(key)) == store.get(key)
            &&& store.get(changes[0].key()) is Some ==> after.cells.dom() == store.cells.dom()
        }),
{
    let changes = vote_changes(body, wallet, timestamp)->Ok_0;
    apply_all_one(store, changes[0]);
    assert(changes =~= seq![changes[0]]);
    let after = store.apply_all(changes);
    if store.get(changes[0].key()) is Some {
        assert(after.cells.dom() =~= store.cells.dom());
    }
}

/// A creation followed by a vote of the voter whose vote came with the
/// creation leaves one vote of that voter on the transaction, and it is the
/// later one: its value and its time are those of the vote event. The votes
/// of no other voter change, so a transaction that had no votes before has
/// exactly this one afterwards.
pub proof fn later_vote_replaces_the_creators(
    store: Store,
    wallet: Seq<char>,
    created: JsonValue,
    created_at: i64,
    created_call: Option<ResolvedPayload>,
    voted: JsonValue,
    voted_at: i64,
)
    requires
        create_changes(created, wallet, created_at, created_call) is Ok,
        vote_changes(voted, wallet, voted_at) is Ok,
        sequence_number_of(created) == sequence_number_of(voted),
        first_voter(created) is Some,
        first_voter(created) == voter_of(voted),
    ensures
        ({
            let changes = create_changes(created, wallet, created_at, created_call)->Ok_0
                + vote_changes(voted, wallet, voted_at)->Ok_0;
            let address = standard_address(wallet);
            let sequence = sequence_number_of(created)->Ok_0;
            let voter = voter_of(voted)->0;
            let after = store.apply_all(changes);
            &&& after.vote(address, sequence, voter) == Some(
                VoteRow {
                    wallet_address: address,
                    transaction_sequence: sequence,
                    voter_address: voter,
                    value: voted.field("approved"@).as_bool()->0,
                    created_at: voted_at,
                },
            )
            &&& forall|other: Seq<char>|
                other != voter ==> (#[trigger] after.vote(address, sequence, other)) == store.vote(
                    address,
                    sequence,
                    other,
                )
            &&& forall|other: Seq<char>|
                (#[trigger] after.vote(address, sequence, other)) is Some <==> (other == voter
                    || store.vote(address, sequence, other) is Some)
        }),
{
    let address = standard_address(wallet);
    let sequence = sequence_number_of(created)->Ok_0;
    let voter = voter_of(voted)->0;
    let creation = create_changes(created, wallet, created_at, created_call)->Ok_0;
    let vote = vote_changes(voted, wallet, voted_at)->Ok_0;
    let changes = creation + vote;
    let key = Key::Vote { wallet: address, sequence, voter };
    let after = store.apply_all(changes);
    let first = initial_vote_changes(created, wallet, sequence, created_at)->Ok_0;
    assert(first.len() == 1);
    assert(creation.len() == 2);
    assert(creation[1] == first[0]);
    assert(creation[1].key() == key);
    assert(vote =~= seq![vote[0]]);
    assert(vote[0].key() == key);
    apply_all_concat(store, creation, vote);
    apply_all_one(store.apply_all(creation), vote[0]);
    assert forall|other: Seq<char>| other != voter implies (#[trigger] after.vote(
        address,
        sequence,
        other,
    )) == store.vote(address, sequence, other) by {
        let other_key = Key::Vote { wallet: address, sequence, voter: other };
        assert forall|i: int| 0 <= i < changes.len() implies (#[trigger] changes[i]).key()
            != other_key by {
            if i < 2 {
                assert(changes[i] == creation[i]);
            } else {
                assert(changes[i] == vote[i - 2]);
            }
        }
        untouched_rows_stay(store, changes, other_key);
    }
}

/// Removing owners from a wallet deletes their memberships in that wallet
/// and nothing else: every owner row stays, and so does every membership in
/// another wallet and every membership of an owner that is not listed.
pub proof fn removal_deletes_only_the_membership(store: Store, body: JsonValue, wallet: Seq<char>)
    requires
        remove_owner_changes(body, wallet) is Ok,
    ensures
        ({
            let changes = remove_owner_changes(body, wallet)->Ok_0;
            let address = standard_address(wallet);
            let after = store.apply_all(changes);
            &&& forall|i: int|
                0 <= i < changes.len() ==> after.membership(
                    (#[trigger] changes[i])->RemoveOwnerWallet_owner_address,
                    address,
                ) is None
            &&& forall|owner: Seq<char>| (#[trigger] after.owner(owner)) == store.owner(owner)
            &&& forall|owner: Seq<char>, other: Seq<char>|
                other != address ==> (#[trigger] after.membership(owner, other))
                    == store.membership(owner, other)
            &&& forall|key: Key|
                (forall|i: int| 0 <= i < changes.len() ==> (#[trigger] changes[i]).key() != key)
                    ==> (#[trigger] after.get(key)) == store.get(key)
        }),
{
    let changes = remove_owner_changes(body, wallet)->Ok_0;
    let address = standard_address(wallet);
    let after = store.apply_all(changes);
    assert forall|i: int| 0 <= i < changes.len() implies after.membership(
        (#[trigger] changes[i])->RemoveOwnerWallet_owner_address,
        address,
    ) is None by {
        let key = changes[i].key();
        agreeing_writes_settle(store, changes, key, None);
    }
    assert forall|owner: Seq<char>| (#[trigger] after.owner(owner)) == store.owner(owner) by {
        untouched_rows_stay(store, changes, Key::Owner { owner });
    }
    assert forall|owner: Seq<char>, other: Seq<char>| other != address implies (
    #[trigger] after.membership(owner, other)) == store.membership(owner, other) by {
        untouched_rows_stay(store, changes, Key::Membership { owner, wallet: other });
    }
    assert forall|key: Key|
        (forall|i: int| 0 <= i < changes.len() ==> (#[trigger] changes[i]).key() != key) implies (
    #[trigger] after.get(key)) == store.get(key) by {
        untouched_rows_stay(store, changes, key);
    }
}

/// A creation followed by a successful execution of the same transaction
/// leaves one row for it: executed successfully at the time of the
/// execution, created at the time of the creation, with the executor that
/// the execution names and the payload that the execution decoded. Where the
/// execution names no executor or carries no payload, that field is as the
/// creation left it.
pub proof fn creation_then_success(
    store: Store,
    wallet: Seq<char>,
    created: JsonValue,
    created_at: i64,
    created_call: Option<ResolvedPayload>,
    executed: JsonValue,
    executed_at: i64,
    executed_call: Option<ResolvedPayload>,
)
    requires
        create_changes(created, wallet, created_at, created_call) is Ok,
        status_changes(EventKind::ExecutionSucceeded, executed, wallet, executed_at, executed_call)
            is Ok,
        sequence_number_of(created) == sequence_number_of(executed),
    ensures
        ({
            let changes = create_changes(created, wallet, created_at, created_call)->Ok_0
                + status_changes(
                EventKind::ExecutionSucceeded,
                executed,
                wallet,
                executed_at,
                executed_call,
            )->Ok_0;
            let address = standard_address(wallet);
            let sequence = sequence_number_of(created)->Ok_0;
            let before = store.apply_all(
                seq![
                    Change::UpsertTransaction(
                        created_row(created, wallet, sequence, created_at, created_call),
                    ),
                ],
            ).transaction(address, sequence);
            let after = store.apply_all(changes).transaction(address, sequence);
            &&& before is Some
            &&& before->0.status == status_code(TransactionStatus::Pending)
            &&& before->0.payload == created_payload(created, created_call)
            &&& before->0.created_at == created_at
            &&& after is Some
            &&& after->0.status == status_code(TransactionStatus::Success)
            &&& after->0.executed_at == Some(executed_at)
            &&& after->0.created_at == created_at
            &&& after->0.executor == if executor_of(executed) is Some {
                executor_of(executed)
            } else {
                before->0.executor
            }
            &&& after->0.payload == match executed_payload(executed, executed_call) {
                Some(payload) => payload,
                None => created_payload(created, created_call),
            }
            &&& after->0.initiated_by == before->0.initiated_by
            &&& after->0.payload_hash == before->0.payload_hash
        }),
{
    let address = standard_address(wallet);
    let sequence = sequence_number_of(created)->Ok_0;
    let key = Key::Transaction { wallet: address, sequence };
    let row = created_row(created, wallet, sequence, created_at, created_call);
    let creation = Change::UpsertTransaction(row);
    let votes = initial_vote_changes(created, wallet, sequence, created_at)->Ok_0;
    let outcome = status_changes(
        EventKind::ExecutionSucceeded,
        executed,
        wallet,
        executed_at,
        executed_call,
    )->Ok_0;
    let first = seq![creation];
    let changes = (first + votes) + outcome;
    apply_all_one(store, creation);
    let s1 = store.apply_all(first);
    apply_all_concat(store, first, votes);
    let s2 = s1.apply_all(votes);
    assert forall|i: int| 0 <= i < votes.len() implies (#[trigger] votes[i]).key() != key by {}
    untouched_rows_stay(s1, votes, key);
    apply_all_concat(store, first + votes, outcome);
    assert(outcome =~= seq![outcome[0]]);
    apply_all_one(s2, outcome[0]);
}

} // verus!
