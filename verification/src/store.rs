//! The relational store as a mathematical object: five tables, each keyed by
//! its primary key, and what every change does to them.

use vstd::prelude::*;
use crate::json::JsonValue;
use crate::models::{
    Change, MembershipRow, OwnerRow, TransactionPatch, TransactionRow, VoteRow, WalletRow,
};

verus! {

/// The primary key of a row, with the table it belongs to.
pub enum Key {
    Wallet { wallet: Seq<char> },
    Owner { owner: Seq<char> },
    Membership { owner: Seq<char>, wallet: Seq<char> },
    Transaction { wallet: Seq<char>, sequence: i32 },
    Vote { wallet: Seq<char>, sequence: i32, voter: Seq<char> },
}

/// A row of any of the five tables.
pub enum Row {
    Wallet(WalletRow),
    Owner(OwnerRow),
    Membership(MembershipRow),
    Transaction(TransactionRow),
    Vote(VoteRow),
}

/// Values for some of the fields of a transaction row that change after it
/// was created; a field that is `None` is not assigned.
pub struct Edits {
    pub status: Option<i32>,
    pub created_at: Option<i64>,
    pub payload: Option<JsonValue>,
    pub executor: Option<Seq<char>>,
    pub executed_at: Option<i64>,
    pub error: Option<JsonValue>,
}

impl Edits {
    /// `old` with the fields of `self` assigned.
    pub open spec fn on(self, old: TransactionRow) -> TransactionRow {
        TransactionRow {
            wallet_address: old.wallet_address,
            initiated_by: old.initiated_by,
            sequence_number: old.sequence_number,
            payload: match self.payload {
                Some(v) => v,
                None => old.payload,
            },
            payload_hash: old.payload_hash,
            status: match self.status {
                Some(v) => v,
                None => old.status,
            },
            created_at: match self.created_at {
                Some(v) => v,
                None => old.created_at,
            },
            executed_at: match self.executed_at {
                Some(v) => Some(v),
                None => old.executed_at,
            },
            executor: match self.executor {
                Some(v) => Some(v),
                None => old.executor,
            },
            error: match self.error {
                Some(v) => Some(v),
                None => old.error,
            },
        }
    }

    /// The assignments of `self` followed by those of `later`.
    pub open spec fn followed_by(self, later: Edits) -> Edits {
        Edits {
            status: if later.status is Some {
                later.status
            } else {
                self.status
            },
            created_at: if later.created_at is Some {
                later.created_at
            } else {
                self.created_at
            },
            payload: if later.payload is Some {
                later.payload
            } else {
                self.payload
            },
            executor: if later.executor is Some {
                later.executor
            } else {
                self.executor
            },
            executed_at: if later.executed_at is Some {
                later.executed_at
            } else {
                self.executed_at
            },
            error: if later.error is Some {
                later.error
            } else {
                self.error
            },
        }
    }
}

/// What a repeated creation refreshes in a row that is already there:
/// creation time, payload and status.
pub open spec fn creation_edits(row: TransactionRow) -> Edits {
    Edits {
        status: Some(row.status),
        created_at: Some(row.created_at),
        payload: Some(row.payload),
        executor: None,
        executed_at: None,
        error: None,
    }
}

/// What the outcome of an execution assigns: always the status, and each of
/// the other fields that the update carries.
pub open spec fn outcome_edits(patch: TransactionPatch) -> Edits {
    Edits {
        status: Some(patch.status),
        created_at: None,
        payload: patch.payload,
        executor: patch.executor,
        executed_at: patch.executed_at,
        error: patch.error,
    }
}

impl Change {
    /// The key of the one row that this change touches.
    pub open spec fn key(self) -> Key {
        match self {
            Change::UpsertWallet(r) => Key::Wallet { wallet: r.wallet_address },
            Change::UpsertOwner(r) => Key::Owner { owner: r.owner_address },
            Change::InsertOwnerWallet(r) => Key::Membership {
                owner: r.owner_address,
                wallet: r.wallet_address,
            },
            Change::RemoveOwnerWallet { owner_address, wallet_address } => Key::Membership {
                owner: owner_address,
                wallet: wallet_address,
            },
            Change::UpsertTransaction(r) => Key::Transaction {
                wallet: r.wallet_address,
                sequence: r.sequence_number,
            },
            Change::UpdateTransaction(p) => Key::Transaction {
                wallet: p.wallet_address,
                sequence: p.sequence_number,
            },
            Change::UpsertVote(r) => Key::Vote {
                wallet: r.wallet_address,
                sequence: r.transaction_sequence,
                voter: r.voter_address,
            },
        }
    }

    /// What stands under this change's key afterwards, given what stood there
    /// before. This is the conflict rule of each table.
    pub open spec fn outcome(self, before: Option<Row>) -> Option<Row> {
        match self {
            Change::UpsertWallet(r) => Some(Row::Wallet(r)),
            Change::UpsertOwner(r) => Some(Row::Owner(r)),
            Change::InsertOwnerWallet(r) => match before {
                Some(old) => Some(old),
                None => Some(Row::Membership(r)),
            },
            Change::RemoveOwnerWallet { .. } => None,
            Change::UpsertTransaction(r) => match before {
                Some(Row::Transaction(old)) => Some(Row::Transaction(creation_edits(r).on(old))),
                _ => Some(Row::Transaction(r)),
            },
            Change::UpdateTransaction(p) => match before {
                Some(Row::Transaction(old)) => Some(Row::Transaction(outcome_edits(p).on(old))),
                other => other,
            },
            Change::UpsertVote(r) => Some(Row::Vote(r)),
        }
    }
}

/// The contents of the five tables. A key holds at most one row.
pub struct Store {
    pub cells: Map<Key, Row>,
}

impl Store {
    /// The store with no rows.
    pub open spec fn empty() -> Store {
        Store { cells: Map::empty() }
    }

    /// The row under `key`, if there is one.
    pub open spec fn get(self, key: Key) -> Option<Row> {
        if self.cells.dom().contains(key) {
            Some(self.cells[key])
        } else {
            None
        }
    }

    /// The store with `key` holding `row`, or nothing.
    pub open spec fn put(self, key: Key, row: Option<Row>) -> Store {
        match row {
            Some(r) => Store { cells: self.cells.insert(key, r) },
            None => Store { cells: self.cells.remove(key) },
        }
    }

    /// The store after one change.
    pub open spec fn apply(self, change: Change) -> Store {
        self.put(change.key(), change.outcome(self.get(change.key())))
    }

    /// The store after a run of changes, applied in order.
    pub open spec fn apply_all(self, changes: Seq<Change>) -> Store
        decreases changes.len(),
    {
        if changes.len() == 0 {
            self
        } else {
            self.apply_all(changes.drop_last()).apply(changes.last())
        }
    }

    /// The wallet with this address.
    pub open spec fn wallet(self, wallet: Seq<char>) -> Option<WalletRow> {
        match self.get(Key::Wallet { wallet }) {
            Some(Row::Wallet(r)) => Some(r),
            _ => None,
        }
    }

    /// The owner with this address.
    pub open spec fn owner(self, owner: Seq<char>) -> Option<OwnerRow> {
        match self.get(Key::Owner { owner }) {
            Some(Row::Owner(r)) => Some(r),
            _ => None,
        }
    }

    /// The membership of `owner` in `wallet`.
    pub open spec fn membership(self, owner: Seq<char>, wallet: Seq<char>) -> Option<
        MembershipRow,
    > {
        match self.get(Key::Membership { owner, wallet }) {
            Some(Row::Membership(r)) => Some(r),
            _ => None,
        }
    }

    /// The transaction of `wallet` with this sequence number.
    pub open spec fn transaction(self, wallet: Seq<char>, sequence: i32) -> Option<
        TransactionRow,
    > {
        match self.get(Key::Transaction { wallet, sequence }) {
            Some(Row::Transaction(r)) => Some(r),
            _ => None,
        }
    }

    /// The vote of `voter` on the transaction of `wallet` with this sequence
    /// number.
    pub open spec fn vote(self, wallet: Seq<char>, sequence: i32, voter: Seq<char>) -> Option<
        VoteRow,
    > {
        match self.get(Key::Vote { wallet, sequence, voter }) {
            Some(Row::Vote(r)) => Some(r),
            _ => None,
        }
    }
}

/// A change touches the row under its own key and no other.
pub proof fn change_is_local(store: Store, change: Change, key: Key)
    ensures
        key == change.key() ==> store.apply(change).get(key) == change.outcome(store.get(key)),
        key != change.key() ==> store.apply(change).get(key) == store.get(key),
{
}

/// Applying one run of changes after another is applying both in order.
pub proof fn apply_all_concat(store: Store, first: Seq<Change>, second: Seq<Change>)
    ensures
        store.apply_all(first + second) == store.apply_all(first).apply_all(second),
    decreases second.len(),
{
    if second.len() == 0 {
        assert(first + second =~= first);
    } else {
        apply_all_concat(store, first, second.drop_last());
        assert((first + second).drop_last() =~= first + second.drop_last());
        assert((first + second).last() == second.last());
    }
}

/// Applying a single change as a run.
pub proof fn apply_all_one(store: Store, change: Change)
    ensures
        store.apply_all(seq![change]) == store.apply(change),
{
    assert(seq![change].drop_last() =~= Seq::<Change>::empty());
    assert(store.apply_all(seq![change].drop_last()) == store);
}

/// A run of changes leaves alone every row whose key none of them has.
pub proof fn untouched_rows_stay(store: Store, changes: Seq<Change>, key: Key)
    requires
        forall|i: int| 0 <= i < changes.len() ==> (#[trigger] changes[i]).key() != key,
    ensures
        store.apply_all(changes).get(key) == store.get(key),
    decreases changes.len(),
{
    if changes.len() > 0 {
        let rest = changes.drop_last();
        assert forall|i: int| 0 <= i < rest.len() implies (#[trigger] rest[i]).key() != key by {
            assert(rest[i] == changes[i]);
        }
        untouched_rows_stay(store, rest, key);
        assert(changes.last() == changes[changes.len() - 1]);
    }
}

/// Where every change to a row writes the same thing whatever stood there,
/// and at least one change is made to it, that thing stands there in the end.
pub proof fn agreeing_writes_settle(store: Store, changes: Seq<Change>, key: Key, row: Option<Row>)
    requires
        exists|i: int| 0 <= i < changes.len() && (#[trigger] changes[i]).key() == key,
        forall|i: int, before: Option<Row>|
            0 <= i < changes.len() && (#[trigger] changes[i]).key() == key ==> (
            #[trigger] changes[i].outcome(before)) == row,
    ensures
        store.apply_all(changes).get(key) == row,
    decreases changes.len(),
{
    let rest = changes.drop_last();
    let last = changes.last();
    assert(last == changes[changes.len() - 1]);
    if last.key() == key {
        assert(last.outcome(store.apply_all(rest).get(key)) == row);
    } else {
        let i = choose|i: int| 0 <= i < changes.len() && (#[trigger] changes[i]).key() == key;
        assert(i < rest.len());
        assert(rest[i] == changes[i]);
        assert forall|j: int, before: Option<Row>|
            0 <= j < rest.len() && (#[trigger] rest[j]).key() == key implies (
        #[trigger] rest[j].outcome(before)) == row by {
            assert(rest[j] == changes[j]);
        }
        agreeing_writes_settle(store, rest, key, row);
    }
}

/// A row that is there stays there through a run of changes that deletes
/// nothing.
pub proof fn rows_stay_without_removal(store: Store, changes: Seq<Change>, key: Key)
    requires
        store.get(key) is Some,
        forall|i: int| 0 <= i < changes.len() ==> !((#[trigger] changes[i]) is RemoveOwnerWallet),
    ensures
        store.apply_all(changes).get(key) is Some,
    decreases changes.len(),
{
    if changes.len() > 0 {
        let rest = changes.drop_last();
        assert forall|i: int| 0 <= i < rest.len() implies !((#[trigger] rest[i])
            is RemoveOwnerWallet) by {
            assert(rest[i] == changes[i]);
        }
        rows_stay_without_removal(store, rest, key);
        assert(changes.last() == changes[changes.len() - 1]);
    }
}

} // verus!
