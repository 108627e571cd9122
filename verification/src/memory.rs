//! The store held in memory: the five tables with their conflict rules,
//! applied to plain rows.

use vstd::prelude::*;
use crate::text::same_text;
use crate::models::{
    Change, MultisigOwner, MultisigTransaction, MultisigVotingTransaction, MultisigWallet,
    Mutation, OwnersWallet, TransactionUpdate,
};
use crate::store::{creation_edits, outcome_edits, Key, Row, Store};

verus! {

/// A row of any of the five tables, as it is held in memory.
#[derive(Debug, PartialEq, Eq)]
pub enum StoredRow {
    Wallet(MultisigWallet),
    Owner(MultisigOwner),
    Membership(OwnersWallet),
    Transaction(MultisigTransaction),
    Vote(MultisigVotingTransaction),
}

impl View for StoredRow {
    type V = Row;

    open spec fn view(&self) -> Row {
        match self {
            StoredRow::Wallet(r) => Row::Wallet(r@),
            StoredRow::Owner(r) => Row::Owner(r@),
            StoredRow::Membership(r) => Row::Membership(r@),
            StoredRow::Transaction(r) => Row::Transaction(r@),
            StoredRow::Vote(r) => Row::Vote(r@),
        }
    }
}

/// The primary key of a row.
pub open spec fn row_key(row: Row) -> Key {
    match row {
        Row::Wallet(r) => Key::Wallet { wallet: r.wallet_address },
        Row::Owner(r) => Key::Owner { owner: r.owner_address },
        Row::Membership(r) => Key::Membership { owner: r.owner_address, wallet: r.wallet_address },
        Row::Transaction(r) => Key::Transaction {
            wallet: r.wallet_address,
            sequence: r.sequence_number,
        },
        Row::Vote(r) => Key::Vote {
            wallet: r.wallet_address,
            sequence: r.transaction_sequence,
            voter: r.voter_address,
        },
    }
}

/// The row at `i` has this key.
pub open spec fn holds_at(rows: Seq<StoredRow>, key: Key, i: int) -> bool {
    0 <= i < rows.len() && row_key(rows[i]@) == key
}

/// No two rows have the same key.
pub open spec fn keys_are_unique(rows: Seq<StoredRow>) -> bool {
    forall|i: int, j: int|
        0 <= i < j < rows.len() ==> row_key(#[trigger] rows[i]@) != row_key(#[trigger] rows[j]@)
}

/// The store that a run of rows stands for.
pub open spec fn store_of(rows: Seq<StoredRow>) -> Store {
    Store {
        cells: Map::new(
            |key: Key| exists|i: int| holds_at(rows, key, i),
            |key: Key| rows[choose|i: int| holds_at(rows, key, i)]@,
        ),
    }
}

proof fn lemma_found(rows: Seq<StoredRow>, key: Key, i: int)
    requires
        keys_are_unique(rows),
        holds_at(rows, key, i),
    ensures
        store_of(rows).get(key) == Some(rows[i]@),
{
    let j = choose|j: int| holds_at(rows, key, j);
    if i < j {
        assert(row_key(rows[i]@) != row_key(rows[j]@));
    } else if j < i {
        assert(row_key(rows[j]@) != row_key(rows[i]@));
    }
}

proof fn lemma_absent(rows: Seq<StoredRow>, key: Key)
    requires
        forall|i: int| !holds_at(rows, key, i),
    ensures
        store_of(rows).get(key) is None,
{
}

/// A store that stands for rows with unique keys holds as many rows as
/// there are.
proof fn lemma_counted(rows: Seq<StoredRow>)
    requires
        keys_are_unique(rows),
    ensures
        store_of(rows).cells.dom().finite(),
        store_of(rows).cells.dom().len() == rows.len(),
{
    let keys = Seq::new(rows.len(), |i: int| row_key(rows[i]@));
    assert(keys.no_duplicates()) by {
        assert forall|i: int, j: int|
            0 <= i < keys.len() && 0 <= j < keys.len() && i != j implies keys[i] != keys[j] by {
            if i < j {
                assert(row_key(rows[i]@) != row_key(rows[j]@));
            } else {
                assert(row_key(rows[j]@) != row_key(rows[i]@));
            }
        }
    }
    keys.unique_seq_to_set();
    vstd::seq_lib::seq_to_set_is_finite(keys);
    assert(keys.to_set() =~= store_of(rows).cells.dom()) by {
        assert forall|key: Key| keys.to_set().contains(key) == store_of(rows).cells.dom().contains(
            key,
        ) by {
            if keys.contains(key) {
                let i = choose|i: int| 0 <= i < keys.len() && keys[i] == key;
                assert(holds_at(rows, key, i));
            }
            if exists|i: int| holds_at(rows, key, i) {
                let i = choose|i: int| holds_at(rows, key, i);
                assert(keys[i] == key);
            }
        }
    }
}

proof fn lemma_same_store(a: Store, b: Store)
    requires
        forall|key: Key| a.get(key) == b.get(key),
    ensures
        a == b,
{
    assert forall|key: Key| a.cells.dom().contains(key) == b.cells.dom().contains(key) by {
        assert(a.get(key) == b.get(key));
    }
    assert forall|key: Key| a.cells.dom().contains(key) implies a.cells[key] == b.cells[key] by {
        assert(a.get(key) == b.get(key));
    }
    assert(a.cells =~= b.cells);
}

/// Replacing a row by one with the same key.
proof fn lemma_replaced(rows: Seq<StoredRow>, i: int, row: StoredRow, key: Key)
    requires
        keys_are_unique(rows),
        holds_at(rows, key, i),
        row_key(row@) == key,
    ensures
        keys_are_unique(rows.update(i, row)),
        store_of(rows.update(i, row)) == store_of(rows).put(key, Some(row@)),
{
    let new = rows.update(i, row);
    assert forall|a: int, b: int| 0 <= a < b < new.len() implies row_key(#[trigger] new[a]@)
        != row_key(#[trigger] new[b]@) by {
        assert(row_key(rows[a]@) != row_key(rows[b]@));
    }
    assert forall|k: Key| store_of(new).get(k) == store_of(rows).put(key, Some(row@)).get(k) by {
        if k == key {
            assert(holds_at(new, key, i));
            lemma_found(new, key, i);
        } else {
            if exists|j: int| holds_at(rows, k, j) {
                let j = choose|j: int| holds_at(rows, k, j);
                assert(holds_at(new, k, j));
                lemma_found(rows, k, j);
                lemma_found(new, k, j);
            } else {
                assert forall|j: int| !holds_at(new, k, j) by {
                    if 0 <= j < new.len() {
                        assert(!holds_at(rows, k, j));
                    }
                }
            }
        }
    }
    lemma_same_store(store_of(new), store_of(rows).put(key, Some(row@)));
}

/// Adding a row whose key no row has.
proof fn lemma_added(rows: Seq<StoredRow>, row: StoredRow, key: Key)
    requires
        keys_are_unique(rows),
        forall|i: int| !holds_at(rows, key, i),
        row_key(row@) == key,
    ensures
        keys_are_unique(rows.push(row)),
        store_of(rows.push(row)) == store_of(rows).put(key, Some(row@)),
{
    let new = rows.push(row);
    assert forall|a: int, b: int| 0 <= a < b < new.len() implies row_key(#[trigger] new[a]@)
        != row_key(#[trigger] new[b]@) by {
        if b < rows.len() {
            assert(row_key(rows[a]@) != row_key(rows[b]@));
        } else {
            assert(!holds_at(rows, key, a));
        }
    }
    assert forall|k: Key| store_of(new).get(k) == store_of(rows).put(key, Some(row@)).get(k) by {
        if k == key {
            assert(holds_at(new, key, rows.len() as int));
            lemma_found(new, key, rows.len() as int);
        } else {
            if exists|j: int| holds_at(rows, k, j) {
                let j = choose|j: int| holds_at(rows, k, j);
                assert(holds_at(new, k, j));
                lemma_found(rows, k, j);
                lemma_found(new, k, j);
            } else {
                assert forall|j: int| !holds_at(new, k, j) by {
                    if 0 <= j < rows.len() {
                        assert(!holds_at(rows, k, j));
                    }
                }
            }
        }
    }
    lemma_same_store(store_of(new), store_of(rows).put(key, Some(row@)));
}

/// Taking out the row with a key.
proof fn lemma_removed(rows: Seq<StoredRow>, i: int, key: Key)
    requires
        keys_are_unique(rows),
        holds_at(rows, key, i),
    ensures
        keys_are_unique(rows.remove(i)),
        store_of(rows.remove(i)) == store_of(rows).put(key, None),
{
    let new = rows.remove(i);
    assert forall|a: int| 0 <= a < new.len() implies #[trigger] new[a] == rows[if a < i {
        a
    } else {
        a + 1
    }] by {}
    assert forall|a: int, b: int| 0 <= a < b < new.len() implies row_key(#[trigger] new[a]@)
        != row_key(#[trigger] new[b]@) by {
        let a0 = if a < i {
            a
        } else {
            a + 1
        };
        let b0 = if b < i {
            b
        } else {
            b + 1
        };
        assert(row_key(rows[a0]@) != row_key(rows[b0]@));
    }
    assert forall|k: Key| store_of(new).get(k) == store_of(rows).put(key, None).get(k) by {
        if k == key {
            assert forall|j: int| !holds_at(new, key, j) by {
                if 0 <= j < new.len() {
                    let j0 = if j < i {
                        j
                    } else {
                        j + 1
                    };
                    assert(new[j] == rows[j0]);
                    if j0 < i {
                        assert(row_key(rows[j0]@) != row_key(rows[i]@));
                    } else {
                        assert(row_key(rows[i]@) != row_key(rows[j0]@));
                    }
                }
            }
        } else {
            if exists|j: int| holds_at(rows, k, j) {
                let j = choose|j: int| holds_at(rows, k, j);
                let j1 = if j < i {
                    j
                } else {
                    j - 1
                };
                assert(j != i);
                assert(new[j1] == rows[j]);
                assert(holds_at(new, k, j1));
                lemma_found(rows, k, j);
                lemma_found(new, k, j1);
            } else {
                assert forall|j: int| !holds_at(new, k, j) by {
                    if 0 <= j < new.len() {
                        let j0 = if j < i {
                            j
                        } else {
                            j + 1
                        };
                        assert(new[j] == rows[j0]);
                        assert(!holds_at(rows, k, j0));
                    }
                }
            }
        }
    }
    lemma_same_store(store_of(new), store_of(rows).put(key, None));
}

/// The store held in memory.
#[derive(Debug, PartialEq, Eq)]
pub struct MemoryStore {
    rows: Vec<StoredRow>,
}

impl View for MemoryStore {
    type V = Store;

    closed spec fn view(&self) -> Store {
        store_of(self.rows@)
    }
}

fn row_matches(row: &StoredRow, mutation: &Mutation) -> (r: bool)
    ensures
        r == (row_key(row@) == mutation@.key()),
{
    match (row, mutation) {
        (StoredRow::Wallet(a), Mutation::UpsertWallet(b)) => same_text(
            a.wallet_address.as_str(),
            b.wallet_address.as_str(),
        ),
        (StoredRow::Owner(a), Mutation::UpsertOwner(b)) => same_text(
            a.owner_address.as_str(),
            b.owner_address.as_str(),
        ),
        (StoredRow::Membership(a), Mutation::InsertOwnerWallet(b)) => same_text(
            a.owner_address.as_str(),
            b.owner_address.as_str(),
        ) && same_text(a.wallet_address.as_str(), b.wallet_address.as_str()),
        (
            StoredRow::Membership(a),
            Mutation::RemoveOwnerWallet { owner_address, wallet_address },
        ) => same_text(a.owner_address.as_str(), owner_address.as_str()) && same_text(
            a.wallet_address.as_str(),
            wallet_address.as_str(),
        ),
        (StoredRow::Transaction(a), Mutation::UpsertTransaction(b)) => a.sequence_number
            == b.sequence_number && same_text(
            a.wallet_address.as_str(),
            b.wallet_address.as_str(),
        ),
        (StoredRow::Transaction(a), Mutation::UpdateTransaction(b)) => a.sequence_number
            == b.sequence_number && same_text(
            a.wallet_address.as_str(),
            b.wallet_address.as_str(),
        ),
        (StoredRow::Vote(a), Mutation::UpsertVote(b)) => a.transaction_sequence
            == b.transaction_sequence && same_text(
            a.wallet_address.as_str(),
            b.wallet_address.as_str(),
        ) && same_text(a.voter_address.as_str(), b.voter_address.as_str()),
        _ => false,
    }
}

/// A key to look for.
enum Probe<'a> {
    Wallet(&'a str),
    Owner(&'a str),
    Membership(&'a str, &'a str),
    Transaction(&'a str, i32),
    Vote(&'a str, i32, &'a str),
}

spec fn probe_key(wanted: Probe) -> Key {
    match wanted {
        Probe::Wallet(wallet) => Key::Wallet { wallet: wallet@ },
        Probe::Owner(owner) => Key::Owner { owner: owner@ },
        Probe::Membership(owner, wallet) => Key::Membership { owner: owner@, wallet: wallet@ },
        Probe::Transaction(wallet, sequence) => Key::Transaction { wallet: wallet@, sequence },
        Probe::Vote(wallet, sequence, voter) => Key::Vote {
            wallet: wallet@,
            sequence,
            voter: voter@,
        },
    }
}

fn probe_matches(row: &StoredRow, wanted: &Probe) -> (r: bool)
    ensures
        r == (row_key(row@) == probe_key(*wanted)),
{
    match (row, wanted) {
        (StoredRow::Wallet(a), Probe::Wallet(wallet)) => same_text(
            a.wallet_address.as_str(),
            wallet,
        ),
        (StoredRow::Owner(a), Probe::Owner(owner)) => same_text(a.owner_address.as_str(), owner),
        (StoredRow::Membership(a), Probe::Membership(owner, wallet)) => same_text(
            a.owner_address.as_str(),
            owner,
        ) && same_text(a.wallet_address.as_str(), wallet),
        (StoredRow::Transaction(a), Probe::Transaction(wallet, sequence)) => a.sequence_number
            == *sequence && same_text(a.wallet_address.as_str(), wallet),
        (StoredRow::Vote(a), Probe::Vote(wallet, sequence, voter)) => a.transaction_sequence
            == *sequence && same_text(a.wallet_address.as_str(), wallet) && same_text(
            a.voter_address.as_str(),
            voter,
        ),
        _ => false,
    }
}

fn refreshed(old: MultisigTransaction, new: MultisigTransaction) -> (r: MultisigTransaction)
    ensures
        r@ == creation_edits(new@).on(old@),
{
    MultisigTransaction {
        wallet_address: old.wallet_address,
        initiated_by: old.initiated_by,
        sequence_number: old.sequence_number,
        payload: new.payload,
        payload_hash: old.payload_hash,
        status: new.status,
        created_at: new.created_at,
        executed_at: old.executed_at,
        executor: old.executor,
        error: old.error,
    }
}

fn updated(old: MultisigTransaction, update: TransactionUpdate) -> (r: MultisigTransaction)
    ensures
        r@ == outcome_edits(update@).on(old@),
{
    MultisigTransaction {
        wallet_address: old.wallet_address,
        initiated_by: old.initiated_by,
        sequence_number: old.sequence_number,
        payload: match update.payload {
            Some(p) => p,
            None => old.payload,
        },
        payload_hash: old.payload_hash,
        status: update.status,
        created_at: old.created_at,
        executed_at: match update.executed_at {
            Some(t) => Some(t),
            None => old.executed_at,
        },
        executor: match update.executor {
            Some(e) => Some(e),
            None => old.executor,
        },
        error: match update.error {
            Some(e) => Some(e),
            None => old.error,
        },
    }
}

impl MemoryStore {
    /// No two rows of the store have the same primary key.
    pub closed spec fn wf(&self) -> bool {
        keys_are_unique(self.rows@)
    }

    /// A store with no rows.
    pub fn new() -> (r: Self)
        ensures
            r.wf(),
            r@ == Store::empty(),
    {
        let r = MemoryStore { rows: Vec::new() };
        proof {
            assert forall|key: Key| r@.get(key) == Store::empty().get(key) by {
                lemma_absent(r.rows@, key);
            }
            lemma_same_store(r@, Store::empty());
        }
        r
    }

    /// The number of rows, over all tables.
    pub fn row_count(&self) -> (r: usize)
        requires
            self.wf(),
        ensures
            self@.cells.dom().finite(),
            r == self@.cells.dom().len(),
    {
        proof {
            lemma_counted(self.rows@);
        }
        self.rows.len()
    }

    fn probe(&self, wanted: &Probe) -> (r: Option<usize>)
        ensures
            match r {
                Some(i) => holds_at(self.rows@, probe_key(*wanted), i as int),
                None => forall|i: int| !holds_at(self.rows@, probe_key(*wanted), i),
            },
    {
        let mut i: usize = 0;
        while i < self.rows.len()
            invariant
                0 <= i <= self.rows.len(),
                forall|k: int| 0 <= k < i ==> !holds_at(self.rows@, probe_key(*wanted), k),
            decreases self.rows.len() - i,
        {
            if probe_matches(&self.rows[i], wanted) {
                return Some(i);
            }
            i += 1;
        }
        None
    }

    /// The wallet with this address.
    pub fn wallet(&self, wallet_address: &str) -> (r: Option<&MultisigWallet>)
        requires
            self.wf(),
        ensures
            match r {
                Some(row) => self@.wallet(wallet_address@) == Some(row@),
                None => self@.wallet(wallet_address@) is None,
            },
    {
        let wanted = Probe::Wallet(wallet_address);
        match self.probe(&wanted) {
            Some(i) => {
                proof {
                    lemma_found(self.rows@, probe_key(wanted), i as int);
                }
                match &self.rows[i] {
                    StoredRow::Wallet(row) => Some(row),
                    _ => None,
                }
            },
            None => {
                proof {
                    lemma_absent(self.rows@, probe_key(wanted));
                }
                None
            },
        }
    }

    /// The owner with this address.
    pub fn owner(&self, owner_address: &str) -> (r: Option<&MultisigOwner>)
        requires
            self.wf(),
        ensures
            match r {
                Some(row) => self@.owner(owner_address@) == Some(row@),
                None => self@.owner(owner_address@) is None,
            },
    {
        let wanted = Probe::Owner(owner_address);
        match self.probe(&wanted) {
            Some(i) => {
                proof {
                    lemma_found(self.rows@, probe_key(wanted), i as int);
                }
                match &self.rows[i] {
                    StoredRow::Owner(row) => Some(row),
                    _ => None,
                }
            },
            None => {
                proof {
                    lemma_absent(self.rows@, probe_key(wanted));
                }
                None
            },
        }
    }

    /// The membership of an owner in a wallet.
    pub fn membership(&self, owner_address: &str, wallet_address: &str) -> (r: Option<
        &OwnersWallet,
    >)
        requires
            self.wf(),
        ensures
            match r {
                Some(row) => self@.membership(owner_address@, wallet_address@) == Some(row@),
                None => self@.membership(owner_address@, wallet_address@) is None,
            },
    {
        let wanted = Probe::Membership(owner_address, wallet_address);
        match self.probe(&wanted) {
            Some(i) => {
                proof {
                    lemma_found(self.rows@, probe_key(wanted), i as int);
                }
                match &self.rows[i] {
                    StoredRow::Membership(row) => Some(row),
                    _ => None,
                }
            },
            None => {
                proof {
                    lemma_absent(self.rows@, probe_key(wanted));
                }
                None
            },
        }
    }

    /// The transaction of a wallet with this sequence number.
    pub fn transaction(&self, wallet_address: &str, sequence_number: i32) -> (r: Option<
        &MultisigTransaction,
    >)
        requires
            self.wf(),
        ensures
            match r {
                Some(row) => self@.transaction(wallet_address@, sequence_number) == Some(row@),
                None => self@.transaction(wallet_address@, sequence_number) is None,
            },
    {
        let wanted = Probe::Transaction(wallet_address, sequence_number);
        match self.probe(&wanted) {
            Some(i) => {
                proof {
                    lemma_found(self.rows@, probe_key(wanted), i as int);
                }
                match &self.rows[i] {
                    StoredRow::Transaction(row) => Some(row),
                    _ => None,
                }
            },
            None => {
                proof {
                    lemma_absent(self.rows@, probe_key(wanted));
                }
                None
            },
        }
    }

    /// The vote of a voter on the transaction of a wallet with this sequence
    /// number.
    pub fn vote(&self, wallet_address: &str, sequence_number: i32, voter_address: &str) -> (r:
        Option<&MultisigVotingTransaction>)
        requires
            self.wf(),
        ensures
            match r {
                Some(row) => self@.vote(wallet_address@, sequence_number, voter_address@) == Some(
                    row@,
                ),
                None => self@.vote(wallet_address@, sequence_number, voter_address@) is None,
            },
    {
        let wanted = Probe::Vote(wallet_address, sequence_number, voter_address);
        match self.probe(&wanted) {
            Some(i) => {
                proof {
                    lemma_found(self.rows@, probe_key(wanted), i as int);
                }
                match &self.rows[i] {
                    StoredRow::Vote(row) => Some(row),
                    _ => None,
                }
            },
            None => {
                proof {
                    lemma_absent(self.rows@, probe_key(wanted));
                }
                None
            },
        }
    }

    fn find(&self, mutation: &Mutation) -> (r: Option<usize>)
        ensures
            match r {
                Some(i) => holds_at(self.rows@, mutation@.key(), i as int),
                None => forall|i: int| !holds_at(self.rows@, mutation@.key(), i),
            },
    {
        let mut i: usize = 0;
        while i < self.rows.len()
            invariant
                0 <= i <= self.rows.len(),
                forall|k: int| 0 <= k < i ==> !holds_at(self.rows@, mutation@.key(), k),
            decreases self.rows.len() - i,
        {
            if row_matches(&self.rows[i], mutation) {
                return Some(i);
            }
            i += 1;
        }
        None
    }

    /// Makes one change, by the conflict rule of its table.
    pub fn apply(&mut self, mutation: Mutation)
        requires
            old(self).wf(),
        ensures
            final(self).wf(),
            final(self)@ == old(self)@.apply(mutation@),
    {
        let ghost key = mutation@.key();
        let ghost before = self.rows@;
        let found = self.find(&mutation);
        proof {
            match found {
                Some(i) => {
                    lemma_found(before, key, i as int);
                },
                None => {
                    lemma_absent(before, key);
                },
            }
        }
        match mutation {
            Mutation::UpsertWallet(r) => {
                self.put_row(found, StoredRow::Wallet(r), Ghost(key));
            },
            Mutation::UpsertOwner(r) => {
                self.put_row(found, StoredRow::Owner(r), Ghost(key));
            },
            Mutation::UpsertVote(r) => {
                self.put_row(found, StoredRow::Vote(r), Ghost(key));
            },
            Mutation::InsertOwnerWallet(r) => {
                match found {
                    Some(i) => {
                        proof {
                            lemma_same_store(
                                store_of(before),
                                store_of(before).put(key, Some(before[i as int]@)),
                            );
                        }
                    },
                    None => {
                        self.put_row(found, StoredRow::Membership(r), Ghost(key));
                    },
                }
            },
            Mutation::RemoveOwnerWallet { .. } => {
                match found {
                    Some(i) => {
                        proof {
                            lemma_removed(before, i as int, key);
                        }
                        self.rows.remove(i);
                    },
                    None => {
                        proof {
                            lemma_same_store(store_of(before), store_of(before).put(key, None));
                        }
                    },
                }
            },
            Mutation::UpsertTransaction(r) => {
                match found {
                    Some(i) => {
                        let old_row = self.rows.remove(i);
                        proof {
                            lemma_removed(before, i as int, key);
                        }
                        match old_row {
                            StoredRow::Transaction(old) => {
                                let row = StoredRow::Transaction(refreshed(old, r));
                                self.add_row(row, Ghost(key), Ghost(before), Ghost(i as int));
                            },
                            other => {
                                // Only a transaction has a transaction's key.
                                proof {
                                    assert(false);
                                }
                                self.add_row(other, Ghost(key), Ghost(before), Ghost(i as int));
                            },
                        }
                    },
                    None => {
                        self.put_row(found, StoredRow::Transaction(r), Ghost(key));
                    },
                }
            },
            Mutation::UpdateTransaction(u) => {
                match found {
                    Some(i) => {
                        let old_row = self.rows.remove(i);
                        proof {
                            lemma_removed(before, i as int, key);
                        }
                        match old_row {
                            StoredRow::Transaction(old) => {
                                let row = StoredRow::Transaction(updated(old, u));
                                self.add_row(row, Ghost(key), Ghost(before), Ghost(i as int));
                            },
                            other => {
                                // Only a transaction has a transaction's key.
                                proof {
                                    assert(false);
                                }
                                self.add_row(other, Ghost(key), Ghost(before), Ghost(i as int));
                            },
                        }
                    },
                    None => {
                        proof {
                            lemma_same_store(store_of(before), store_of(before).put(key, None));
                        }
                    },
                }
            },
        }
    }

    /// Writes `row` at the place that was found for its key, or at the end.
    fn put_row(&mut self, found: Option<usize>, row: StoredRow, Ghost(key): Ghost<Key>)
        requires
            old(self).wf(),
            row_key(row@) == key,
            match found {
                Some(i) => holds_at(old(self).rows@, key, i as int),
                None => forall|i: int| !holds_at(old(self).rows@, key, i),
            },
        ensures
            final(self).wf(),
            final(self)@ == old(self)@.put(key, Some(row@)),
    {
        match found {
            Some(i) => {
                proof {
                    lemma_replaced(self.rows@, i as int, row, key);
                }
                self.rows.set(i, row);
            },
            None => {
                proof {
                    lemma_added(self.rows@, row, key);
                }
                self.rows.push(row);
            },
        }
    }

    /// Puts back, changed, the row that was taken out at `at`.
    fn add_row(
        &mut self,
        row: StoredRow,
        Ghost(key): Ghost<Key>,
        Ghost(before): Ghost<Seq<StoredRow>>,
        Ghost(at): Ghost<int>,
    )
        requires
            keys_are_unique(before),
            holds_at(before, key, at),
            old(self).rows@ == before.remove(at),
            keys_are_unique(old(self).rows@),
            store_of(old(self).rows@) == store_of(before).put(key, None),
            row_key(row@) == key,
        ensures
            final(self).wf(),
            final(self)@ == store_of(before).put(key, Some(row@)),
    {
        proof {
            let rows = self.rows@;
            assert forall|i: int| !holds_at(rows, key, i) by {
                if holds_at(rows, key, i) {
                    lemma_found(rows, key, i);
                }
            }
            lemma_added(rows, row, key);
            lemma_same_store(
                store_of(before).put(key, None).put(key, Some(row@)),
                store_of(before).put(key, Some(row@)),
            );
        }
        self.rows.push(row);
    }

    /// Makes a run of changes, in order.
    pub fn apply_all(&mut self, mutations: Vec<Mutation>)
        requires
            old(self).wf(),
        ensures
            final(self).wf(),
            final(self)@ == old(self)@.apply_all(crate::models::changes_of(mutations@)),
    {
        let mut mutations = mutations;
        let ghost queued = mutations@;
        let ghost all = crate::models::changes_of(queued);
        let ghost start = self@;
        let mut done: Ghost<int> = Ghost(0);
        assert(all.take(0) =~= Seq::<Change>::empty());
        assert(queued.skip(0) =~= queued);
        while mutations.len() > 0
            invariant
                self.wf(),
                all == crate::models::changes_of(queued),
                0 <= done@ <= queued.len(),
                mutations@ == queued.skip(done@),
                self@ == start.apply_all(all.take(done@)),
            decreases mutations.len(),
        {
            let next = mutations.remove(0);
            proof {
                assert(next == queued[done@]);
                assert(all.take(done@ + 1).drop_last() =~= all.take(done@));
                assert(all.take(done@ + 1).last() == next@);
                assert(queued.skip(done@).remove(0) =~= queued.skip(done@ + 1));
                done@ = done@ + 1;
            }
            self.apply(next);
        }
        assert(all.take(done@) =~= all);
    }
}

} // verus!
