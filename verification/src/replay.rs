//! Processing a batch a second time leaves the store as the first time left
//! it.

use vstd::prelude::*;
use crate::events::{batch_changes, ResolvedPayload, Transaction};
use crate::models::{Change, TransactionRow};
use crate::store::{creation_edits, outcome_edits, Edits, Key, Row, Store};

verus! {

/// `change` creates the transaction of `wallet` with this sequence number.
pub open spec fn creates(change: Change, wallet: Seq<char>, sequence: i32) -> bool {
    change matches Change::UpsertTransaction(r) && r.wallet_address == wallet && r.sequence_number
        == sequence
}

/// `change` writes an outcome to the transaction of `wallet` with this
/// sequence number.
pub open spec fn updates(change: Change, wallet: Seq<char>, sequence: i32) -> bool {
    change matches Change::UpdateTransaction(p) && p.wallet_address == wallet && p.sequence_number
        == sequence
}

/// Some change of the run creates the transaction.
pub open spec fn has_creation(changes: Seq<Change>, wallet: Seq<char>, sequence: i32) -> bool
    decreases changes.len(),
{
    changes.len() > 0 && (creates(changes.last(), wallet, sequence) || has_creation(
        changes.drop_last(),
        wallet,
        sequence,
    ))
}

/// Some change of the run writes an outcome to the transaction.
pub open spec fn has_update(changes: Seq<Change>, wallet: Seq<char>, sequence: i32) -> bool
    decreases changes.len(),
{
    changes.len() > 0 && (updates(changes.last(), wallet, sequence) || has_update(
        changes.drop_last(),
        wallet,
        sequence,
    ))
}

/// In the run, no outcome is written to the transaction before the run's
/// first creation of it: a creation either follows another creation or has
/// no outcome before it.
pub open spec fn creation_leads(changes: Seq<Change>, wallet: Seq<char>, sequence: i32) -> bool
    decreases changes.len(),
{
    changes.len() == 0 || (creation_leads(changes.drop_last(), wallet, sequence) && (creates(
        changes.last(),
        wallet,
        sequence,
    ) ==> has_creation(changes.drop_last(), wallet, sequence) || !has_update(
        changes.drop_last(),
        wallet,
        sequence,
    )))
}

/// [`creation_leads`] for every transaction.
pub open spec fn creations_lead(changes: Seq<Change>) -> bool {
    forall|wallet: Seq<char>, sequence: i32| #[trigger] creation_leads(changes, wallet, sequence)
}

/// What a run of changes does to one row, whatever stood there before.
enum Effect {
    /// Nothing.
    Keep,
    /// The row is this, or is gone.
    Fixed(Option<Row>),
    /// A row that is there stays; otherwise this one is there.
    Fill(Row),
    /// A transaction that is there has `edits` assigned; otherwise `base` is
    /// there, if the run created the transaction.
    Edit { edits: Edits, base: Option<TransactionRow> },
}

spec fn run(effect: Effect, before: Option<Row>) -> Option<Row> {
    match effect {
        Effect::Keep => before,
        Effect::Fixed(row) => row,
        Effect::Fill(row) => match before {
            Some(old) => Some(old),
            None => Some(row),
        },
        Effect::Edit { edits, base } => match before {
            Some(Row::Transaction(old)) => Some(Row::Transaction(edits.on(old))),
            _ => match base {
                Some(b) => Some(Row::Transaction(b)),
                None => before,
            },
        },
    }
}

spec fn follow(effect: Effect, change: Change) -> Effect {
    match change {
        Change::UpsertWallet(r) => Effect::Fixed(Some(Row::Wallet(r))),
        Change::UpsertOwner(r) => Effect::Fixed(Some(Row::Owner(r))),
        Change::UpsertVote(r) => Effect::Fixed(Some(Row::Vote(r))),
        Change::RemoveOwnerWallet { .. } => Effect::Fixed(None),
        Change::InsertOwnerWallet(r) => match effect {
            Effect::Keep => Effect::Fill(Row::Membership(r)),
            Effect::Fixed(Some(v)) => Effect::Fixed(Some(v)),
            Effect::Fixed(None) => Effect::Fixed(Some(Row::Membership(r))),
            other => other,
        },
        Change::UpsertTransaction(r) => match effect {
            Effect::Edit { edits, base } => Effect::Edit {
                edits: edits.followed_by(creation_edits(r)),
                base: Some(
                    match base {
                        Some(b) => creation_edits(r).on(b),
                        None => r,
                    },
                ),
            },
            _ => Effect::Edit { edits: creation_edits(r), base: Some(r) },
        },
        Change::UpdateTransaction(p) => match effect {
            Effect::Edit { edits, base } => Effect::Edit {
                edits: edits.followed_by(outcome_edits(p)),
                base: match base {
                    Some(b) => Some(outcome_edits(p).on(b)),
                    None => None,
                },
            },
            _ => Effect::Edit { edits: outcome_edits(p), base: None },
        },
    }
}

spec fn summary(changes: Seq<Change>, key: Key) -> Effect
    decreases changes.len(),
{
    if changes.len() == 0 {
        Effect::Keep
    } else if changes.last().key() == key {
        follow(summary(changes.drop_last(), key), changes.last())
    } else {
        summary(changes.drop_last(), key)
    }
}

/// The effect has the shape that changes to a row of this table build.
spec fn proper(effect: Effect, key: Key) -> bool {
    match key {
        Key::Transaction { .. } => effect is Keep || effect is Edit,
        _ => !(effect is Edit),
    }
}

/// Running the effect twice is running it once.
spec fn settled(effect: Effect) -> bool {
    match effect {
        Effect::Edit { edits, base: Some(b) } => edits.on(b) == b,
        _ => true,
    }
}

proof fn lemma_summary_proper(changes: Seq<Change>, key: Key)
    ensures
        proper(summary(changes, key), key),
    decreases changes.len(),
{
    if changes.len() > 0 {
        lemma_summary_proper(changes.drop_last(), key);
    }
}

proof fn lemma_follow(effect: Effect, change: Change, before: Option<Row>)
    requires
        proper(effect, change.key()),
    ensures
        run(follow(effect, change), before) == change.outcome(run(effect, before)),
{
}

proof fn lemma_summary(store: Store, changes: Seq<Change>, key: Key)
    ensures
        store.apply_all(changes).get(key) == run(summary(changes, key), store.get(key)),
    decreases changes.len(),
{
    if changes.len() > 0 {
        let rest = changes.drop_last();
        lemma_summary(store, rest, key);
        lemma_summary_proper(rest, key);
        if changes.last().key() == key {
            lemma_follow(summary(rest, key), changes.last(), store.get(key));
        }
    }
}

proof fn lemma_settled_runs_once(effect: Effect, before: Option<Row>)
    requires
        settled(effect),
    ensures
        run(effect, run(effect, before)) == run(effect, before),
{
}

proof fn lemma_summary_settled(changes: Seq<Change>, wallet: Seq<char>, sequence: i32)
    requires
        creation_leads(changes, wallet, sequence),
    ensures
        settled(summary(changes, Key::Transaction { wallet, sequence })),
        match summary(changes, Key::Transaction { wallet, sequence }) {
            Effect::Edit { edits, base: None } => has_update(changes, wallet, sequence)
                && !has_creation(changes, wallet, sequence),
            Effect::Edit { edits, base: Some(b) } => has_creation(changes, wallet, sequence),
            _ => !has_update(changes, wallet, sequence) && !has_creation(
                changes,
                wallet,
                sequence,
            ),
        },
    decreases changes.len(),
{
    let key = Key::Transaction { wallet, sequence };
    if changes.len() > 0 {
        let rest = changes.drop_last();
        lemma_summary_settled(rest, wallet, sequence);
        lemma_summary_proper(rest, key);
        let last = changes.last();
        assert(last.key() == key <==> creates(last, wallet, sequence) || updates(
            last,
            wallet,
            sequence,
        ));
    }
}

/// Replaying a run of changes on the store it produced changes nothing: every
/// table holds the same rows with the same contents, and no row twice.
///
/// This holds of every run in which no outcome is written to a transaction
/// before the run first creates it. (An outcome that comes before the
/// creation finds no row the first time and a row the second time.)
pub proof fn replay_is_idempotent(store: Store, changes: Seq<Change>)
    requires
        creations_lead(changes),
    ensures
        store.apply_all(changes).apply_all(changes) == store.apply_all(changes),
{
    let once = store.apply_all(changes);
    let twice = once.apply_all(changes);
    assert forall|key: Key| twice.get(key) == once.get(key) by {
        lemma_summary(store, changes, key);
        lemma_summary(once, changes, key);
        match key {
            Key::Transaction { wallet, sequence } => {
                assert(creation_leads(changes, wallet, sequence));
                lemma_summary_settled(changes, wallet, sequence);
            },
            _ => {
                lemma_summary_proper(changes, key);
            },
        }
        lemma_settled_runs_once(summary(changes, key), store.get(key));
    }
    assert forall|key: Key| twice.cells.dom().contains(key) == once.cells.dom().contains(key) by {
        assert(twice.get(key) == once.get(key));
    }
    assert forall|key: Key| twice.cells.dom().contains(key) implies twice.cells[key]
        == once.cells[key] by {
        assert(twice.get(key) == once.get(key));
    }
    assert(twice.cells =~= once.cells);
}

/// Processing a batch a second time, with the same calls resolved the same
/// way, changes nothing in the store that the first time left: no row is
/// added, none is lost and none differs.
///
/// This holds of every batch that writes no outcome to a transaction before
/// it first creates it.
pub proof fn reprocessing_is_idempotent(
    store: Store,
    transactions: Seq<Transaction>,
    resolutions: Seq<Vec<Option<ResolvedPayload>>>,
)
    requires
        creations_lead(batch_changes(transactions, resolutions)),
    ensures
        ({
            let changes = batch_changes(transactions, resolutions);
            store.apply_all(changes).apply_all(changes) == store.apply_all(changes)
        }),
{
    replay_is_idempotent(store, batch_changes(transactions, resolutions));
}

} // verus!
