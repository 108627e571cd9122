//! The rows of the five tables and the changes that are made to them.

use vstd::prelude::*;
use crate::json::{Json, JsonValue};

verus! {

/// Where a proposed transaction stands.
#[derive(Clone, Copy, Debug, PartialEq, Eq, Structural)]
pub enum TransactionStatus {
    Pending,
    Rejected,
    Success,
    Failed,
}

/// The number under which a status is stored.
pub open spec fn status_code(status: TransactionStatus) -> i32 {
    match status {
        TransactionStatus::Pending => 1,
        TransactionStatus::Rejected => 2,
        TransactionStatus::Success => 3,
        TransactionStatus::Failed => 4,
    }
}

impl TransactionStatus {
    /// The number under which this status is stored.
    pub fn code(&self) -> (r: i32)
        ensures
            r == status_code(*self),
    {
        match self {
            TransactionStatus::Pending => 1,
            TransactionStatus::Rejected => 2,
            TransactionStatus::Success => 3,
            TransactionStatus::Failed => 4,
        }
    }
}

/// The value of a text that may be absent.
pub open spec fn text_view(t: Option<String>) -> Option<Seq<char>> {
    match t {
        Some(s) => Some(s@),
        None => None,
    }
}

/// The value of a JSON value that may be absent.
pub open spec fn json_view(j: Option<Json>) -> Option<JsonValue> {
    match j {
        Some(j) => Some(j@),
        None => None,
    }
}

/// A multisig wallet. Times are seconds since the epoch.
#[derive(Debug, PartialEq, Eq)]
pub struct MultisigWallet {
    pub wallet_address: String,
    pub required_signatures: i32,
    pub metadata: Option<Json>,
    pub created_at: i64,
}

/// The value of a [`MultisigWallet`].
pub struct WalletRow {
    pub wallet_address: Seq<char>,
    pub required_signatures: i32,
    pub metadata: Option<JsonValue>,
    pub created_at: i64,
}

impl View for MultisigWallet {
    type V = WalletRow;

    open spec fn view(&self) -> WalletRow {
        WalletRow {
            wallet_address: self.wallet_address@,
            required_signatures: self.required_signatures,
            metadata: json_view(self.metadata),
            created_at: self.created_at,
        }
    }
}

/// An address that owns, or once owned, some wallet.
#[derive(Debug, PartialEq, Eq)]
pub struct MultisigOwner {
    pub owner_address: String,
    pub created_at: i64,
}

/// The value of a [`MultisigOwner`].
pub struct OwnerRow {
    pub owner_address: Seq<char>,
    pub created_at: i64,
}

impl View for MultisigOwner {
    type V = OwnerRow;

    open spec fn view(&self) -> OwnerRow {
        OwnerRow { owner_address: self.owner_address@, created_at: self.created_at }
    }
}

/// The membership of one owner in one wallet.
#[derive(Debug, PartialEq, Eq)]
pub struct OwnersWallet {
    pub owner_address: String,
    pub wallet_address: String,
    pub created_at: i64,
}

/// The value of an [`OwnersWallet`].
pub struct MembershipRow {
    pub owner_address: Seq<char>,
    pub wallet_address: Seq<char>,
    pub created_at: i64,
}

impl View for OwnersWallet {
    type V = MembershipRow;

    open spec fn view(&self) -> MembershipRow {
        MembershipRow {
            owner_address: self.owner_address@,
            wallet_address: self.wallet_address@,
            created_at: self.created_at,
        }
    }
}

/// A transaction proposed to a wallet.
#[derive(Debug, PartialEq, Eq)]
pub struct MultisigTransaction {
    pub wallet_address: String,
    pub initiated_by: String,
    pub sequence_number: i32,
    pub payload: Json,
    pub payload_hash: Option<Json>,
    pub status: i32,
    pub created_at: i64,
    pub executed_at: Option<i64>,
    pub executor: Option<String>,
    pub error: Option<Json>,
}

/// The value of a [`MultisigTransaction`].
pub struct TransactionRow {
    pub wallet_address: Seq<char>,
    pub initiated_by: Seq<char>,
    pub sequence_number: i32,
    pub payload: JsonValue,
    pub payload_hash: Option<JsonValue>,
    pub status: i32,
    pub created_at: i64,
    pub executed_at: Option<i64>,
    pub executor: Option<Seq<char>>,
    pub error: Option<JsonValue>,
}

impl View for MultisigTransaction {
    type V = TransactionRow;

    open spec fn view(&self) -> TransactionRow {
        TransactionRow {
            wallet_address: self.wallet_address@,
            initiated_by: self.initiated_by@,
            sequence_number: self.sequence_number,
            payload: self.payload@,
            payload_hash: json_view(self.payload_hash),
            status: self.status,
            created_at: self.created_at,
            executed_at: self.executed_at,
            executor: text_view(self.executor),
            error: json_view(self.error),
        }
    }
}

/// One owner's vote on one transaction.
#[derive(Debug, PartialEq, Eq)]
pub struct MultisigVotingTransaction {
    pub wallet_address: String,
    pub transaction_sequence: i32,
    pub voter_address: String,
    pub value: bool,
    pub created_at: i64,
}

/// The value of a [`MultisigVotingTransaction`].
pub struct VoteRow {
    pub wallet_address: Seq<char>,
    pub transaction_sequence: i32,
    pub voter_address: Seq<char>,
    pub value: bool,
    pub created_at: i64,
}

impl View for MultisigVotingTransaction {
    type V = VoteRow;

    open spec fn view(&self) -> VoteRow {
        VoteRow {
            wallet_address: self.wallet_address@,
            transaction_sequence: self.transaction_sequence,
            voter_address: self.voter_address@,
            value: self.value,
            created_at: self.created_at,
        }
    }
}

/// What the end of a transaction's life writes to its row. A field that is
/// `None` is left as it stands in the row.
#[derive(Debug, PartialEq, Eq)]
pub struct TransactionUpdate {
    pub wallet_address: String,
    pub sequence_number: i32,
    pub status: i32,
    pub executor: Option<String>,
    pub executed_at: Option<i64>,
    pub payload: Option<Json>,
    pub error: Option<Json>,
}

/// The value of a [`TransactionUpdate`].
pub struct TransactionPatch {
    pub wallet_address: Seq<char>,
    pub sequence_number: i32,
    pub status: i32,
    pub executor: Option<Seq<char>>,
    pub executed_at: Option<i64>,
    pub payload: Option<JsonValue>,
    pub error: Option<JsonValue>,
}

impl View for TransactionUpdate {
    type V = TransactionPatch;

    open spec fn view(&self) -> TransactionPatch {
        TransactionPatch {
            wallet_address: self.wallet_address@,
            sequence_number: self.sequence_number,
            status: self.status,
            executor: text_view(self.executor),
            executed_at: self.executed_at,
            payload: json_view(self.payload),
            error: json_view(self.error),
        }
    }
}

/// One change to one row of the store.
#[derive(Debug, PartialEq, Eq)]
pub enum Mutation {
    /// Insert the wallet, or overwrite the row with the same address.
    UpsertWallet(MultisigWallet),
    /// Insert the owner, or refresh the row with the same address.
    UpsertOwner(MultisigOwner),
    /// Insert the membership unless the pair is already there.
    InsertOwnerWallet(OwnersWallet),
    /// Delete the membership of this owner in this wallet, if there is one.
    RemoveOwnerWallet { owner_address: String, wallet_address: String },
    /// Insert the transaction, or refresh creation time, payload and status of
    /// the row with the same wallet and sequence number.
    UpsertTransaction(MultisigTransaction),
    /// Write the outcome of an execution to the transaction's row, if there
    /// is one.
    UpdateTransaction(TransactionUpdate),
    /// Insert the vote, or overwrite the one by the same voter on the same
    /// transaction.
    UpsertVote(MultisigVotingTransaction),
}

/// The value of a [`Mutation`].
pub enum Change {
    UpsertWallet(WalletRow),
    UpsertOwner(OwnerRow),
    InsertOwnerWallet(MembershipRow),
    RemoveOwnerWallet { owner_address: Seq<char>, wallet_address: Seq<char> },
    UpsertTransaction(TransactionRow),
    UpdateTransaction(TransactionPatch),
    UpsertVote(VoteRow),
}

impl View for Mutation {
    type V = Change;

    open spec fn view(&self) -> Change {
        match self {
            Mutation::UpsertWallet(r) => Change::UpsertWallet(r@),
            Mutation::UpsertOwner(r) => Change::UpsertOwner(r@),
            Mutation::InsertOwnerWallet(r) => Change::InsertOwnerWallet(r@),
            Mutation::RemoveOwnerWallet { owner_address, wallet_address } => {
                Change::RemoveOwnerWallet {
                    owner_address: owner_address@,
                    wallet_address: wallet_address@,
                }
            },
            Mutation::UpsertTransaction(r) => Change::UpsertTransaction(r@),
            Mutation::UpdateTransaction(u) => Change::UpdateTransaction(u@),
            Mutation::UpsertVote(r) => Change::UpsertVote(r@),
        }
    }
}

/// The values of a run of mutations, in order.
pub open spec fn changes_of(mutations: Seq<Mutation>) -> Seq<Change> {
    Seq::new(mutations.len(), |i: int| mutations[i]@)
}

} // verus!
