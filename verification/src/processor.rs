//! The processors that this crate configures, and the one it implements.

use vstd::prelude::*;
use crate::chunks::{chunk_size_for, configured_size, get_config_table_chunk_size, held_sizes};
use crate::events::{
    batch_changes, batch_failures, process_transactions, skipped_transactions, Batch,
    ResolvedPayload, Transaction,
};
use crate::models::changes_of;

verus! {

/// What is known of the pool of store connections.
#[derive(Clone, Copy, Debug, PartialEq, Eq, Structural)]
pub struct PoolState {
    pub connections: u32,
    pub idle_connections: u32,
}

/// How long to go on asking the pool for a connection.
#[derive(Clone, Copy, Debug, PartialEq, Eq, Structural)]
pub enum RetryPolicy {
    /// Until there is one: a store that cannot be reached stalls the
    /// processor and never fails a batch.
    Forever,
    /// Until this many attempts have failed.
    AtMost(u64),
}

/// What to do after the pool was asked for a connection.
#[derive(Clone, Copy, Debug, PartialEq, Eq, Structural)]
pub enum ConnectionStep {
    /// The pool gave a connection: use it.
    Use,
    /// Ask again; this many attempts have failed so far.
    AskAgain { failed: u64 },
    /// Give up; this many attempts have failed.
    GiveUp { failed: u64 },
}

/// The count that follows `n`, which stays at the largest count once there.
pub open spec fn counted_up(n: u64) -> u64 {
    if n == u64::MAX {
        n
    } else {
        (n + 1) as u64
    }
}

/// What follows an attempt, given how many attempts failed before it: a
/// connection is used; a failure is counted and, unless the policy's limit
/// is reached, followed by another attempt.
pub open spec fn connection_outcome(policy: RetryPolicy, failed_before: u64, got: bool)
    -> ConnectionStep {
    if got {
        ConnectionStep::Use
    } else {
        let failed = counted_up(failed_before);
        match policy {
            RetryPolicy::Forever => ConnectionStep::AskAgain { failed },
            RetryPolicy::AtMost(most) => if failed >= most {
                ConnectionStep::GiveUp { failed }
            } else {
                ConnectionStep::AskAgain { failed }
            },
        }
    }
}

impl RetryPolicy {
    /// Decides what follows an attempt to get a connection.
    pub fn after_attempt(&self, failed_before: u64, got: bool) -> (r: ConnectionStep)
        ensures
            r == connection_outcome(*self, failed_before, got),
    {
        if got {
            return ConnectionStep::Use;
        }
        let failed: u64 = if failed_before == u64::MAX {
            failed_before
        } else {
            failed_before + 1
        };
        match self {
            RetryPolicy::Forever => ConnectionStep::AskAgain { failed },
            RetryPolicy::AtMost(most) => if failed >= *most {
                ConnectionStep::GiveUp { failed }
            } else {
                ConnectionStep::AskAgain { failed }
            },
        }
    }
}

/// Under the policy that never gives up, no attempt ends in giving up.
pub proof fn forever_never_gives_up(failed_before: u64, got: bool)
    ensures
        !(connection_outcome(RetryPolicy::Forever, failed_before, got) is GiveUp),
{
}

/// The configuration of a processor: which one to run.
#[derive(Clone, Copy, Debug, PartialEq, Eq, Structural)]
pub enum CustomProcessorConfig {
    MultisigProcessor,
}

/// The names of the processors.
#[derive(Clone, Copy, Debug, PartialEq, Eq, Structural)]
pub enum CustomProcessorName {
    MultisigProcessor,
}

/// The name of the multisig processor, in snake case.
pub open spec fn multisig_processor_name() -> Seq<char> {
    "multisig_processor"@
}

/// The name of the events processor, in snake case.
pub open spec fn events_processor_name() -> Seq<char> {
    "events_processor"@
}

impl CustomProcessorName {
    /// The name in snake case.
    pub fn as_str(&self) -> (r: &'static str)
        ensures
            r@ == multisig_processor_name(),
    {
        match self {
            CustomProcessorName::MultisigProcessor => "multisig_processor",
        }
    }

    /// The names of all processors that can be configured, in order.
    pub fn variants() -> (r: Vec<&'static str>)
        ensures
            r@.len() == 1,
            r@[0]@ == multisig_processor_name(),
    {
        let mut names: Vec<&'static str> = Vec::new();
        names.push("multisig_processor");
        names
    }
}

impl CustomProcessorConfig {
    /// The name of the configured processor.
    pub fn name(&self) -> (r: &'static str)
        ensures
            r@ == multisig_processor_name(),
    {
        match self {
            CustomProcessorConfig::MultisigProcessor => "multisig_processor",
        }
    }
}

/// The processor of the multisig contract's transactions.
#[derive(Debug, PartialEq, Eq)]
pub struct MultisigProcessor {
    pub connection_pool: PoolState,
    pub per_table_chunk_sizes: ahash::AHashMap<String, usize>,
}

impl MultisigProcessor {
    /// A processor over the given pool, with the given number of rows per
    /// statement for the tables that are named.
    pub fn new(
        connection_pool: PoolState,
        per_table_chunk_sizes: ahash::AHashMap<String, usize>,
    ) -> (r: Self)
        ensures
            r.connection_pool == connection_pool,
            r.per_table_chunk_sizes == per_table_chunk_sizes,
    {
        Self { connection_pool, per_table_chunk_sizes }
    }

    /// The processor's name.
    pub fn name(&self) -> (r: &'static str)
        ensures
            r@ == multisig_processor_name(),
    {
        "multisig_processor"
    }

    /// The pool that the processor writes through.
    pub fn connection_pool(&self) -> (r: &PoolState)
        ensures
            *r == self.connection_pool,
    {
        &self.connection_pool
    }

    /// The number of rows per statement for a table of this many columns.
    pub fn chunk_size(&self, table_name: &str, columns: usize) -> (r: usize)
        ensures
            r == chunk_size_for(
                configured_size(held_sizes(self.per_table_chunk_sizes), table_name@),
                columns,
            ),
    {
        get_config_table_chunk_size(table_name, columns, &self.per_table_chunk_sizes)
    }

    /// Works out everything that a batch of transactions changes, in arrival
    /// order, and the summary of the batch.
    pub fn process_transactions(
        &self,
        transactions: &Vec<Transaction>,
        resolutions: &Vec<Vec<Option<ResolvedPayload>>>,
        start_version: u64,
        end_version: u64,
    ) -> (r: Batch)
        ensures
            changes_of(r.mutations@) == batch_changes(transactions@, resolutions@),
            r.failures@ == batch_failures(transactions@, resolutions@),
            r.skipped_transactions == skipped_transactions(transactions@),
            r.result.start_version == start_version,
            r.result.end_version == end_version,
            r.result.last_transaction_timestamp == if transactions.len() == 0 {
                None
            } else {
                Some(transactions@.last().timestamp)
            },
    {
        process_transactions(transactions, resolutions, start_version, end_version)
    }
}

/// The processors that this crate implements.
#[derive(Debug, PartialEq, Eq)]
pub enum CustomProcessor {
    MultisigProcessor(MultisigProcessor),
}

impl CustomProcessor {
    /// The processor's name.
    pub fn name(&self) -> (r: &'static str)
        ensures
            r@ == multisig_processor_name(),
    {
        match self {
            CustomProcessor::MultisigProcessor(p) => p.name(),
        }
    }

    /// The names of all processors that are implemented, in order.
    pub fn variants() -> (r: Vec<&'static str>)
        ensures
            r@.len() == 1,
            r@[0]@ == multisig_processor_name(),
    {
        let mut names: Vec<&'static str> = Vec::new();
        names.push("multisig_processor");
        names
    }
}

/// The processor of plain events.
#[derive(Debug, PartialEq, Eq)]
pub struct EventsProcessor {
    pub connection_pool: PoolState,
}

impl EventsProcessor {
    /// A processor over the given pool.
    pub fn new(connection_pool: PoolState) -> (r: Self)
        ensures
            r.connection_pool == connection_pool,
    {
        Self { connection_pool }
    }

    /// The processor's name.
    pub fn name(&self) -> (r: &'static str)
        ensures
            r@ == events_processor_name(),
    {
        "events_processor"
    }

    /// The pool that the processor writes through.
    pub fn connection_pool(&self) -> (r: &PoolState)
        ensures
            *r == self.connection_pool,
    {
        &self.connection_pool
    }
}

/// A user transaction as it is stored.
#[derive(Debug, PartialEq, Eq)]
pub struct UserTransaction {
    pub version: i64,
    pub sender: String,
    pub entry_function_id_str: String,
}

/// A user transaction as it is stored where the called function is not
/// kept.
#[derive(Debug, PartialEq, Eq)]
pub struct UserTransactionModelWithoutEntryFunctionIdStr {
    pub version: i64,
    pub sender: String,
}

} // verus!
