//! Cutting the rows of one statement into chunks that stay under the
//! store's limit on parameters.

use vstd::prelude::*;
use crate::models::{changes_of, Change, Mutation};

verus! {

/// The most parameters that one statement may carry.
pub const MAX_DIESEL_PARAM_SIZE: usize = 32767;

/// The number of columns of each table.
pub const WALLET_COLUMNS: usize = 4;

pub const OWNER_COLUMNS: usize = 2;

pub const OWNER_WALLET_COLUMNS: usize = 3;

pub const TRANSACTION_COLUMNS: usize = 10;

pub const VOTE_COLUMNS: usize = 5;

/// `ahash::AHashMap`, the map that holds the configured chunk sizes.
#[verifier::external_type_specification]
#[verifier::external_body]
#[verifier::reject_recursive_types(K)]
#[verifier::reject_recursive_types(V)]
#[verifier::reject_recursive_types(S)]
pub struct ExAHashMap<K, V, S>(ahash::AHashMap<K, V, S>);

/// `ahash::RandomState`, the hasher of such a map.
#[verifier::external_type_specification]
#[verifier::external_body]
pub struct ExRandomState(ahash::RandomState);

/// The sizes that a map of chunk sizes holds, by table name.
pub uninterp spec fn held_sizes(sizes: ahash::AHashMap<String, usize>) -> Map<Seq<char>, usize>;

/// The size configured for a table, if one is.
pub open spec fn configured_size(sizes: Map<Seq<char>, usize>, table: Seq<char>) -> Option<usize> {
    if sizes.dom().contains(table) {
        Some(sizes[table])
    } else {
        None
    }
}

/// Looks a table up with `get`, which `ahash::AHashMap` has from the
/// `HashMap` it wraps: the size held under that name, if the map holds one.
#[verifier::external_body]
fn size_of_table(sizes: &ahash::AHashMap<String, usize>, table: &str) -> (r: Option<usize>)
    ensures
        r == configured_size(held_sizes(*sizes), table@),
{
    sizes.get(table).copied()
}

/// The most rows of `columns` columns that fit one statement, and at least
/// one.
pub open spec fn most_rows(columns: usize) -> int {
    if columns == 0 || columns > MAX_DIESEL_PARAM_SIZE {
        1
    } else {
        MAX_DIESEL_PARAM_SIZE as int / columns as int
    }
}

/// The number of rows per statement for a table: the configured size, or
/// as many as fit where none is configured; never more than fit, and never
/// less than one.
pub open spec fn chunk_size_for(configured: Option<usize>, columns: usize) -> int {
    match configured {
        Some(size) => if size == 0 {
            1
        } else if size > most_rows(columns) {
            most_rows(columns)
        } else {
            size as int
        },
        None => most_rows(columns),
    }
}

/// A chunk of that size stays under the limit on parameters.
pub proof fn chunk_fits(configured: Option<usize>, columns: usize)
    requires
        0 < columns <= MAX_DIESEL_PARAM_SIZE,
    ensures
        1 <= chunk_size_for(configured, columns),
        chunk_size_for(configured, columns) * columns <= MAX_DIESEL_PARAM_SIZE,
{
    let most = most_rows(columns);
    assert(most * columns <= MAX_DIESEL_PARAM_SIZE && most >= 1) by (nonlinear_arith)
        requires
            most == MAX_DIESEL_PARAM_SIZE as int / columns as int,
            0 < columns <= MAX_DIESEL_PARAM_SIZE,
    ;
    let size = chunk_size_for(configured, columns);
    assert(size * columns <= most * columns) by (nonlinear_arith)
        requires
            1 <= size <= most,
            columns > 0,
    ;
}

/// The number of rows per statement for a table.
pub fn get_config_table_chunk_size(
    table_name: &str,
    columns: usize,
    per_table_chunk_sizes: &ahash::AHashMap<String, usize>,
) -> (r: usize)
    ensures
        r == chunk_size_for(configured_size(held_sizes(*per_table_chunk_sizes), table_name@), columns),
{
    let most: usize = if columns == 0 || columns > MAX_DIESEL_PARAM_SIZE {
        1
    } else {
        MAX_DIESEL_PARAM_SIZE / columns
    };
    match size_of_table(per_table_chunk_sizes, table_name) {
        Some(size) => if size == 0 {
            1
        } else if size > most {
            most
        } else {
            size
        },
        None => most,
    }
}

/// The chunks cut `len` rows into consecutive ranges, none empty: they start
/// at the first row, each starts where the one before ends, all but the last
/// hold `size` rows, and the last ends at the last row.
pub open spec fn is_chunking(chunks: Seq<(usize, usize)>, len: int, size: int) -> bool {
    &&& (chunks.len() == 0 <==> len == 0)
    &&& chunks.len() > 0 ==> chunks[0].0 == 0 && chunks.last().1 == len
    &&& forall|k: int|
        0 <= k < chunks.len() ==> {
            let c = #[trigger] chunks[k];
            &&& c.0 < c.1 <= c.0 + size
            &&& k + 1 < chunks.len() ==> c.1 == c.0 + size && chunks[k + 1].0 == c.1
        }
}

/// Cuts `len` rows into chunks of at most `chunk_size` rows; a size of zero
/// counts as one.
pub fn chunk_ranges(len: usize, chunk_size: usize) -> (r: Vec<(usize, usize)>)
    ensures
        is_chunking(
            r@,
            len as int,
            if chunk_size == 0 {
                1
            } else {
                chunk_size as int
            },
        ),
{
    let size: usize = if chunk_size == 0 {
        1
    } else {
        chunk_size
    };
    let mut out: Vec<(usize, usize)> = Vec::new();
    let mut start: usize = 0;
    while start < len
        invariant
            0 <= start <= len,
            size >= 1,
            size == if chunk_size == 0 {
                1
            } else {
                chunk_size
            },
            out.len() == 0 <==> start == 0,
            out.len() > 0 ==> out[0].0 == 0 && out@.last().1 == start,
            forall|k: int|
                0 <= k < out.len() ==> {
                    let c = #[trigger] out[k];
                    &&& c.0 < c.1 <= c.0 + size
                    &&& c.1 == c.0 + size
                    &&& k + 1 < out.len() ==> out[k + 1].0 == c.1
                },
        decreases len - start,
    {
        let end: usize = if len - start <= size {
            len
        } else {
            start + size
        };
        if end == len {
            let ghost before = out@;
            out.push((start, end));
            assert forall|k: int| 0 <= k < out.len() implies {
                let c = #[trigger] out[k];
                &&& c.0 < c.1 <= c.0 + size
                &&& k + 1 < out.len() ==> c.1 == c.0 + size && out[k + 1].0 == c.1
            } by {
                if k < before.len() {
                    assert(out[k] == before[k]);
                    if k + 1 < before.len() {
                        assert(out[k + 1] == before[k + 1]);
                    } else {
                        assert(before.last() == before[k]);
                    }
                }
            }
            proof {
                assert(out@.last() == (start, end));
                if before.len() > 0 {
                    assert(out[0] == before[0]);
                }
            }
            return out;
        }
        let ghost before = out@;
        out.push((start, end));
        assert forall|k: int| 0 <= k < out.len() implies {
            let c = #[trigger] out[k];
            &&& c.0 < c.1 <= c.0 + size
            &&& c.1 == c.0 + size
            &&& k + 1 < out.len() ==> out[k + 1].0 == c.1
        } by {
            if k < before.len() {
                assert(out[k] == before[k]);
                if k + 1 < before.len() {
                    assert(out[k + 1] == before[k + 1]);
                }
            }
        }
        start = end;
    }
    out
}

/// Where the run of new memberships that starts at `from` ends: the index
/// of the first change at or after `from` that is no new membership.
pub open spec fn run_end(changes: Seq<Change>, from: int) -> int
    decreases changes.len() - from,
{
    if 0 <= from < changes.len() && changes[from] is InsertOwnerWallet {
        run_end(changes, from + 1)
    } else {
        from
    }
}

/// The statements in which the changes from `from` on go out, each as the
/// range of changes it carries. A change goes out alone, except that new
/// memberships that follow one another go out together, at most `size` to
/// a statement.
pub open spec fn statements_from(changes: Seq<Change>, from: int, size: int) -> Seq<
    (usize, usize),
>
    decreases changes.len() - from,
{
    if 0 <= from < changes.len() {
        let run = run_end(changes, from);
        let end = if run <= from || size <= 1 {
            from + 1
        } else if run - from <= size {
            run
        } else {
            from + size
        };
        proof {
            run_end_is_in_range(changes, from);
        }
        seq![(from as usize, end as usize)] + statements_from(changes, end, size)
    } else {
        Seq::empty()
    }
}

/// The run of new memberships that starts at `from` does not end before
/// `from`, nor after the last change.
pub proof fn run_end_is_in_range(changes: Seq<Change>, from: int)
    requires
        0 <= from <= changes.len(),
    ensures
        from <= run_end(changes, from) <= changes.len(),
        forall|k: int| from <= k < run_end(changes, from) ==> (#[trigger] changes[k])
            is InsertOwnerWallet,
    decreases changes.len() - from,
{
    if from < changes.len() && changes[from] is InsertOwnerWallet {
        run_end_is_in_range(changes, from + 1);
    }
}

/// Every statement that carries more than one change carries new
/// memberships only, and no more than `size` of them; the statements cover
/// the changes in order, none left out and none twice.
pub proof fn statements_are_sound(changes: Seq<Change>, from: int, size: int)
    requires
        0 <= from <= changes.len() <= usize::MAX,
    ensures
        ({
            let plan = statements_from(changes, from, size);
            &&& plan.len() == 0 <==> from == changes.len()
            &&& plan.len() > 0 ==> plan[0].0 == from && plan.last().1 == changes.len()
            &&& forall|k: int|
                0 <= k < plan.len() ==> {
                    let s = #[trigger] plan[k];
                    &&& from <= s.0 < s.1 <= changes.len()
                    &&& k + 1 < plan.len() ==> plan[k + 1].0 == s.1
                    &&& s.1 - s.0 > 1 ==> s.1 - s.0 <= size && forall|i: int|
                        s.0 <= i < s.1 ==> (#[trigger] changes[i]) is InsertOwnerWallet
                }
        }),
    decreases changes.len() - from,
{
    if from < changes.len() {
        run_end_is_in_range(changes, from);
        let run = run_end(changes, from);
        let end = if run <= from || size <= 1 {
            from + 1
        } else if run - from <= size {
            run
        } else {
            from + size
        };
        statements_are_sound(changes, end, size);
        let rest = statements_from(changes, end, size);
        let plan = statements_from(changes, from, size);
        assert(plan =~= seq![(from as usize, end as usize)] + rest);
        assert forall|k: int| 0 <= k < plan.len() implies {
            let s = #[trigger] plan[k];
            &&& from <= s.0 < s.1 <= changes.len()
            &&& k + 1 < plan.len() ==> plan[k + 1].0 == s.1
            &&& s.1 - s.0 > 1 ==> s.1 - s.0 <= size && forall|i: int|
                s.0 <= i < s.1 ==> (#[trigger] changes[i]) is InsertOwnerWallet
        } by {
            if k > 0 {
                assert(plan[k] == rest[k - 1]);
                if k + 1 < plan.len() {
                    assert(plan[k + 1] == rest[k]);
                }
            } else if plan.len() > 1 {
                assert(plan[1] == rest[0]);
            }
        }
        if rest.len() > 0 {
            assert(plan.last() == rest.last());
        }
    }
}

fn is_new_membership(mutation: &Mutation) -> (r: bool)
    ensures
        r == (mutation@ is InsertOwnerWallet),
{
    match mutation {
        Mutation::InsertOwnerWallet(_) => true,
        _ => false,
    }
}

/// Cuts a run of mutations into the statements in which they go out: each
/// as the range of mutations it carries.
pub fn plan_statements(mutations: &Vec<Mutation>, chunk_size: usize) -> (r: Vec<(usize, usize)>)
    ensures
        r@ == statements_from(changes_of(mutations@), 0, chunk_size as int),
{
    let ghost changes = changes_of(mutations@);
    let mut out: Vec<(usize, usize)> = Vec::new();
    let mut at: usize = 0;
    assert(Seq::<(usize, usize)>::empty() + statements_from(changes, 0, chunk_size as int)
        =~= statements_from(changes, 0, chunk_size as int));
    while at < mutations.len()
        invariant
            0 <= at <= mutations.len(),
            changes == changes_of(mutations@),
            statements_from(changes, 0, chunk_size as int) == out@ + statements_from(
                changes,
                at as int,
                chunk_size as int,
            ),
        decreases mutations.len() - at,
    {
        let mut run: usize = at;
        while run < mutations.len() && is_new_membership(&mutations[run])
            invariant
                at <= run <= mutations.len(),
                changes == changes_of(mutations@),
                run_end(changes, at as int) == run_end(changes, run as int),
            decreases mutations.len() - run,
        {
            run += 1;
        }
        let end: usize = if run <= at || chunk_size <= 1 {
            at + 1
        } else if run - at <= chunk_size {
            run
        } else {
            at + chunk_size
        };
        proof {
            let rest = statements_from(changes, end as int, chunk_size as int);
            assert(out@ + (seq![(at, end)] + rest) =~= out@.push((at, end)) + rest);
        }
        out.push((at, end));
        at = end;
    }
    assert(out@ + Seq::<(usize, usize)>::empty() =~= out@);
    out
}

} // verus!
