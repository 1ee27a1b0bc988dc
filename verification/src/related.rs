//! Following the declared relations between datasets from selected rows to
//! the events that they stem from.
use crate::dataset_cache::{find_table, table_of, HostDatasetCacheEntry, TableEntry, TableHandle};
use crate::host_data::{column_is_the_first_of_its_name, HostDatasetRelation, TableColumnValues};
use crate::ordered_set::{Ordered, OrderedSet};
use crate::registry::{find_id, find_id_is_first, RegistryModel, ResolvedHostViewRegistry};
use crate::rows::{
    cell_text, first_row_with_key, first_row_with_key_is_first, raw_cell_value, row_index_for_key,
    row_key,
    row_key_for_row, StableRowKey,
};
use crate::text_map::TextMap;
use std::collections::HashSet;
use vstd::prelude::*;

verus! {

broadcast use vstd::std_specs::hash::group_hash_axioms;

/// The two texts of a row key.
pub type RowPair = (Seq<char>, Seq<char>);

/// The table and the row that a key stands for.
pub open spec fn located(
    registry: RegistryModel,
    cache: TextMap<HostDatasetCacheEntry>,
    key: RowPair,
) -> Option<(TableEntry, int)> {
    match table_of(registry, cache, key.0) {
        Some(entry) => match first_row_with_key(
            key.0,
            entry.generation,
            entry.schema,
            entry.table,
            key,
            entry.table.rows as nat,
        ) {
            Some(row) => Some((entry, row)),
            None => None,
        },
        None => None,
    }
}

/// The event that a row names itself.
pub open spec fn event_in(entry: TableEntry, row: int) -> Option<u64> {
    match entry.table.named("event_id"@) {
        Some(column) => match column.values {
            TableColumnValues::U64(v) => if 0 <= row < v@.len() {
                Some(v@[row])
            } else {
                None
            },
            _ => None,
        },
        None => None,
    }
}

/// The event that the row with this key names itself.
pub open spec fn event_of(
    registry: RegistryModel,
    cache: TextMap<HostDatasetCacheEntry>,
    key: RowPair,
) -> Option<u64> {
    match located(registry, cache, key) {
        Some((entry, row)) => event_in(entry, row),
        None => None,
    }
}

/// Whether a relation leads from a row to the row `r` of its target, whose
/// key is `to`: the two cells that the relation names hold the same text.
pub open spec fn points_at(
    registry: RegistryModel,
    cache: TextMap<HostDatasetCacheEntry>,
    entry: TableEntry,
    row: int,
    relation: HostDatasetRelation,
    r: int,
    to: RowPair,
) -> bool {
    match (
        entry.table.named(relation.via_column@),
        table_of(registry, cache, relation.target_dataset_id@),
    ) {
        (Some(source), Some(target)) => match (
            cell_text(source.values, row),
            target.table.named(relation.target_column@),
        ) {
            (Some(value), Some(column)) => {
                &&& 0 <= r < target.table.rows
                &&& cell_text(column.values, r) == Some(value)
                &&& to == row_key(
                    relation.target_dataset_id@,
                    target.generation,
                    target.schema,
                    target.table,
                    r,
                )
            },
            _ => false,
        },
        _ => false,
    }
}

/// Whether a relation leads from a row to the row with the key `to`.
pub open spec fn related_by(
    registry: RegistryModel,
    cache: TextMap<HostDatasetCacheEntry>,
    entry: TableEntry,
    row: int,
    relation: HostDatasetRelation,
    to: RowPair,
) -> bool {
    exists|r: int| #[trigger] points_at(registry, cache, entry, row, relation, r, to)
}

/// Whether one of the first `n` relations of a row's dataset leads to `to`.
pub open spec fn pointed_by(
    registry: RegistryModel,
    cache: TextMap<HostDatasetCacheEntry>,
    entry: TableEntry,
    row: int,
    n: int,
    to: RowPair,
) -> bool {
    exists|k: int|
        0 <= k < n && related_by(
            registry,
            cache,
            entry,
            row,
            #[trigger] entry.descriptor.relations@[k],
            to,
        )
}

/// Whether the relations lead from one row to another in one step. A row that
/// names an event is where the search ends.
pub open spec fn leads_to(
    registry: RegistryModel,
    cache: TextMap<HostDatasetCacheEntry>,
    from: RowPair,
    to: RowPair,
) -> bool {
    match located(registry, cache, from) {
        Some((entry, row)) => event_in(entry, row) is None && pointed_by(
            registry,
            cache,
            entry,
            row,
            entry.descriptor.relations@.len() as int,
            to,
        ),
        None => false,
    }
}

/// A chain of rows, each one step from the one before.
pub open spec fn is_chain(
    registry: RegistryModel,
    cache: TextMap<HostDatasetCacheEntry>,
    chain: Seq<RowPair>,
) -> bool {
    forall|i: int|
        0 <= i < chain.len() - 1 ==> leads_to(registry, cache, #[trigger] chain[i], chain[i + 1])
}

/// Whether the relations lead from one of several rows to `key`.
pub open spec fn reaches(
    registry: RegistryModel,
    cache: TextMap<HostDatasetCacheEntry>,
    roots: Seq<RowPair>,
    key: RowPair,
) -> bool {
    exists|chain: Seq<RowPair>|
        chain.len() > 0 && roots.contains(chain[0]) && chain.last() == key && #[trigger] is_chain(
            registry,
            cache,
            chain,
        )
}

proof fn root_reached(
    registry: RegistryModel,
    cache: TextMap<HostDatasetCacheEntry>,
    roots: Seq<RowPair>,
    key: RowPair,
)
    requires
        roots.contains(key),
    ensures
        reaches(registry, cache, roots, key),
{
    let chain = seq![key];
    assert(is_chain(registry, cache, chain));
    assert(chain.last() == key);
}

proof fn step_reached(
    registry: RegistryModel,
    cache: TextMap<HostDatasetCacheEntry>,
    roots: Seq<RowPair>,
    from: RowPair,
    to: RowPair,
)
    requires
        reaches(registry, cache, roots, from),
        leads_to(registry, cache, from, to),
    ensures
        reaches(registry, cache, roots, to),
{
    let chain = choose|chain: Seq<RowPair>|
        chain.len() > 0 && roots.contains(chain[0]) && chain.last() == from && #[trigger] is_chain(
            registry,
            cache,
            chain,
        );
    let longer = chain.push(to);
    assert forall|i: int| 0 <= i < longer.len() - 1 implies leads_to(
        registry,
        cache,
        #[trigger] longer[i],
        longer[i + 1],
    ) by {
        if i < chain.len() - 1 {
            assert(longer[i] == chain[i]);
            assert(longer[i + 1] == chain[i + 1]);
        } else {
            assert(longer[i] == from);
        }
    }
    assert(is_chain(registry, cache, longer));
    assert(longer.last() == to);
    assert(longer[0] == chain[0]);
}

/// What is closed under the relations and holds the roots holds every row
/// that can be reached.
proof fn closed_holds_reached(
    registry: RegistryModel,
    cache: TextMap<HostDatasetCacheEntry>,
    roots: Seq<RowPair>,
    seen: spec_fn(RowPair) -> bool,
    chain: Seq<RowPair>,
    n: int,
)
    requires
        is_chain(registry, cache, chain),
        0 <= n < chain.len(),
        roots.contains(chain[0]),
        forall|key: RowPair| roots.contains(key) ==> seen(key),
        forall|a: RowPair, b: RowPair|
            #![trigger leads_to(registry, cache, a, b)]
            seen(a) && leads_to(registry, cache, a, b) ==> seen(b),
    ensures
        seen(chain[n]),
    decreases n,
{
    if n > 0 {
        closed_holds_reached(registry, cache, roots, seen, chain, n - 1);
        assert(leads_to(registry, cache, chain[n - 1], chain[n - 1 + 1]));
    }
}

// ---------------------------------------------------------------------------
// All rows there are
// ---------------------------------------------------------------------------
/// The keys of the first `n` rows of a table.
spec fn table_keys(id: Seq<char>, entry: TableEntry, n: nat) -> Seq<RowPair>
    decreases n,
{
    if n == 0 {
        Seq::empty()
    } else {
        table_keys(id, entry, (n - 1) as nat).push(
            row_key(id, entry.generation, entry.schema, entry.table, n - 1),
        )
    }
}

/// The keys of all rows of the first `n` datasets.
spec fn all_keys(
    registry: RegistryModel,
    cache: TextMap<HostDatasetCacheEntry>,
    n: nat,
) -> Seq<RowPair>
    decreases n,
{
    if n == 0 {
        Seq::empty()
    } else {
        let id = registry.datasets[n - 1].descriptor.id@;
        let rest = all_keys(registry, cache, (n - 1) as nat);
        match table_of(registry, cache, id) {
            Some(entry) => rest + table_keys(id, entry, entry.table.rows as nat),
            None => rest,
        }
    }
}

proof fn table_keys_hold(id: Seq<char>, entry: TableEntry, n: nat, r: int)
    requires
        0 <= r < n,
    ensures
        table_keys(id, entry, n).contains(
            row_key(id, entry.generation, entry.schema, entry.table, r),
        ),
    decreases n,
{
    let keys = table_keys(id, entry, n);
    if r == n - 1 {
        assert(keys.last() == row_key(id, entry.generation, entry.schema, entry.table, r));
    } else {
        table_keys_hold(id, entry, (n - 1) as nat, r);
        let rest = table_keys(id, entry, (n - 1) as nat);
        let k = choose|k: int|
            0 <= k < rest.len() && rest[k] == row_key(
                id,
                entry.generation,
                entry.schema,
                entry.table,
                r,
            );
        assert(keys[k] == rest[k]);
    }
}

proof fn all_keys_hold(
    registry: RegistryModel,
    cache: TextMap<HostDatasetCacheEntry>,
    n: nat,
    i: int,
    r: int,
)
    requires
        0 <= i < n <= registry.datasets.len(),
        table_of(registry, cache, registry.datasets[i].descriptor.id@) matches Some(entry) && 0
            <= r < entry.table.rows,
    ensures
        ({
            let id = registry.datasets[i].descriptor.id@;
            let entry = table_of(registry, cache, id)->0;
            all_keys(registry, cache, n).contains(
                row_key(id, entry.generation, entry.schema, entry.table, r),
            )
        }),
    decreases n,
{
    let id = registry.datasets[i].descriptor.id@;
    let entry = table_of(registry, cache, id)->0;
    let key = row_key(id, entry.generation, entry.schema, entry.table, r);
    let keys = all_keys(registry, cache, n);
    let rest = all_keys(registry, cache, (n - 1) as nat);
    if i == n - 1 {
        table_keys_hold(id, entry, entry.table.rows as nat, r);
        let own = table_keys(id, entry, entry.table.rows as nat);
        let k = choose|k: int| 0 <= k < own.len() && own[k] == key;
        assert(keys[rest.len() + k] == key);
    } else {
        all_keys_hold(registry, cache, (n - 1) as nat, i, r);
        let k = choose|k: int| 0 <= k < rest.len() && rest[k] == key;
        assert(keys[k] == key);
    }
}

/// Every row that a relation leads to is a row of a resolved dataset.
proof fn target_is_known(
    registry: RegistryModel,
    cache: TextMap<HostDatasetCacheEntry>,
    from: RowPair,
    to: RowPair,
)
    requires
        leads_to(registry, cache, from, to),
    ensures
        all_keys(registry, cache, registry.datasets.len()).contains(to),
{
    let (entry, row) = located(registry, cache, from)->0;
    let n = entry.descriptor.relations@.len() as int;
    let k = choose|k: int|
        0 <= k < n && related_by(
            registry,
            cache,
            entry,
            row,
            #[trigger] entry.descriptor.relations@[k],
            to,
        );
    let r = choose|r: int| #[trigger]
        points_at(registry, cache, entry, row, entry.descriptor.relations@[k], r, to);
    let id = entry.descriptor.relations@[k].target_dataset_id@;
    find_id_is_first(registry.datasets, id);
    let i = find_id(registry.datasets, id)->0;
    all_keys_hold(registry, cache, registry.datasets.len(), i, r);
}

// ---------------------------------------------------------------------------
// The search
// ---------------------------------------------------------------------------
fn push_targets(
    registry: &ResolvedHostViewRegistry,
    cache: &TextMap<HostDatasetCacheEntry>,
    handle: TableHandle<'_>,
    row: usize,
    stack: &mut Vec<StableRowKey>,
)
    ensures
        old(stack)@.len() <= final(stack)@.len(),
        forall|j: int| 0 <= j < old(stack)@.len() ==> final(stack)@[j] == old(stack)@[j],
        forall|j: int|
            old(stack)@.len() <= j < final(stack)@.len() ==> pointed_by(
                registry.model(),
                *cache,
                handle.entry(),
                row as int,
                handle.descriptor.relations@.len() as int,
                (#[trigger] final(stack)@[j]).pair(),
            ),
        forall|to: RowPair|
            pointed_by(
                registry.model(),
                *cache,
                handle.entry(),
                row as int,
                handle.descriptor.relations@.len() as int,
                to,
            ) ==> exists|j: int|
                old(stack)@.len() <= j < final(stack)@.len() && (#[trigger] final(stack)@[j]).pair()
                    == to,
{
    let ghost start = stack@;
    let ghost model = registry.model();
    let ghost entry = handle.entry();
    let mut k: usize = 0;
    while k < handle.descriptor.relations.len()
        invariant
            model == registry.model(),
            entry == handle.entry(),
            k <= handle.descriptor.relations@.len(),
            start.len() <= stack@.len(),
            forall|j: int| 0 <= j < start.len() ==> stack@[j] == start[j],
            forall|j: int|
                start.len() <= j < stack@.len() ==> pointed_by(
                    model,
                    *cache,
                    entry,
                    row as int,
                    k as int,
                    (#[trigger] stack@[j]).pair(),
                ),
            forall|to: RowPair|
                pointed_by(model, *cache, entry, row as int, k as int, to) ==> exists|j: int|
                    start.len() <= j < stack@.len() && (#[trigger] stack@[j]).pair() == to,
        decreases handle.descriptor.relations@.len() - k,
    {
        let relation = &handle.descriptor.relations[k];
        let ghost before = stack@;
        push_relation_targets(registry, cache, handle, row, relation, stack);
        proof {
            assert forall|j: int| start.len() <= j < stack@.len() implies pointed_by(
                model,
                *cache,
                entry,
                row as int,
                k + 1,
                (#[trigger] stack@[j]).pair(),
            ) by {
                let to = stack@[j].pair();
                if j < before.len() {
                    assert(pointed_by(model, *cache, entry, row as int, k as int, before[j].pair()));
                    let k0 = choose|k0: int|
                        0 <= k0 < k && related_by(
                            model,
                            *cache,
                            entry,
                            row as int,
                            #[trigger] entry.descriptor.relations@[k0],
                            to,
                        );
                    assert(related_by(
                        model,
                        *cache,
                        entry,
                        row as int,
                        entry.descriptor.relations@[k0],
                        to,
                    ));
                } else {
                    assert(related_by(
                        model,
                        *cache,
                        entry,
                        row as int,
                        entry.descriptor.relations@[k as int],
                        to,
                    ));
                }
            }
            let next = k + 1;
            assert forall|to: RowPair|
                pointed_by(model, *cache, entry, row as int, next, to) implies exists|j: int|
                start.len() <= j < stack@.len() && (#[trigger] stack@[j]).pair() == to by {
                let k0 = choose|k0: int|
                    0 <= k0 < k + 1 && related_by(
                        model,
                        *cache,
                        entry,
                        row as int,
                        #[trigger] entry.descriptor.relations@[k0],
                        to,
                    );
                if k0 < k {
                    assert(pointed_by(model, *cache, entry, row as int, k as int, to));
                    let j = choose|j: int|
                        start.len() <= j < before.len() && (#[trigger] before[j]).pair() == to;
                    assert(stack@[j].pair() == to);
                } else {
                    assert(related_by(model, *cache, entry, row as int, *relation, to));
                }
            }
        }
        k = k + 1;
    }
}

fn push_relation_targets(
    registry: &ResolvedHostViewRegistry,
    cache: &TextMap<HostDatasetCacheEntry>,
    handle: TableHandle<'_>,
    row: usize,
    relation: &HostDatasetRelation,
    stack: &mut Vec<StableRowKey>,
)
    ensures
        old(stack)@.len() <= final(stack)@.len(),
        forall|j: int| 0 <= j < old(stack)@.len() ==> final(stack)@[j] == old(stack)@[j],
        forall|j: int|
            old(stack)@.len() <= j < final(stack)@.len() ==> related_by(
                registry.model(),
                *cache,
                handle.entry(),
                row as int,
                *relation,
                (#[trigger] final(stack)@[j]).pair(),
            ),
        forall|to: RowPair| #[trigger]
            related_by(
                registry.model(),
                *cache,
                handle.entry(),
                row as int,
                *relation,
                to,
            ) ==> exists|j: int|
                old(stack)@.len() <= j < final(stack)@.len() && (#[trigger] final(stack)@[j]).pair()
                    == to,
{
    let source = match handle.table.column(relation.via_column.as_str()) {
        Some(column) => column,
        None => {
            return ;
        },
    };
    let value = match raw_cell_value(&source.values, row) {
        Some(value) => value,
        None => {
            return ;
        },
    };
    let target = match find_table(registry, cache, relation.target_dataset_id.as_str()) {
        Some(target) => target,
        None => {
            return ;
        },
    };
    let column = match target.table.column(relation.target_column.as_str()) {
        Some(column) => column,
        None => {
            return ;
        },
    };
    let ghost start = stack@;
    let ghost model = registry.model();
    let ghost entry = handle.entry();
    let mut r: usize = 0;
    while r < target.table.rows
        invariant
            model == registry.model(),
            entry == handle.entry(),
            entry.table.named(relation.via_column@) == Some(*source),
            cell_text(source.values, row as int) == Some(value@),
            table_of(model, *cache, relation.target_dataset_id@) == Some(target.entry()),
            target.table.named(relation.target_column@) == Some(*column),
            r <= target.table.rows,
            start.len() <= stack@.len(),
            forall|j: int| 0 <= j < start.len() ==> stack@[j] == start[j],
            forall|j: int|
                start.len() <= j < stack@.len() ==> related_by(
                    model,
                    *cache,
                    entry,
                    row as int,
                    *relation,
                    (#[trigger] stack@[j]).pair(),
                ),
            forall|r0: int, to: RowPair|
                r0 < r && #[trigger] points_at(
                    model,
                    *cache,
                    entry,
                    row as int,
                    *relation,
                    r0,
                    to,
                ) ==> exists|j: int|
                    start.len() <= j < stack@.len() && (#[trigger] stack@[j]).pair() == to,
        decreases target.table.rows - r,
    {
        let matching = match raw_cell_value(&column.values, r) {
            Some(cell) => cell == value,
            None => false,
        };
        let ghost before = stack@;
        if matching {
            let key = row_key_for_row(
                relation.target_dataset_id.as_str(),
                target.generation,
                target.schema,
                target.table,
                r,
            );
            stack.push(key);
            proof {
                let last = (stack@.len() - 1) as int;
                assert(points_at(
                    model,
                    *cache,
                    entry,
                    row as int,
                    *relation,
                    r as int,
                    stack@[last].pair(),
                ));
            }
        }
        proof {
            assert forall|j: int| start.len() <= j < stack@.len() implies related_by(
                model,
                *cache,
                entry,
                row as int,
                *relation,
                (#[trigger] stack@[j]).pair(),
            ) by {
                if j < before.len() {
                    assert(stack@[j] == before[j]);
                }
            }
            assert forall|r0: int, to: RowPair|
                r0 < r + 1 && #[trigger] points_at(
                    model,
                    *cache,
                    entry,
                    row as int,
                    *relation,
                    r0,
                    to,
                ) implies exists|j: int|
                start.len() <= j < stack@.len() && (#[trigger] stack@[j]).pair() == to by {
                if r0 < r {
                    let j = choose|j: int|
                        start.len() <= j < before.len() && (#[trigger] before[j]).pair() == to;
                    assert(stack@[j].pair() == to);
                } else {
                    assert(matching);
                    assert(stack@[stack@.len() - 1].pair() == to);
                }
            }
        }
        r = r + 1;
    }
}

/// Whether a key stands in the list of rows that are still to be visited.
spec fn waits(stack: Seq<StableRowKey>, key: RowPair) -> bool {
    exists|j: int| 0 <= j < stack.len() && (#[trigger] stack[j]).pair() == key
}

/// What holds while the search runs: the roots and whatever the visited rows
/// lead to are visited or wait, all of these can be reached, and the events
/// found are those of the visited rows.
spec fn searching(
    model: RegistryModel,
    cache: TextMap<HostDatasetCacheEntry>,
    roots: Seq<RowPair>,
    known: Set<RowPair>,
    visited: OrderedSet<StableRowKey>,
    stack: Seq<StableRowKey>,
    events: Set<u64>,
) -> bool {
    &&& forall|key: RowPair| #[trigger]
        roots.contains(key) ==> visited.holds(key) || waits(stack, key)
    &&& forall|j: int|
        0 <= j < stack.len() ==> reaches(model, cache, roots, (#[trigger] stack[j]).pair())
            && known.contains(stack[j].pair())
    &&& forall|key: RowPair| #[trigger]
        visited.holds(key) ==> reaches(model, cache, roots, key) && known.contains(key)
    &&& forall|a: RowPair, b: RowPair|
        #![trigger leads_to(model, cache, a, b)]
        visited.holds(a) && leads_to(model, cache, a, b) ==> visited.holds(b) || waits(stack, b)
    &&& forall|event: u64| #[trigger]
        events.contains(event) <==> event_among(model, cache, visited, event)
}

/// Whether one of the visited rows names the event.
spec fn event_among(
    model: RegistryModel,
    cache: TextMap<HostDatasetCacheEntry>,
    visited: OrderedSet<StableRowKey>,
    event: u64,
) -> bool {
    exists|key: RowPair| #[trigger]
        visited.holds(key) && event_of(model, cache, key) == Some(event)
}

/// One row is taken off the list, visited, and replaced by the rows that it
/// leads to.
proof fn search_goes_on(
    model: RegistryModel,
    cache: TextMap<HostDatasetCacheEntry>,
    roots: Seq<RowPair>,
    known: Set<RowPair>,
    visited: OrderedSet<StableRowKey>,
    stack: Seq<StableRowKey>,
    events: Set<u64>,
    visited_after: OrderedSet<StableRowKey>,
    stack_after: Seq<StableRowKey>,
    events_after: Set<u64>,
)
    requires
        searching(model, cache, roots, known, visited, stack, events),
        known == (roots + all_keys(model, cache, model.datasets.len())).to_set(),
        stack.len() > 0,
        stack.len() - 1 <= stack_after.len(),
        forall|j: int| 0 <= j < stack.len() - 1 ==> stack_after[j] == stack[j],
        forall|j: int|
            stack.len() - 1 <= j < stack_after.len() ==> leads_to(
                model,
                cache,
                stack.last().pair(),
                (#[trigger] stack_after[j]).pair(),
            ),
        forall|b: RowPair|
            #![trigger leads_to(model, cache, stack.last().pair(), b)]
            leads_to(model, cache, stack.last().pair(), b) ==> visited.holds(stack.last().pair())
                || waits(stack_after, b),
        forall|key: RowPair| #[trigger]
            visited_after.holds(key) <==> (visited.holds(key) || key == stack.last().pair()),
        forall|event: u64| #[trigger]
            events_after.contains(event) <==> (events.contains(event) || event_of(
                model,
                cache,
                stack.last().pair(),
            ) == Some(event)),
    ensures
        searching(model, cache, roots, known, visited_after, stack_after, events_after),
{
    let pair = stack.last().pair();
    let top = (stack.len() - 1) as int;
    assert(stack[top].pair() == pair);
    assert(reaches(model, cache, roots, pair) && known.contains(pair));
    assert forall|k: RowPair| waits(stack, k) implies k == pair || waits(stack_after, k) by {
        let j = choose|j: int| 0 <= j < stack.len() && (#[trigger] stack[j]).pair() == k;
        if j < top {
            assert(stack_after[j].pair() == k);
        }
    }
    assert forall|key: RowPair| #[trigger] roots.contains(key) implies visited_after.holds(key)
        || waits(stack_after, key) by {
        if !visited.holds(key) {
            assert(waits(stack, key));
        }
    }
    assert forall|j: int| 0 <= j < stack_after.len() implies reaches(
        model,
        cache,
        roots,
        (#[trigger] stack_after[j]).pair(),
    ) && known.contains(stack_after[j].pair()) by {
        if j < top {
            assert(stack_after[j] == stack[j]);
        } else {
            let to = stack_after[j].pair();
            step_reached(model, cache, roots, pair, to);
            target_is_known(model, cache, pair, to);
            let rest = all_keys(model, cache, model.datasets.len());
            let n = choose|n: int| 0 <= n < rest.len() && rest[n] == to;
            assert((roots + rest)[roots.len() + n] == to);
        }
    }
    assert forall|a: RowPair, b: RowPair|
        #![trigger leads_to(model, cache, a, b)]
        visited_after.holds(a) && leads_to(model, cache, a, b) implies visited_after.holds(b)
        || waits(stack_after, b) by {
        if visited.holds(a) {
            if !visited.holds(b) {
                assert(waits(stack, b));
            }
        } else {
            assert(a == pair);
        }
    }
    assert forall|event: u64| #[trigger] events_after.contains(event) <==> event_among(
        model,
        cache,
        visited_after,
        event,
    ) by {
        if events.contains(event) {
            assert(event_among(model, cache, visited, event));
            let k = choose|k: RowPair| #[trigger]
                visited.holds(k) && event_of(model, cache, k) == Some(event);
            assert(visited_after.holds(k));
        }
        if event_of(model, cache, pair) == Some(event) {
            assert(visited_after.holds(pair));
        }
        if event_among(model, cache, visited_after, event) {
            let k = choose|k: RowPair| #[trigger]
                visited_after.holds(k) && event_of(model, cache, k) == Some(event);
            if k != pair {
                assert(visited.holds(k));
                assert(event_among(model, cache, visited, event));
            }
        }
    }
}

/// When no row waits any more, the events found are those of all rows that
/// can be reached.
proof fn search_ends(
    model: RegistryModel,
    cache: TextMap<HostDatasetCacheEntry>,
    roots: Seq<RowPair>,
    known: Set<RowPair>,
    visited: OrderedSet<StableRowKey>,
    stack: Seq<StableRowKey>,
    events: Set<u64>,
)
    requires
        searching(model, cache, roots, known, visited, stack, events),
        stack.len() == 0,
    ensures
        forall|event: u64| #[trigger]
            events.contains(event) <==> stems_from(model, cache, roots, event),
{
    assert forall|key: RowPair| #[trigger]
        reaches(model, cache, roots, key) implies visited.holds(key) by {
        let chain = choose|chain: Seq<RowPair>|
            chain.len() > 0 && roots.contains(chain[0]) && chain.last() == key
                && #[trigger] is_chain(model, cache, chain);
        let seen = |k: RowPair| visited.holds(k);
        assert forall|k: RowPair| roots.contains(k) implies seen(k) by {
            assert(!waits(stack, k));
        }
        assert forall|a: RowPair, b: RowPair|
            #![trigger leads_to(model, cache, a, b)]
            seen(a) && leads_to(model, cache, a, b) implies seen(b) by {
            assert(!waits(stack, b));
        }
        closed_holds_reached(model, cache, roots, seen, chain, chain.len() - 1);
    }
    assert forall|event: u64| #[trigger] events.contains(event) <==> stems_from(
        model,
        cache,
        roots,
        event,
    ) by {
        if events.contains(event) {
            assert(event_among(model, cache, visited, event));
            let k = choose|k: RowPair| #[trigger]
                visited.holds(k) && event_of(model, cache, k) == Some(event);
            assert(reaches(model, cache, roots, k));
        }
        if stems_from(model, cache, roots, event) {
            let k = choose|k: RowPair| #[trigger]
                reaches(model, cache, roots, k) && event_of(model, cache, k) == Some(event);
            assert(visited.holds(k));
            assert(event_among(model, cache, visited, event));
        }
    }
}

/// Whether several rows stem from an event: the relations lead from one of
/// them to a row that names it.
pub open spec fn stems_from(
    registry: RegistryModel,
    cache: TextMap<HostDatasetCacheEntry>,
    roots: Seq<RowPair>,
    event: u64,
) -> bool {
    exists|key: RowPair| #[trigger]
        reaches(registry, cache, roots, key) && event_of(registry, cache, key) == Some(event)
}

/// Whether `events` are the events that several rows stem from.
pub open spec fn are_origins(
    registry: RegistryModel,
    cache: TextMap<HostDatasetCacheEntry>,
    roots: Seq<RowPair>,
    events: Set<u64>,
) -> bool {
    forall|event: u64| #[trigger]
        events.contains(event) <==> stems_from(registry, cache, roots, event)
}

fn event_cell(handle: TableHandle<'_>, row: usize) -> (out: Option<u64>)
    ensures
        out == event_in(handle.entry(), row as int),
{
    match handle.table.column("event_id") {
        Some(column) => match &column.values {
            TableColumnValues::U64(values) => if row < values.len() {
                Some(values[row])
            } else {
                None
            },
            _ => None,
        },
        None => None,
    }
}

fn locate<'a>(
    registry: &'a ResolvedHostViewRegistry,
    cache: &'a TextMap<HostDatasetCacheEntry>,
    key: &StableRowKey,
) -> (out: Option<(TableHandle<'a>, usize)>)
    ensures
        match out {
            Some((handle, row)) => located(registry.model(), *cache, key.pair()) == Some(
                (handle.entry(), row as int),
            ),
            None => located(registry.model(), *cache, key.pair()) is None,
        },
{
    match find_table(registry, cache, key.dataset_id.as_str()) {
        Some(handle) => match row_index_for_key(
            key.dataset_id.as_str(),
            handle.table,
            handle.schema,
            handle.generation,
            key,
        ) {
            Some(row) => Some((handle, row)),
            None => None,
        },
        None => None,
    }
}

/// The anchor time of the row that a key stands for.
pub open spec fn anchor_of(
    registry: RegistryModel,
    cache: TextMap<HostDatasetCacheEntry>,
    key: RowPair,
) -> Option<u64> {
    match located(registry, cache, key) {
        Some((entry, row)) => entry.table.anchor_at(row),
        None => None,
    }
}

pub fn anchor_of_row(
    registry: &ResolvedHostViewRegistry,
    cache: &TextMap<HostDatasetCacheEntry>,
    key: &StableRowKey,
) -> (out: Option<u64>)
    ensures
        out == anchor_of(registry.model(), *cache, key.pair()),
{
    match locate(registry, cache, key) {
        Some((handle, row)) => handle.table.row_anchor_timestamp_us(row),
        None => None,
    }
}

/// The events that the selected rows stem from: a row that names an event
/// stands for it, any other row for the events of the rows that its relations
/// lead to.
pub fn resolve_selection_event_ids(
    registry: &ResolvedHostViewRegistry,
    cache: &TextMap<HostDatasetCacheEntry>,
    selected: &OrderedSet<StableRowKey>,
) -> (out: HashSet<u64>)
    ensures
        are_origins(registry.model(), *cache, selected.keys(), out@),
{
    let ghost model = registry.model();
    let ghost roots = selected.keys();
    let ghost known = (roots + all_keys(model, *cache, model.datasets.len())).to_set();
    let mut stack: Vec<StableRowKey> = Vec::new();
    let mut i: usize = 0;
    while i < selected.len()
        invariant
            roots == selected.keys(),
            i <= selected.items().len(),
            stack@.len() == i,
            forall|j: int| 0 <= j < i ==> (#[trigger] stack@[j]).pair() == roots[j],
        decreases selected.items().len() - i,
    {
        stack.push(selected.as_list()[i].copied());
        i = i + 1;
    }
    let mut visited: OrderedSet<StableRowKey> = OrderedSet::new();
    let mut out: HashSet<u64> = HashSet::new();
    proof {
        vstd::seq_lib::seq_to_set_is_finite(
            roots + all_keys(model, *cache, model.datasets.len()),
        );
        assert forall|key: RowPair| #[trigger] roots.contains(key) implies waits(stack@, key) by {
            let j = choose|j: int| 0 <= j < roots.len() && roots[j] == key;
            assert(stack@[j].pair() == key);
        }
        assert forall|j: int| 0 <= j < stack@.len() implies reaches(
            model,
            *cache,
            roots,
            (#[trigger] stack@[j]).pair(),
        ) && known.contains(stack@[j].pair()) by {
            assert(roots[j] == stack@[j].pair());
            root_reached(model, *cache, roots, stack@[j].pair());
            let all = roots + all_keys(model, *cache, model.datasets.len());
            assert(all[j] == roots[j]);
        }
        assert(searching(model, *cache, roots, known, visited, stack@, out@));
        visited_fits(&visited, known);
    }
    while stack.len() > 0
        invariant
            model == registry.model(),
            roots == selected.keys(),
            known == (roots + all_keys(model, *cache, model.datasets.len())).to_set(),
            known.finite(),
            visited.wf(),
            searching(model, *cache, roots, known, visited, stack@, out@),
            visited.items().len() <= known.len(),
        decreases known.len() - visited.items().len(), stack@.len(),
    {
        let ghost stack_before = stack@;
        let ghost visited_before = visited;
        let ghost out_before = out@;
        let key = match stack.pop() {
            Some(key) => key,
            None => {
                return out;
            },
        };
        let fresh = visited.insert(key.copied());
        if fresh {
            match locate(registry, cache, &key) {
                Some((handle, row)) => match event_cell(handle, row) {
                    Some(event) => {
                        out.insert(event);
                    },
                    None => {
                        push_targets(registry, cache, handle, row, &mut stack);
                        proof {
                            assert forall|b: RowPair|
                                #![trigger leads_to(model, *cache, key.pair(), b)]
                                leads_to(model, *cache, key.pair(), b) implies waits(
                                stack@,
                                b,
                            ) by {
                                let j = choose|j: int|
                                    stack_before.len() - 1 <= j < stack@.len() && (
                                    #[trigger] stack@[j]).pair() == b;
                                assert(stack@[j].pair() == b);
                            }
                        }
                    },
                },
                None => {},
            }
        }
        proof {
            if !fresh {
                assert forall|event: u64| #[trigger] out@.contains(event) <==> (
                out_before.contains(event) || event_of(model, *cache, key.pair()) == Some(
                    event,
                )) by {
                    if event_of(model, *cache, key.pair()) == Some(event) {
                        assert(visited_before.holds(key.pair()));
                        assert(event_among(model, *cache, visited_before, event));
                    }
                }
            }
            search_goes_on(
                model,
                *cache,
                roots,
                known,
                visited_before,
                stack_before,
                out_before,
                visited,
                stack@,
                out@,
            );
            visited_fits(&visited, known);
        }
    }
    proof {
        search_ends(model, *cache, roots, known, visited, stack@, out@);
    }
    out
}

/// A set of known keys is no larger than all known keys.
proof fn visited_fits(visited: &OrderedSet<StableRowKey>, known: Set<RowPair>)
    requires
        visited.wf(),
        known.finite(),
        forall|key: RowPair| #[trigger] visited.holds(key) ==> known.contains(key),
    ensures
        visited.items().len() <= known.len(),
{
    let keys = visited.keys();
    assert(keys.no_duplicates()) by {
        assert forall|i: int, j: int|
            0 <= i < keys.len() && 0 <= j < keys.len() && i != j implies keys[i] != keys[j] by {
            <StableRowKey as Ordered>::irreflexive(keys[i]);
            if i < j {
                assert(<StableRowKey as Ordered>::key_less(keys[i], keys[j]));
            } else {
                assert(<StableRowKey as Ordered>::key_less(keys[j], keys[i]));
            }
        }
    }
    keys.unique_seq_to_set();
    assert forall|key: RowPair| keys.to_set().contains(key) implies known.contains(key) by {
        assert(visited.holds(key));
    }
    vstd::set_lib::lemma_len_subset(keys.to_set(), known);
}

/// Selecting more rows never loses an event.
pub proof fn more_rows_more_events(
    registry: RegistryModel,
    cache: TextMap<HostDatasetCacheEntry>,
    fewer: Seq<RowPair>,
    more: Seq<RowPair>,
    key: RowPair,
)
    requires
        forall|root: RowPair| fewer.contains(root) ==> more.contains(root),
        reaches(registry, cache, fewer, key),
    ensures
        reaches(registry, cache, more, key),
{
    let chain = choose|chain: Seq<RowPair>|
        chain.len() > 0 && fewer.contains(chain[0]) && chain.last() == key && #[trigger] is_chain(
            registry,
            cache,
            chain,
        );
    assert(is_chain(registry, cache, chain) && more.contains(chain[0]));
}

/// A relation leads from a row to the rows of its target dataset whose cell in
/// the target column holds the text that the row holds in the relation's own
/// column, and to no others.
pub proof fn relations_join_equal_cells(
    registry: RegistryModel,
    cache: TextMap<HostDatasetCacheEntry>,
    entry: TableEntry,
    row: int,
    relation: HostDatasetRelation,
    r: int,
    to: RowPair,
    c: int,
    d: int,
    target: TableEntry,
)
    requires
        table_of(registry, cache, relation.target_dataset_id@) == Some(target),
        0 <= c < entry.table.columns@.len(),
        entry.table.columns@[c].column_id@ == relation.via_column@,
        forall|k: int|
            0 <= k < c ==> (#[trigger] entry.table.columns@[k]).column_id@ != relation.via_column@,
        0 <= d < target.table.columns@.len(),
        target.table.columns@[d].column_id@ == relation.target_column@,
        forall|k: int|
            0 <= k < d ==> (#[trigger] target.table.columns@[k]).column_id@
                != relation.target_column@,
    ensures
        points_at(registry, cache, entry, row, relation, r, to) <==> {
            &&& 0 <= r < target.table.rows
            &&& cell_text(entry.table.columns@[c].values, row) is Some
            &&& cell_text(target.table.columns@[d].values, r) == cell_text(
                entry.table.columns@[c].values,
                row,
            )
            &&& to == row_key(
                relation.target_dataset_id@,
                target.generation,
                target.schema,
                target.table,
                r,
            )
        },
{
    column_is_the_first_of_its_name(entry.table.columns@, relation.via_column@);
    column_is_the_first_of_its_name(target.table.columns@, relation.target_column@);
}

/// A key stands for the first row of its own dataset that has it, and a row
/// names the event in its column `event_id`.
pub proof fn keys_are_looked_up_in_their_dataset(
    registry: RegistryModel,
    cache: TextMap<HostDatasetCacheEntry>,
    key: RowPair,
    c: int,
)
    ensures
        match located(registry, cache, key) {
            Some((entry, row)) => {
                &&& table_of(registry, cache, key.0) == Some(entry)
                &&& 0 <= row < entry.table.rows
                &&& row_key(key.0, entry.generation, entry.schema, entry.table, row) == key
                &&& anchor_of(registry, cache, key) == entry.table.anchor_at(row)
                &&& (0 <= c < entry.table.columns@.len() && entry.table.columns@[c].column_id@
                    == "event_id"@ && (forall|k: int|
                    0 <= k < c ==> (#[trigger] entry.table.columns@[k]).column_id@ != "event_id"@))
                    ==> (entry.table.columns@[c].values matches TableColumnValues::U64(v) ==> (row
                    < v@.len() ==> event_of(registry, cache, key) == Some(v@[row])))
            },
            None => {
                &&& event_of(registry, cache, key) is None
                &&& anchor_of(registry, cache, key) is None
                &&& table_of(registry, cache, key.0) matches Some(entry) ==> forall|r: int|
                    0 <= r < entry.table.rows ==> #[trigger] row_key(
                        key.0,
                        entry.generation,
                        entry.schema,
                        entry.table,
                        r,
                    ) != key
            },
        },
{
    if let Some(entry) = table_of(registry, cache, key.0) {
        first_row_with_key_is_first(
            key.0,
            entry.generation,
            entry.schema,
            entry.table,
            key,
            entry.table.rows as nat,
        );
        column_is_the_first_of_its_name(entry.table.columns@, "event_id"@);
    }
}

/// The search for events begins with the rows themselves, goes on over their
/// relations, and ends at a row that names an event.
pub proof fn searches_follow_the_relations(
    registry: RegistryModel,
    cache: TextMap<HostDatasetCacheEntry>,
    roots: Seq<RowPair>,
    from: RowPair,
    to: RowPair,
)
    ensures
        roots.contains(from) ==> reaches(registry, cache, roots, from),
        reaches(registry, cache, roots, from) && leads_to(registry, cache, from, to) ==> reaches(
            registry,
            cache,
            roots,
            to,
        ),
        event_of(registry, cache, from) is Some ==> !leads_to(registry, cache, from, to),
{
    if roots.contains(from) {
        let chain = seq![from];
        assert(is_chain(registry, cache, chain));
    }
    if reaches(registry, cache, roots, from) && leads_to(registry, cache, from, to) {
        let chain = choose|chain: Seq<RowPair>|
            chain.len() > 0 && roots.contains(chain[0]) && chain.last() == from
                && #[trigger] is_chain(registry, cache, chain);
        let longer = chain.push(to);
        assert forall|i: int| 0 <= i < longer.len() - 1 implies leads_to(
            registry,
            cache,
            #[trigger] longer[i],
            longer[i + 1],
        ) by {
            if i < chain.len() - 1 {
                assert(leads_to(registry, cache, chain[i], chain[i + 1]));
            }
        }
        assert(is_chain(registry, cache, longer));
    }
}

/// Each relation of a dataset counts, the first one and the last one too: a row
/// that names no event leads to the rows that one of them points at.
pub proof fn every_relation_leads_on(
    registry: RegistryModel,
    cache: TextMap<HostDatasetCacheEntry>,
    from: RowPair,
    entry: TableEntry,
    row: int,
    k: int,
    r: int,
    to: RowPair,
)
    requires
        located(registry, cache, from) == Some((entry, row)),
        0 <= k < entry.descriptor.relations@.len(),
        points_at(registry, cache, entry, row, entry.descriptor.relations@[k], r, to),
    ensures
        event_in(entry, row) is None ==> leads_to(registry, cache, from, to),
        event_in(entry, row) is Some ==> !leads_to(registry, cache, from, to),
{
    let relation = entry.descriptor.relations@[k];
    assert(related_by(registry, cache, entry, row, relation, to));
}

/// A row that names an event stems from it, and with more rows no event is
/// lost.
pub proof fn rows_stem_from_the_event_they_name(
    registry: RegistryModel,
    cache: TextMap<HostDatasetCacheEntry>,
    roots: Seq<RowPair>,
    key: RowPair,
    event: u64,
    events: Set<u64>,
)
    requires
        roots.contains(key),
        event_of(registry, cache, key) == Some(event),
        are_origins(registry, cache, roots, events),
    ensures
        stems_from(registry, cache, roots, event),
        events.contains(event),
{
    searches_begin_with_their_roots(registry, cache, roots, key);
}

proof fn searches_begin_with_their_roots(
    registry: RegistryModel,
    cache: TextMap<HostDatasetCacheEntry>,
    roots: Seq<RowPair>,
    key: RowPair,
)
    requires
        roots.contains(key),
    ensures
        reaches(registry, cache, roots, key),
{
    let chain = seq![key];
    assert(is_chain(registry, cache, chain));
    assert(roots.contains(chain[0]) && chain.last() == key);
}

} // verus!
