//! Actions on selected rows: what they act on, their parameters, and the
//! queue of requests.
use crate::dataset_cache::{find_table, table_of, HostDatasetCacheEntry, TableEntry};
use crate::host_data::{
    FloatCell, HostActionScope, TableColumn, TableColumnData, TableColumnValues, TableDatasetV1,
    TableSchema,
};
use crate::json::{
    json_array, json_as_bool, json_as_i64, json_as_object, json_as_u64, json_bool, json_entries, json_i64, json_into_object, json_map_get, json_map_insert, json_map_new,
    json_null, json_object, json_string, json_tree, json_trees, json_u64, no_entries, JsonTree,
};
use crate::lists::{filtered_list_holds, filters_keep_as_many};
use crate::ordered_set::OrderedSet;
use crate::registry::{RegistryModel, ResolvedHostViewRegistry};
use crate::rows::{
    cell_text, opt_text, raw_cell_value, stable_id, stable_row_id_value, StableRowKey,
};
use crate::text::same_text;
use crate::text_map::TextMap;
use serde_json::Value;
use vstd::prelude::*;

verus! {

// ---------------------------------------------------------------------------
// What an action acts on
// ---------------------------------------------------------------------------
/// What a requested action acts on.
#[derive(Debug, Clone)]
pub enum HostActionScopePayload {
    Dataset { dataset_id: String },
    Row { dataset_id: String, row_id: String },
    Cluster { dataset_id: String, group_column: String, group_value: String },
}

/// A payload by its texts.
pub enum PayloadView {
    Dataset(Seq<char>),
    Row(Seq<char>, Seq<char>),
    Cluster(Seq<char>, Seq<char>, Seq<char>),
}

impl HostActionScopePayload {
    pub open spec fn texts(self) -> PayloadView {
        match self {
            HostActionScopePayload::Dataset { dataset_id } => PayloadView::Dataset(dataset_id@),
            HostActionScopePayload::Row { dataset_id, row_id } => PayloadView::Row(
                dataset_id@,
                row_id@,
            ),
            HostActionScopePayload::Cluster {
                dataset_id,
                group_column,
                group_value,
            } => PayloadView::Cluster(dataset_id@, group_column@, group_value@),
        }
    }
}

/// The selected rows of one dataset, in order.
pub open spec fn selected_in(selected: Seq<StableRowKey>, dataset_id: Seq<char>) -> Seq<
    StableRowKey,
> {
    selected.filter(|key: StableRowKey| key.dataset_id@ == dataset_id)
}

fn rows_selected_in(selected: &OrderedSet<StableRowKey>, dataset_id: &str) -> (out: Vec<
    StableRowKey,
>)
    ensures
        out@ == selected_in(selected.items(), dataset_id@),
{
    let ghost keep = |key: StableRowKey| key.dataset_id@ == dataset_id@;
    let all = selected.as_list();
    let mut out: Vec<StableRowKey> = Vec::new();
    let mut i: usize = 0;
    proof {
        reveal(Seq::filter);
        assert(all@.take(0).filter(keep) =~= Seq::<StableRowKey>::empty());
    }
    while i < all.len()
        invariant
            keep == (|key: StableRowKey| key.dataset_id@ == dataset_id@),
            i <= all@.len(),
            out@ == all@.take(i as int).filter(keep),
        decreases all@.len() - i,
    {
        proof {
            reveal(Seq::filter);
            assert(all@.take(i + 1).drop_last() =~= all@.take(i as int));
        }
        if same_text(all[i].dataset_id.as_str(), dataset_id) {
            out.push(all[i].copied());
        }
        i = i + 1;
    }
    assert(all@.take(all@.len() as int) =~= all@);
    out
}

/// The first row below `n` whose id cell holds the given text.
pub open spec fn first_row_with_id(values: TableColumnValues, id: Seq<char>, n: nat) -> Option<
    int,
>
    decreases n,
{
    if n == 0 {
        None
    } else {
        match first_row_with_id(values, id, (n - 1) as nat) {
            Some(row) => Some(row),
            None => if stable_id(values, n - 1) == Some(id) {
                Some(n - 1)
            } else {
                None
            },
        }
    }
}

proof fn first_row_with_id_stays(values: TableColumnValues, id: Seq<char>, n: nat, m: nat)
    requires
        n <= m,
        first_row_with_id(values, id, n) is Some,
    ensures
        first_row_with_id(values, id, m) == first_row_with_id(values, id, n),
    decreases m,
{
    if n < m {
        first_row_with_id_stays(values, id, n, (m - 1) as nat);
    }
}

/// The group that the row with this id belongs to.
pub open spec fn group_of(
    id_column: TableColumnData,
    group_column: TableColumnData,
    rows: nat,
    id: Seq<char>,
) -> Option<Seq<char>> {
    match first_row_with_id(id_column.values, id, rows) {
        Some(row) => cell_text(group_column.values, row),
        None => None,
    }
}

fn group_for_row(
    id_column: &TableColumnData,
    group_column: &TableColumnData,
    rows: usize,
    id: &str,
) -> (out: Option<String>)
    ensures
        opt_text(out) == group_of(*id_column, *group_column, rows as nat, id@),
{
    let mut row: usize = 0;
    while row < rows
        invariant
            row <= rows,
            first_row_with_id(id_column.values, id@, row as nat) is None,
        decreases rows - row,
    {
        let found = match stable_row_id_value(&id_column.values, row) {
            Some(text) => same_text(text.as_str(), id),
            None => false,
        };
        if found {
            proof {
                first_row_with_id_stays(id_column.values, id@, (row + 1) as nat, rows as nat);
            }
            return raw_cell_value(&group_column.values, row);
        }
        row = row + 1;
    }
    None
}

/// The group that all of several rows share.
pub open spec fn shared_group(
    id_column: TableColumnData,
    group_column: TableColumnData,
    rows: nat,
    keys: Seq<StableRowKey>,
) -> Option<Seq<char>> {
    if keys.len() > 0 && forall|i: int|
        0 <= i < keys.len() ==> group_of(
            id_column,
            group_column,
            rows,
            (#[trigger] keys[i]).row_id@,
        ) is Some && group_of(id_column, group_column, rows, keys[i].row_id@) == group_of(
            id_column,
            group_column,
            rows,
            keys[0].row_id@,
        ) {
        group_of(id_column, group_column, rows, keys[0].row_id@)
    } else {
        None
    }
}

/// The group of the rows of a dataset that are selected: they have to be
/// identified by a column, and all to belong to one group.
pub open spec fn selected_group(
    registry: RegistryModel,
    cache: TextMap<HostDatasetCacheEntry>,
    selected: Seq<StableRowKey>,
    dataset_id: Seq<char>,
    group_column: Seq<char>,
) -> Option<Seq<char>> {
    match table_of(registry, cache, dataset_id) {
        Some(entry) => match entry.schema.row_id_column {
            Some(id_column) => match (
                entry.table.named(id_column@),
                entry.table.named(group_column),
            ) {
                (Some(ids), Some(groups)) => shared_group(
                    ids,
                    groups,
                    entry.table.rows as nat,
                    selected_in(selected, dataset_id),
                ),
                _ => None,
            },
            None => None,
        },
        None => None,
    }
}

/// What an action acts on under the present selection, or nothing where the
/// selection does not fit the action.
pub open spec fn scope_payload(
    registry: RegistryModel,
    cache: TextMap<HostDatasetCacheEntry>,
    selected: Seq<StableRowKey>,
    scope: HostActionScope,
) -> Option<PayloadView> {
    match scope {
        HostActionScope::Dataset { dataset_id } => Some(PayloadView::Dataset(dataset_id@)),
        HostActionScope::Row { dataset_id } => {
            let rows = selected_in(selected, dataset_id@);
            if rows.len() == 1 {
                Some(PayloadView::Row(dataset_id@, rows[0].row_id@))
            } else {
                None
            }
        },
        HostActionScope::Cluster { dataset_id, group_column } => match selected_group(
            registry,
            cache,
            selected,
            dataset_id@,
            group_column@,
        ) {
            Some(value) => Some(PayloadView::Cluster(dataset_id@, group_column@, value)),
            None => None,
        },
    }
}

fn group_of_selection(
    registry: &ResolvedHostViewRegistry,
    cache: &TextMap<HostDatasetCacheEntry>,
    selected: &OrderedSet<StableRowKey>,
    dataset_id: &str,
    group_column: &str,
) -> (out: Option<String>)
    ensures
        opt_text(out) == selected_group(
            registry.model(),
            *cache,
            selected.items(),
            dataset_id@,
            group_column@,
        ),
{
    let keys = rows_selected_in(selected, dataset_id);
    let handle = match find_table(registry, cache, dataset_id) {
        Some(handle) => handle,
        None => {
            return None;
        },
    };
    let id_column = match &handle.schema.row_id_column {
        Some(id_column) => id_column,
        None => {
            return None;
        },
    };
    let ids = match handle.table.column(id_column.as_str()) {
        Some(ids) => ids,
        None => {
            return None;
        },
    };
    let groups = match handle.table.column(group_column) {
        Some(groups) => groups,
        None => {
            return None;
        },
    };
    if keys.len() == 0 {
        return None;
    }
    let rows: usize = handle.table.rows;
    let first = match group_for_row(ids, groups, rows, keys[0].row_id.as_str()) {
        Some(value) => value,
        None => {
            assert(group_of(*ids, *groups, rows as nat, keys@[0].row_id@) is None);
            return None;
        },
    };
    let mut i: usize = 1;
    let mut shared = true;
    while shared && i < keys.len()
        invariant
            1 <= i <= keys@.len(),
            group_of(*ids, *groups, rows as nat, keys@[0].row_id@) == Some(first@),
            shared ==> forall|k: int|
                0 <= k < i ==> group_of(*ids, *groups, rows as nat, (#[trigger] keys@[k]).row_id@)
                    == Some(first@),
            !shared ==> group_of(*ids, *groups, rows as nat, keys@[i - 1].row_id@) != Some(first@),
        decreases keys@.len() - i,
    {
        shared = match group_for_row(ids, groups, rows, keys[i].row_id.as_str()) {
            Some(value) => value == first,
            None => false,
        };
        i = i + 1;
    }
    if !shared {
        assert(shared_group(*ids, *groups, rows as nat, keys@) is None);
        return None;
    }
    Some(first)
}

/// Resolves what an action acts on under the present selection. Gives nothing
/// where the selection does not satisfy the scope.
pub fn resolve_action_scope_payload(
    registry: &ResolvedHostViewRegistry,
    cache: &TextMap<HostDatasetCacheEntry>,
    selected: &OrderedSet<StableRowKey>,
    scope: &HostActionScope,
) -> (out: Option<HostActionScopePayload>)
    ensures
        match out {
            Some(payload) => scope_payload(registry.model(), *cache, selected.items(), *scope)
                == Some(payload.texts()),
            None => scope_payload(registry.model(), *cache, selected.items(), *scope) is None,
        },
{
    match scope {
        HostActionScope::Dataset { dataset_id } => Some(
            HostActionScopePayload::Dataset { dataset_id: dataset_id.clone() },
        ),
        HostActionScope::Row { dataset_id } => {
            let rows = rows_selected_in(selected, dataset_id.as_str());
            if rows.len() == 1 {
                Some(
                    HostActionScopePayload::Row {
                        dataset_id: dataset_id.clone(),
                        row_id: rows[0].row_id.clone(),
                    },
                )
            } else {
                None
            }
        },
        HostActionScope::Cluster { dataset_id, group_column } => {
            match group_of_selection(
                registry,
                cache,
                selected,
                dataset_id.as_str(),
                group_column.as_str(),
            ) {
                Some(group_value) => Some(
                    HostActionScopePayload::Cluster {
                        dataset_id: dataset_id.clone(),
                        group_column: group_column.clone(),
                        group_value,
                    },
                ),
                None => None,
            }
        },
    }
}

/// The hint on the button of an action.
pub open spec fn hint_text(scope: HostActionScope) -> Seq<char> {
    match scope {
        HostActionScope::Dataset { dataset_id } => "Dataset-wide action on "@ + dataset_id@ + "."@,
        HostActionScope::Row { dataset_id } => "Select exactly one row on "@ + dataset_id@
            + " to enable."@,
        HostActionScope::Cluster { dataset_id, group_column } => "Select rows on "@ + dataset_id@
            + " sharing the same "@ + group_column@ + " value."@,
    }
}

pub fn action_hint(scope: &HostActionScope) -> (out: String)
    ensures
        out@ == hint_text(*scope),
{
    match scope {
        HostActionScope::Dataset { dataset_id } => {
            let mut out = "Dataset-wide action on ".to_owned();
            out.append(dataset_id.as_str());
            out.append(".");
            out
        },
        HostActionScope::Row { dataset_id } => {
            let mut out = "Select exactly one row on ".to_owned();
            out.append(dataset_id.as_str());
            out.append(" to enable.");
            out
        },
        HostActionScope::Cluster { dataset_id, group_column } => {
            let mut out = "Select rows on ".to_owned();
            out.append(dataset_id.as_str());
            out.append(" sharing the same ");
            out.append(group_column.as_str());
            out.append(" value.");
            out
        },
    }
}

// ---------------------------------------------------------------------------
// Row snapshots
// ---------------------------------------------------------------------------
/// A cell as JSON, where it has a JSON form.
pub open spec fn cell_json(values: TableColumnValues, row: int) -> Option<JsonTree> {
    match values {
        TableColumnValues::U64(v) => if 0 <= row < v@.len() {
            Some(JsonTree::Whole(v@[row] as int))
        } else {
            None
        },
        TableColumnValues::I64(v) => if 0 <= row < v@.len() {
            Some(JsonTree::Whole(v@[row] as int))
        } else {
            None
        },
        TableColumnValues::F64(v) => if 0 <= row < v@.len() {
            match v@[row].json {
                Some(number) => if v@[row].value.is_finite() {
                    Some(json_tree(number))
                } else {
                    None
                },
                None => None,
            }
        } else {
            None
        },
        TableColumnValues::String(v) => if 0 <= row < v@.len() {
            Some(JsonTree::Text(v@[row]@))
        } else {
            None
        },
        TableColumnValues::Bool(v) => if 0 <= row < v@.len() {
            Some(JsonTree::Bool(v@[row]))
        } else {
            None
        },
    }
}

/// A float is given to plugins as the number that it is, and left out where it
/// is none.
pub proof fn floats_are_given_as_numbers(cells: Vec<FloatCell>, row: int)
    requires
        0 <= row < cells@.len(),
        cells@[row].wf(),
    ensures
        cell_json(TableColumnValues::F64(cells), row) == (if cells@[row].value.is_finite() {
            Some(JsonTree::Float(cells@[row].value.order_key()))
        } else {
            None
        }),
{
}

fn cell_as_json(values: &TableColumnValues, row: usize) -> (out: Option<Value>)
    ensures
        match out {
            Some(value) => cell_json(*values, row as int) == Some(json_tree(value)),
            None => cell_json(*values, row as int) is None,
        },
{
    match values {
        TableColumnValues::U64(v) => if row < v.len() {
            Some(json_u64(v[row]))
        } else {
            None
        },
        TableColumnValues::I64(v) => if row < v.len() {
            Some(json_i64(v[row]))
        } else {
            None
        },
        TableColumnValues::F64(v) => if row < v.len() {
            match &v[row].json {
                Some(number) => if v[row].value.finite() {
                    Some(number.clone())
                } else {
                    None
                },
                None => None,
            }
        } else {
            None
        },
        TableColumnValues::String(v) => if row < v.len() {
            Some(json_string(v[row].clone()))
        } else {
            None
        },
        TableColumnValues::Bool(v) => if row < v.len() {
            Some(json_bool(v[row]))
        } else {
            None
        },
    }
}

/// The cells of a row as the entries of an object, by the ids of the columns.
pub open spec fn row_entries(columns: Seq<TableColumn>, table: TableDatasetV1, row: int) -> Map<
    Seq<char>,
    JsonTree,
>
    decreases columns.len(),
{
    if columns.len() == 0 {
        no_entries()
    } else {
        let rest = row_entries(columns.drop_last(), table, row);
        let id = columns.last().id@;
        match table.named(id) {
            Some(column) => match cell_json(column.values, row) {
                Some(value) => rest.insert(id, value),
                None => rest,
            },
            None => rest,
        }
    }
}

/// A row as a JSON object.
pub fn table_row_snapshot_json(schema: &TableSchema, table: &TableDatasetV1, row: usize) -> (out:
    Value)
    ensures
        json_tree(out) == JsonTree::Object(row_entries(schema.columns@, *table, row as int)),
{
    let mut object = json_map_new();
    let mut i: usize = 0;
    assert(schema.columns@.take(0) =~= Seq::<TableColumn>::empty());
    while i < schema.columns.len()
        invariant
            i <= schema.columns@.len(),
            json_entries(object) == row_entries(schema.columns@.take(i as int), *table, row as int),
        decreases schema.columns@.len() - i,
    {
        assert(schema.columns@.take(i + 1).drop_last() =~= schema.columns@.take(i as int));
        let column = &schema.columns[i];
        if let Some(data) = table.column(column.id.as_str()) {
            if let Some(value) = cell_as_json(&data.values, row) {
                json_map_insert(&mut object, column.id.clone(), value);
            }
        }
        i = i + 1;
    }
    assert(schema.columns@.take(schema.columns@.len() as int) =~= schema.columns@);
    json_object(object)
}

/// The rows below `n` of a group as JSON objects, in order.
pub open spec fn group_rows(
    entry: TableEntry,
    group: TableColumnData,
    value: Seq<char>,
    n: nat,
) -> Seq<JsonTree>
    decreases n,
{
    if n == 0 {
        Seq::empty()
    } else {
        let rest = group_rows(entry, group, value, (n - 1) as nat);
        if cell_text(group.values, n - 1) == Some(value) {
            rest.push(JsonTree::Object(row_entries(entry.schema.columns@, entry.table, n - 1)))
        } else {
            rest
        }
    }
}

/// The rows of a group as JSON objects, where there are any.
pub open spec fn cluster_rows(
    registry: RegistryModel,
    cache: TextMap<HostDatasetCacheEntry>,
    dataset_id: Seq<char>,
    group_column: Seq<char>,
    group_value: Seq<char>,
) -> Option<Seq<JsonTree>> {
    match table_of(registry, cache, dataset_id) {
        Some(entry) => match entry.table.named(group_column) {
            Some(group) => {
                let rows = group_rows(entry, group, group_value, entry.table.rows as nat);
                if rows.len() > 0 {
                    Some(rows)
                } else {
                    None
                }
            },
            None => None,
        },
        None => None,
    }
}

pub fn cluster_scope_row_snapshots(
    registry: &ResolvedHostViewRegistry,
    cache: &TextMap<HostDatasetCacheEntry>,
    dataset_id: &str,
    group_column: &str,
    group_value: &str,
) -> (out: Option<Vec<Value>>)
    ensures
        match out {
            Some(rows) => cluster_rows(
                registry.model(),
                *cache,
                dataset_id@,
                group_column@,
                group_value@,
            ) == Some(json_trees(rows@)),
            None => cluster_rows(
                registry.model(),
                *cache,
                dataset_id@,
                group_column@,
                group_value@,
            ) is None,
        },
{
    let handle = match find_table(registry, cache, dataset_id) {
        Some(handle) => handle,
        None => {
            return None;
        },
    };
    let group = match handle.table.column(group_column) {
        Some(group) => group,
        None => {
            return None;
        },
    };
    let mut rows: Vec<Value> = Vec::new();
    let mut row: usize = 0;
    assert(json_trees(rows@) =~= Seq::<JsonTree>::empty());
    while row < handle.table.rows
        invariant
            row <= handle.table.rows,
            json_trees(rows@) == group_rows(handle.entry(), *group, group_value@, row as nat),
        decreases handle.table.rows - row,
    {
        let belongs = match raw_cell_value(&group.values, row) {
            Some(text) => same_text(text.as_str(), group_value),
            None => false,
        };
        if belongs {
            let ghost before = rows@;
            let snapshot = table_row_snapshot_json(handle.schema, handle.table, row);
            rows.push(snapshot);
            assert(json_trees(rows@) =~= json_trees(before).push(json_tree(snapshot)));
        }
        row = row + 1;
    }
    assert(json_trees(rows@).len() == rows@.len());
    if rows.len() > 0 {
        Some(rows)
    } else {
        None
    }
}

/// The parameters of an action as they are sent: an action on a group carries
/// the rows of the group under `rows_param`.
pub open spec fn augmented(
    registry: RegistryModel,
    cache: TextMap<HostDatasetCacheEntry>,
    payload: PayloadView,
    params: JsonTree,
    rows_param: Seq<char>,
) -> JsonTree {
    match payload {
        PayloadView::Cluster(dataset_id, group_column, group_value) => match cluster_rows(
            registry,
            cache,
            dataset_id,
            group_column,
            group_value,
        ) {
            Some(rows) => {
                let entries = match params {
                    JsonTree::Object(entries) => entries,
                    _ => no_entries(),
                };
                JsonTree::Object(entries.insert(rows_param, JsonTree::Array(rows)))
            },
            None => params,
        },
        _ => params,
    }
}

pub fn augment_action_request_params(
    registry: &ResolvedHostViewRegistry,
    cache: &TextMap<HostDatasetCacheEntry>,
    scope_payload: &HostActionScopePayload,
    params: Value,
    rows_param: &str,
) -> (out: Value)
    ensures
        json_tree(out) == augmented(
            registry.model(),
            *cache,
            scope_payload.texts(),
            json_tree(params),
            rows_param@,
        ),
{
    match scope_payload {
        HostActionScopePayload::Cluster { dataset_id, group_column, group_value } => {
            match cluster_scope_row_snapshots(
                registry,
                cache,
                dataset_id.as_str(),
                group_column.as_str(),
                group_value.as_str(),
            ) {
                Some(rows) => {
                    let mut object = match json_into_object(params) {
                        Some(object) => object,
                        None => json_map_new(),
                    };
                    json_map_insert(&mut object, rows_param.to_owned(), json_array(rows));
                    json_object(object)
                },
                None => params,
            }
        },
        _ => params,
    }
}

// ---------------------------------------------------------------------------
// The queue
// ---------------------------------------------------------------------------
#[derive(Debug, Clone)]
pub struct HostActionRequest {
    pub request_id: u64,
    pub action_id: String,
    pub scope_payload: HostActionScopePayload,
    pub params: Value,
}

/// The requests that plugins have not seen yet.
#[derive(Debug, Clone)]
pub struct ActionQueue {
    pub pending: Vec<HostActionRequest>,
    pub next_request_id: u64,
}

impl ActionQueue {
    /// The waiting requests have increasing ids, all below the next one.
    pub open spec fn wf(&self) -> bool {
        &&& forall|i: int, j: int|
            0 <= i < j < self.pending@.len() ==> (#[trigger] self.pending@[i]).request_id < (
            #[trigger] self.pending@[j]).request_id
        &&& forall|i: int|
            0 <= i < self.pending@.len() ==> (#[trigger] self.pending@[i]).request_id
                < self.next_request_id
    }

    pub fn new() -> (out: Self)
        ensures
            out.wf(),
            out.pending@.len() == 0,
            out.next_request_id == 1,
    {
        ActionQueue { pending: Vec::new(), next_request_id: 1 }
    }

    /// Queues a request under the next id.
    pub fn enqueue_action_request(
        &mut self,
        registry: &ResolvedHostViewRegistry,
        cache: &TextMap<HostDatasetCacheEntry>,
        action_id: String,
        scope_payload: HostActionScopePayload,
        params: Value,
        rows_param: &str,
    )
        ensures
            final(self).pending@.len() == old(self).pending@.len() + 1,
            final(self).pending@.drop_last() == old(self).pending@,
            final(self).pending@.last().request_id == old(self).next_request_id,
            final(self).pending@.last().action_id == action_id,
            final(self).pending@.last().scope_payload == scope_payload,
            json_tree(final(self).pending@.last().params) == augmented(
                registry.model(),
                *cache,
                scope_payload.texts(),
                json_tree(params),
                rows_param@,
            ),
            final(self).next_request_id == if old(self).next_request_id < u64::MAX {
                (old(self).next_request_id + 1) as u64
            } else {
                u64::MAX
            },
            old(self).wf() && old(self).next_request_id < u64::MAX ==> final(self).wf(),
    {
        let params = augment_action_request_params(
            registry,
            cache,
            &scope_payload,
            params,
            rows_param,
        );
        let request_id: u64 = self.next_request_id;
        self.next_request_id = self.next_request_id.saturating_add(1);
        let ghost before = self.pending@;
        self.pending.push(HostActionRequest { request_id, action_id, scope_payload, params });
        assert(self.pending@.drop_last() =~= before);
    }
}

// ---------------------------------------------------------------------------
// Offers and forms
// ---------------------------------------------------------------------------
/// An action as it is offered: with what it would act on, where the selection
/// fits it.
#[derive(Debug)]
pub struct ActionOffer {
    pub id: String,
    pub title: String,
    pub payload: Option<HostActionScopePayload>,
    pub hint: String,
    /// What is asked for before the action is queued, as it was published.
    pub param_schema: Option<Value>,
}

/// What a published form holds.
pub open spec fn schema_tree(schema: Option<Value>) -> Option<JsonTree> {
    match schema {
        Some(value) => Some(json_tree(value)),
        None => None,
    }
}

/// The texts of what an action would act on.
pub open spec fn payload_texts(payload: Option<HostActionScopePayload>) -> Option<PayloadView> {
    match payload {
        Some(payload) => Some(payload.texts()),
        None => None,
    }
}

/// The offers for the registered actions, in their order.
pub fn render_investigation_actions(
    registry: &ResolvedHostViewRegistry,
    cache: &TextMap<HostDatasetCacheEntry>,
    selected: &OrderedSet<StableRowKey>,
) -> (out: Vec<ActionOffer>)
    ensures
        out@.len() == registry.model().actions.len(),
        forall|i: int|
            0 <= i < out@.len() ==> {
                let action = registry.model().actions[i].descriptor;
                &&& (#[trigger] out@[i]).id@ == action.id@
                &&& out@[i].title@ == action.title@
                &&& payload_texts(out@[i].payload) == scope_payload(
                    registry.model(),
                    *cache,
                    selected.items(),
                    action.scope,
                )
                &&& out@[i].hint@ == hint_text(action.scope)
                &&& schema_tree(out@[i].param_schema) == schema_tree(action.param_schema)
            },
{
    let actions = registry.actions();
    let mut out: Vec<ActionOffer> = Vec::new();
    let mut i: usize = 0;
    while i < actions.len()
        invariant
            i <= actions@.len(),
            actions@ == registry.model().actions,
            out@.len() == i,
            forall|k: int|
                0 <= k < i ==> {
                    let action = registry.model().actions[k].descriptor;
                    &&& (#[trigger] out@[k]).id@ == action.id@
                    &&& out@[k].title@ == action.title@
                    &&& payload_texts(out@[k].payload) == scope_payload(
                        registry.model(),
                        *cache,
                        selected.items(),
                        action.scope,
                    )
                    &&& out@[k].hint@ == hint_text(action.scope)
                    &&& schema_tree(out@[k].param_schema) == schema_tree(action.param_schema)
                },
        decreases actions@.len() - i,
    {
        let descriptor = &actions[i].descriptor;
        out.push(
            ActionOffer {
                id: descriptor.id.clone(),
                title: descriptor.title.clone(),
                payload: resolve_action_scope_payload(registry, cache, selected, &descriptor.scope),
                hint: action_hint(&descriptor.scope),
                param_schema: match &descriptor.param_schema {
                    Some(schema) => Some(schema.clone()),
                    None => None,
                },
            },
        );
        i = i + 1;
    }
    out
}

/// An action that waits for its parameters.
#[derive(Debug)]
pub struct ActionModalState {
    pub action_id: String,
    pub title: String,
    pub scope_payload: HostActionScopePayload,
    pub schema: Option<SettingsSchema>,
    pub params: Value,
}

/// Asks for the parameters of an action, beginning with their defaults.
pub fn open_action_modal(
    action_id: &str,
    title: &str,
    scope_payload: HostActionScopePayload,
    schema: Option<SettingsSchema>,
) -> (out: ActionModalState)
    ensures
        out.action_id@ == action_id@,
        out.title@ == title@,
        out.scope_payload == scope_payload,
        out.schema == schema,
        json_tree(out.params) == (match schema {
            Some(schema) => JsonTree::Object(section_defaults(schema.sections@)),
            None => JsonTree::Null,
        }),
{
    let params = match &schema {
        Some(schema) => initial_params(Some(schema)),
        None => initial_params(None),
    };
    ActionModalState {
        action_id: action_id.to_owned(),
        title: title.to_owned(),
        scope_payload,
        schema,
        params,
    }
}

/// What becomes of a form after it was shown.
#[derive(Debug)]
pub enum ModalOutcome {
    /// It is shown again.
    Stay(ActionModalState),
    /// Its action is queued.
    Apply(ActionModalState),
    Closed,
}

/// Decides by the pressed buttons what becomes of a form. Its parameters are
/// the edited ones.
pub fn render_action_modal(
    modal: ActionModalState,
    edited: Value,
    apply: bool,
    cancel: bool,
    open: bool,
) -> (out: ModalOutcome)
    ensures
        ({
            let kept = ActionModalState { params: edited, ..modal };
            out == (if apply {
                ModalOutcome::Apply(kept)
            } else if cancel || !open {
                ModalOutcome::Closed
            } else {
                ModalOutcome::Stay(kept)
            })
        }),
{
    let kept = ActionModalState { params: edited, ..modal };
    if apply {
        ModalOutcome::Apply(kept)
    } else if cancel || !open {
        ModalOutcome::Closed
    } else {
        ModalOutcome::Stay(kept)
    }
}

// ---------------------------------------------------------------------------
// Parameter forms
// ---------------------------------------------------------------------------
/// The kind of one parameter. The bounds of floating-point parameters are kept
/// where floating-point numbers are handled; their default stands here as
/// JSON.
#[derive(Debug, Clone)]
pub enum SettingKind {
    Bool { default: bool },
    F64Slider { default: Value, suffix: Option<String> },
    I64Slider { min: i64, max: i64, default: i64, suffix: Option<String> },
    F64Drag { default: Value },
    I64Drag { min: i64, max: i64, default: i64 },
    Enum { variants: Vec<String>, default: usize },
}

#[derive(Debug, Clone)]
pub struct SettingItem {
    pub key: String,
    pub label: String,
    pub kind: SettingKind,
}

#[derive(Debug, Clone)]
pub struct SettingsSection {
    pub label: String,
    pub description: Option<String>,
    pub default_open: bool,
    pub items: Vec<SettingItem>,
}

#[derive(Debug, Clone)]
pub struct SettingsSchema {
    pub sections: Vec<SettingsSection>,
}

/// The default of a parameter as JSON.
pub open spec fn default_json(kind: SettingKind) -> JsonTree {
    match kind {
        SettingKind::Bool { default } => JsonTree::Bool(default),
        SettingKind::F64Slider { default, .. } => json_tree(default),
        SettingKind::I64Slider { default, .. } => JsonTree::Whole(default as int),
        SettingKind::F64Drag { default } => json_tree(default),
        SettingKind::I64Drag { default, .. } => JsonTree::Whole(default as int),
        SettingKind::Enum { default, .. } => JsonTree::Whole(default as int),
    }
}

fn default_value(kind: &SettingKind) -> (out: Value)
    ensures
        json_tree(out) == default_json(*kind),
{
    match kind {
        SettingKind::Bool { default } => json_bool(*default),
        SettingKind::F64Slider { default, .. } => default.clone(),
        SettingKind::I64Slider { default, .. } => json_i64(*default),
        SettingKind::F64Drag { default } => default.clone(),
        SettingKind::I64Drag { default, .. } => json_i64(*default),
        SettingKind::Enum { default, .. } => json_u64(*default as u64),
    }
}

/// The defaults of several parameters, added to what is there. A later
/// parameter of the same key wins.
pub open spec fn item_defaults(
    entries: Map<Seq<char>, JsonTree>,
    items: Seq<SettingItem>,
) -> Map<Seq<char>, JsonTree>
    decreases items.len(),
{
    if items.len() == 0 {
        entries
    } else {
        item_defaults(entries, items.drop_last()).insert(
            items.last().key@,
            default_json(items.last().kind),
        )
    }
}

/// The defaults of all parameters of several sections.
pub open spec fn section_defaults(sections: Seq<SettingsSection>) -> Map<Seq<char>, JsonTree>
    decreases sections.len(),
{
    if sections.len() == 0 {
        no_entries()
    } else {
        item_defaults(section_defaults(sections.drop_last()), sections.last().items@)
    }
}

/// The parameters of an action before the user changes any.
pub fn seed_default_params(schema: &SettingsSchema) -> (out: Value)
    ensures
        json_tree(out) == JsonTree::Object(section_defaults(schema.sections@)),
{
    let mut map = json_map_new();
    let mut i: usize = 0;
    assert(schema.sections@.take(0) =~= Seq::<SettingsSection>::empty());
    while i < schema.sections.len()
        invariant
            i <= schema.sections@.len(),
            json_entries(map) == section_defaults(schema.sections@.take(i as int)),
        decreases schema.sections@.len() - i,
    {
        let items = &schema.sections[i].items;
        let ghost start = json_entries(map);
        let mut k: usize = 0;
        assert(items@.take(0) =~= Seq::<SettingItem>::empty());
        while k < items.len()
            invariant
                k <= items@.len(),
                json_entries(map) == item_defaults(start, items@.take(k as int)),
            decreases items@.len() - k,
        {
            assert(items@.take(k + 1).drop_last() =~= items@.take(k as int));
            let item = &items[k];
            json_map_insert(&mut map, item.key.clone(), default_value(&item.kind));
            k = k + 1;
        }
        assert(items@.take(items@.len() as int) =~= items@);
        assert(schema.sections@.take(i + 1).drop_last() =~= schema.sections@.take(i as int));
        i = i + 1;
    }
    assert(schema.sections@.take(schema.sections@.len() as int) =~= schema.sections@);
    json_object(map)
}

/// The parameters that a form starts with: the defaults, or nothing where the
/// action has no form.
pub fn initial_params(schema: Option<&SettingsSchema>) -> (out: Value)
    ensures
        json_tree(out) == match schema {
            Some(schema) => JsonTree::Object(section_defaults(schema.sections@)),
            None => JsonTree::Null,
        },
{
    match schema {
        Some(schema) => seed_default_params(schema),
        None => json_null(),
    }
}

/// What the parameters hold under a key.
pub open spec fn param_at(params: JsonTree, key: Seq<char>) -> Option<JsonTree> {
    match params {
        JsonTree::Object(entries) => if entries.dom().contains(key) {
            Some(entries[key])
        } else {
            None
        },
        _ => None,
    }
}

fn param<'a>(params: &'a Value, key: &str) -> (out: Option<&'a Value>)
    ensures
        match out {
            Some(value) => param_at(json_tree(*params), key@) == Some(json_tree(*value)),
            None => param_at(json_tree(*params), key@) is None,
        },
{
    match json_as_object(params) {
        Some(object) => json_map_get(object, key),
        None => None,
    }
}

/// The boolean that a form shows for a parameter.
pub fn bool_param(params: &Value, key: &str, default: bool) -> (out: bool)
    ensures
        out == match param_at(json_tree(*params), key@) {
            Some(JsonTree::Bool(value)) => value,
            _ => default,
        },
{
    match param(params, key) {
        Some(value) => match json_as_bool(value) {
            Some(value) => value,
            None => default,
        },
        None => default,
    }
}

/// The whole number that a form shows for a parameter.
pub fn i64_param(params: &Value, key: &str, default: i64) -> (out: i64)
    ensures
        out == match param_at(json_tree(*params), key@) {
            Some(JsonTree::Whole(n)) => if i64::MIN <= n <= i64::MAX {
                n as i64
            } else {
                default
            },
            _ => default,
        },
{
    match param(params, key) {
        Some(value) => match json_as_i64(value) {
            Some(value) => value,
            None => default,
        },
        None => default,
    }
}

/// The choice that a form shows for a parameter.
pub fn enum_param(params: &Value, key: &str, default: usize) -> (out: usize)
    ensures
        out == match param_at(json_tree(*params), key@) {
            Some(JsonTree::Whole(n)) => if 0 <= n <= u64::MAX && n <= usize::MAX {
                n as usize
            } else {
                default
            },
            _ => default,
        },
{
    match param(params, key) {
        Some(value) => match json_as_u64(value) {
            Some(value) => if value <= usize::MAX as u64 {
                value as usize
            } else {
                default
            },
            None => default,
        },
        None => default,
    }
}

/// The parameters with one of them set. What is no object becomes one.
pub fn set_param(params: Value, key: &str, value: Value) -> (out: Value)
    ensures
        json_tree(out) == JsonTree::Object(
            (match json_tree(params) {
                JsonTree::Object(entries) => entries,
                _ => no_entries(),
            }).insert(key@, json_tree(value)),
        ),
{
    let mut object = match json_into_object(params) {
        Some(object) => object,
        None => json_map_new(),
    };
    json_map_insert(&mut object, key.to_owned(), value);
    json_object(object)
}

/// A boolean as a parameter.
pub fn bool_value(value: bool) -> (out: Value)
    ensures
        json_tree(out) == JsonTree::Bool(value),
{
    json_bool(value)
}

/// A whole number as a parameter.
pub fn i64_value(value: i64) -> (out: Value)
    ensures
        json_tree(out) == JsonTree::Whole(value as int),
{
    json_i64(value)
}

/// A choice as a parameter.
pub fn enum_value(value: usize) -> (out: Value)
    ensures
        json_tree(out) == JsonTree::Whole(value as int),
{
    json_u64(value as u64)
}

// ---------------------------------------------------------------------------
// Laws
// ---------------------------------------------------------------------------
/// What was set under a key is what the form then shows, and no other
/// parameter changes.
pub proof fn set_param_then_read(
    params: JsonTree,
    key: Seq<char>,
    value: JsonTree,
    other: Seq<char>,
)
    ensures
        ({
            let entries = match params {
                JsonTree::Object(entries) => entries,
                _ => no_entries(),
            };
            let after = JsonTree::Object(entries.insert(key, value));
            &&& param_at(after, key) == Some(value)
            &&& other != key ==> param_at(after, other) == param_at(params, other)
        }),
{
}

/// Before the user changes anything, a form shows the default of every
/// parameter, where no later parameter has the same key.
pub proof fn defaults_are_shown(sections: Seq<SettingsSection>, s: int, i: int)
    requires
        0 <= s < sections.len(),
        0 <= i < sections[s].items@.len(),
        forall|t: int, j: int|
            0 <= t < sections.len() && 0 <= j < sections[t].items@.len() && (t > s || (t == s && j
                > i)) ==> (#[trigger] sections[t].items@[j]).key@ != sections[s].items@[i].key@,
    ensures
        param_at(JsonTree::Object(section_defaults(sections)), sections[s].items@[i].key@) == Some(
            default_json(sections[s].items@[i].kind),
        ),
    decreases sections.len(),
{
    let key = sections[s].items@[i].key@;
    let last = sections.len() - 1;
    let rest = sections.drop_last();
    if s < last {
        assert(rest[s] == sections[s]);
        assert forall|t: int, j: int|
            0 <= t < rest.len() && 0 <= j < rest[t].items@.len() && (t > s || (t == s && j
                > i)) implies (#[trigger] rest[t].items@[j]).key@ != rest[s].items@[i].key@ by {
            assert(sections[t].items@[j].key@ != sections[s].items@[i].key@);
        }
        defaults_are_shown(rest, s, i);
        let items = sections.last().items@;
        assert forall|j: int| 0 <= j < items.len() implies (#[trigger] items[j]).key@ != key by {
            assert(sections[last].items@[j].key@ != key);
        }
        other_items_keep(section_defaults(rest), items, key);
    } else {
        let items = sections.last().items@;
        assert forall|j: int| i < j < items.len() implies (#[trigger] items[j]).key@ != key by {
            assert(sections[last].items@[j].key@ != key);
        }
        item_default_stays(section_defaults(rest), items, i);
    }
}

proof fn other_items_keep(
    entries: Map<Seq<char>, JsonTree>,
    items: Seq<SettingItem>,
    key: Seq<char>,
)
    requires
        forall|j: int| 0 <= j < items.len() ==> (#[trigger] items[j]).key@ != key,
    ensures
        item_defaults(entries, items).dom().contains(key) == entries.dom().contains(key),
        item_defaults(entries, items)[key] == entries[key],
    decreases items.len(),
{
    if items.len() > 0 {
        let rest = items.drop_last();
        assert forall|j: int| 0 <= j < rest.len() implies (#[trigger] rest[j]).key@ != key by {
            assert(items[j].key@ != key);
        }
        other_items_keep(entries, rest, key);
        assert(items[items.len() - 1].key@ != key);
    }
}

proof fn item_default_stays(
    entries: Map<Seq<char>, JsonTree>,
    items: Seq<SettingItem>,
    i: int,
)
    requires
        0 <= i < items.len(),
        forall|j: int| i < j < items.len() ==> (#[trigger] items[j]).key@ != items[i].key@,
    ensures
        item_defaults(entries, items).dom().contains(items[i].key@),
        item_defaults(entries, items)[items[i].key@] == default_json(items[i].kind),
    decreases items.len(),
{
    if i < items.len() - 1 {
        let rest = items.drop_last();
        assert forall|j: int| i < j < rest.len() implies (#[trigger] rest[j]).key@
            != rest[i].key@ by {
            assert(items[j].key@ != items[i].key@);
        }
        item_default_stays(entries, rest, i);
        assert(items[items.len() - 1].key@ != items[i].key@);
    }
}

// ---------------------------------------------------------------------------
// Laws
// ---------------------------------------------------------------------------
/// An action on a row takes the one selected row of its dataset: it takes none
/// where two rows are selected there, and rows of other datasets do not matter.
pub proof fn lone_selected_rows_are_acted_on(
    registry: RegistryModel,
    cache: TextMap<HostDatasetCacheEntry>,
    selected: Seq<StableRowKey>,
    dataset_id: String,
    i: int,
    j: int,
)
    requires
        0 <= i < selected.len(),
        0 <= j < selected.len(),
    ensures
        (forall|k: int|
            0 <= k < selected.len() ==> ((#[trigger] selected[k]).dataset_id@ == dataset_id@ <==> k
                == i)) ==> scope_payload(
            registry,
            cache,
            selected,
            HostActionScope::Row { dataset_id },
        ) == Some(PayloadView::Row(dataset_id@, selected[i].row_id@)),
        i != j && selected[i].dataset_id@ == dataset_id@ && selected[j].dataset_id@ == dataset_id@
            ==> scope_payload(registry, cache, selected, HostActionScope::Row { dataset_id })
            is None,
        (forall|k: int|
            0 <= k < selected.len() ==> (#[trigger] selected[k]).dataset_id@ != dataset_id@)
            ==> scope_payload(registry, cache, selected, HostActionScope::Row { dataset_id })
            is None,
{
    let of_dataset = |key: StableRowKey| key.dataset_id@ == dataset_id@;
    filters_keep_as_many(selected, of_dataset, i, j);
}

/// A dataset is acted on whatever is selected.
pub proof fn datasets_are_acted_on_whole(
    registry: RegistryModel,
    cache: TextMap<HostDatasetCacheEntry>,
    selected: Seq<StableRowKey>,
    dataset_id: String,
)
    ensures
        scope_payload(registry, cache, selected, HostActionScope::Dataset { dataset_id }) == Some(
            PayloadView::Dataset(dataset_id@),
        ),
{
}

/// The row that is found by an id has it, and no row before it has.
pub proof fn ids_name_the_first_row(values: TableColumnValues, id: Seq<char>, n: nat)
    ensures
        match first_row_with_id(values, id, n) {
            Some(row) => 0 <= row < n && stable_id(values, row) == Some(id) && forall|k: int|
                0 <= k < row ==> #[trigger] stable_id(values, k) != Some(id),
            None => forall|k: int| 0 <= k < n ==> #[trigger] stable_id(values, k) != Some(id),
        },
    decreases n,
{
    if n > 0 {
        ids_name_the_first_row(values, id, (n - 1) as nat);
    }
}

/// An action on a group is offered exactly where rows of its dataset are
/// selected and the first row of each of their ids belongs to that group.
pub proof fn groups_are_shared_by_the_selected_rows(
    registry: RegistryModel,
    cache: TextMap<HostDatasetCacheEntry>,
    selected: Seq<StableRowKey>,
    dataset_id: String,
    group_column: String,
    entry: TableEntry,
    id_column: String,
    ids: TableColumnData,
    groups: TableColumnData,
    value: Seq<char>,
    first: int,
)
    requires
        table_of(registry, cache, dataset_id@) == Some(entry),
        entry.schema.row_id_column == Some(id_column),
        entry.table.named(id_column@) == Some(ids),
        entry.table.named(group_column@) == Some(groups),
        0 <= first < selected.len() && selected[first].dataset_id@ == dataset_id@,
    ensures
        scope_payload(
            registry,
            cache,
            selected,
            HostActionScope::Cluster { dataset_id, group_column },
        ) == Some(PayloadView::Cluster(dataset_id@, group_column@, value)) <==> forall|i: int|
            0 <= i < selected.len() && (#[trigger] selected[i]).dataset_id@ == dataset_id@ ==> (
            first_row_with_id(ids.values, selected[i].row_id@, entry.table.rows as nat) matches Some(
                row,
            ) && cell_text(groups.values, row) == Some(value)),
{
    let of_dataset = |key: StableRowKey| key.dataset_id@ == dataset_id@;
    let keys = selected_in(selected, dataset_id@);
    let rows = entry.table.rows as nat;
    assert(keys == selected.filter(of_dataset));
    filtered_list_holds(selected, of_dataset, selected[first]);
    assert(keys.contains(selected[first]));
    let payload = scope_payload(
        registry,
        cache,
        selected,
        HostActionScope::Cluster { dataset_id, group_column },
    );
    if payload == Some(PayloadView::Cluster(dataset_id@, group_column@, value)) {
        assert forall|i: int|
            0 <= i < selected.len() && (#[trigger] selected[i]).dataset_id@
                == dataset_id@ implies (first_row_with_id(
            ids.values,
            selected[i].row_id@,
            rows,
        ) matches Some(row) && cell_text(groups.values, row) == Some(value)) by {
            filtered_list_holds(selected, of_dataset, selected[i]);
            assert(selected.contains(selected[i]));
            let k = choose|k: int| 0 <= k < keys.len() && keys[k] == selected[i];
            assert(group_of(ids, groups, rows, keys[k].row_id@) == Some(value));
        }
    }
    if forall|i: int|
        0 <= i < selected.len() && (#[trigger] selected[i]).dataset_id@ == dataset_id@ ==> (
        first_row_with_id(ids.values, selected[i].row_id@, rows) matches Some(row) && cell_text(
            groups.values,
            row,
        ) == Some(value)) {
        assert forall|k: int| 0 <= k < keys.len() implies group_of(
            ids,
            groups,
            rows,
            (#[trigger] keys[k]).row_id@,
        ) == Some(value) by {
            filtered_list_holds(selected, of_dataset, keys[k]);
            assert(keys.contains(keys[k]));
            let i = choose|i: int| 0 <= i < selected.len() && selected[i] == keys[k];
            assert(selected[i].dataset_id@ == dataset_id@);
        }
        assert(group_of(ids, groups, rows, keys[0].row_id@) == Some(value));
        assert(shared_group(ids, groups, rows, keys) == Some(value));
    }
}

/// Whole numbers, texts and truth values are given in JSON as they are, and
/// cells that are not there are not given.
pub proof fn cells_are_given_as_they_are(
    whole: Vec<u64>,
    signed: Vec<i64>,
    texts: Vec<String>,
    flags: Vec<bool>,
    row: int,
)
    ensures
        0 <= row < whole@.len() ==> cell_json(TableColumnValues::U64(whole), row) == Some(
            JsonTree::Whole(whole@[row] as int),
        ),
        0 <= row < signed@.len() ==> cell_json(TableColumnValues::I64(signed), row) == Some(
            JsonTree::Whole(signed@[row] as int),
        ),
        0 <= row < texts@.len() ==> cell_json(TableColumnValues::String(texts), row) == Some(
            JsonTree::Text(texts@[row]@),
        ),
        0 <= row < flags@.len() ==> cell_json(TableColumnValues::Bool(flags), row) == Some(
            JsonTree::Bool(flags@[row]),
        ),
        !(0 <= row < whole@.len()) ==> cell_json(TableColumnValues::U64(whole), row) is None,
        !(0 <= row < signed@.len()) ==> cell_json(TableColumnValues::I64(signed), row) is None,
        !(0 <= row < texts@.len()) ==> cell_json(TableColumnValues::String(texts), row) is None,
        !(0 <= row < flags@.len()) ==> cell_json(TableColumnValues::Bool(flags), row) is None,
{
}

/// The object of a row has an entry under the id of each of its columns whose
/// cell has a JSON form, which is that form, and no other entry.
pub proof fn row_objects_hold_the_cells(
    columns: Seq<TableColumn>,
    table: TableDatasetV1,
    row: int,
    id: Seq<char>,
)
    ensures
        row_entries(columns, table, row).dom().contains(id) <==> (exists|c: int|
            0 <= c < columns.len() && (#[trigger] columns[c]).id@ == id) && (table.named(
            id,
        ) matches Some(column) && cell_json(column.values, row) is Some),
        row_entries(columns, table, row).dom().contains(id) ==> Some(
            row_entries(columns, table, row)[id],
        ) == cell_json(table.named(id)->0.values, row),
    decreases columns.len(),
{
    if columns.len() > 0 {
        let rest = columns.drop_last();
        row_objects_hold_the_cells(rest, table, row, id);
        let last = columns.len() - 1;
        assert(columns[last] == columns.last());
        if exists|c: int| 0 <= c < rest.len() && (#[trigger] rest[c]).id@ == id {
            let c = choose|c: int| 0 <= c < rest.len() && (#[trigger] rest[c]).id@ == id;
            assert(columns[c].id@ == id);
        }
        if exists|c: int| 0 <= c < columns.len() && (#[trigger] columns[c]).id@ == id {
            let c = choose|c: int| 0 <= c < columns.len() && (#[trigger] columns[c]).id@ == id;
            if c < last {
                assert(rest[c].id@ == id);
            }
        }
    }
}

/// The rows of a group are the objects of the rows whose cell names the group,
/// each in its place: behind those of the rows before it.
pub proof fn group_rows_are_those_of_the_group(
    entry: TableEntry,
    group: TableColumnData,
    value: Seq<char>,
    n: nat,
    row: int,
)
    requires
        0 <= row < n,
    ensures
        cell_text(group.values, row) == Some(value) ==> group_rows(
            entry,
            group,
            value,
            row as nat,
        ).len() < group_rows(entry, group, value, n).len() && group_rows(
            entry,
            group,
            value,
            n,
        )[group_rows(entry, group, value, row as nat).len() as int] == JsonTree::Object(
            row_entries(entry.schema.columns@, entry.table, row),
        ),
        group_rows(entry, group, value, (row + 1) as nat).len() - group_rows(
            entry,
            group,
            value,
            row as nat,
        ).len() == (if cell_text(group.values, row) == Some(value) {
            1int
        } else {
            0
        }),
    decreases n,
{
    if row < n - 1 {
        group_rows_are_those_of_the_group(entry, group, value, (n - 1) as nat, row);
    }
}

/// An action on a group gets the rows of the group under the named parameter
/// and keeps its other parameters; other actions keep all of theirs.
pub proof fn groups_are_sent_with_their_rows(
    registry: RegistryModel,
    cache: TextMap<HostDatasetCacheEntry>,
    dataset_id: Seq<char>,
    group_column: Seq<char>,
    group_value: Seq<char>,
    params: JsonTree,
    rows_param: Seq<char>,
    other: Seq<char>,
    row_id: Seq<char>,
)
    ensures
        cluster_rows(registry, cache, dataset_id, group_column, group_value) matches Some(rows)
            ==> rows.len() > 0 && param_at(
            augmented(
                registry,
                cache,
                PayloadView::Cluster(dataset_id, group_column, group_value),
                params,
                rows_param,
            ),
            rows_param,
        ) == Some(JsonTree::Array(rows)),
        other != rows_param ==> param_at(
            augmented(
                registry,
                cache,
                PayloadView::Cluster(dataset_id, group_column, group_value),
                params,
                rows_param,
            ),
            other,
        ) == param_at(params, other),
        augmented(registry, cache, PayloadView::Dataset(dataset_id), params, rows_param) == params,
        augmented(registry, cache, PayloadView::Row(dataset_id, row_id), params, rows_param)
            == params,
        forall|entry: TableEntry, group: TableColumnData, row: int|
            table_of(registry, cache, dataset_id) == Some(entry) && #[trigger] entry.table.named(
                group_column,
            ) == Some(group) && 0 <= row < entry.table.rows && #[trigger] cell_text(
                group.values,
                row,
            ) == Some(group_value) ==> (cluster_rows(
                registry,
                cache,
                dataset_id,
                group_column,
                group_value,
            ) matches Some(rows) && rows.contains(
                JsonTree::Object(row_entries(entry.schema.columns@, entry.table, row)),
            )),
{
    assert forall|entry: TableEntry, group: TableColumnData, row: int|
        table_of(registry, cache, dataset_id) == Some(entry) && #[trigger] entry.table.named(
            group_column,
        ) == Some(group) && 0 <= row < entry.table.rows && #[trigger] cell_text(group.values, row)
            == Some(group_value) implies (cluster_rows(
        registry,
        cache,
        dataset_id,
        group_column,
        group_value,
    ) matches Some(rows) && rows.contains(
        JsonTree::Object(row_entries(entry.schema.columns@, entry.table, row)),
    )) by {
        let n = entry.table.rows as nat;
        group_rows_are_those_of_the_group(entry, group, group_value, n, row);
        let rows = group_rows(entry, group, group_value, n);
        assert(rows[group_rows(entry, group, group_value, row as nat).len() as int]
            == JsonTree::Object(row_entries(entry.schema.columns@, entry.table, row)));
    }
}

} // verus!
