//! The transactional snapshot store of one federation.
//!
//! The store keeps a mirror of the federation's key-value state in memory. A
//! transaction works on a copy of the mirror and buffers its mutations, each
//! with the value it replaces. Its commit applies them to the mirror, unless
//! the mirror has changed under one of them since, and yields the blob that
//! holds the whole state as the transaction sees it, for the application to
//! write to durable storage in place of the blob before.
//!
//! The mirror takes the mutations before the blob is written. Should the
//! write fail, mirror and durable storage differ until the store is opened
//! again, on the older blob.

use crate::codec::{
    decode_snapshot, decoded, encodable, encode_pairs, encode_snapshot, lemma_encode_len,
    lemma_stored_pairs_encodable, max_blob_len, written_blob_reads_back,
};
use crate::mirror::{
    as_map, ascending, keys_of, lemma_filter_by_key, lemma_pair_in_map, lemma_replay_ascending,
    listed, ordered, pairs_view, place_of, prefixed_keys, replay, with_prefix, Mirror,
};
use crate::keys::{compare, lemma_key_less_asymmetric, KeyOrder};
use vstd::prelude::*;
use vstd::slice::slice_to_vec;

verus! {

/// Why a store could not be opened.
#[derive(Clone, Copy, Debug, PartialEq, Eq, Structural)]
pub enum InitError {
    /// The blob found in durable storage does not hold a snapshot.
    Deserialize,
    /// Durable storage could not be read. Reported by the application.
    DurableRead,
    /// The record of a federation opened for the first time could not be
    /// written. Reported by the application.
    DurableWrite,
}

/// Why a commit failed.
#[derive(Clone, Copy, Debug, PartialEq, Eq, Structural)]
pub enum CommitError {
    /// The mirror does not hold, under a key that the transaction wrote or
    /// deleted, what the transaction saw there: another transaction has
    /// committed in between. The mirror is left as it was.
    WriteConflict,
    /// The snapshot is longer than the largest blob that is written. The
    /// mirror holds the mutations of the transaction all the same.
    SnapshotTooLarge,
    /// Durable storage refused the blob. Reported by the application; the
    /// mirror holds the mutations of the transaction all the same.
    DurableWrite,
}

/// The record that durable storage is given for a federation that is opened
/// for the first time.
#[derive(Debug, PartialEq, Eq)]
pub struct NewFedimint {
    pub id: String,
    pub value: Vec<u8>,
}

/// The blob that a commit hands to durable storage, to replace the one stored
/// for the federation.
#[derive(Debug, PartialEq, Eq)]
pub struct SnapshotWrite {
    pub federation_id: String,
    pub value: Vec<u8>,
}

/// A mutation that a transaction has buffered, with the value that the
/// transaction saw under the key before.
#[derive(Debug, PartialEq, Eq)]
pub enum DatabaseOperation {
    Insert { key: Vec<u8>, value: Vec<u8>, old_value: Option<Vec<u8>> },
    Delete { key: Vec<u8>, old_value: Option<Vec<u8>> },
}

/// Mathematical value of a [`DatabaseOperation`].
pub enum OperationView {
    Insert { key: Seq<u8>, value: Seq<u8>, old_value: Option<Seq<u8>> },
    Delete { key: Seq<u8>, old_value: Option<Seq<u8>> },
}

/// The mathematical value of a value that may be missing.
pub open spec fn value_view(value: Option<Vec<u8>>) -> Option<Seq<u8>> {
    match value {
        Some(bytes) => Some(bytes@),
        None => None,
    }
}

/// What a map holds under a key, if anything.
pub open spec fn value_at(map: Map<Seq<u8>, Seq<u8>>, key: Seq<u8>) -> Option<Seq<u8>> {
    if map.contains_key(key) {
        Some(map[key])
    } else {
        None
    }
}

impl OperationView {
    /// The key that the operation writes or deletes.
    pub open spec fn key(self) -> Seq<u8> {
        match self {
            OperationView::Insert { key, .. } => key,
            OperationView::Delete { key, .. } => key,
        }
    }

    /// What the transaction saw under the key before the operation.
    pub open spec fn old_value(self) -> Option<Seq<u8>> {
        match self {
            OperationView::Insert { old_value, .. } => old_value,
            OperationView::Delete { old_value, .. } => old_value,
        }
    }
}

impl View for DatabaseOperation {
    type V = OperationView;

    open spec fn view(&self) -> OperationView {
        match self {
            DatabaseOperation::Insert { key, value, old_value } => OperationView::Insert {
                key: key@,
                value: value@,
                old_value: value_view(*old_value),
            },
            DatabaseOperation::Delete { key, old_value } => OperationView::Delete {
                key: key@,
                old_value: value_view(*old_value),
            },
        }
    }
}

/// The mathematical values of a list of operations.
pub open spec fn operations_view(operations: Seq<DatabaseOperation>) -> Seq<OperationView> {
    operations.map_values(|operation: DatabaseOperation| operation@)
}

/// The map after one operation.
pub open spec fn apply_operation(map: Map<Seq<u8>, Seq<u8>>, operation: OperationView) -> Map<
    Seq<u8>,
    Seq<u8>,
> {
    match operation {
        OperationView::Insert { key, value, .. } => map.insert(key, value),
        OperationView::Delete { key, .. } => map.remove(key),
    }
}

/// The map after a list of operations, applied in order.
pub open spec fn apply_operations(
    map: Map<Seq<u8>, Seq<u8>>,
    operations: Seq<OperationView>,
) -> Map<Seq<u8>, Seq<u8>>
    decreases operations.len(),
{
    if operations.len() == 0 {
        map
    } else {
        apply_operation(apply_operations(map, operations.drop_last()), operations.last())
    }
}

/// Whether every operation of a list, applied in order to `map`, finds under
/// its key what its transaction saw there.
pub open spec fn applies_cleanly(map: Map<Seq<u8>, Seq<u8>>, operations: Seq<OperationView>) -> bool
    decreases operations.len(),
{
    operations.len() == 0 || {
        &&& applies_cleanly(map, operations.drop_last())
        &&& value_at(apply_operations(map, operations.drop_last()), operations.last().key())
            == operations.last().old_value()
    }
}

/// The operations that delete the pairs of a list, in order.
pub open spec fn deletions(pairs: Seq<(Seq<u8>, Seq<u8>)>) -> Seq<OperationView> {
    pairs.map_values(
        |pair: (Seq<u8>, Seq<u8>)| OperationView::Delete { key: pair.0, old_value: Some(pair.1) },
    )
}

/// Whether an operation writes or deletes `key`.
pub open spec fn touches(operation: OperationView, key: Seq<u8>) -> bool {
    operation.key() == key
}

/// Whether an operation deletes `key`.
pub open spec fn deletes(operation: OperationView, key: Seq<u8>) -> bool {
    operation is Delete && operation.key() == key
}

/// Mathematical value of a [`SQLPseudoTransaction`].
pub struct TransactionState {
    pub federation_id: Seq<char>,
    /// The mirror as it was when the transaction began.
    pub base: Map<Seq<u8>, Seq<u8>>,
    /// What the transaction sees: the base with its own mutations.
    pub contents: Map<Seq<u8>, Seq<u8>>,
    /// What the transaction saw when the savepoint was set.
    pub savepoint: Map<Seq<u8>, Seq<u8>>,
    /// The mutations buffered since the transaction began.
    pub operations: Seq<OperationView>,
    /// How many mutations were buffered when the savepoint was set.
    pub savepoint_operations: nat,
}

impl TransactionState {
    /// A transaction that has just begun on `mirror`. Its savepoint is its
    /// beginning.
    pub open spec fn begin(
        federation_id: Seq<char>,
        mirror: Map<Seq<u8>, Seq<u8>>,
    ) -> TransactionState {
        TransactionState {
            federation_id,
            base: mirror,
            contents: mirror,
            savepoint: mirror,
            operations: Seq::empty(),
            savepoint_operations: 0,
        }
    }

    /// Whether the buffered mutations account for what the transaction sees,
    /// and those before the savepoint for what it saw then.
    pub open spec fn well_formed(self) -> bool {
        &&& self.savepoint_operations <= self.operations.len()
        &&& applies_cleanly(self.base, self.operations)
        &&& apply_operations(self.base, self.operations) == self.contents
        &&& apply_operations(self.base, self.operations.take(self.savepoint_operations as int))
            == self.savepoint
    }

    /// The transaction after `value` was stored under `key`.
    pub open spec fn inserted(self, key: Seq<u8>, value: Seq<u8>) -> TransactionState {
        TransactionState {
            contents: self.contents.insert(key, value),
            operations: self.operations.push(
                OperationView::Insert { key, value, old_value: value_at(self.contents, key) },
            ),
            ..self
        }
    }

    /// The transaction after `key` was removed.
    pub open spec fn removed(self, key: Seq<u8>) -> TransactionState {
        TransactionState {
            contents: self.contents.remove(key),
            operations: self.operations.push(
                OperationView::Delete { key, old_value: value_at(self.contents, key) },
            ),
            ..self
        }
    }

    /// The transaction after every key that begins with `prefix` was removed,
    /// one after the other in ascending order.
    pub open spec fn removed_by_prefix(self, prefix: Seq<u8>) -> TransactionState {
        TransactionState {
            contents: self.contents.remove_keys(prefixed_keys(prefix)),
            operations: self.operations + deletions(with_prefix(ordered(self.contents), prefix)),
            ..self
        }
    }

    /// The transaction after a savepoint was set.
    pub open spec fn with_savepoint(self) -> TransactionState {
        TransactionState {
            savepoint: self.contents,
            savepoint_operations: self.operations.len(),
            ..self
        }
    }

    /// The transaction after it was rolled back to its savepoint: it sees what
    /// it saw then, and the mutations buffered since are dropped.
    pub open spec fn rolled_back(self) -> TransactionState {
        TransactionState {
            contents: self.savepoint,
            operations: if self.savepoint_operations <= self.operations.len() {
                self.operations.take(self.savepoint_operations as int)
            } else {
                self.operations
            },
            ..self
        }
    }
}

/// One operation more is applied after the others.
pub proof fn lemma_apply_push(
    map: Map<Seq<u8>, Seq<u8>>,
    operations: Seq<OperationView>,
    operation: OperationView,
)
    ensures
        apply_operations(map, operations.push(operation)) == apply_operation(
            apply_operations(map, operations),
            operation,
        ),
        applies_cleanly(map, operations.push(operation)) <==> applies_cleanly(map, operations)
            && value_at(apply_operations(map, operations), operation.key())
            == operation.old_value(),
{
    assert(operations.push(operation).drop_last() =~= operations);
}

/// Two lists of operations in a row are applied one list after the other.
pub proof fn lemma_apply_concat(
    map: Map<Seq<u8>, Seq<u8>>,
    first: Seq<OperationView>,
    second: Seq<OperationView>,
)
    ensures
        apply_operations(map, first + second) == apply_operations(
            apply_operations(map, first),
            second,
        ),
        applies_cleanly(map, first + second) <==> applies_cleanly(map, first) && applies_cleanly(
            apply_operations(map, first),
            second,
        ),
    decreases second.len(),
{
    if second.len() == 0 {
        assert(first + second =~= first);
    } else {
        lemma_apply_concat(map, first, second.drop_last());
        assert((first + second).drop_last() =~= first + second.drop_last());
    }
}

/// Operations that apply cleanly do so from the first on.
pub proof fn lemma_clean_prefix(map: Map<Seq<u8>, Seq<u8>>, operations: Seq<OperationView>, n: int)
    requires
        applies_cleanly(map, operations),
        0 <= n <= operations.len(),
    ensures
        applies_cleanly(map, operations.take(n)),
    decreases operations.len(),
{
    if n == operations.len() {
        assert(operations.take(n) =~= operations);
    } else {
        lemma_clean_prefix(map, operations.drop_last(), n);
        assert(operations.drop_last().take(n) =~= operations.take(n));
    }
}

/// Deleting pairs that a map holds, under keys that differ, removes exactly
/// their keys, and every deletion finds the value that it expects.
pub proof fn lemma_apply_deletions(map: Map<Seq<u8>, Seq<u8>>, pairs: Seq<(Seq<u8>, Seq<u8>)>)
    requires
        forall|i: int|
            0 <= i < pairs.len() ==> map.contains_key((#[trigger] pairs[i]).0) && map[pairs[i].0]
                == pairs[i].1,
        forall|i: int, j: int| 0 <= i < j < pairs.len() ==> pairs[i].0 != pairs[j].0,
    ensures
        apply_operations(map, deletions(pairs)) == map.remove_keys(keys_of(pairs).to_set()),
        applies_cleanly(map, deletions(pairs)),
    decreases pairs.len(),
{
    let keys = keys_of(pairs);
    if pairs.len() == 0 {
        assert(map.remove_keys(keys.to_set()) =~= map);
    } else {
        let rest = pairs.drop_last();
        let last = pairs.last();
        assert forall|i: int| 0 <= i < rest.len() implies map.contains_key((#[trigger] rest[i]).0)
            && map[rest[i].0] == rest[i].1 by {
            assert(rest[i] == pairs[i]);
        }
        assert forall|i: int, j: int| 0 <= i < j < rest.len() implies rest[i].0 != rest[j].0 by {
            assert(rest[i] == pairs[i] && rest[j] == pairs[j]);
        }
        lemma_apply_deletions(map, rest);
        assert(deletions(pairs).drop_last() =~= deletions(rest));
        assert(deletions(pairs).last() == (OperationView::Delete {
            key: last.0,
            old_value: Some(last.1),
        }));
        assert(last == pairs[pairs.len() - 1]);
        assert forall|key: Seq<u8>| keys.to_set().contains(key) <==> keys_of(rest).to_set().contains(
            key,
        ) || key == last.0 by {
            if keys.to_set().contains(key) {
                let i = choose|i: int| 0 <= i < keys.len() && keys[i] == key;
                if i < keys.len() - 1 {
                    assert(keys_of(rest)[i] == key);
                }
            }
            if keys_of(rest).to_set().contains(key) {
                let i = choose|i: int| 0 <= i < keys_of(rest).len() && keys_of(rest)[i] == key;
                assert(keys[i] == key);
            }
            if key == last.0 {
                assert(keys[keys.len() - 1] == key);
            }
        }
        assert(!keys_of(rest).to_set().contains(last.0)) by {
            if keys_of(rest).to_set().contains(last.0) {
                let i = choose|i: int| 0 <= i < keys_of(rest).len() && keys_of(rest)[i] == last.0;
                assert(pairs[i].0 == pairs[pairs.len() - 1].0);
            }
        }
        assert(map.remove_keys(keys_of(rest).to_set()).remove(last.0) =~= map.remove_keys(
            keys.to_set(),
        ));
    }
}

/// In a map with an ascending list, deleting the listed pairs whose keys begin
/// with a prefix removes every key that begins with it, and every deletion
/// finds the value that it expects.
pub proof fn lemma_delete_prefixed(pairs: Seq<(Seq<u8>, Seq<u8>)>, prefix: Seq<u8>)
    requires
        ascending(pairs),
    ensures
        apply_operations(as_map(pairs), deletions(with_prefix(pairs, prefix))) == as_map(
            pairs,
        ).remove_keys(prefixed_keys(prefix)),
        applies_cleanly(as_map(pairs), deletions(with_prefix(pairs, prefix))),
{
    let map = as_map(pairs);
    let keep = |key: Seq<u8>| crate::keys::starts_with(key, prefix);
    let found = with_prefix(pairs, prefix);
    let keys = keys_of(found);
    lemma_filter_by_key(pairs, keep);
    assert forall|i: int| 0 <= i < found.len() implies map.contains_key((#[trigger] found[i]).0)
        && map[found[i].0] == found[i].1 by {
        lemma_pair_in_map(found, i);
    }
    assert forall|i: int, j: int| 0 <= i < j < found.len() implies found[i].0 != found[j].0 by {
        lemma_key_less_asymmetric(found[i].0, found[j].0);
    }
    lemma_apply_deletions(map, found);
    assert forall|key: Seq<u8>| map.contains_key(key) implies (keys.to_set().contains(key)
        <==> prefixed_keys(prefix).contains(key)) by {
        if keys.to_set().contains(key) {
            let i = choose|i: int| 0 <= i < keys.len() && keys[i] == key;
            assert(found[i].0 == key);
            lemma_pair_in_map(found, i);
            assert(as_map(found).contains_key(key));
        }
        if prefixed_keys(prefix).contains(key) {
            assert(as_map(found).contains_key(key));
            let i = place_of(found, key);
            assert(keys[i] == key);
        }
    }
    assert(map.remove_keys(keys.to_set()) =~= map.remove_keys(prefixed_keys(prefix)));
}

/// Every mutation keeps the books of a transaction in order.
pub proof fn lemma_transaction_stays_well_formed(
    state: TransactionState,
    key: Seq<u8>,
    value: Seq<u8>,
)
    requires
        state.well_formed(),
        listed(state.contents),
    ensures
        state.inserted(key, value).well_formed(),
        state.removed(key).well_formed(),
        state.removed_by_prefix(key).well_formed(),
        state.with_savepoint().well_formed(),
        state.rolled_back().well_formed(),
{
    let saved = state.savepoint_operations as int;
    let kept = state.operations.take(saved);
    let insert = OperationView::Insert { key, value, old_value: value_at(state.contents, key) };
    let delete = OperationView::Delete { key, old_value: value_at(state.contents, key) };
    lemma_apply_push(state.base, state.operations, insert);
    lemma_apply_push(state.base, state.operations, delete);
    assert(state.operations.push(insert).take(saved) =~= kept);
    assert(state.operations.push(delete).take(saved) =~= kept);
    let deleted = deletions(with_prefix(ordered(state.contents), key));
    lemma_apply_concat(state.base, state.operations, deleted);
    lemma_delete_prefixed(ordered(state.contents), key);
    assert((state.operations + deleted).take(saved) =~= kept);
    assert(state.operations.take(state.operations.len() as int) =~= state.operations);
    assert(kept.take(saved) =~= kept);
    lemma_clean_prefix(state.base, state.operations, saved);
}

/// Mathematical value of a [`FedimintStorage`].
pub struct StorageState {
    pub federation_id: Seq<char>,
    pub mirror: Map<Seq<u8>, Seq<u8>>,
}

/// What a store holds when it is opened on what durable storage has for its
/// federation, or `None` where it cannot be opened. Without a record the store
/// is empty, and so it is with the empty record that a federation is given
/// when it is first opened; any other record has to begin with a snapshot,
/// whose pairs are stored in their order.
pub open spec fn hydrated(stored: Option<Seq<u8>>) -> Option<Map<Seq<u8>, Seq<u8>>> {
    match stored {
        None => Some(Map::empty()),
        Some(blob) => if blob.len() == 0 {
            Some(Map::empty())
        } else {
            match decoded(blob) {
                Some(pairs) => Some(replay(pairs)),
                None => None,
            }
        },
    }
}

/// The record of a federation after its store was opened: the record found,
/// or the empty one that is written where none was found.
pub open spec fn record_after_open(stored: Option<Seq<u8>>) -> Seq<u8> {
    match stored {
        Some(blob) => blob,
        None => Seq::empty(),
    }
}

/// The snapshot of what a transaction sees opens to exactly that: a store
/// opened on the blob that a commit wrote holds every pair that the
/// transaction saw and no other.
pub proof fn committed_snapshot_reopens(contents: Map<Seq<u8>, Seq<u8>>)
    requires
        listed(contents),
        encodable(ordered(contents)),
    ensures
        hydrated(Some(encode_pairs(ordered(contents)))) == Some(contents),
{
    let pairs = ordered(contents);
    written_blob_reads_back(pairs, Seq::empty());
    lemma_replay_ascending(pairs);
    lemma_encode_len(pairs.len(), 0);
}

/// Opening a store twice, with no commit between, gives the same contents
/// both times: what the first opening leaves in durable storage opens to what
/// the first opening held.
pub proof fn reopening_is_idempotent(stored: Option<Seq<u8>>)
    ensures
        hydrated(Some(record_after_open(stored))) == hydrated(stored),
{
}

/// A key that no buffered mutation deletes is still there after the
/// mutations, if it was there before.
pub proof fn undeleted_key_survives(
    base: Map<Seq<u8>, Seq<u8>>,
    operations: Seq<OperationView>,
    key: Seq<u8>,
)
    requires
        base.contains_key(key),
        forall|i: int| 0 <= i < operations.len() ==> !deletes(#[trigger] operations[i], key),
    ensures
        apply_operations(base, operations).contains_key(key),
    decreases operations.len(),
{
    if operations.len() > 0 {
        let earlier = operations.drop_last();
        assert forall|i: int| 0 <= i < earlier.len() implies !deletes(#[trigger] earlier[i], key) by {
            assert(earlier[i] == operations[i]);
        }
        undeleted_key_survives(base, earlier, key);
        assert(!deletes(operations[operations.len() - 1], key));
    }
}

/// A key that no buffered mutation touches is after the mutations what it was
/// before: there with the same value, or not there.
pub proof fn untouched_key_is_unchanged(
    base: Map<Seq<u8>, Seq<u8>>,
    operations: Seq<OperationView>,
    key: Seq<u8>,
)
    requires
        forall|i: int| 0 <= i < operations.len() ==> !touches(#[trigger] operations[i], key),
    ensures
        value_at(apply_operations(base, operations), key) == value_at(base, key),
    decreases operations.len(),
{
    if operations.len() > 0 {
        let earlier = operations.drop_last();
        assert forall|i: int| 0 <= i < earlier.len() implies !touches(
            #[trigger] earlier[i],
            key,
        ) by {
            assert(earlier[i] == operations[i]);
        }
        untouched_key_is_unchanged(base, earlier, key);
        assert(!touches(operations[operations.len() - 1], key));
    }
}

/// A commit writes the whole state and not the changes: the snapshot opens to
/// everything the transaction sees. Whatever the mirror held when the
/// transaction began and the transaction did not delete is in it, and a key
/// that the mirror held is missing from it only if the transaction deleted
/// that key.
pub proof fn commit_writes_the_whole_state(state: TransactionState, key: Seq<u8>)
    requires
        state.well_formed(),
        listed(state.contents),
        encodable(ordered(state.contents)),
    ensures
        hydrated(Some(encode_pairs(ordered(state.contents)))) == Some(state.contents),
        state.base.contains_key(key) && (forall|i: int|
            0 <= i < state.operations.len() ==> !deletes(#[trigger] state.operations[i], key))
            ==> state.contents.contains_key(key),
        state.base.contains_key(key) && !state.contents.contains_key(key) ==> exists|i: int|
            0 <= i < state.operations.len() && deletes(#[trigger] state.operations[i], key),
{
    committed_snapshot_reopens(state.contents);
    if state.base.contains_key(key) && (forall|i: int|
        0 <= i < state.operations.len() ==> !deletes(#[trigger] state.operations[i], key)) {
        undeleted_key_survives(state.base, state.operations, key);
    }
}

/// A rollback undoes what was done after the savepoint and nothing else:
/// after `first` was stored, a savepoint set, `second` stored and the
/// transaction rolled back, the transaction sees what it saw at the beginning
/// with `first` added, and has buffered that one mutation more. It does not
/// see the key of `second`, unless that key was there before or is the key of
/// `first`.
pub proof fn rollback_discards_later_writes(
    state: TransactionState,
    first: (Seq<u8>, Seq<u8>),
    second: (Seq<u8>, Seq<u8>),
)
    requires
        state.well_formed(),
    ensures
        ({
            let end = state.inserted(first.0, first.1).with_savepoint().inserted(
                second.0,
                second.1,
            ).rolled_back();
            &&& end == state.inserted(first.0, first.1).with_savepoint()
            &&& end.contents == state.contents.insert(first.0, first.1)
            &&& end.well_formed()
            &&& end.contents.contains_key(first.0)
            &&& end.contents[first.0] == first.1
            &&& end.contents.contains_key(second.0) <==> second.0 == first.0
                || state.contents.contains_key(second.0)
        }),
{
    let saved = state.inserted(first.0, first.1).with_savepoint();
    let later = saved.inserted(second.0, second.1);
    let n = saved.operations.len() as int;
    assert(later.operations.take(n) =~= saved.operations);
    assert(saved.operations.take(n) =~= saved.operations);
    lemma_apply_push(state.base, state.operations, saved.operations.last());
    assert(saved.operations.drop_last() =~= state.operations);
}

/// The snapshot store of one federation.
#[derive(Debug)]
pub struct FedimintStorage {
    fedimint_memory: Mirror,
    federation_id: String,
}

impl View for FedimintStorage {
    type V = StorageState;

    closed spec fn view(&self) -> StorageState {
        StorageState { federation_id: self.federation_id@, mirror: self.fedimint_memory@ }
    }
}

impl FedimintStorage {
    /// Opens the store of a federation on `stored`, which is what durable
    /// storage holds for it. Where it holds nothing, the store is empty and
    /// the record to create is returned with it.
    pub fn new(federation_id: String, stored: Option<Vec<u8>>) -> (opened: Result<
        (FedimintStorage, Option<NewFedimint>),
        InitError,
    >)
        ensures
            match opened {
                Ok((storage, record)) => {
                    &&& hydrated(value_view(stored)) == Some(storage@.mirror)
                    &&& storage@.federation_id == federation_id@
                    &&& listed(storage@.mirror)
                    &&& record is Some <==> stored is None
                    &&& record matches Some(r) ==> r.id@ == federation_id@ && r.value@.len() == 0
                },
                Err(e) => {
                    &&& e == InitError::Deserialize
                    &&& hydrated(value_view(stored)) is None
                },
            },
    {
        let mut pairs: Vec<(Vec<u8>, Vec<u8>)> = Vec::new();
        let mut record: Option<NewFedimint> = None;
        match &stored {
            Some(blob) => {
                if blob.len() > 0 {
                    match decode_snapshot(blob.as_slice()) {
                        Some(list) => {
                            pairs = list;
                        },
                        None => {
                            return Err(InitError::Deserialize);
                        },
                    }
                }
            },
            None => {
                record = Some(NewFedimint { id: federation_id.clone(), value: Vec::new() });
            },
        }
        let ghost listed = pairs_view(pairs@);
        let mut fedimint_memory = Mirror::new();
        let mut i: usize = 0;
        assert(listed.take(0) =~= Seq::<(Seq<u8>, Seq<u8>)>::empty());
        while i < pairs.len()
            invariant
                0 <= i <= pairs.len(),
                listed == pairs_view(pairs@),
                fedimint_memory@ == replay(listed.take(i as int)),
            decreases pairs.len() - i,
        {
            fedimint_memory.insert(pairs[i].0.as_slice(), pairs[i].1.as_slice());
            assert(listed.take(i + 1).drop_last() =~= listed.take(i as int));
            assert(listed.take(i + 1).last() == (pairs[i as int].0@, pairs[i as int].1@));
            i = i + 1;
        }
        assert(listed.take(i as int) =~= listed);
        proof {
            use_type_invariant(&fedimint_memory);
            fedimint_memory.lemma_listed();
        }
        Ok((FedimintStorage { fedimint_memory, federation_id }, record))
    }

    /// Returns the identifier of the federation, as durable storage knows it.
    pub fn federation_id(&self) -> (id: &String)
        ensures
            id@ == self@.federation_id,
    {
        &self.federation_id
    }

    /// Begins a transaction on the mirror as it is now.
    pub fn begin_transaction(&self) -> (transaction: SQLPseudoTransaction)
        ensures
            transaction@ == TransactionState::begin(self@.federation_id, self@.mirror),
            transaction@.well_formed(),
    {
        let transaction = SQLPseudoTransaction {
            federation_id: self.federation_id.clone(),
            mem: self.fedimint_memory.duplicate(),
            savepoint: self.fedimint_memory.duplicate(),
            operations: Vec::new(),
            savepoint_operations: 0,
            base: Ghost(self.fedimint_memory@),
        };
        assert(transaction@.operations =~= Seq::<OperationView>::empty());
        assert(transaction@.operations.take(0) =~= transaction@.operations);
        transaction
    }
}

/// A transaction on the mirror of a store.
pub struct SQLPseudoTransaction {
    federation_id: String,
    mem: Mirror,
    savepoint: Mirror,
    operations: Vec<DatabaseOperation>,
    savepoint_operations: usize,
    base: Ghost<Map<Seq<u8>, Seq<u8>>>,
}

impl View for SQLPseudoTransaction {
    type V = TransactionState;

    closed spec fn view(&self) -> TransactionState {
        TransactionState {
            federation_id: self.federation_id@,
            base: self.base@,
            contents: self.mem@,
            savepoint: self.savepoint@,
            operations: operations_view(self.operations@),
            savepoint_operations: self.savepoint_operations as nat,
        }
    }
}

impl SQLPseudoTransaction {
    /// Stores `value` under `key` and returns the value that the transaction
    /// saw there before, if it saw one.
    pub fn raw_insert_bytes(&mut self, key: &[u8], value: &[u8]) -> (previous: Option<Vec<u8>>)
        ensures
            final(self)@ == old(self)@.inserted(key@, value@),
            match previous {
                Some(v) => old(self)@.contents.contains_key(key@) && old(self)@.contents[key@]
                    == v@,
                None => !old(self)@.contents.contains_key(key@),
            },
            old(self)@.well_formed() ==> final(self)@.well_formed(),
    {
        let ghost before = self@;
        proof {
            use_type_invariant(&self.mem);
            self.mem.lemma_listed();
        }
        let previous = self.mem.insert(key, value);
        self.operations.push(
            DatabaseOperation::Insert {
                key: slice_to_vec(key),
                value: slice_to_vec(value),
                old_value: copy_of(&previous),
            },
        );
        proof {
            assert(self@.operations =~= before.operations.push(
                OperationView::Insert {
                    key: key@,
                    value: value@,
                    old_value: value_at(before.contents, key@),
                },
            ));
            if before.well_formed() {
                lemma_transaction_stays_well_formed(before, key@, value@);
            }
        }
        previous
    }

    /// Returns the value that the transaction sees under `key`, if it sees
    /// one.
    pub fn raw_get_bytes(&self, key: &[u8]) -> (value: Option<Vec<u8>>)
        ensures
            match value {
                Some(v) => self@.contents.contains_key(key@) && self@.contents[key@] == v@,
                None => !self@.contents.contains_key(key@),
            },
    {
        self.mem.get(key)
    }

    /// Removes `key` and returns the value that the transaction saw under it,
    /// if it saw one.
    pub fn raw_remove_entry(&mut self, key: &[u8]) -> (previous: Option<Vec<u8>>)
        ensures
            final(self)@ == old(self)@.removed(key@),
            match previous {
                Some(v) => old(self)@.contents.contains_key(key@) && old(self)@.contents[key@]
                    == v@,
                None => !old(self)@.contents.contains_key(key@),
            },
            old(self)@.well_formed() ==> final(self)@.well_formed(),
    {
        let ghost before = self@;
        proof {
            use_type_invariant(&self.mem);
            self.mem.lemma_listed();
        }
        let previous = self.mem.remove(key);
        self.operations.push(
            DatabaseOperation::Delete { key: slice_to_vec(key), old_value: copy_of(&previous) },
        );
        proof {
            assert(self@.operations =~= before.operations.push(
                OperationView::Delete { key: key@, old_value: value_at(before.contents, key@) },
            ));
            if before.well_formed() {
                lemma_transaction_stays_well_formed(before, key@, key@);
            }
        }
        previous
    }

    /// Returns the pairs that the transaction sees under keys that begin with
    /// `key_prefix`, in ascending order of their keys.
    pub fn raw_find_by_prefix(&self, key_prefix: &[u8]) -> (found: Vec<(Vec<u8>, Vec<u8>)>)
        ensures
            pairs_view(found@) == with_prefix(ordered(self@.contents), key_prefix@),
    {
        self.mem.find_by_prefix(key_prefix)
    }

    /// Returns the pairs that the transaction sees under keys that begin with
    /// `key_prefix`, in descending order of their keys.
    pub fn raw_find_by_prefix_sorted_descending(&self, key_prefix: &[u8]) -> (found: Vec<
        (Vec<u8>, Vec<u8>),
    >)
        ensures
            pairs_view(found@) == with_prefix(ordered(self@.contents), key_prefix@).reverse(),
    {
        self.mem.find_by_prefix_sorted_descending(key_prefix)
    }

    /// Removes every key that begins with `key_prefix`.
    pub fn raw_remove_by_prefix(&mut self, key_prefix: &[u8])
        ensures
            final(self)@ == old(self)@.removed_by_prefix(key_prefix@),
            old(self)@.well_formed() ==> final(self)@.well_formed(),
    {
        let ghost before = self@;
        proof {
            use_type_invariant(&self.mem);
            self.mem.lemma_listed();
        }
        let removed = self.mem.remove_by_prefix(key_prefix);
        let ghost gone = pairs_view(removed@);
        let mut i: usize = 0;
        assert(before.operations + deletions(gone).take(0) =~= before.operations);
        while i < removed.len()
            invariant
                0 <= i <= removed.len(),
                gone == pairs_view(removed@),
                operations_view(self.operations@) == before.operations + deletions(gone).take(
                    i as int,
                ),
                self.federation_id == old(self).federation_id,
                self.base == old(self).base,
                self.savepoint == old(self).savepoint,
                self.savepoint_operations == old(self).savepoint_operations,
                self.mem@ == before.contents.remove_keys(prefixed_keys(key_prefix@)),
            decreases removed.len() - i,
        {
            let ghost buffered = operations_view(self.operations@);
            self.operations.push(
                DatabaseOperation::Delete {
                    key: slice_to_vec(removed[i].0.as_slice()),
                    old_value: Some(slice_to_vec(removed[i].1.as_slice())),
                },
            );
            assert(operations_view(self.operations@) =~= buffered.push(deletions(gone)[i as int]));
            assert(operations_view(self.operations@) =~= before.operations + deletions(gone).take(
                i + 1,
            ));
            i = i + 1;
        }
        proof {
            assert(deletions(gone).take(gone.len() as int) =~= deletions(gone));
            if before.well_formed() {
                lemma_transaction_stays_well_formed(before, key_prefix@, key_prefix@);
            }
        }
    }

    /// Sets the savepoint to what the transaction sees now.
    pub fn set_tx_savepoint(&mut self)
        ensures
            final(self)@ == old(self)@.with_savepoint(),
            old(self)@.well_formed() ==> final(self)@.well_formed(),
    {
        let ghost before = self@;
        proof {
            use_type_invariant(&self.mem);
            self.mem.lemma_listed();
        }
        self.savepoint = self.mem.duplicate();
        self.savepoint_operations = self.operations.len();
        proof {
            if before.well_formed() {
                lemma_transaction_stays_well_formed(before, Seq::empty(), Seq::empty());
            }
        }
    }

    /// Rolls the transaction back to its savepoint, which stays where it is.
    pub fn rollback_tx_to_savepoint(&mut self)
        ensures
            final(self)@ == old(self)@.rolled_back(),
            old(self)@.well_formed() ==> final(self)@.well_formed(),
    {
        let ghost before = self@;
        proof {
            use_type_invariant(&self.mem);
            self.mem.lemma_listed();
        }
        self.mem = self.savepoint.duplicate();
        self.operations.truncate(self.savepoint_operations);
        proof {
            assert(self@.operations =~= before.rolled_back().operations);
            if before.well_formed() {
                lemma_transaction_stays_well_formed(before, Seq::empty(), Seq::empty());
            }
        }
    }

    /// Commits the transaction to `storage`. The buffered mutations are
    /// applied to the mirror in the order in which they were made, provided
    /// that each finds under its key what the transaction saw there; if one
    /// does not, the mirror stays as it is and the commit fails. After that
    /// the snapshot of everything the transaction sees is returned for
    /// durable storage. The mirror keeps the mutations even where no snapshot
    /// can be returned.
    pub fn commit_tx(self, storage: &mut FedimintStorage) -> (written: Result<
        SnapshotWrite,
        CommitError,
    >)
        ensures
            final(storage)@.federation_id == old(storage)@.federation_id,
            final(storage)@.mirror == if applies_cleanly(old(storage)@.mirror, self@.operations) {
                apply_operations(old(storage)@.mirror, self@.operations)
            } else {
                old(storage)@.mirror
            },
            self@.well_formed() && old(storage)@.mirror == self@.base ==> final(storage)@.mirror
                == self@.contents && !(written matches Err(CommitError::WriteConflict)),
            match written {
                Ok(write) => {
                    &&& applies_cleanly(old(storage)@.mirror, self@.operations)
                    &&& write.federation_id@ == self@.federation_id
                    &&& write.value@ == encode_pairs(ordered(self@.contents))
                    &&& write.value@.len() <= max_blob_len()
                    &&& hydrated(Some(write.value@)) == Some(self@.contents)
                },
                Err(e) => if applies_cleanly(old(storage)@.mirror, self@.operations) {
                    e == CommitError::SnapshotTooLarge && encode_pairs(
                        ordered(self@.contents),
                    ).len() > max_blob_len()
                } else {
                    e == CommitError::WriteConflict
                },
            },
    {
        let key_value_pairs = self.mem.to_pairs();
        let ghost operations = self@.operations;
        let ghost mirror = storage@.mirror;
        proof {
            use_type_invariant(&self.mem);
            self.mem.lemma_listed();
            assert(key_value_pairs@.len() == key_value_pairs.len());
            lemma_stored_pairs_encodable(key_value_pairs@);
            committed_snapshot_reopens(self@.contents);
        }
        let mut data_copy = storage.fedimint_memory.duplicate();
        let mut i: usize = 0;
        assert(operations.take(0) =~= Seq::<OperationView>::empty());
        while i < self.operations.len()
            invariant
                0 <= i <= self.operations.len(),
                operations == operations_view(self.operations@),
                *storage == *old(storage),
                mirror == old(storage)@.mirror,
                applies_cleanly(mirror, operations.take(i as int)),
                data_copy@ == apply_operations(mirror, operations.take(i as int)),
            decreases self.operations.len() - i,
        {
            let clean = match &self.operations[i] {
                DatabaseOperation::Insert { key, value, old_value } => {
                    let found = data_copy.insert(key.as_slice(), value.as_slice());
                    same_value(&found, old_value)
                },
                DatabaseOperation::Delete { key, old_value } => {
                    let found = data_copy.remove(key.as_slice());
                    same_value(&found, old_value)
                },
            };
            proof {
                assert(operations.take(i + 1).drop_last() =~= operations.take(i as int));
                assert(operations.take(i + 1).last() == self.operations@[i as int]@);
                assert(applies_cleanly(mirror, operations.take(i + 1)) == clean);
            }
            if !clean {
                proof {
                    if applies_cleanly(mirror, operations) {
                        lemma_clean_prefix(mirror, operations, i + 1);
                    }
                }
                return Err(CommitError::WriteConflict);
            }
            i = i + 1;
        }
        assert(operations.take(i as int) =~= operations);
        storage.fedimint_memory = data_copy;
        match encode_snapshot(&key_value_pairs) {
            Some(value) => Ok(SnapshotWrite { federation_id: self.federation_id, value }),
            None => Err(CommitError::SnapshotTooLarge),
        }
    }
}

/// Copies a value that may be missing.
fn copy_of(value: &Option<Vec<u8>>) -> (copy: Option<Vec<u8>>)
    ensures
        value_view(copy) == value_view(*value),
{
    match value {
        Some(bytes) => Some(slice_to_vec(bytes.as_slice())),
        None => None,
    }
}

/// Tests whether two values that may be missing are the same.
fn same_value(a: &Option<Vec<u8>>, b: &Option<Vec<u8>>) -> (same: bool)
    ensures
        same == (value_view(*a) == value_view(*b)),
{
    match (a, b) {
        (None, None) => true,
        (Some(x), Some(y)) => match compare(x.as_slice(), y.as_slice()) {
            KeyOrder::Same => true,
            _ => false,
        },
        _ => false,
    }
}

} // verus!
