//! The mirror: an ordered map from keys to values, both strings of bytes,
//! held in memory as a list of pairs in ascending order of their keys.

use crate::keys::{
    compare, has_prefix, key_less, lemma_key_less_asymmetric, lemma_key_less_transitive,
    starts_with, KeyOrder,
};
use vstd::prelude::*;
use vstd::slice::slice_to_vec;

verus! {

/// The mathematical values of a list of stored pairs.
pub open spec fn pairs_view(pairs: Seq<(Vec<u8>, Vec<u8>)>) -> Seq<(Seq<u8>, Seq<u8>)> {
    pairs.map_values(|pair: (Vec<u8>, Vec<u8>)| (pair.0@, pair.1@))
}

/// Whether the keys of `pairs` ascend strictly, so that no key occurs twice.
pub open spec fn ascending(pairs: Seq<(Seq<u8>, Seq<u8>)>) -> bool {
    forall|i: int, j: int| 0 <= i < j < pairs.len() ==> key_less(pairs[i].0, pairs[j].0)
}

/// Whether some pair of `pairs` has the key `key`.
pub open spec fn has_key(pairs: Seq<(Seq<u8>, Seq<u8>)>, key: Seq<u8>) -> bool {
    exists|i: int| 0 <= i < pairs.len() && pairs[i].0 == key
}

/// A place in `pairs` at which `key` stands, where there is one.
pub open spec fn place_of(pairs: Seq<(Seq<u8>, Seq<u8>)>, key: Seq<u8>) -> int {
    choose|i: int| 0 <= i < pairs.len() && pairs[i].0 == key
}

/// The map that a list of pairs with distinct keys stands for.
pub open spec fn as_map(pairs: Seq<(Seq<u8>, Seq<u8>)>) -> Map<Seq<u8>, Seq<u8>> {
    Map::new(|key: Seq<u8>| has_key(pairs, key), |key: Seq<u8>| pairs[place_of(pairs, key)].1)
}

/// In an ascending list every pair is found under its key.
pub proof fn lemma_pair_in_map(pairs: Seq<(Seq<u8>, Seq<u8>)>, i: int)
    requires
        ascending(pairs),
        0 <= i < pairs.len(),
    ensures
        has_key(pairs, pairs[i].0),
        place_of(pairs, pairs[i].0) == i,
        as_map(pairs).contains_key(pairs[i].0),
        as_map(pairs)[pairs[i].0] == pairs[i].1,
{
    let key = pairs[i].0;
    assert(has_key(pairs, key));
    let j = place_of(pairs, key);
    if j < i {
        lemma_key_less_asymmetric(pairs[j].0, pairs[i].0);
    } else if i < j {
        lemma_key_less_asymmetric(pairs[i].0, pairs[j].0);
    }
}

/// A key that lies strictly between two neighbours of an ascending list, or
/// before its first or after its last pair, is not in the list.
pub proof fn lemma_absent_key(pairs: Seq<(Seq<u8>, Seq<u8>)>, key: Seq<u8>, at: int)
    requires
        0 <= at <= pairs.len(),
        forall|i: int| 0 <= i < at ==> key_less(pairs[i].0, key),
        forall|i: int| at <= i < pairs.len() ==> key_less(key, pairs[i].0),
    ensures
        !has_key(pairs, key),
        !as_map(pairs).contains_key(key),
{
    if has_key(pairs, key) {
        let j = place_of(pairs, key);
        if j < at {
            lemma_key_less_asymmetric(pairs[j].0, key);
        } else {
            lemma_key_less_asymmetric(key, pairs[j].0);
        }
    }
}

/// Putting a pair into its place in an ascending list gives an ascending list
/// for the map with that pair added.
pub proof fn lemma_insert_pair(
    pairs: Seq<(Seq<u8>, Seq<u8>)>,
    at: int,
    key: Seq<u8>,
    value: Seq<u8>,
)
    requires
        ascending(pairs),
        0 <= at <= pairs.len(),
        forall|i: int| 0 <= i < at ==> key_less(pairs[i].0, key),
        forall|i: int| at <= i < pairs.len() ==> key_less(key, pairs[i].0),
    ensures
        ascending(pairs.insert(at, (key, value))),
        as_map(pairs.insert(at, (key, value))) == as_map(pairs).insert(key, value),
{
    let grown = pairs.insert(at, (key, value));
    assert forall|i: int, j: int| 0 <= i < j < grown.len() implies key_less(
        grown[i].0,
        grown[j].0,
    ) by {
        if i < at && j > at {
            assert(key_less(pairs[i].0, pairs[j - 1].0));
        }
    }
    assert forall|q: Seq<u8>| has_key(grown, q) <==> (q == key || has_key(pairs, q)) by {
        if has_key(grown, q) {
            let i = place_of(grown, q);
            if i < at {
                assert(pairs[i].0 == q);
            } else if i > at {
                assert(pairs[i - 1].0 == q);
            }
        }
        if q == key {
            assert(grown[at].0 == q);
        }
        if has_key(pairs, q) {
            let i = place_of(pairs, q);
            if i < at {
                assert(grown[i].0 == q);
            } else {
                assert(grown[i + 1].0 == q);
            }
        }
    }
    assert forall|q: Seq<u8>| has_key(grown, q) implies #[trigger] as_map(grown)[q] == as_map(
        pairs,
    ).insert(key, value)[q] by {
        let i = place_of(grown, q);
        lemma_pair_in_map(grown, i);
        if i < at {
            lemma_pair_in_map(pairs, i);
        } else if i > at {
            lemma_pair_in_map(pairs, i - 1);
            lemma_absent_key(pairs, key, at);
        }
    }
    assert(as_map(grown) =~= as_map(pairs).insert(key, value));
}

/// Replacing the value of a pair of an ascending list gives an ascending list
/// for the map with the new value under the key of that pair.
pub proof fn lemma_replace_value(pairs: Seq<(Seq<u8>, Seq<u8>)>, at: int, value: Seq<u8>)
    requires
        ascending(pairs),
        0 <= at < pairs.len(),
    ensures
        ascending(pairs.update(at, (pairs[at].0, value))),
        as_map(pairs.update(at, (pairs[at].0, value))) == as_map(pairs).insert(pairs[at].0, value),
{
    let key = pairs[at].0;
    let changed = pairs.update(at, (key, value));
    assert forall|i: int, j: int| 0 <= i < j < changed.len() implies key_less(
        changed[i].0,
        changed[j].0,
    ) by {
        assert(changed[i].0 == pairs[i].0 && changed[j].0 == pairs[j].0);
    }
    assert forall|q: Seq<u8>| has_key(changed, q) <==> has_key(pairs, q) by {
        if has_key(changed, q) {
            let i = place_of(changed, q);
            assert(pairs[i].0 == q);
        }
        if has_key(pairs, q) {
            let i = place_of(pairs, q);
            assert(changed[i].0 == q);
        }
    }
    assert(has_key(pairs, key));
    assert forall|q: Seq<u8>| has_key(changed, q) implies #[trigger] as_map(changed)[q] == as_map(
        pairs,
    ).insert(key, value)[q] by {
        let i = place_of(changed, q);
        lemma_pair_in_map(changed, i);
        lemma_pair_in_map(pairs, i);
        if i < at {
            lemma_key_less_asymmetric(pairs[i].0, pairs[at].0);
        } else if i > at {
            lemma_key_less_asymmetric(pairs[at].0, pairs[i].0);
        }
    }
    assert(as_map(changed) =~= as_map(pairs).insert(key, value));
}

/// Taking a pair out of an ascending list gives an ascending list for the map
/// without the key of that pair.
pub proof fn lemma_remove_pair(pairs: Seq<(Seq<u8>, Seq<u8>)>, at: int)
    requires
        ascending(pairs),
        0 <= at < pairs.len(),
    ensures
        ascending(pairs.remove(at)),
        as_map(pairs.remove(at)) == as_map(pairs).remove(pairs[at].0),
{
    let key = pairs[at].0;
    let shrunk = pairs.remove(at);
    assert forall|i: int, j: int| 0 <= i < j < shrunk.len() implies key_less(
        shrunk[i].0,
        shrunk[j].0,
    ) by {
        let oi = if i < at { i } else { i + 1 };
        let oj = if j < at { j } else { j + 1 };
        assert(key_less(pairs[oi].0, pairs[oj].0));
    }
    assert forall|q: Seq<u8>| has_key(shrunk, q) <==> (q != key && has_key(pairs, q)) by {
        if has_key(shrunk, q) {
            let i = place_of(shrunk, q);
            let oi = if i < at { i } else { i + 1 };
            assert(pairs[oi].0 == q);
            if oi < at {
                lemma_key_less_asymmetric(pairs[oi].0, pairs[at].0);
            } else {
                lemma_key_less_asymmetric(pairs[at].0, pairs[oi].0);
            }
        }
        if q != key && has_key(pairs, q) {
            let i = place_of(pairs, q);
            if i < at {
                assert(shrunk[i].0 == q);
            } else {
                assert(shrunk[i - 1].0 == q);
            }
        }
    }
    assert forall|q: Seq<u8>| has_key(shrunk, q) implies #[trigger] as_map(shrunk)[q] == as_map(
        pairs,
    ).remove(key)[q] by {
        let i = place_of(shrunk, q);
        lemma_pair_in_map(shrunk, i);
        let oi = if i < at { i } else { i + 1 };
        lemma_pair_in_map(pairs, oi);
    }
    assert(as_map(shrunk) =~= as_map(pairs).remove(key));
}

/// The empty list stands for the empty map.
pub proof fn lemma_empty_pairs()
    ensures
        ascending(Seq::<(Seq<u8>, Seq<u8>)>::empty()),
        as_map(Seq::<(Seq<u8>, Seq<u8>)>::empty()) == Map::<Seq<u8>, Seq<u8>>::empty(),
{
    assert(as_map(Seq::<(Seq<u8>, Seq<u8>)>::empty()) =~= Map::<Seq<u8>, Seq<u8>>::empty());
}

/// An ascending list without its last pair is ascending, and stands for the
/// map without the key of that pair.
pub proof fn lemma_drop_last_pair(pairs: Seq<(Seq<u8>, Seq<u8>)>)
    requires
        ascending(pairs),
        pairs.len() > 0,
    ensures
        ascending(pairs.drop_last()),
        as_map(pairs.drop_last()) == as_map(pairs).remove(pairs.last().0),
        as_map(pairs) == as_map(pairs.drop_last()).insert(pairs.last().0, pairs.last().1),
{
    let at = pairs.len() - 1;
    lemma_remove_pair(pairs, at);
    assert(pairs.remove(at) =~= pairs.drop_last());
    lemma_pair_in_map(pairs, at);
    assert(as_map(pairs) =~= as_map(pairs).remove(pairs.last().0).insert(
        pairs.last().0,
        pairs.last().1,
    ));
}

/// A map has at most one ascending list.
pub proof fn lemma_ascending_unique(a: Seq<(Seq<u8>, Seq<u8>)>, b: Seq<(Seq<u8>, Seq<u8>)>)
    requires
        ascending(a),
        ascending(b),
        as_map(a) == as_map(b),
    ensures
        a == b,
    decreases a.len(),
{
    if a.len() == 0 {
        if b.len() > 0 {
            lemma_pair_in_map(b, 0);
            assert(has_key(a, b[0].0));
        }
        assert(a =~= b);
    } else {
        let a_last = a.len() - 1;
        lemma_pair_in_map(a, a_last);
        assert(has_key(b, a[a_last].0));
        let b_last = b.len() - 1;
        lemma_pair_in_map(b, b_last);
        assert(has_key(a, b[b_last].0));
        let i = place_of(b, a[a_last].0);
        let j = place_of(a, b[b_last].0);
        if i < b_last {
            assert(key_less(b[i].0, b[b_last].0));
            if j < a_last {
                assert(key_less(a[j].0, a[a_last].0));
                lemma_key_less_asymmetric(a[a_last].0, b[b_last].0);
            }
        }
        assert(a[a_last].0 == b[b_last].0);
        assert(a.last() == b.last());
        lemma_drop_last_pair(a);
        lemma_drop_last_pair(b);
        lemma_ascending_unique(a.drop_last(), b.drop_last());
        assert(a =~= a.drop_last().push(a.last()));
        assert(b =~= b.drop_last().push(b.last()));
    }
}

/// The pairs of a map in ascending order of their keys, for a map that has
/// finitely many.
pub open spec fn ordered(map: Map<Seq<u8>, Seq<u8>>) -> Seq<(Seq<u8>, Seq<u8>)> {
    choose|pairs: Seq<(Seq<u8>, Seq<u8>)>| ascending(pairs) && as_map(pairs) == map
}

/// Whether a map has an ordered list: finitely many pairs, in ascending order
/// of their keys.
pub open spec fn listed(map: Map<Seq<u8>, Seq<u8>>) -> bool {
    ascending(ordered(map)) && as_map(ordered(map)) == map
}

/// An ascending list is the ordered list of its map.
pub proof fn lemma_ordered(pairs: Seq<(Seq<u8>, Seq<u8>)>)
    requires
        ascending(pairs),
    ensures
        ordered(as_map(pairs)) == pairs,
        listed(as_map(pairs)),
{
    lemma_ascending_unique(ordered(as_map(pairs)), pairs);
}

/// The map that results when the pairs of a list are stored one after the
/// other, a later pair replacing an earlier one with the same key.
pub open spec fn replay(pairs: Seq<(Seq<u8>, Seq<u8>)>) -> Map<Seq<u8>, Seq<u8>>
    decreases pairs.len(),
{
    if pairs.len() == 0 {
        Map::empty()
    } else {
        replay(pairs.drop_last()).insert(pairs.last().0, pairs.last().1)
    }
}

/// Storing the pairs of an ascending list one after the other gives the map
/// of the list.
pub proof fn lemma_replay_ascending(pairs: Seq<(Seq<u8>, Seq<u8>)>)
    requires
        ascending(pairs),
    ensures
        replay(pairs) == as_map(pairs),
    decreases pairs.len(),
{
    if pairs.len() == 0 {
        lemma_empty_pairs();
        assert(pairs =~= Seq::<(Seq<u8>, Seq<u8>)>::empty());
    } else {
        lemma_drop_last_pair(pairs);
        lemma_replay_ascending(pairs.drop_last());
    }
}

/// The pairs of `pairs` whose keys pass the test `keep`, in the order of
/// `pairs`.
pub open spec fn filter_by_key(pairs: Seq<(Seq<u8>, Seq<u8>)>, keep: spec_fn(Seq<u8>) -> bool) -> Seq<
    (Seq<u8>, Seq<u8>),
> {
    pairs.filter(|pair: (Seq<u8>, Seq<u8>)| keep(pair.0))
}

/// The pairs of `pairs` whose keys begin with `prefix`, in the order of
/// `pairs`.
pub open spec fn with_prefix(pairs: Seq<(Seq<u8>, Seq<u8>)>, prefix: Seq<u8>) -> Seq<
    (Seq<u8>, Seq<u8>),
> {
    filter_by_key(pairs, |key: Seq<u8>| starts_with(key, prefix))
}

/// The pairs of `pairs` whose keys do not begin with `prefix`, in the order of
/// `pairs`.
pub open spec fn without_prefix(pairs: Seq<(Seq<u8>, Seq<u8>)>, prefix: Seq<u8>) -> Seq<
    (Seq<u8>, Seq<u8>),
> {
    filter_by_key(pairs, |key: Seq<u8>| !starts_with(key, prefix))
}

/// The keys of `pairs`, in the order of `pairs`.
pub open spec fn keys_of(pairs: Seq<(Seq<u8>, Seq<u8>)>) -> Seq<Seq<u8>> {
    pairs.map_values(|pair: (Seq<u8>, Seq<u8>)| pair.0)
}

/// The keys that begin with `prefix`.
pub open spec fn prefixed_keys(prefix: Seq<u8>) -> Set<Seq<u8>> {
    Set::new(|key: Seq<u8>| starts_with(key, prefix))
}

/// Filtering one pair more keeps or drops that pair and leaves the rest as it
/// was.
pub proof fn lemma_filter_next(
    pairs: Seq<(Seq<u8>, Seq<u8>)>,
    keep: spec_fn(Seq<u8>) -> bool,
    i: int,
)
    requires
        0 <= i < pairs.len(),
    ensures
        filter_by_key(pairs.take(i + 1), keep) == if keep(pairs[i].0) {
            filter_by_key(pairs.take(i), keep).push(pairs[i])
        } else {
            filter_by_key(pairs.take(i), keep)
        },
        filter_by_key(pairs.take(0), keep) == Seq::<(Seq<u8>, Seq<u8>)>::empty(),
        filter_by_key(pairs.take(pairs.len() as int), keep) == filter_by_key(pairs, keep),
{
    reveal(Seq::filter);
    assert(pairs.take(i + 1).drop_last() =~= pairs.take(i));
    assert(pairs.take(pairs.len() as int) =~= pairs);
}

/// Keeping the pairs of an ascending list whose keys pass a test gives an
/// ascending list, for the map restricted to the keys that pass.
pub proof fn lemma_filter_by_key(pairs: Seq<(Seq<u8>, Seq<u8>)>, keep: spec_fn(Seq<u8>) -> bool)
    requires
        ascending(pairs),
    ensures
        ascending(filter_by_key(pairs, keep)),
        as_map(filter_by_key(pairs, keep)) == as_map(pairs).restrict(Set::new(keep)),
        forall|i: int|
            0 <= i < filter_by_key(pairs, keep).len() ==> has_key(
                pairs,
                (#[trigger] filter_by_key(pairs, keep)[i]).0,
            ),
    decreases pairs.len(),
{
    let kept = filter_by_key(pairs, keep);
    reveal(Seq::filter);
    if pairs.len() == 0 {
        lemma_empty_pairs();
        assert(as_map(pairs).restrict(Set::new(keep)) =~= as_map(kept));
    } else {
        let rest = pairs.drop_last();
        let last = pairs.last();
        let kept_rest = filter_by_key(rest, keep);
        assert(ascending(rest));
        lemma_filter_by_key(rest, keep);
        assert(pairs =~= rest.insert(rest.len() as int, last));
        lemma_insert_pair(rest, rest.len() as int, last.0, last.1);
        assert forall|i: int| 0 <= i < kept_rest.len() implies has_key(
            pairs,
            (#[trigger] kept_rest[i]).0,
        ) && key_less(kept_rest[i].0, last.0) by {
            let j = place_of(rest, kept_rest[i].0);
            assert(pairs[j].0 == kept_rest[i].0);
            assert(key_less(pairs[j].0, pairs[pairs.len() - 1].0));
        }
        if keep(last.0) {
            assert(kept =~= kept_rest.insert(kept_rest.len() as int, last));
            lemma_insert_pair(kept_rest, kept_rest.len() as int, last.0, last.1);
            assert(as_map(kept) =~= as_map(pairs).restrict(Set::new(keep)));
            assert(pairs[pairs.len() - 1].0 == last.0);
        } else {
            assert(kept == kept_rest);
            assert(as_map(kept) =~= as_map(pairs).restrict(Set::new(keep)));
        }
    }
}

/// An ordered map from keys to values.
#[derive(Debug)]
pub struct Mirror {
    entries: Vec<(Vec<u8>, Vec<u8>)>,
}

impl View for Mirror {
    type V = Map<Seq<u8>, Seq<u8>>;

    closed spec fn view(&self) -> Map<Seq<u8>, Seq<u8>> {
        as_map(self.listing())
    }
}

impl Mirror {
    /// The pairs are held in ascending order of their keys.
    #[verifier::type_invariant]
    pub closed spec fn inv(&self) -> bool {
        ascending(pairs_view(self.entries@))
    }

    /// What is held has an ordered list.
    pub proof fn lemma_listed(&self)
        requires
            self.inv(),
        ensures
            listed(self@),
    {
        lemma_ordered(self.listing());
    }

    /// The pairs as they are held.
    spec fn listing(&self) -> Seq<(Seq<u8>, Seq<u8>)> {
        pairs_view(self.entries@)
    }

    /// Creates an empty map.
    pub fn new() -> (mirror: Mirror)
        ensures
            mirror@ == Map::<Seq<u8>, Seq<u8>>::empty(),
    {
        let mirror = Mirror { entries: Vec::new() };
        proof {
            lemma_empty_pairs();
            assert(mirror.listing() =~= Seq::<(Seq<u8>, Seq<u8>)>::empty());
        }
        mirror
    }

    /// Returns the number of pairs.
    pub fn len(&self) -> (n: usize)
        ensures
            n == ordered(self@).len(),
    {
        proof {
            use_type_invariant(self);
            lemma_ordered(self.listing());
        }
        self.entries.len()
    }

    /// Finds the place of `key`: where it stands if it is there, and else
    /// where it would have to stand.
    fn locate(&self, key: &[u8]) -> (found: (usize, bool))
        ensures
            ascending(self.listing()),
            found.0 <= self.listing().len(),
            forall|i: int| 0 <= i < found.0 ==> key_less(self.listing()[i].0, key@),
            found.1 ==> found.0 < self.listing().len() && self.listing()[found.0 as int].0 == key@,
            !found.1 ==> forall|i: int|
                found.0 <= i < self.listing().len() ==> key_less(key@, self.listing()[i].0),
    {
        proof {
            use_type_invariant(self);
        }
        let ghost pairs = self.listing();
        let mut low: usize = 0;
        let mut high: usize = self.entries.len();
        while low < high
            invariant
                pairs == self.listing(),
                ascending(pairs),
                0 <= low <= high <= pairs.len(),
                forall|i: int| 0 <= i < low ==> key_less(pairs[i].0, key@),
                forall|i: int| high <= i < pairs.len() ==> key_less(key@, pairs[i].0),
            decreases high - low,
        {
            let middle = low + (high - low) / 2;
            match compare(self.entries[middle].0.as_slice(), key) {
                KeyOrder::Before => {
                    assert forall|i: int| 0 <= i < middle + 1 implies key_less(pairs[i].0, key@) by {
                        if i < middle {
                            lemma_key_less_transitive(pairs[i].0, pairs[middle as int].0, key@);
                        }
                    }
                    low = middle + 1;
                },
                KeyOrder::Same => {
                    assert(pairs[middle as int].0 == key@);
                    assert forall|i: int| 0 <= i < middle implies key_less(pairs[i].0, key@) by {
                        assert(key_less(pairs[i].0, pairs[middle as int].0));
                    }
                    return (middle, true);
                },
                KeyOrder::After => {
                    assert forall|i: int| middle <= i < pairs.len() implies key_less(
                        key@,
                        pairs[i].0,
                    ) by {
                        if i > middle {
                            lemma_key_less_transitive(key@, pairs[middle as int].0, pairs[i].0);
                        }
                    }
                    high = middle;
                },
            }
        }
        (low, false)
    }

    /// Moves the pairs out and leaves the map empty.
    fn take_entries(&mut self) -> (entries: Vec<(Vec<u8>, Vec<u8>)>)
        ensures
            pairs_view(entries@) == old(self).listing(),
            ascending(pairs_view(entries@)),
            final(self).listing() == Seq::<(Seq<u8>, Seq<u8>)>::empty(),
    {
        proof {
            use_type_invariant(&*self);
        }
        let mut entries: Vec<(Vec<u8>, Vec<u8>)> = Vec::new();
        assert(pairs_view(entries@) =~= Seq::<(Seq<u8>, Seq<u8>)>::empty());
        proof {
            lemma_empty_pairs();
        }
        core::mem::swap(&mut self.entries, &mut entries);
        entries
    }

    /// Returns the value stored under `key`, if there is one.
    pub fn get(&self, key: &[u8]) -> (value: Option<Vec<u8>>)
        ensures
            match value {
                Some(v) => self@.contains_key(key@) && self@[key@] == v@,
                None => !self@.contains_key(key@),
            },
    {
        let (at, found) = self.locate(key);
        if found {
            proof {
                lemma_pair_in_map(self.listing(), at as int);
            }
            Some(slice_to_vec(self.entries[at].1.as_slice()))
        } else {
            proof {
                lemma_absent_key(self.listing(), key@, at as int);
            }
            None
        }
    }

    /// Stores `value` under `key` and returns the value that was stored there
    /// before, if there was one.
    pub fn insert(&mut self, key: &[u8], value: &[u8]) -> (previous: Option<Vec<u8>>)
        ensures
            final(self)@ == old(self)@.insert(key@, value@),
            match previous {
                Some(v) => old(self)@.contains_key(key@) && old(self)@[key@] == v@,
                None => !old(self)@.contains_key(key@),
            },
    {
        let (at, found) = self.locate(key);
        let ghost before = self.listing();
        let mut entries = self.take_entries();
        if found {
            let mut stored_value = slice_to_vec(value);
            core::mem::swap(&mut entries[at].1, &mut stored_value);
            proof {
                lemma_pair_in_map(before, at as int);
                lemma_replace_value(before, at as int, value@);
                assert(pairs_view(entries@) =~= before.update(at as int, (key@, value@)));
            }
            self.entries = entries;
            Some(stored_value)
        } else {
            entries.insert(at, (slice_to_vec(key), slice_to_vec(value)));
            proof {
                assert(pairs_view(entries@) =~= before.insert(at as int, (key@, value@)));
                lemma_insert_pair(before, at as int, key@, value@);
                lemma_absent_key(before, key@, at as int);
            }
            self.entries = entries;
            None
        }
    }

    /// Removes `key` and returns the value that was stored under it, if there
    /// was one.
    pub fn remove(&mut self, key: &[u8]) -> (previous: Option<Vec<u8>>)
        ensures
            final(self)@ == old(self)@.remove(key@),
            match previous {
                Some(v) => old(self)@.contains_key(key@) && old(self)@[key@] == v@,
                None => !old(self)@.contains_key(key@),
            },
    {
        let (at, found) = self.locate(key);
        let ghost before = self.listing();
        if found {
            let mut entries = self.take_entries();
            let (_, stored_value) = entries.remove(at);
            proof {
                lemma_pair_in_map(before, at as int);
                lemma_remove_pair(before, at as int);
                assert(pairs_view(entries@) =~= before.remove(at as int));
            }
            self.entries = entries;
            Some(stored_value)
        } else {
            proof {
                lemma_absent_key(before, key@, at as int);
                assert(as_map(before).remove(key@) =~= as_map(before));
            }
            None
        }
    }

    /// Returns a copy of all pairs, in ascending order of their keys.
    pub fn to_pairs(&self) -> (pairs: Vec<(Vec<u8>, Vec<u8>)>)
        ensures
            pairs_view(pairs@) == ordered(self@),
            ascending(ordered(self@)),
            as_map(ordered(self@)) == self@,
    {
        proof {
            use_type_invariant(self);
            lemma_ordered(self.listing());
        }
        let mut pairs: Vec<(Vec<u8>, Vec<u8>)> = Vec::new();
        let mut i: usize = 0;
        assert(pairs_view(pairs@) =~= self.listing().take(0));
        while i < self.entries.len()
            invariant
                0 <= i <= self.entries.len(),
                pairs_view(pairs@) == self.listing().take(i as int),
            decreases self.entries.len() - i,
        {
            let ghost copied = pairs_view(pairs@);
            pairs.push(
                (
                    slice_to_vec(self.entries[i].0.as_slice()),
                    slice_to_vec(self.entries[i].1.as_slice()),
                ),
            );
            assert(pairs_view(pairs@) =~= copied.push(self.listing()[i as int]));
            assert(self.listing().take(i + 1) =~= self.listing().take(i as int).push(
                self.listing()[i as int],
            ));
            i = i + 1;
        }
        assert(self.listing().take(i as int) =~= self.listing());
        pairs
    }

    /// Returns a copy of the map.
    pub fn duplicate(&self) -> (copy: Mirror)
        ensures
            copy@ == self@,
    {
        let entries = self.to_pairs();
        Mirror { entries }
    }

    /// Returns the pairs whose keys begin with `prefix`, in ascending order of
    /// their keys.
    pub fn find_by_prefix(&self, prefix: &[u8]) -> (found: Vec<(Vec<u8>, Vec<u8>)>)
        ensures
            pairs_view(found@) == with_prefix(ordered(self@), prefix@),
    {
        proof {
            use_type_invariant(self);
            lemma_ordered(self.listing());
        }
        let ghost keep = |key: Seq<u8>| starts_with(key, prefix@);
        let mut found: Vec<(Vec<u8>, Vec<u8>)> = Vec::new();
        let mut i: usize = 0;
        proof {
            if self.entries.len() > 0 {
                lemma_filter_next(self.listing(), keep, 0);
            } else {
                reveal(Seq::filter);
            }
            assert(with_prefix(self.listing().take(0), prefix@) =~= pairs_view(found@));
        }
        while i < self.entries.len()
            invariant
                0 <= i <= self.entries.len(),
                pairs_view(found@) == with_prefix(self.listing().take(i as int), prefix@),
            decreases self.entries.len() - i,
        {
            proof {
                lemma_filter_next(self.listing(), |key: Seq<u8>| starts_with(key, prefix@), i as int);
            }
            if has_prefix(self.entries[i].0.as_slice(), prefix) {
                found.push(
                    (
                        slice_to_vec(self.entries[i].0.as_slice()),
                        slice_to_vec(self.entries[i].1.as_slice()),
                    ),
                );
                assert(pairs_view(found@) =~= with_prefix(
                    self.listing().take(i as int),
                    prefix@,
                ).push(self.listing()[i as int]));
            }
            i = i + 1;
        }
        assert(self.listing().take(i as int) =~= self.listing());
        found
    }

    /// Returns the pairs whose keys begin with `prefix`, in descending order
    /// of their keys.
    pub fn find_by_prefix_sorted_descending(&self, prefix: &[u8]) -> (found: Vec<
        (Vec<u8>, Vec<u8>),
    >)
        ensures
            pairs_view(found@) == with_prefix(ordered(self@), prefix@).reverse(),
    {
        let mut rising = self.find_by_prefix(prefix);
        let ghost all = pairs_view(rising@);
        let mut found: Vec<(Vec<u8>, Vec<u8>)> = Vec::new();
        while rising.len() > 0
            invariant
                rising.len() + found.len() == all.len(),
                pairs_view(rising@) == all.take(rising.len() as int),
                forall|i: int|
                    0 <= i < found.len() ==> #[trigger] pairs_view(found@)[i] == all[all.len() - 1
                        - i],
            decreases rising.len(),
        {
            let ghost before = pairs_view(found@);
            let ghost left = pairs_view(rising@);
            let pair = rising.pop().unwrap();
            assert((pair.0@, pair.1@) == left[left.len() - 1]);
            found.push(pair);
            assert(pairs_view(rising@) =~= all.take(rising.len() as int));
            assert forall|i: int| 0 <= i < found.len() implies #[trigger] pairs_view(found@)[i]
                == all[all.len() - 1 - i] by {
                if i < found.len() - 1 {
                    assert(pairs_view(found@)[i] == before[i]);
                }
            }
        }
        assert(pairs_view(found@) =~= all.reverse());
        found
    }

    /// Removes every pair whose key begins with `prefix` and returns the pairs
    /// removed, in ascending order of their keys.
    pub fn remove_by_prefix(&mut self, prefix: &[u8]) -> (removed: Vec<(Vec<u8>, Vec<u8>)>)
        ensures
            final(self)@ == old(self)@.remove_keys(prefixed_keys(prefix@)),
            ordered(final(self)@) == without_prefix(ordered(old(self)@), prefix@),
            pairs_view(removed@) == with_prefix(ordered(old(self)@), prefix@),
    {
        proof {
            use_type_invariant(&*self);
            lemma_ordered(self.listing());
        }
        let ghost before = self.listing();
        let entries = self.take_entries();
        let mut kept: Vec<(Vec<u8>, Vec<u8>)> = Vec::new();
        let mut removed: Vec<(Vec<u8>, Vec<u8>)> = Vec::new();
        let mut i: usize = 0;
        proof {
            if entries.len() > 0 {
                lemma_filter_next(before, |key: Seq<u8>| starts_with(key, prefix@), 0);
                lemma_filter_next(before, |key: Seq<u8>| !starts_with(key, prefix@), 0);
            } else {
                reveal(Seq::filter);
            }
            assert(without_prefix(before.take(0), prefix@) =~= pairs_view(kept@));
            assert(with_prefix(before.take(0), prefix@) =~= pairs_view(removed@));
        }
        while i < entries.len()
            invariant
                0 <= i <= entries.len(),
                before == pairs_view(entries@),
                pairs_view(kept@) == without_prefix(before.take(i as int), prefix@),
                pairs_view(removed@) == with_prefix(before.take(i as int), prefix@),
            decreases entries.len() - i,
        {
            proof {
                lemma_filter_next(before, |key: Seq<u8>| starts_with(key, prefix@), i as int);
                lemma_filter_next(before, |key: Seq<u8>| !starts_with(key, prefix@), i as int);
            }
            let pair = (
                slice_to_vec(entries[i].0.as_slice()),
                slice_to_vec(entries[i].1.as_slice()),
            );
            if has_prefix(entries[i].0.as_slice(), prefix) {
                removed.push(pair);
                assert(pairs_view(removed@) =~= with_prefix(before.take(i as int), prefix@).push(
                    before[i as int],
                ));
            } else {
                kept.push(pair);
                assert(pairs_view(kept@) =~= without_prefix(before.take(i as int), prefix@).push(
                    before[i as int],
                ));
            }
            i = i + 1;
        }
        proof {
            assert(before.take(i as int) =~= before);
            let keep = |key: Seq<u8>| !starts_with(key, prefix@);
            lemma_filter_by_key(before, keep);
            assert(as_map(before).restrict(Set::new(keep)) =~= as_map(before).remove_keys(
                prefixed_keys(prefix@),
            ));
            lemma_ordered(without_prefix(before, prefix@));
        }
        self.entries = kept;
        removed
    }
}

} // verus!
