//! Ordered maps as sequences of entries, and the laws of inserting into them.
use vstd::prelude::*;

verus! {

/// Where a key stands among entries, if anywhere.
pub open spec fn position<V>(entries: Seq<(Seq<char>, V)>, key: Seq<char>) -> Option<int>
    decreases entries.len(),
{
    if entries.len() == 0 {
        None
    } else if entries[0].0 == key {
        Some(0)
    } else {
        match position(entries.skip(1), key) {
            Some(i) => Some(i + 1),
            None => None,
        }
    }
}

/// Whether a key stands among entries.
pub open spec fn has_key<V>(entries: Seq<(Seq<char>, V)>, key: Seq<char>) -> bool {
    position(entries, key) is Some
}

/// The value under a key.
pub open spec fn lookup<V>(entries: Seq<(Seq<char>, V)>, key: Seq<char>) -> Option<V> {
    match position(entries, key) {
        Some(i) => Some(entries[i].1),
        None => None,
    }
}

/// The entries after an insertion: a key that is already there keeps its
/// place and takes the new value, a new one goes to the end.
pub open spec fn upsert<V>(entries: Seq<(Seq<char>, V)>, key: Seq<char>, value: V) -> Seq<
    (Seq<char>, V),
> {
    match position(entries, key) {
        Some(i) => entries.update(i, (key, value)),
        None => entries.push((key, value)),
    }
}

/// Whether no key stands twice.
pub open spec fn distinct_keys<V>(entries: Seq<(Seq<char>, V)>) -> bool {
    forall|i: int, j: int|
        0 <= i < j < entries.len() ==> #[trigger] entries[i].0 != #[trigger] entries[j].0
}

/// The position of a key is the first place that it stands at.
pub proof fn lemma_position<V>(entries: Seq<(Seq<char>, V)>, key: Seq<char>)
    ensures
        match position(entries, key) {
            Some(i) => 0 <= i < entries.len() && entries[i].0 == key && (forall|j: int|
                0 <= j < i ==> (#[trigger] entries[j]).0 != key),
            None => forall|j: int| 0 <= j < entries.len() ==> (#[trigger] entries[j]).0 != key,
        },
    decreases entries.len(),
{
    if entries.len() > 0 && entries[0].0 != key {
        let rest = entries.skip(1);
        lemma_position(rest, key);
        assert forall|j: int|
            0 <= j < entries.len() && (position(rest, key) matches Some(i) ==> j <= i) implies (
        #[trigger] entries[j]).0 != key by {
            if j > 0 {
                assert(rest[j - 1] == entries[j]);
            }
        }
    }
}

/// A place where a key stands, with no such place before it, is its position.
pub proof fn lemma_position_is<V>(entries: Seq<(Seq<char>, V)>, key: Seq<char>, at: int)
    requires
        0 <= at < entries.len(),
        entries[at].0 == key,
        forall|j: int| 0 <= j < at ==> (#[trigger] entries[j]).0 != key,
    ensures
        position(entries, key) == Some(at),
{
    lemma_position(entries, key);
    if position(entries, key) is None {
        assert(entries[at].0 != key);
    }
}

/// What was inserted last is what is read, every other key reads as before,
/// no key stands twice, and a key that was there before keeps its place.
pub proof fn law_insert_then_read<V>(
    entries: Seq<(Seq<char>, V)>,
    key: Seq<char>,
    value: V,
    other: Seq<char>,
)
    ensures
        lookup(upsert(entries, key, value), key) == Some(value),
        other != key ==> lookup(upsert(entries, key, value), other) == lookup(entries, other),
        other != key ==> position(upsert(entries, key, value), other) == position(entries, other),
        has_key(entries, other) ==> position(upsert(entries, key, value), other) == position(
            entries,
            other,
        ),
        distinct_keys(entries) ==> distinct_keys(upsert(entries, key, value)),
{
    let after = upsert(entries, key, value);
    lemma_position(entries, key);
    lemma_position(entries, other);
    lemma_position(after, other);
    match position(entries, key) {
        Some(i) => {
            lemma_position_is(after, key, i);
        },
        None => {
            lemma_position_is(after, key, entries.len() as int);
        },
    }
    if other != key {
        match position(entries, other) {
            Some(j) => {
                assert(after[j] == entries[j]);
                assert forall|k: int| 0 <= k < j implies (#[trigger] after[k]).0 != other by {
                    if k < entries.len() {
                        let _ = entries[k];
                    }
                }
                lemma_position_is(after, other, j);
            },
            None => {
                if let Some(j) = position(after, other) {
                    if j < entries.len() {
                        assert(entries[j].0 == other);
                    }
                }
            },
        }
    }
}

/// An insertion touches one place: that of its key where the key is there, else
/// a new one at the end. All other entries stay as they are and where they are.
pub proof fn law_insert_touches_one_place<V>(
    entries: Seq<(Seq<char>, V)>,
    key: Seq<char>,
    value: V,
    i: int,
)
    ensures
        (forall|j: int| 0 <= j < entries.len() ==> (#[trigger] entries[j]).0 != key) ==> upsert(
            entries,
            key,
            value,
        ) == entries.push((key, value)),
        0 <= i < entries.len() && entries[i].0 == key && (forall|j: int|
            0 <= j < i ==> (#[trigger] entries[j]).0 != key) ==> upsert(entries, key, value)
            == entries.update(i, (key, value)),
{
    lemma_position(entries, key);
    if 0 <= i < entries.len() && entries[i].0 == key && (forall|j: int|
        0 <= j < i ==> (#[trigger] entries[j]).0 != key) {
        lemma_position_is(entries, key, i);
    }
    if forall|j: int| 0 <= j < entries.len() ==> (#[trigger] entries[j]).0 != key {
        if let Some(k) = position(entries, key) {
            assert(entries[k].0 == key);
        }
    }
}

/// What is read under a key is what its first entry holds, and nothing where no
/// entry has the key.
pub proof fn law_the_first_entry_is_read<V>(entries: Seq<(Seq<char>, V)>, key: Seq<char>, i: int)
    ensures
        0 <= i < entries.len() && entries[i].0 == key && (forall|j: int|
            0 <= j < i ==> (#[trigger] entries[j]).0 != key) ==> lookup(entries, key) == Some(
            entries[i].1,
        ),
        (forall|j: int| 0 <= j < entries.len() ==> (#[trigger] entries[j]).0 != key) ==> lookup(
            entries,
            key,
        ) is None,
{
    lemma_position(entries, key);
    if 0 <= i < entries.len() && entries[i].0 == key && (forall|j: int|
        0 <= j < i ==> (#[trigger] entries[j]).0 != key) {
        lemma_position_is(entries, key, i);
    }
    if forall|j: int| 0 <= j < entries.len() ==> (#[trigger] entries[j]).0 != key {
        if let Some(k) = position(entries, key) {
            assert(entries[k].0 == key);
        }
    }
}

} // verus!
