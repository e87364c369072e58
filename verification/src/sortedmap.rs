//! Maps keyed by strings, walked in the order of their keys.
use crate::entries::{distinct_keys, has_key, lemma_position, lemma_position_is, lookup, position};
use crate::text::{chars_of, same, texts};
use vstd::prelude::*;

verus! {

// ---------------------------------------------------------------------
// The order of strings
// ---------------------------------------------------------------------

/// Dictionary order, character by character.
pub open spec fn precedes(a: Seq<char>, b: Seq<char>) -> bool
    decreases a.len(),
{
    if b.len() == 0 {
        false
    } else if a.len() == 0 {
        true
    } else if a[0] != b[0] {
        a[0] < b[0]
    } else {
        precedes(a.skip(1), b.skip(1))
    }
}

proof fn lemma_precedes_irreflexive(a: Seq<char>)
    ensures
        !precedes(a, a),
    decreases a.len(),
{
    if a.len() > 0 {
        lemma_precedes_irreflexive(a.skip(1));
    }
}

proof fn lemma_precedes_transitive(a: Seq<char>, b: Seq<char>, c: Seq<char>)
    requires
        precedes(a, b),
        precedes(b, c),
    ensures
        precedes(a, c),
    decreases a.len(),
{
    if a.len() > 0 && b.len() > 0 && c.len() > 0 && a[0] == b[0] && b[0] == c[0] {
        lemma_precedes_transitive(a.skip(1), b.skip(1), c.skip(1));
    }
}

proof fn lemma_precedes_total(a: Seq<char>, b: Seq<char>)
    ensures
        precedes(a, b) || precedes(b, a) || a == b,
    decreases a.len(),
{
    if a.len() == 0 || b.len() == 0 {
        if a.len() == 0 && b.len() == 0 {
            assert(a =~= b);
        }
    } else if a[0] == b[0] {
        lemma_precedes_total(a.skip(1), b.skip(1));
        if a.skip(1) == b.skip(1) {
            assert(a =~= seq![a[0]] + a.skip(1));
            assert(b =~= seq![b[0]] + b.skip(1));
        }
    }
}

/// Whether one string comes before another.
pub fn before(a: &str, b: &str) -> (r: bool)
    ensures
        r == precedes(a@, b@),
{
    let xs = chars_of(a);
    let ys = chars_of(b);
    let mut i: usize = 0;
    assert(a@.skip(0) =~= a@);
    assert(b@.skip(0) =~= b@);
    loop
        invariant
            xs@ == a@,
            ys@ == b@,
            i <= xs@.len(),
            i <= ys@.len(),
            precedes(a@, b@) == precedes(a@.skip(i as int), b@.skip(i as int)),
        decreases xs@.len() - i,
    {
        if i >= ys.len() {
            return false;
        }
        if i >= xs.len() {
            return true;
        }
        if xs[i] != ys[i] {
            return xs[i] < ys[i];
        }
        proof {
            assert(a@.skip(i as int).skip(1) =~= a@.skip(i + 1));
            assert(b@.skip(i as int).skip(1) =~= b@.skip(i + 1));
        }
        i += 1;
    }
}

// ---------------------------------------------------------------------
// The map
// ---------------------------------------------------------------------

/// Whether the keys of entries ascend strictly.
pub open spec fn sorted<V>(entries: Seq<(Seq<char>, V)>) -> bool {
    forall|i: int, j: int|
        0 <= i < j < entries.len() ==> precedes(
            (#[trigger] entries[i]).0,
            (#[trigger] entries[j]).0,
        )
}

/// The map that entries write down.
pub open spec fn as_map<V>(entries: Seq<(Seq<char>, V)>) -> Map<Seq<char>, V> {
    Map::new(|k: Seq<char>| has_key(entries, k), |k: Seq<char>| lookup(entries, k)->0)
}

/// The map holds what the entries hold.
pub proof fn lemma_as_map<V>(entries: Seq<(Seq<char>, V)>, x: Seq<char>)
    ensures
        as_map(entries).dom().contains(x) == has_key(entries, x),
        lookup(entries, x) == if has_key(entries, x) {
            Some(as_map(entries)[x])
        } else {
            None
        },
{
}

/// The entries of a map in the order of their keys.
pub open spec fn ordered<V>(m: Map<Seq<char>, V>) -> Seq<(Seq<char>, V)> {
    choose|entries: Seq<(Seq<char>, V)>| sorted(entries) && #[trigger] as_map(entries) == m
}

/// Whether ascending entries write down a map, as they do every finite one.
pub open spec fn has_order<V>(m: Map<Seq<char>, V>) -> bool {
    exists|entries: Seq<(Seq<char>, V)>| sorted(entries) && #[trigger] as_map(entries) == m
}

/// Only one sequence of ascending entries writes down a map.
pub proof fn law_order_is_unique<V>(a: Seq<(Seq<char>, V)>, b: Seq<(Seq<char>, V)>)
    requires
        sorted(a),
        sorted(b),
        as_map(a) == as_map(b),
    ensures
        a == b,
    decreases a.len(),
{
    if a.len() == 0 {
        if b.len() > 0 {
            lemma_sorted_position(b, 0);
            lemma_position(a, b[0].0);
            assert(as_map(b).dom().contains(b[0].0));
            assert(as_map(a).dom().contains(b[0].0));
        }
        assert(a =~= b);
    } else {
        let k = a[0].0;
        lemma_sorted_position(a, 0);
        assert(as_map(a).dom().contains(k));
        assert(as_map(b).dom().contains(k));
        lemma_position(b, k);
        let j = position(b, k)->0;
        let m = b[0].0;
        lemma_sorted_position(b, 0);
        assert(as_map(b).dom().contains(m));
        assert(as_map(a).dom().contains(m));
        lemma_position(a, m);
        let i = position(a, m)->0;
        assert(m == k) by {
            lemma_precedes_irreflexive(k);
            if j > 0 {
                assert(precedes(b[0].0, b[j].0));
                if i > 0 {
                    assert(precedes(a[0].0, a[i].0));
                    lemma_precedes_transitive(k, m, k);
                }
            }
        }
        assert(as_map(a)[k] == a[0].1 && as_map(b)[k] == b[0].1);
        let ra = a.skip(1);
        let rb = b.skip(1);
        assert(sorted(ra) && sorted(rb));
        assert forall|x: Seq<char>| has_key(ra, x) == has_key(rb, x) && lookup(ra, x) == lookup(
            rb,
            x,
        ) by {
            lemma_tail(a, x);
            lemma_tail(b, x);
            lemma_as_map(a, x);
            lemma_as_map(b, x);
        }
        assert(as_map(ra) =~= as_map(rb));
        law_order_is_unique(ra, rb);
        assert(a =~= seq![a[0]] + ra);
        assert(b =~= seq![b[0]] + rb);
    }
}

/// What the entries behind the first one hold.
proof fn lemma_tail<V>(entries: Seq<(Seq<char>, V)>, x: Seq<char>)
    requires
        sorted(entries),
        entries.len() > 0,
    ensures
        x == entries[0].0 ==> !has_key(entries.skip(1), x) && lookup(entries.skip(1), x) is None,
        x != entries[0].0 ==> has_key(entries.skip(1), x) == has_key(entries, x) && lookup(
            entries.skip(1),
            x,
        ) == lookup(entries, x),
{
    let rest = entries.skip(1);
    lemma_position(rest, x);
    if x == entries[0].0 {
        if let Some(i) = position(rest, x) {
            assert(rest[i] == entries[i + 1]);
            lemma_precedes_irreflexive(x);
        }
    }
}

/// Values under strings, in the order of the strings.
#[derive(Debug)]
pub struct SortedMap<T> {
    entries: Vec<(String, T)>,
}

spec fn views<T: DeepView>(entries: Seq<(String, T)>) -> Seq<(Seq<char>, T::V)> {
    entries.map_values(|e: (String, T)| (e.0@, e.1.deep_view()))
}

/// Whether the keys of stored entries ascend strictly.
spec fn keys_ascend<T>(entries: Seq<(String, T)>) -> bool {
    forall|i: int, j: int|
        0 <= i < j < entries.len() ==> precedes(
            (#[trigger] entries[i]).0@,
            (#[trigger] entries[j]).0@,
        )
}

impl<T> SortedMap<T> {
    #[verifier::type_invariant]
    spec fn wf(self) -> bool {
        keys_ascend(self.entries@)
    }
}

impl<T: DeepView> SortedMap<T> {
    /// The entries in the order of their keys.
    pub closed spec fn entries(&self) -> Seq<(Seq<char>, T::V)> {
        views(self.entries@)
    }
}

impl<T: DeepView> View for SortedMap<T> {
    type V = Map<Seq<char>, T::V>;

    open spec fn view(&self) -> Map<Seq<char>, T::V> {
        as_map(self.entries())
    }
}

/// Among ascending keys a key stands at one place only.
proof fn lemma_sorted_position<V>(entries: Seq<(Seq<char>, V)>, at: int)
    requires
        sorted(entries),
        0 <= at < entries.len(),
    ensures
        position(entries, entries[at].0) == Some(at),
{
    let key = entries[at].0;
    assert forall|j: int| 0 <= j < at implies (#[trigger] entries[j]).0 != key by {
        lemma_precedes_irreflexive(key);
    }
    lemma_position_is(entries, key, at);
}

/// Ascending keys are distinct.
pub proof fn lemma_sorted_distinct<V>(entries: Seq<(Seq<char>, V)>)
    requires
        sorted(entries),
    ensures
        distinct_keys(entries),
{
    assert forall|i: int, j: int| 0 <= i < j < entries.len() implies #[trigger] entries[i].0
        != #[trigger] entries[j].0 by {
        lemma_precedes_irreflexive(entries[i].0);
    }
}

/// Replacing the value of a key, or putting a new key at its place in the
/// order, inserts into the map.
proof fn lemma_insert<V>(
    old_entries: Seq<(Seq<char>, V)>,
    new_entries: Seq<(Seq<char>, V)>,
    at: int,
    key: Seq<char>,
    value: V,
)
    requires
        sorted(old_entries),
        sorted(new_entries),
        0 <= at < new_entries.len(),
        new_entries[at] == (key, value),
        ({
            ||| at < old_entries.len() && old_entries[at].0 == key && new_entries
                == old_entries.update(at, (key, value))
            ||| at <= old_entries.len() && new_entries == old_entries.insert(at, (key, value))
        }),
    ensures
        as_map(new_entries) == as_map(old_entries).insert(key, value),
{
    let replaced = at < old_entries.len() && old_entries[at].0 == key && new_entries
        == old_entries.update(at, (key, value));
    lemma_sorted_position(new_entries, at);
    assert forall|k: Seq<char>| k != key implies has_key(new_entries, k) == has_key(old_entries, k)
        && lookup(new_entries, k) == lookup(old_entries, k) by {
        lemma_position(new_entries, k);
        lemma_position(old_entries, k);
        if let Some(i) = position(old_entries, k) {
            let j = if replaced || i < at {
                i
            } else {
                i + 1
            };
            assert(new_entries[j] == old_entries[i]);
            lemma_sorted_position(new_entries, j);
        } else if let Some(j) = position(new_entries, k) {
            let i = if replaced || j < at {
                j
            } else {
                j - 1
            };
            assert(new_entries[j] == old_entries[i]);
        }
    }
    assert(as_map(new_entries) =~= as_map(old_entries).insert(key, value));
}

impl<T: DeepView> SortedMap<T> {
    /// A map without entries.
    pub fn new() -> (r: SortedMap<T>)
        ensures
            r.entries() == Seq::<(Seq<char>, T::V)>::empty(),
            r@ == Map::<Seq<char>, T::V>::empty(),
    {
        let r = SortedMap { entries: Vec::new() };
        assert(r@ =~= Map::<Seq<char>, T::V>::empty());
        r
    }

    /// How many entries there are.
    pub fn len(&self) -> (r: usize)
        ensures
            r == self.entries().len(),
            self.entries() == ordered(self@),
            has_order(self@),
    {
        proof {
            use_type_invariant(self);
            lemma_views_sorted(self.entries@);
            law_order_is_unique(self.entries(), ordered(self@));
        }
        self.entries.len()
    }

    /// The entry at a place in the order of the keys.
    pub fn at(&self, i: usize) -> (r: (&String, &T))
        requires
            i < self.entries().len(),
        ensures
            self.entries()[i as int] == (r.0@, r.1.deep_view()),
    {
        let e = &self.entries[i];
        (&e.0, &e.1)
    }

    /// The value under a key.
    pub fn get(&self, key: &str) -> (r: Option<&T>)
        ensures
            match r {
                Some(v) => self@.dom().contains(key@) && self@[key@] == v.deep_view(),
                None => !self@.dom().contains(key@),
            },
    {
        let n: usize = self.entries.len();
        let mut i: usize = 0;
        while i < n
            invariant
                n == self.entries@.len(),
                i <= n,
                forall|j: int| 0 <= j < i ==> (#[trigger] self.entries()[j]).0 != key@,
            decreases n - i,
        {
            if same(self.entries[i].0.as_str(), key) {
                proof {
                    assert(self.entries()[i as int].0 == key@);
                    lemma_position_is(self.entries(), key@, i as int);
                }
                return Some(&self.entries[i].1);
            }
            assert(self.entries()[i as int].0 == self.entries@[i as int].0@);
            i += 1;
        }
        proof {
            lemma_position(self.entries(), key@);
        }
        None
    }

    /// Puts a value under a key, in place of the one that was there.
    pub fn insert(&mut self, key: String, value: T)
        ensures
            final(self)@ == old(self)@.insert(key@, value.deep_view()),
    {
        proof {
            use_type_invariant(&*self);
        }
        let ghost first = self.entries@;
        let ghost k = key@;
        let ghost v = value.deep_view();
        let mut entries: Vec<(String, T)> = Vec::new();
        std::mem::swap(&mut entries, &mut self.entries);
        let n: usize = entries.len();
        let mut i: usize = 0;
        while i < n && before(entries[i].0.as_str(), key.as_str())
            invariant
                entries@ == first,
                n == first.len(),
                i <= n,
                forall|j: int| 0 <= j < i ==> precedes((#[trigger] first[j]).0@, key@),
            decreases n - i,
        {
            i += 1;
        }
        if i < n && same(entries[i].0.as_str(), key.as_str()) {
            entries.set(i, (key, value));
            assert(keys_ascend(entries@));
            assert(views(entries@) =~= views(first).update(i as int, (k, v)));
        } else {
            proof {
                assert forall|j: int| i <= j < n implies precedes(k, (#[trigger] first[j]).0@) by {
                    lemma_precedes_total(k, first[i as int].0@);
                    if j > i {
                        lemma_precedes_transitive(k, first[i as int].0@, first[j].0@);
                    }
                }
            }
            entries.insert(i, (key, value));
            assert(keys_ascend(entries@));
            assert(views(entries@) =~= views(first).insert(i as int, (k, v)));
        }
        proof {
            lemma_views_sorted(first);
            lemma_views_sorted(entries@);
            lemma_insert(views(first), views(entries@), i as int, k, v);
        }
        self.entries = entries;
    }
}

proof fn lemma_views_sorted<T: DeepView>(entries: Seq<(String, T)>)
    requires
        keys_ascend(entries),
    ensures
        sorted(views(entries)),
{
}

/// A copy of a list of strings.
pub fn copy_texts(items: &Vec<String>) -> (r: Vec<String>)
    ensures
        texts(r@) == texts(items@),
        r.deep_view() == items.deep_view(),
{
    let mut out: Vec<String> = Vec::new();
    let n: usize = items.len();
    let mut i: usize = 0;
    while i < n
        invariant
            n == items@.len(),
            i <= n,
            out@ == items@.take(i as int),
        decreases n - i,
    {
        out.push(items[i].clone());
        i += 1;
    }
    assert(out@ =~= items@);
    out
}

impl Clone for SortedMap<String> {
    fn clone(&self) -> (r: SortedMap<String>)
        ensures
            r.entries() == self.entries(),
            r@ == self@,
    {
        proof {
            use_type_invariant(self);
        }
        let mut out: Vec<(String, String)> = Vec::new();
        let n: usize = self.entries.len();
        let mut i: usize = 0;
        while i < n
            invariant
                n == self.entries@.len(),
                i <= n,
                out@.len() == i,
                forall|j: int| 0 <= j < i ==> (#[trigger] out@[j]).0@ == self.entries@[j].0@,
                views(out@) == views(self.entries@).take(i as int),
            decreases n - i,
        {
            let ghost before = views(out@);
            let e = &self.entries[i];
            out.push((e.0.clone(), e.1.clone()));
            i += 1;
            assert(views(out@) =~= before.push(views(self.entries@)[i - 1]));
        }
        assert(views(out@) =~= views(self.entries@));
        SortedMap { entries: out }
    }
}

impl Clone for SortedMap<Vec<String>> {
    fn clone(&self) -> (r: SortedMap<Vec<String>>)
        ensures
            r.entries() == self.entries(),
            r@ == self@,
    {
        proof {
            use_type_invariant(self);
        }
        let mut out: Vec<(String, Vec<String>)> = Vec::new();
        let n: usize = self.entries.len();
        let mut i: usize = 0;
        while i < n
            invariant
                n == self.entries@.len(),
                i <= n,
                out@.len() == i,
                forall|j: int| 0 <= j < i ==> (#[trigger] out@[j]).0@ == self.entries@[j].0@,
                views(out@) == views(self.entries@).take(i as int),
            decreases n - i,
        {
            let ghost before = views(out@);
            let e = &self.entries[i];
            out.push((e.0.clone(), copy_texts(&e.1)));
            i += 1;
            assert(views(out@) =~= before.push(views(self.entries@)[i - 1]));
        }
        assert(views(out@) =~= views(self.entries@));
        SortedMap { entries: out }
    }
}

/// Strings are ordered by their first difference: the smaller character decides,
/// and a string comes before what continues it.
pub proof fn law_the_first_difference_decides(
    p: Seq<char>,
    a: char,
    x: Seq<char>,
    b: char,
    y: Seq<char>,
)
    ensures
        a != b ==> (precedes(p + (seq![a] + x), p + (seq![b] + y)) <==> a < b),
        precedes(p, p + (seq![a] + x)),
        !precedes(p + (seq![a] + x), p),
        !precedes(p, p),
    decreases p.len(),
{
    let l = p + (seq![a] + x);
    let r = p + (seq![b] + y);
    if p.len() == 0 {
        assert(l[0] == a && r[0] == b);
    } else {
        assert(l[0] == p[0] && r[0] == p[0]);
        assert(l.skip(1) =~= p.skip(1) + (seq![a] + x));
        assert(r.skip(1) =~= p.skip(1) + (seq![b] + y));
        law_the_first_difference_decides(p.skip(1), a, x, b, y);
    }
}

} // verus!
