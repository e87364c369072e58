//! Attribute values, and the ordered maps that hold them.
use crate::entries::{lookup, upsert};
use crate::text::texts;
use indexmap::IndexMap;
use vstd::prelude::*;

verus! {

/// A pointer at an attribute of another resource.
#[derive(Debug)]
pub struct ResourceRef {
    pub type_id: String,
    pub name: String,
    pub attribute: String,
}

/// What a [`ResourceRef`] stands for.
pub struct ResourceRefView {
    pub type_id: Seq<char>,
    pub name: Seq<char>,
    pub attribute: Seq<char>,
}

impl View for ResourceRef {
    type V = ResourceRefView;

    open spec fn view(&self) -> ResourceRefView {
        ResourceRefView {
            type_id: self.type_id@,
            name: self.name@,
            attribute: self.attribute@,
        }
    }
}

/// A value of any shape that a form can write down.
#[derive(Debug)]
pub enum Datum {
    Null,
    Bool(bool),
    Int(i64),
    Str(String),
    Ref(ResourceRef),
    List(Vec<Datum>),
    Object(DatumMap),
}

/// What a [`Datum`] stands for.
pub enum DatumView {
    Null,
    Bool(bool),
    Int(i64),
    Str(Seq<char>),
    Ref(ResourceRefView),
    List(Seq<DatumView>),
    Object(Seq<(Seq<char>, DatumView)>),
}

/// Values under names, in the order in which the names came.
#[verifier::external_body]
#[derive(Debug)]
pub struct DatumMap {
    entries: IndexMap<String, Datum>,
}

/// What a [`DatumMap`] holds, in order.
pub uninterp spec fn value_entries(m: DatumMap) -> Seq<(Seq<char>, DatumView)>;

impl View for DatumMap {
    type V = Seq<(Seq<char>, DatumView)>;

    open spec fn view(&self) -> Seq<(Seq<char>, DatumView)> {
        value_entries(*self)
    }
}

/// The meaning of a value.
pub open spec fn value_view(v: Datum) -> DatumView
    decreases v,
{
    match v {
        Datum::Null => DatumView::Null,
        Datum::Bool(b) => DatumView::Bool(b),
        Datum::Int(n) => DatumView::Int(n),
        Datum::Str(s) => DatumView::Str(s@),
        Datum::Ref(r) => DatumView::Ref(r@),
        Datum::List(xs) => DatumView::List(
            Seq::new(
                xs@.len(),
                |i: int|
                    if 0 <= i < xs@.len() {
                        value_view(xs@[i])
                    } else {
                        arbitrary()
                    },
            ),
        ),
        Datum::Object(m) => DatumView::Object(value_entries(m)),
    }
}

impl View for Datum {
    type V = DatumView;

    open spec fn view(&self) -> DatumView {
        value_view(*self)
    }
}

/// The meanings of a run of values.
pub open spec fn value_views(vs: Seq<Datum>) -> Seq<DatumView> {
    vs.map_values(|v: Datum| v@)
}

/// A list stands for the list of what its items stand for.
pub proof fn lemma_value_list(vs: Vec<Datum>)
    ensures
        value_view(Datum::List(vs)) == DatumView::List(value_views(vs@)),
{
    assert(value_view(Datum::List(vs))->List_0 =~= value_views(vs@));
}

/// An optional value as what it stands for.
pub open spec fn option_value(v: Option<&Datum>) -> Option<DatumView> {
    match v {
        Some(x) => Some(x@),
        None => None,
    }
}

/// `IndexMap::new` makes a map without entries.
#[verifier::external_body]
fn value_map_new() -> (r: DatumMap)
    ensures
        value_entries(r) == Seq::<(Seq<char>, DatumView)>::empty(),
{
    DatumMap { entries: IndexMap::new() }
}

/// `IndexMap::insert` puts a value under a key: in place where the key is
/// there already, else at the end.
#[verifier::external_body]
fn value_map_insert(m: &mut DatumMap, key: String, value: Datum)
    ensures
        value_entries(*final(m)) == upsert(value_entries(*old(m)), key@, value@),
{
    m.entries.insert(key, value);
}

/// `IndexMap::get` gives the value under a key, and nothing for a key that is
/// not there.
#[verifier::external_body]
fn value_map_get<'a>(m: &'a DatumMap, key: &str) -> (r: Option<&'a Datum>)
    ensures
        option_value(r) == lookup(value_entries(*m), key@),
{
    m.entries.get(key)
}

/// `IndexMap::len` counts the entries.
#[verifier::external_body]
fn value_map_len(m: &DatumMap) -> (r: usize)
    ensures
        r == value_entries(*m).len(),
{
    m.entries.len()
}

/// `IndexMap::get_index` gives the entry at a place in the order, and nothing
/// past the last one.
#[verifier::external_body]
fn value_map_at(m: &DatumMap, at: usize) -> (r: Option<(&String, &Datum)>)
    ensures
        match r {
            Some((k, v)) => at < value_entries(*m).len() && value_entries(*m)[at as int] == (
                k@,
                v@,
            ),
            None => at >= value_entries(*m).len(),
        },
{
    m.entries.get_index(at)
}

impl DatumMap {
    /// A map without entries.
    pub fn new() -> (r: DatumMap)
        ensures
            r@ == Seq::<(Seq<char>, DatumView)>::empty(),
    {
        value_map_new()
    }

    /// Puts a value under a key.
    pub fn insert(&mut self, key: String, value: Datum)
        ensures
            final(self)@ == upsert(old(self)@, key@, value@),
    {
        value_map_insert(self, key, value)
    }

    /// The value under a key.
    pub fn get(&self, key: &str) -> (r: Option<&Datum>)
        ensures
            option_value(r) == lookup(self@, key@),
    {
        value_map_get(self, key)
    }

    /// How many entries there are.
    pub fn len(&self) -> (r: usize)
        ensures
            r == self@.len(),
    {
        value_map_len(self)
    }

    /// The entry at a place in the order.
    pub fn at(&self, at: usize) -> (r: Option<(&String, &Datum)>)
        ensures
            match r {
                Some((k, v)) => at < self@.len() && self@[at as int] == (k@, v@),
                None => at >= self@.len(),
            },
    {
        value_map_at(self, at)
    }
}

impl Datum {
    /// A list of strings.
    pub fn strings(items: &Vec<String>) -> (r: Datum)
        ensures
            r@ == strings_view(texts(items@)),
    {
        let mut out: Vec<Datum> = Vec::new();
        let n: usize = items.len();
        let mut i: usize = 0;
        while i < n
            invariant
                n == items@.len(),
                i <= n,
                value_views(out@) == strings_view(texts(items@))->List_0.take(i as int),
            decreases n - i,
        {
            let ghost before = value_views(out@);
            out.push(Datum::Str(items[i].clone()));
            i += 1;
            assert(value_views(out@) =~= before.push(DatumView::Str(texts(items@)[i - 1])));
        }
        proof {
            lemma_value_list(out);
            assert(value_views(out@) =~= strings_view(texts(items@))->List_0);
        }
        Datum::List(out)
    }
}

/// The list value made of texts.
pub open spec fn strings_view(items: Seq<Seq<char>>) -> DatumView {
    DatumView::List(items.map_values(|s: Seq<char>| DatumView::Str(s)))
}

} // verus!
