//! Insertion-ordered maps of strings.
use crate::entries::upsert;
use indexmap::IndexMap;
use vstd::prelude::*;

verus! {

/// `indexmap::IndexMap`: a map that keeps its keys in the order in which they
/// came.
#[verifier::external_type_specification]
#[verifier::external_body]
#[verifier::reject_recursive_types(K)]
#[verifier::reject_recursive_types(V)]
#[verifier::reject_recursive_types(S)]
pub struct ExIndexMap<K, V, S>(indexmap::IndexMap<K, V, S>);

/// What a map of strings holds, in order.
pub uninterp spec fn text_entries(m: IndexMap<String, String>) -> Seq<(Seq<char>, Seq<char>)>;

/// `IndexMap::new` makes a map without entries.
#[verifier::external_body]
pub(crate) fn text_map_new() -> (r: IndexMap<String, String>)
    ensures
        text_entries(r) == Seq::<(Seq<char>, Seq<char>)>::empty(),
{
    IndexMap::new()
}

/// `IndexMap::insert` puts a string under a key: in place where the key is
/// there already, else at the end.
#[verifier::external_body]
pub(crate) fn text_map_insert(m: &mut IndexMap<String, String>, key: String, value: String)
    ensures
        text_entries(*final(m)) == upsert(text_entries(*old(m)), key@, value@),
{
    m.insert(key, value);
}

/// `IndexMap::clone` copies the entries in their order.
#[verifier::external_body]
pub(crate) fn text_map_copy(m: &IndexMap<String, String>) -> (r: IndexMap<String, String>)
    ensures
        text_entries(r) == text_entries(*m),
{
    m.clone()
}

} // verus!
