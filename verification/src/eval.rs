//! Evaluator for `deflava-architecture` forms.
//!
//! A source is read, its architecture form is picked out, the inputs are
//! bound, and every clause is evaluated under those bindings. The result is a
//! typed [`Architecture`].
use crate::arch::{
    multiplicity_view, provider_views, resource_views, Architecture, ArchitectureView, Multiplicity,
    MultiplicityView, ProviderRef, ProviderRefView, Resource, ResourceView,
};
use crate::datum::{
    lemma_value_list, strings_view, value_views, Datum, DatumMap, DatumView, ResourceRef,
    ResourceRefView,
};
use crate::entries::{distinct_keys, law_insert_then_read, lemma_position, lookup, upsert};
use crate::error::{EvalError, EvalErrorView};
use crate::forms::{
    clause_from, clause_view, find_clause, find_form, form_from, is_form, is_some_text, kw_at,
    law_siblings_hide_no_form, lemma_clause_found, list_at, nth, nth_kw, nth_list, nth_str, nth_sym,
    str_at, sym_at,
};
use crate::number::{decimal, usize_text};
use crate::sexpr::{lemma_list_view, parse_all, read_all, sx_views, Atom, AtomView, Sx, SxView};
use crate::sortedmap::{copy_texts, SortedMap};
use crate::template::{
    extract_full_var, full_var, interp, interpolated, law_type_id_has_no_dash, predicate,
    resolve_predicate, sym_to_type_id, type_id, Env, EnvView,
};
use crate::text::{glue, has_char, same, texts};
use vstd::prelude::*;

verus! {

/// Whether an evaluation gave what it is to give.
pub open spec fn gives(
    r: Result<Datum, EvalError>,
    want: Result<DatumView, EvalErrorView>,
) -> bool {
    match r {
        Ok(v) => want == Ok::<DatumView, EvalErrorView>(v@),
        Err(e) => want == Err::<DatumView, EvalErrorView>(e@),
    }
}

// ---------------------------------------------------------------------
// Values
// ---------------------------------------------------------------------

/// The value of a string: the list that `{name}` names, else its interpolation.
pub open spec fn str_value(raw: Seq<char>, env: EnvView) -> Result<DatumView, EvalErrorView> {
    match full_var(raw) {
        Some(name) if env.list(name) is Some => Ok(strings_view(env.list(name)->0)),
        _ => match interpolated(raw, env) {
            Ok(s) => Ok(DatumView::Str(s)),
            Err(e) => Err(e),
        },
    }
}

/// The value of a symbol: the string that it names, else the list.
pub open spec fn sym_value(name: Seq<char>, env: EnvView) -> Result<DatumView, EvalErrorView> {
    match env.get(name) {
        Some(s) => Ok(DatumView::Str(s)),
        None => match env.list(name) {
            Some(items) => Ok(strings_view(items)),
            None => Err(EvalErrorView::UnknownVar(name)),
        },
    }
}

/// The value of `(ref type "name" attribute)`.
pub open spec fn ref_value(items: Seq<SxView>, env: EnvView) -> Result<DatumView, EvalErrorView> {
    match (nth_sym(items, 1), nth_str(items, 2), nth_sym(items, 3)) {
        (None, _, _) => Err(EvalErrorView::BadRef("type"@)),
        (_, None, _) => Err(EvalErrorView::BadRef("name"@)),
        (_, _, None) => Err(EvalErrorView::BadRef("attr"@)),
        (Some(t), Some(raw), Some(attribute)) => match interpolated(raw, env) {
            Ok(name) => Ok(
                DatumView::Ref(ResourceRefView { type_id: type_id(t), name, attribute }),
            ),
            Err(e) => Err(e),
        },
    }
}

/// Whether keywords and values alternate from `i` on, up to a last value.
pub open spec fn alternates(items: Seq<SxView>, i: int) -> bool
    decreases items.len() - i,
{
    if i < 0 || i >= items.len() {
        true
    } else {
        items[i].as_kw() is Some && i + 1 < items.len() && alternates(items, i + 2)
    }
}

/// Whether a list is a reference rather than a tag pair: `ref` heads both, and
/// the type of a reference is a symbol.
pub open spec fn is_reference(p: Seq<SxView>) -> bool {
    nth_sym(p, 0) == Some("ref"@) && nth_sym(p, 1) is Some
}

/// Whether a list starts like tag pairs: with a list that a symbol heads, and
/// that is no reference.
pub open spec fn starts_tagged(items: Seq<SxView>) -> bool {
    match nth_list(items, 0) {
        Some(p) => nth_sym(p, 0) is Some && !is_reference(p),
        None => false,
    }
}

/// Adds the tag pairs `(Key "value")` from `i` on to a map.
pub open spec fn tags_from(
    items: Seq<SxView>,
    i: int,
    acc: Seq<(Seq<char>, DatumView)>,
    env: EnvView,
) -> Result<Seq<(Seq<char>, DatumView)>, EvalErrorView>
    decreases items.len() - i,
{
    if i < 0 || i >= items.len() {
        Ok(acc)
    } else {
        match items[i].as_list() {
            None => Err(EvalErrorView::Type("tag pair list"@)),
            Some(p) => match (nth_sym(p, 0), nth_str(p, 1)) {
                (None, _) => Err(EvalErrorView::Type("tag key sym"@)),
                (_, None) => Err(EvalErrorView::Type("tag val str"@)),
                (Some(k), Some(raw)) => match interpolated(raw, env) {
                    Err(e) => Err(e),
                    Ok(v) => tags_from(items, i + 1, upsert(acc, k, DatumView::Str(v)), env),
                },
            },
        }
    }
}

/// The value of a form.
///
/// A list is a reference, a keyword map, a map of tag pairs or an array,
/// whichever it starts like; arrays and keyword maps nest to any depth.
pub open spec fn value_of(s: SxView, env: EnvView) -> Result<DatumView, EvalErrorView>
    decreases s, 0int,
{
    match s {
        SxView::Atom(AtomView::Str(raw)) => str_value(raw, env),
        SxView::Atom(AtomView::Sym(name)) => sym_value(name, env),
        SxView::Atom(AtomView::Bool(b)) => Ok(DatumView::Bool(b)),
        SxView::Atom(AtomView::Int(n)) => Ok(DatumView::Int(n)),
        SxView::Atom(AtomView::Kw(_)) => Err(EvalErrorView::Type("value (not kw)"@)),
        SxView::List(items) => if nth_sym(items, 0) == Some("ref"@) {
            ref_value(items, env)
        } else if nth_kw(items, 0) is Some {
            if alternates(items, 0) {
                match pairs_from(items, 0, Seq::empty(), env) {
                    Ok(m) => Ok(DatumView::Object(m)),
                    Err(e) => Err(e),
                }
            } else {
                Err(EvalErrorView::Type("tag pair list"@))
            }
        } else if starts_tagged(items) {
            match tags_from(items, 0, Seq::empty(), env) {
                Ok(m) => Ok(DatumView::Object(m)),
                Err(e) => Err(e),
            }
        } else {
            match values_from(items, 0, Seq::empty(), env) {
                Ok(vs) => Ok(DatumView::List(vs)),
                Err(e) => Err(e),
            }
        },
    }
}

/// Adds the values of the forms from `i` on to a list.
pub open spec fn values_from(
    items: Seq<SxView>,
    i: int,
    acc: Seq<DatumView>,
    env: EnvView,
) -> Result<Seq<DatumView>, EvalErrorView>
    decreases items, items.len() - i,
{
    if i < 0 || i >= items.len() {
        Ok(acc)
    } else {
        match value_of(items[i], env) {
            Ok(v) => values_from(items, i + 1, acc.push(v), env),
            Err(e) => Err(e),
        }
    }
}

/// Adds the keyword pairs from `i` on to a map, under the keywords as written.
pub open spec fn pairs_from(
    items: Seq<SxView>,
    i: int,
    acc: Seq<(Seq<char>, DatumView)>,
    env: EnvView,
) -> Result<Seq<(Seq<char>, DatumView)>, EvalErrorView>
    decreases items, items.len() - i,
{
    if i < 0 || i + 1 >= items.len() {
        Ok(acc)
    } else {
        match value_of(items[i + 1], env) {
            Ok(v) => pairs_from(items, i + 2, upsert(acc, nth_kw(items, i)->0, v), env),
            Err(e) => Err(e),
        }
    }
}

/// Evaluates a string.
fn eval_str(raw: &str, env: &Env) -> (r: Result<Datum, EvalError>)
    ensures
        gives(r, str_value(raw@, env@)),
{
    if let Some(name) = extract_full_var(raw) {
        if let Some(items) = env.lists.get(name.as_str()) {
            assert(items.deep_view() =~= texts(items@));
            return Ok(Datum::strings(items));
        }
    }
    match interp(raw, env) {
        Ok(s) => Ok(Datum::Str(s)),
        Err(e) => Err(e),
    }
}

/// Evaluates a symbol.
fn eval_sym(name: &str, env: &Env) -> (r: Result<Datum, EvalError>)
    ensures
        gives(r, sym_value(name@, env@)),
{
    if let Ok(s) = env.get(name) {
        return Ok(Datum::Str(s));
    }
    if let Some(items) = env.lists.get(name) {
        assert(items.deep_view() =~= texts(items@));
        return Ok(Datum::strings(items));
    }
    Err(EvalError::UnknownVar(name.to_owned()))
}

/// Evaluates a reference form.
fn eval_ref(items: &[Sx], env: &Env) -> (r: Result<Datum, EvalError>)
    ensures
        gives(r, ref_value(sx_views(items@), env@)),
{
    let t = match sym_at(items, 1) {
        Some(t) => t,
        None => {
            return Err(EvalError::BadRef("type".to_owned()));
        },
    };
    let raw = match str_at(items, 2) {
        Some(raw) => raw,
        None => {
            return Err(EvalError::BadRef("name".to_owned()));
        },
    };
    let attribute = match sym_at(items, 3) {
        Some(attribute) => attribute,
        None => {
            return Err(EvalError::BadRef("attr".to_owned()));
        },
    };
    match interp(raw, env) {
        Ok(name) => Ok(
            Datum::Ref(
                ResourceRef { type_id: sym_to_type_id(t), name, attribute: attribute.to_owned() },
            ),
        ),
        Err(e) => Err(e),
    }
}

/// Whether keywords and values alternate, up to a last value.
fn is_plist(items: &[Sx]) -> (r: bool)
    ensures
        r == alternates(sx_views(items@), 0),
{
    let n: usize = items.len();
    let mut i: usize = 0;
    while i < n
        invariant
            n == items@.len(),
            i <= n,
            alternates(sx_views(items@), i as int) == alternates(sx_views(items@), 0),
        decreases n - i,
    {
        if items[i].as_kw().is_none() || i + 1 >= n {
            return false;
        }
        i += 2;
    }
    true
}

/// Evaluates tag pairs.
fn eval_tags(items: &[Sx], env: &Env) -> (r: Result<DatumMap, EvalError>)
    ensures
        match r {
            Ok(m) => tags_from(sx_views(items@), 0, Seq::empty(), env@) == Ok::<
                Seq<(Seq<char>, DatumView)>,
                EvalErrorView,
            >(m@),
            Err(e) => tags_from(sx_views(items@), 0, Seq::empty(), env@) == Err::<
                Seq<(Seq<char>, DatumView)>,
                EvalErrorView,
            >(e@),
        },
{
    let n: usize = items.len();
    let mut m = DatumMap::new();
    let mut i: usize = 0;
    while i < n
        invariant
            n == items@.len(),
            i <= n,
            tags_from(sx_views(items@), i as int, m@, env@) == tags_from(
                sx_views(items@),
                0,
                Seq::empty(),
                env@,
            ),
        decreases n - i,
    {
        let p = match list_at(items, i) {
            Some(p) => p,
            None => {
                return Err(EvalError::Type("tag pair list"));
            },
        };
        let k = match sym_at(p, 0) {
            Some(k) => k,
            None => {
                return Err(EvalError::Type("tag key sym"));
            },
        };
        let raw = match str_at(p, 1) {
            Some(raw) => raw,
            None => {
                return Err(EvalError::Type("tag val str"));
            },
        };
        match interp(raw, env) {
            Ok(v) => {
                m.insert(k.to_owned(), Datum::Str(v));
            },
            Err(e) => {
                return Err(e);
            },
        }
        i += 1;
    }
    Ok(m)
}

/// Whether a list starts like tag pairs.
fn is_tagged(items: &[Sx]) -> (r: bool)
    ensures
        r == starts_tagged(sx_views(items@)),
{
    match list_at(items, 0) {
        Some(p) => match sym_at(p, 0) {
            Some(head) => !same(head, "ref") || sym_at(p, 1).is_none(),
            None => false,
        },
        None => false,
    }
}

/// Evaluates the keyword pairs of a list.
fn eval_pairs(items: &Vec<Sx>, env: &Env) -> (r: Result<DatumMap, EvalError>)
    requires
        alternates(sx_views(items@), 0),
    ensures
        match r {
            Ok(m) => pairs_from(sx_views(items@), 0, Seq::empty(), env@) == Ok::<
                Seq<(Seq<char>, DatumView)>,
                EvalErrorView,
            >(m@),
            Err(e) => pairs_from(sx_views(items@), 0, Seq::empty(), env@) == Err::<
                Seq<(Seq<char>, DatumView)>,
                EvalErrorView,
            >(e@),
        },
    decreases items,
{
    let ghost xs = sx_views(items@);
    let n: usize = items.len();
    let mut m = DatumMap::new();
    let mut i: usize = 0;
    while i < n
        invariant
            n == items@.len(),
            i <= n,
            xs == sx_views(items@),
            alternates(xs, i as int),
            pairs_from(xs, i as int, m@, env@) == pairs_from(xs, 0, Seq::empty(), env@),
        decreases n - i,
    {
        let v = match eval_value(&items[i + 1], env) {
            Ok(v) => v,
            Err(e) => {
                return Err(e);
            },
        };
        if let Some(k) = kw_at(items.as_slice(), i) {
            m.insert(k.to_owned(), v);
        }
        i += 2;
    }
    Ok(m)
}

/// Evaluates the items of a list.
fn eval_values(items: &Vec<Sx>, env: &Env) -> (r: Result<Vec<Datum>, EvalError>)
    ensures
        match r {
            Ok(vs) => values_from(sx_views(items@), 0, Seq::empty(), env@) == Ok::<
                Seq<DatumView>,
                EvalErrorView,
            >(value_views(vs@)),
            Err(e) => values_from(sx_views(items@), 0, Seq::empty(), env@) == Err::<
                Seq<DatumView>,
                EvalErrorView,
            >(e@),
        },
    decreases items,
{
    let ghost xs = sx_views(items@);
    let n: usize = items.len();
    let mut out: Vec<Datum> = Vec::new();
    let mut i: usize = 0;
    assert(value_views(out@) =~= Seq::empty());
    while i < n
        invariant
            n == items@.len(),
            i <= n,
            xs == sx_views(items@),
            values_from(xs, i as int, value_views(out@), env@) == values_from(
                xs,
                0,
                Seq::empty(),
                env@,
            ),
        decreases n - i,
    {
        let ghost before = value_views(out@);
        match eval_value(&items[i], env) {
            Ok(v) => {
                let ghost w = v@;
                out.push(v);
                assert(value_views(out@) =~= before.push(w));
            },
            Err(e) => {
                return Err(e);
            },
        }
        i += 1;
    }
    Ok(out)
}

/// Evaluates a form to its value.
pub fn eval_value(s: &Sx, env: &Env) -> (r: Result<Datum, EvalError>)
    ensures
        gives(r, value_of(s@, env@)),
    decreases s,
{
    match s {
        Sx::Atom(Atom::Str(raw)) => eval_str(raw.as_str(), env),
        Sx::Atom(Atom::Sym(name)) => eval_sym(name.as_str(), env),
        Sx::Atom(Atom::Bool(b)) => Ok(Datum::Bool(*b)),
        Sx::Atom(Atom::Int(n)) => Ok(Datum::Int(*n)),
        Sx::Atom(Atom::Kw(_)) => Err(EvalError::Type("value (not kw)")),
        Sx::List(items) => {
            proof {
                lemma_list_view(*items);
            }
            if is_some_text(sym_at(items.as_slice(), 0), "ref") {
                return eval_ref(items.as_slice(), env);
            }
            if kw_at(items.as_slice(), 0).is_some() {
                if !is_plist(items.as_slice()) {
                    return Err(EvalError::Type("tag pair list"));
                }
                return match eval_pairs(items, env) {
                    Ok(m) => Ok(Datum::Object(m)),
                    Err(e) => Err(e),
                };
            }
            if is_tagged(items.as_slice()) {
                return match eval_tags(items.as_slice(), env) {
                    Ok(m) => Ok(Datum::Object(m)),
                    Err(e) => Err(e),
                };
            }
            match eval_values(items, env) {
                Ok(out) => {
                    proof {
                        lemma_value_list(out);
                    }
                    Ok(Datum::List(out))
                },
                Err(e) => Err(e),
            }
        },
    }
}

// ---------------------------------------------------------------------
// Resources
// ---------------------------------------------------------------------

/// Adds the pairs of a `:for-each` clause from `j` on to a map.
pub open spec fn each_from(
    items: Seq<SxView>,
    j: int,
    acc: Seq<(Seq<char>, DatumView)>,
    env: EnvView,
) -> Result<Seq<(Seq<char>, DatumView)>, EvalErrorView>
    decreases items.len() - j,
{
    if j < 0 || j + 1 >= items.len() {
        Ok(acc)
    } else {
        match each_key(items[j]) {
            None => Err(EvalErrorView::Type(":for-each key not :kw|str"@)),
            Some(k) => match value_of(items[j + 1], env) {
                Ok(v) => each_from(items, j + 2, upsert(acc, k, v), env),
                Err(e) => Err(e),
            },
        }
    }
}

/// The key of a `:for-each` pair: a keyword or a string.
pub open spec fn each_key(x: SxView) -> Option<Seq<char>> {
    match x.as_kw() {
        Some(k) => Some(k),
        None => x.as_str(),
    }
}

/// What the clauses of a resource say.
pub struct ResourceParts {
    pub attributes: Seq<(Seq<char>, DatumView)>,
    pub multiplicity: Option<MultiplicityView>,
    pub emit: bool,
}

/// What the clauses of a resource from `i` on add to what came before them.
pub open spec fn parts_from(xs: Seq<SxView>, i: int, p: ResourceParts, env: EnvView) -> Result<
    ResourceParts,
    EvalErrorView,
>
    decreases xs.len() - i,
{
    if i < 0 || i + 1 >= xs.len() {
        Ok(p)
    } else {
        match xs[i].as_kw() {
            None => Err(EvalErrorView::NotArchForm("attr key not :kw"@)),
            Some(k) => if k == "when"@ {
                match predicate(xs[i + 1], env) {
                    Ok(emit) => parts_from(xs, i + 2, ResourceParts { emit, ..p }, env),
                    Err(e) => Err(e),
                }
            } else if k == "count"@ {
                match xs[i + 1].as_int() {
                    Some(n) => parts_from(
                        xs,
                        i + 2,
                        ResourceParts { multiplicity: Some(MultiplicityView::Count(n)), ..p },
                        env,
                    ),
                    None => Err(EvalErrorView::Type(":count expects integer"@)),
                }
            } else if k == "for-each"@ {
                match xs[i + 1].as_list() {
                    None => Err(EvalErrorView::Type(":for-each expects key/value pair list"@)),
                    Some(items) => match each_from(items, 0, Seq::empty(), env) {
                        Ok(m) => parts_from(
                            xs,
                            i + 2,
                            ResourceParts { multiplicity: Some(MultiplicityView::ForEach(m)), ..p },
                            env,
                        ),
                        Err(e) => Err(e),
                    },
                }
            } else {
                match value_of(xs[i + 1], env) {
                    Ok(v) => parts_from(
                        xs,
                        i + 2,
                        ResourceParts { attributes: upsert(p.attributes, type_id(k), v), ..p },
                        env,
                    ),
                    Err(e) => Err(e),
                }
            },
        }
    }
}

/// A resource before its clauses are read.
pub open spec fn no_parts() -> ResourceParts {
    ResourceParts { attributes: Seq::empty(), multiplicity: None, emit: true }
}

/// The resource that a form `(type "name" :attr value …)` declares, or nothing
/// where its `:when` is false.
pub open spec fn resource_of(r: SxView, env: EnvView) -> Result<
    Option<ResourceView>,
    EvalErrorView,
> {
    match r.as_list() {
        None => Err(EvalErrorView::NotArchForm("resource not a list"@)),
        Some(xs) => match (nth_sym(xs, 0), nth_str(xs, 1)) {
            (None, _) => Err(EvalErrorView::NotArchForm("resource head not sym"@)),
            (_, None) => Err(EvalErrorView::NotArchForm("resource name not string"@)),
            (Some(head), Some(raw)) => match interpolated(raw, env) {
                Err(e) => Err(e),
                Ok(name) => match parts_from(xs, 2, no_parts(), env) {
                    Err(e) => Err(e),
                    Ok(p) => if p.emit {
                        Ok(
                            Some(
                                ResourceView {
                                    type_id: type_id(head),
                                    name,
                                    attributes: p.attributes,
                                    depends_on: Seq::empty(),
                                    provider: None,
                                    multiplicity: p.multiplicity,
                                },
                            ),
                        )
                    } else {
                        Ok(None)
                    },
                },
            },
        },
    }
}

/// Evaluates the pairs of a `:for-each` clause.
fn eval_each(items: &[Sx], env: &Env) -> (r: Result<DatumMap, EvalError>)
    ensures
        match r {
            Ok(m) => each_from(sx_views(items@), 0, Seq::empty(), env@) == Ok::<
                Seq<(Seq<char>, DatumView)>,
                EvalErrorView,
            >(m@),
            Err(e) => each_from(sx_views(items@), 0, Seq::empty(), env@) == Err::<
                Seq<(Seq<char>, DatumView)>,
                EvalErrorView,
            >(e@),
        },
{
    let n: usize = items.len();
    let mut m = DatumMap::new();
    let mut j: usize = 0;
    while n - j > 1
        invariant
            n == items@.len(),
            j <= n,
            each_from(sx_views(items@), j as int, m@, env@) == each_from(
                sx_views(items@),
                0,
                Seq::empty(),
                env@,
            ),
        decreases n - j,
    {
        let key = match items[j].as_kw() {
            Some(k) => k,
            None => match items[j].as_str() {
                Some(k) => k,
                None => {
                    return Err(EvalError::Type(":for-each key not :kw|str"));
                },
            },
        };
        let v = match eval_value(&items[j + 1], env) {
            Ok(v) => v,
            Err(e) => {
                return Err(e);
            },
        };
        m.insert(key.to_owned(), v);
        j += 2;
    }
    Ok(m)
}

/// Whether a resource evaluation gave what it is to give.
pub open spec fn gives_resource(
    r: Result<Option<Resource>, EvalError>,
    want: Result<Option<ResourceView>, EvalErrorView>,
) -> bool {
    match r {
        Ok(Some(x)) => want == Ok::<Option<ResourceView>, EvalErrorView>(Some(x@)),
        Ok(None) => want == Ok::<Option<ResourceView>, EvalErrorView>(None),
        Err(e) => want == Err::<Option<ResourceView>, EvalErrorView>(e@),
    }
}

/// Builds the resource that a form declares, for `:resources` and `:data`
/// alike. Where its `:when` is false there is none.
pub fn build_resource(r: &Sx, env: &Env) -> (res: Result<Option<Resource>, EvalError>)
    ensures
        gives_resource(res, resource_of(r@, env@)),
{
    let xs = match r.as_list() {
        Some(xs) => xs,
        None => {
            return Err(EvalError::NotArchForm("resource not a list".to_owned()));
        },
    };
    let head = match sym_at(xs, 0) {
        Some(head) => head,
        None => {
            return Err(EvalError::NotArchForm("resource head not sym".to_owned()));
        },
    };
    let raw = match str_at(xs, 1) {
        Some(raw) => raw,
        None => {
            return Err(EvalError::NotArchForm("resource name not string".to_owned()));
        },
    };
    let name = match interp(raw, env) {
        Ok(name) => name,
        Err(e) => {
            return Err(e);
        },
    };
    let ghost items = sx_views(xs@);
    let ghost want = parts_from(items, 2, no_parts(), env@);
    let mut attributes = DatumMap::new();
    let mut multiplicity: Option<Multiplicity> = None;
    let mut emit = true;
    let n: usize = xs.len();
    let mut i: usize = 2;
    assert(multiplicity_view(multiplicity) is None);
    while i < n && n - i > 1
        invariant
            n == xs@.len(),
            items == sx_views(xs@),
            r@.as_list() == Some(items),
            nth_sym(items, 0) is Some,
            nth_str(items, 1) matches Some(t) && interpolated(t, env@) is Ok,
            want == parts_from(items, 2, no_parts(), env@),
            want == parts_from(
                items,
                i as int,
                ResourceParts {
                    attributes: attributes@,
                    multiplicity: multiplicity_view(multiplicity),
                    emit,
                },
                env@,
            ),
        decreases n - i,
    {
        let key = match xs[i].as_kw() {
            Some(key) => key,
            None => {
                return Err(EvalError::NotArchForm("attr key not :kw".to_owned()));
            },
        };
        let v = &xs[i + 1];
        if same(key, "when") {
            match resolve_predicate(v, env) {
                Ok(b) => {
                    emit = b;
                },
                Err(e) => {
                    return Err(e);
                },
            }
        } else if same(key, "count") {
            match v.as_int() {
                Some(c) => {
                    multiplicity = Some(Multiplicity::Count(c));
                },
                None => {
                    return Err(EvalError::Type(":count expects integer"));
                },
            }
        } else if same(key, "for-each") {
            let pairs = match v.as_list() {
                Some(pairs) => pairs,
                None => {
                    return Err(EvalError::Type(":for-each expects key/value pair list"));
                },
            };
            match eval_each(pairs, env) {
                Ok(m) => {
                    multiplicity = Some(Multiplicity::ForEach(m));
                },
                Err(e) => {
                    return Err(e);
                },
            }
        } else {
            match eval_value(v, env) {
                Ok(value) => {
                    attributes.insert(sym_to_type_id(key), value);
                },
                Err(e) => {
                    return Err(e);
                },
            }
        }
        i += 2;
    }
    if !emit {
        return Ok(None);
    }
    let out = Resource {
        type_id: sym_to_type_id(head),
        name,
        attributes,
        depends_on: Vec::new(),
        provider: None,
        multiplicity,
    };
    assert(out@.depends_on =~= Seq::empty());
    Ok(Some(out))
}

// ---------------------------------------------------------------------
// Providers
// ---------------------------------------------------------------------

/// What the clauses of a provider from `i` on add to what came before them.
pub open spec fn provider_from(xs: Seq<SxView>, i: int, p: ProviderRefView, env: EnvView) -> Result<
    ProviderRefView,
    EvalErrorView,
>
    decreases xs.len() - i,
{
    if i < 0 || i + 1 >= xs.len() {
        Ok(p)
    } else {
        match xs[i].as_kw() {
            None => Err(EvalErrorView::NotArchForm("provider attr key not :kw"@)),
            Some(k) => if k == "alias"@ {
                provider_from(
                    xs,
                    i + 2,
                    ProviderRefView { alias: xs[i + 1].as_str(), ..p },
                    env,
                )
            } else if k == "source"@ {
                match xs[i + 1].as_str() {
                    Some(source) => provider_from(
                        xs,
                        i + 2,
                        ProviderRefView { source, ..p },
                        env,
                    ),
                    None => provider_from(xs, i + 2, p, env),
                }
            } else {
                match value_of(xs[i + 1], env) {
                    Ok(v) => provider_from(
                        xs,
                        i + 2,
                        ProviderRefView { config: upsert(p.config, type_id(k), v), ..p },
                        env,
                    ),
                    Err(e) => Err(e),
                }
            },
        }
    }
}

/// The provider that a form `(name :alias "…" :source "…" :key value …)`
/// declares.
pub open spec fn provider_of(p: SxView, env: EnvView) -> Result<ProviderRefView, EvalErrorView> {
    match p.as_list() {
        None => Err(EvalErrorView::NotArchForm("provider not a list"@)),
        Some(xs) => match nth_sym(xs, 0) {
            None => Err(EvalErrorView::NotArchForm("provider head not sym"@)),
            Some(name) => provider_from(
                xs,
                1,
                ProviderRefView {
                    source: "hashicorp/"@ + name,
                    name,
                    alias: None,
                    config: Seq::empty(),
                },
                env,
            ),
        },
    }
}

/// Builds the provider that a form declares.
pub fn build_provider(p: &Sx, env: &Env) -> (r: Result<ProviderRef, EvalError>)
    ensures
        match r {
            Ok(x) => provider_of(p@, env@) == Ok::<ProviderRefView, EvalErrorView>(x@),
            Err(e) => provider_of(p@, env@) == Err::<ProviderRefView, EvalErrorView>(e@),
        },
{
    let xs = match p.as_list() {
        Some(xs) => xs,
        None => {
            return Err(EvalError::NotArchForm("provider not a list".to_owned()));
        },
    };
    let head = match sym_at(xs, 0) {
        Some(head) => head,
        None => {
            return Err(EvalError::NotArchForm("provider head not sym".to_owned()));
        },
    };
    let ghost items = sx_views(xs@);
    let mut out = ProviderRef {
        source: glue("hashicorp/", head),
        name: head.to_owned(),
        alias: None,
        config: DatumMap::new(),
    };
    let n: usize = xs.len();
    let mut i: usize = 1;
    while i < n && n - i > 1
        invariant
            n == xs@.len(),
            items == sx_views(xs@),
            provider_of(p@, env@) == provider_from(items, i as int, out@, env@),
        decreases n - i,
    {
        let key = match xs[i].as_kw() {
            Some(key) => key,
            None => {
                return Err(EvalError::NotArchForm("provider attr key not :kw".to_owned()));
            },
        };
        let v = &xs[i + 1];
        if same(key, "alias") {
            out.alias = match v.as_str() {
                Some(s) => Some(s.to_owned()),
                None => None,
            };
        } else if same(key, "source") {
            if let Some(s) = v.as_str() {
                out.source = s.to_owned();
            }
        } else {
            match eval_value(v, env) {
                Ok(value) => {
                    out.config.insert(sym_to_type_id(key), value);
                },
                Err(e) => {
                    return Err(e);
                },
            }
        }
        i += 2;
    }
    Ok(out)
}

// ---------------------------------------------------------------------
// Loops
// ---------------------------------------------------------------------

/// The variables of a loop, and the list that it runs over.
pub struct LoopHead {
    pub index: Seq<char>,
    pub item: Seq<char>,
    pub items: Seq<Seq<char>>,
}

/// The head of `(for-each ((index item) (enumerate list)) body)`.
pub open spec fn loop_head(xs: Seq<SxView>, env: EnvView) -> Result<LoopHead, EvalErrorView> {
    match nth_list(xs, 1) {
        None => Err(EvalErrorView::NotArchForm("for-each binding"@)),
        Some(binding) => match (nth_list(binding, 0), nth_list(binding, 1)) {
            (None, _) => Err(EvalErrorView::NotArchForm("for-each vars"@)),
            (_, None) => Err(EvalErrorView::NotArchForm("for-each iter"@)),
            (Some(vars), Some(iter)) => if nth_sym(iter, 0) != Some("enumerate"@) {
                Err(EvalErrorView::NotArchForm("for-each iter != enumerate"@))
            } else {
                match nth_sym(iter, 1) {
                    None => Err(EvalErrorView::NotArchForm("enumerate source"@)),
                    Some(source) => match env.list(source) {
                        None => Err(EvalErrorView::UnknownVar(source)),
                        Some(items) => if nth(xs, 2) is None {
                            Err(EvalErrorView::NotArchForm("for-each body"@))
                        } else {
                            Ok(
                                LoopHead {
                                    index: or_text(nth_sym(vars, 0), "i"@),
                                    item: or_text(nth_sym(vars, 1), "item"@),
                                    items,
                                },
                            )
                        },
                    },
                }
            },
        },
    }
}

/// An optional text, or another where there is none.
pub open spec fn or_text(s: Option<Seq<char>>, other: Seq<char>) -> Seq<char> {
    match s {
        Some(t) => t,
        None => other,
    }
}

/// The bindings in round `k` of a loop.
pub open spec fn round_env(head: LoopHead, k: int, env: EnvView) -> EnvView {
    env.with_loop(head.index, decimal(k as nat)).with_loop(head.item, head.items[k])
}

/// The resources of an architecture with those that a form adds: one at most
/// for a plain resource, and those of its body in every round for a loop.
pub open spec fn resources_of(r: SxView, env: EnvView, acc: Seq<ResourceView>) -> Result<
    Seq<ResourceView>,
    EvalErrorView,
>
    decreases r, 0int,
{
    match r {
        SxView::Atom(_) => Err(EvalErrorView::NotArchForm("resource not a list"@)),
        SxView::List(xs) => match nth_sym(xs, 0) {
            None => Err(EvalErrorView::NotArchForm("resource head not sym"@)),
            Some(head) => if head == "for-each"@ {
                match loop_head(xs, env) {
                    Err(e) => Err(e),
                    Ok(h) => if xs.len() > 2 {
                        rounds_from(xs[2], h, 0, env, acc)
                    } else {
                        Ok(acc)
                    },
                }
            } else {
                match resource_of(r, env) {
                    Ok(Some(x)) => Ok(acc.push(x)),
                    Ok(None) => Ok(acc),
                    Err(e) => Err(e),
                }
            },
        },
    }
}

/// What the rounds of a loop from `k` on add.
pub open spec fn rounds_from(
    body: SxView,
    head: LoopHead,
    k: int,
    env: EnvView,
    acc: Seq<ResourceView>,
) -> Result<Seq<ResourceView>, EvalErrorView>
    decreases body, head.items.len() - k,
{
    if k < 0 || k >= head.items.len() {
        Ok(acc)
    } else {
        match resources_of(body, round_env(head, k, env), acc) {
            Ok(more) => rounds_from(body, head, k + 1, env, more),
            Err(e) => Err(e),
        }
    }
}

/// The resources of an architecture once a form was evaluated, whether or not
/// the evaluation failed: a form that fails adds nothing, but for the rounds of
/// a loop before the one that failed.
pub open spec fn left_by(r: SxView, env: EnvView, acc: Seq<ResourceView>) -> Seq<ResourceView>
    decreases r, 0int,
{
    match r {
        SxView::Atom(_) => acc,
        SxView::List(xs) => if nth_sym(xs, 0) == Some("for-each"@) {
            match loop_head(xs, env) {
                Ok(h) if xs.len() > 2 => left_by_rounds(xs[2], h, 0, env, acc),
                _ => acc,
            }
        } else {
            match resource_of(r, env) {
                Ok(Some(x)) => acc.push(x),
                _ => acc,
            }
        },
    }
}

/// The resources once the rounds of a loop from `k` on were evaluated, up to
/// the first that fails.
pub open spec fn left_by_rounds(
    body: SxView,
    head: LoopHead,
    k: int,
    env: EnvView,
    acc: Seq<ResourceView>,
) -> Seq<ResourceView>
    decreases body, head.items.len() - k,
{
    if k < 0 || k >= head.items.len() {
        acc
    } else {
        let more = left_by(body, round_env(head, k, env), acc);
        if resources_of(body, round_env(head, k, env), acc) is Ok {
            left_by_rounds(body, head, k + 1, env, more)
        } else {
            more
        }
    }
}

/// What the resource forms from `i` on add.
pub open spec fn resources_from(
    forms: Seq<SxView>,
    i: int,
    env: EnvView,
    acc: Seq<ResourceView>,
) -> Result<Seq<ResourceView>, EvalErrorView>
    decreases forms.len() - i,
{
    if i < 0 || i >= forms.len() {
        Ok(acc)
    } else {
        match resources_of(forms[i], env, acc) {
            Ok(more) => resources_from(forms, i + 1, env, more),
            Err(e) => Err(e),
        }
    }
}

/// Whether resources were added as they are to be.
pub open spec fn adds(
    r: Result<(), EvalError>,
    after: Seq<Resource>,
    want: Result<Seq<ResourceView>, EvalErrorView>,
) -> bool {
    match r {
        Ok(_) => want == Ok::<Seq<ResourceView>, EvalErrorView>(resource_views(after)),
        Err(e) => want == Err::<Seq<ResourceView>, EvalErrorView>(e@),
    }
}

/// Adds the resources of a form to those of an architecture.
pub fn eval_resource(r: &Sx, env: &Env, out: &mut Vec<Resource>) -> (res: Result<(), EvalError>)
    ensures
        adds(res, final(out)@, resources_of(r@, env@, resource_views(old(out)@))),
        resource_views(final(out)@) == left_by(r@, env@, resource_views(old(out)@)),
        old(out)@.is_prefix_of(final(out)@),
        res is Err && (r@.as_list() matches Some(xs) ==> nth_sym(xs, 0) != Some("for-each"@))
            ==> final(out)@ == old(out)@,
    decreases r,
{
    match r {
        Sx::Atom(_) => Err(EvalError::NotArchForm("resource not a list".to_owned())),
        Sx::List(xs) => {
            proof {
                lemma_list_view(*xs);
            }
            let head = match sym_at(xs.as_slice(), 0) {
                Some(head) => head,
                None => {
                    return Err(EvalError::NotArchForm("resource head not sym".to_owned()));
                },
            };
            if same(head, "for-each") {
                return eval_for_each(xs, env, out);
            }
            match build_resource(r, env) {
                Ok(Some(x)) => {
                    let ghost before = resource_views(out@);
                    let ghost v = x@;
                    out.push(x);
                    assert(resource_views(out@) =~= before.push(v));
                    Ok(())
                },
                Ok(None) => Ok(()),
                Err(e) => Err(e),
            }
        },
    }
}

/// Adds the resources of every round of a loop.
pub fn eval_for_each(xs: &Vec<Sx>, env: &Env, out: &mut Vec<Resource>) -> (res: Result<
    (),
    EvalError,
>)
    ensures
        adds(
            res,
            final(out)@,
            match loop_head(sx_views(xs@), env@) {
                Err(e) => Err(e),
                Ok(h) => rounds_from(
                    sx_views(xs@)[2],
                    h,
                    0,
                    env@,
                    resource_views(old(out)@),
                ),
            },
        ),
        match loop_head(sx_views(xs@), env@) {
            Err(_) => final(out)@ == old(out)@,
            Ok(h) => resource_views(final(out)@) == left_by_rounds(
                sx_views(xs@)[2],
                h,
                0,
                env@,
                resource_views(old(out)@),
            ),
        },
        old(out)@.is_prefix_of(final(out)@),
    decreases xs,
{
    let binding = match list_at(xs.as_slice(), 1) {
        Some(binding) => binding,
        None => {
            return Err(EvalError::NotArchForm("for-each binding".to_owned()));
        },
    };
    let vars = match list_at(binding, 0) {
        Some(vars) => vars,
        None => {
            return Err(EvalError::NotArchForm("for-each vars".to_owned()));
        },
    };
    let iter = match list_at(binding, 1) {
        Some(iter) => iter,
        None => {
            return Err(EvalError::NotArchForm("for-each iter".to_owned()));
        },
    };
    if !is_some_text(sym_at(iter, 0), "enumerate") {
        return Err(EvalError::NotArchForm("for-each iter != enumerate".to_owned()));
    }
    let source = match sym_at(iter, 1) {
        Some(source) => source,
        None => {
            return Err(EvalError::NotArchForm("enumerate source".to_owned()));
        },
    };
    let items = match env.lists.get(source) {
        Some(items) => items,
        None => {
            return Err(EvalError::UnknownVar(source.to_owned()));
        },
    };
    if xs.len() <= 2 {
        return Err(EvalError::NotArchForm("for-each body".to_owned()));
    }
    let index = match sym_at(vars, 0) {
        Some(s) => s,
        None => "i",
    };
    let item = match sym_at(vars, 1) {
        Some(s) => s,
        None => "item",
    };
    let ghost h = LoopHead { index: index@, item: item@, items: items.deep_view() };
    let ghost before = resource_views(out@);
    let n: usize = items.len();
    let mut k: usize = 0;
    while k < n
        invariant
            xs@.len() > 2,
            n == items@.len(),
            k <= n,
            h == (LoopHead { index: index@, item: item@, items: items.deep_view() }),
            loop_head(sx_views(xs@), env@) == Ok::<LoopHead, EvalErrorView>(h),
            before == resource_views(old(out)@),
            old(out)@.is_prefix_of(out@),
            rounds_from(sx_views(xs@)[2], h, k as int, env@, resource_views(out@))
                == rounds_from(sx_views(xs@)[2], h, 0, env@, before),
            left_by_rounds(sx_views(xs@)[2], h, k as int, env@, resource_views(out@))
                == left_by_rounds(sx_views(xs@)[2], h, 0, env@, before),
        decreases n - k,
    {
        let scoped = env.scoped(index, usize_text(k), item, items[k].clone());
        match eval_resource(&xs[2], &scoped, out) {
            Ok(_) => {},
            Err(e) => {
                return Err(e);
            },
        }
        k += 1;
    }
    Ok(())
}

// ---------------------------------------------------------------------
// Inputs
// ---------------------------------------------------------------------

/// The inputs that a caller hands to an architecture.
#[derive(Debug)]
pub struct InputBindings {
    scalars: SortedMap<String>,
    lists: SortedMap<Vec<String>>,
}

/// What [`InputBindings`] stand for.
#[verifier::ext_equal]
pub struct InputsView {
    pub scalars: Map<Seq<char>, Seq<char>>,
    pub lists: Map<Seq<char>, Seq<Seq<char>>>,
}

impl View for InputBindings {
    type V = InputsView;

    closed spec fn view(&self) -> InputsView {
        InputsView { scalars: self.scalars@, lists: self.lists@ }
    }
}

impl InputBindings {
    /// No inputs.
    pub fn new() -> (r: InputBindings)
        ensures
            r@ == (InputsView { scalars: Map::empty(), lists: Map::empty() }),
    {
        InputBindings { scalars: SortedMap::new(), lists: SortedMap::new() }
    }

    /// The strings.
    pub(crate) fn scalars(&self) -> (r: &SortedMap<String>)
        ensures
            r@ == self@.scalars,
    {
        &self.scalars
    }

    /// The lists.
    pub(crate) fn lists(&self) -> (r: &SortedMap<Vec<String>>)
        ensures
            r@ == self@.lists,
    {
        &self.lists
    }

    /// Binds a string.
    pub fn set_str(&mut self, k: &str, v: &str)
        ensures
            final(self)@ == (InputsView { scalars: old(self)@.scalars.insert(k@, v@), ..old(self)@
            }),
    {
        self.scalars.insert(k.to_owned(), v.to_owned());
    }

    /// Binds a list of strings.
    pub fn set_list(&mut self, k: &str, v: Vec<String>)
        ensures
            final(self)@ == (InputsView {
                lists: old(self)@.lists.insert(k@, texts(v@)),
                ..old(self)@
            }),
    {
        assert(v.deep_view() =~= texts(v@));
        self.lists.insert(k.to_owned(), v);
    }
}

impl Default for InputBindings {
    fn default() -> (r: InputBindings)
        ensures
            r@ == (InputsView { scalars: Map::empty(), lists: Map::empty() }),
    {
        InputBindings::new()
    }
}

impl Clone for InputBindings {
    fn clone(&self) -> (r: InputBindings)
        ensures
            r@ == self@,
    {
        InputBindings { scalars: self.scalars.clone(), lists: self.lists.clone() }
    }
}

/// The strings and symbols of a list, from `i` on, behind those before.
pub open spec fn words_from(items: Seq<SxView>, i: int, acc: Seq<Seq<char>>) -> Result<
    Seq<Seq<char>>,
    EvalErrorView,
>
    decreases items.len() - i,
{
    if i < 0 || i >= items.len() {
        Ok(acc)
    } else {
        match items[i] {
            SxView::Atom(AtomView::Str(s)) => words_from(items, i + 1, acc.push(s)),
            SxView::Atom(AtomView::Sym(s)) => words_from(items, i + 1, acc.push(s)),
            _ => Err(EvalErrorView::Type("list of strings"@)),
        }
    }
}

/// The bindings with an input bound to its default.
pub open spec fn bind_default(key: Seq<char>, d: SxView, env: EnvView) -> Result<
    EnvView,
    EvalErrorView,
> {
    match d {
        SxView::Atom(AtomView::Str(s)) => Ok(
            EnvView { scalars: env.scalars.insert(key, s), ..env },
        ),
        SxView::Atom(AtomView::Sym(s)) => Ok(
            EnvView { scalars: env.scalars.insert(key, s), ..env },
        ),
        SxView::List(items) => match words_from(items, 0, Seq::empty()) {
            Ok(ws) => Ok(EnvView { lists: env.lists.insert(key, ws), ..env }),
            Err(e) => Err(e),
        },
        _ => Err(EvalErrorView::Type("string | list"@)),
    }
}

/// The bindings with one declared input bound: to what the caller gave for it,
/// else to its default.
pub open spec fn bind_input(pair: SxView, env: EnvView, b: InputsView) -> Result<
    EnvView,
    EvalErrorView,
> {
    match pair.as_list() {
        None => Err(EvalErrorView::NotArchForm("input not a list"@)),
        Some(xs) => match nth_kw(xs, 0) {
            None => Err(EvalErrorView::NotArchForm("input head not :kw"@)),
            Some(key) => if b.scalars.dom().contains(key) {
                Ok(EnvView { scalars: env.scalars.insert(key, b.scalars[key]), ..env })
            } else if b.lists.dom().contains(key) {
                Ok(EnvView { lists: env.lists.insert(key, b.lists[key]), ..env })
            } else {
                match nth(xs, 1) {
                    Some(d) => bind_default(key, d, env),
                    None => Err(EvalErrorView::MissingInput(key)),
                }
            },
        },
    }
}

/// The bindings with the declared inputs from `i` on bound.
pub open spec fn inputs_from(pairs: Seq<SxView>, i: int, env: EnvView, b: InputsView) -> Result<
    EnvView,
    EvalErrorView,
>
    decreases pairs.len() - i,
{
    if i < 0 || i >= pairs.len() {
        Ok(env)
    } else {
        match bind_input(pairs[i], env, b) {
            Ok(next) => inputs_from(pairs, i + 1, next, b),
            Err(e) => Err(e),
        }
    }
}

/// The bindings that an `:inputs` clause declares.
pub open spec fn inputs_env(clause: Option<SxView>, b: InputsView) -> Result<
    EnvView,
    EvalErrorView,
> {
    match clause {
        None => Ok(EnvView::empty()),
        Some(x) => match x.as_list() {
            None => Err(EvalErrorView::NotArchForm(":inputs not a list"@)),
            Some(pairs) => inputs_from(pairs, 0, EnvView::empty(), b),
        },
    }
}

/// Reads a list of strings and symbols.
fn read_words(items: &Vec<Sx>) -> (r: Result<Vec<String>, EvalError>)
    ensures
        match r {
            Ok(ws) => words_from(sx_views(items@), 0, Seq::empty()) == Ok::<
                Seq<Seq<char>>,
                EvalErrorView,
            >(ws.deep_view()),
            Err(e) => words_from(sx_views(items@), 0, Seq::empty()) == Err::<
                Seq<Seq<char>>,
                EvalErrorView,
            >(e@),
        },
{
    let n: usize = items.len();
    let mut out: Vec<String> = Vec::new();
    let mut i: usize = 0;
    assert(texts(out@) =~= Seq::empty());
    while i < n
        invariant
            n == items@.len(),
            i <= n,
            words_from(sx_views(items@), i as int, texts(out@)) == words_from(
                sx_views(items@),
                0,
                Seq::empty(),
            ),
        decreases n - i,
    {
        let ghost before = texts(out@);
        match &items[i] {
            Sx::Atom(Atom::Str(s)) => {
                out.push(s.clone());
                assert(texts(out@) =~= before.push(s@));
            },
            Sx::Atom(Atom::Sym(s)) => {
                out.push(s.clone());
                assert(texts(out@) =~= before.push(s@));
            },
            _ => {
                return Err(EvalError::Type("list of strings"));
            },
        }
        i += 1;
    }
    assert(out.deep_view() =~= texts(out@));
    Ok(out)
}

/// Binds one declared input.
fn eval_input(pair: &Sx, env: &mut Env, bindings: &InputBindings) -> (r: Result<(), EvalError>)
    ensures
        match r {
            Ok(_) => bind_input(pair@, old(env)@, bindings@) == Ok::<EnvView, EvalErrorView>(
                final(env)@,
            ),
            Err(e) => bind_input(pair@, old(env)@, bindings@) == Err::<EnvView, EvalErrorView>(e@),
        },
{
    let xs = match pair.as_list() {
        Some(xs) => xs,
        None => {
            return Err(EvalError::NotArchForm("input not a list".to_owned()));
        },
    };
    let key = match kw_at(xs, 0) {
        Some(key) => key,
        None => {
            return Err(EvalError::NotArchForm("input head not :kw".to_owned()));
        },
    };
    if let Some(s) = bindings.scalars.get(key) {
        env.scalars.insert(key.to_owned(), s.clone());
        return Ok(());
    }
    if let Some(l) = bindings.lists.get(key) {
        env.lists.insert(key.to_owned(), copy_texts(l));
        return Ok(());
    }
    if xs.len() <= 1 {
        return Err(EvalError::MissingInput(key.to_owned()));
    }
    match &xs[1] {
        Sx::Atom(Atom::Str(s)) => {
            env.scalars.insert(key.to_owned(), s.clone());
            Ok(())
        },
        Sx::Atom(Atom::Sym(s)) => {
            env.scalars.insert(key.to_owned(), s.clone());
            Ok(())
        },
        Sx::List(items) => {
            proof {
                lemma_list_view(*items);
            }
            match read_words(items) {
                Ok(ws) => {
                    env.lists.insert(key.to_owned(), ws);
                    Ok(())
                },
                Err(e) => Err(e),
            }
        },
        _ => Err(EvalError::Type("string | list")),
    }
}

/// Binds the inputs that a clause declares.
fn eval_inputs(clause: Option<&Sx>, bindings: &InputBindings) -> (r: Result<Env, EvalError>)
    ensures
        match r {
            Ok(env) => inputs_env(clause_view(clause), bindings@) == Ok::<EnvView, EvalErrorView>(
                env@,
            ),
            Err(e) => inputs_env(clause_view(clause), bindings@) == Err::<EnvView, EvalErrorView>(
                e@,
            ),
        },
{
    let mut env = Env::new();
    let x = match clause {
        Some(x) => x,
        None => {
            return Ok(env);
        },
    };
    let pairs = match x.as_list() {
        Some(pairs) => pairs,
        None => {
            return Err(EvalError::NotArchForm(":inputs not a list".to_owned()));
        },
    };
    let n: usize = pairs.len();
    let mut i: usize = 0;
    while i < n
        invariant
            n == pairs@.len(),
            i <= n,
            inputs_env(clause_view(clause), bindings@) == inputs_from(
                sx_views(pairs@),
                i as int,
                env@,
                bindings@,
            ),
        decreases n - i,
    {
        match eval_input(&pairs[i], &mut env, bindings) {
            Ok(_) => {},
            Err(e) => {
                return Err(e);
            },
        }
        i += 1;
    }
    Ok(env)
}

// ---------------------------------------------------------------------
// Architectures
// ---------------------------------------------------------------------

/// The resources of a `:resources` clause.
pub open spec fn resources_clause(clause: Option<SxView>, env: EnvView) -> Result<
    Seq<ResourceView>,
    EvalErrorView,
> {
    match clause {
        None => Err(EvalErrorView::MissingClause("resources"@)),
        Some(x) => match x.as_list() {
            None => Err(EvalErrorView::NotArchForm(":resources not a list"@)),
            Some(forms) => resources_from(forms, 0, env, Seq::empty()),
        },
    }
}

/// What the data sources from `i` on add.
pub open spec fn data_from(
    forms: Seq<SxView>,
    i: int,
    env: EnvView,
    acc: Seq<ResourceView>,
) -> Result<Seq<ResourceView>, EvalErrorView>
    decreases forms.len() - i,
{
    if i < 0 || i >= forms.len() {
        Ok(acc)
    } else {
        match resource_of(forms[i], env) {
            Ok(Some(x)) => data_from(forms, i + 1, env, acc.push(x)),
            Ok(None) => data_from(forms, i + 1, env, acc),
            Err(e) => Err(e),
        }
    }
}

/// The data sources of a `:data` clause.
pub open spec fn data_clause(clause: Option<SxView>, env: EnvView) -> Result<
    Seq<ResourceView>,
    EvalErrorView,
> {
    match clause {
        None => Ok(Seq::empty()),
        Some(x) => match x.as_list() {
            None => Err(EvalErrorView::NotArchForm(":data not a list"@)),
            Some(forms) => data_from(forms, 0, env, Seq::empty()),
        },
    }
}

/// How a clause of keyword pairs names its entries and its faults.
pub struct PairStyle {
    /// Whether dashes in keys become underscores.
    pub underscores: bool,
    /// The fault of a key that is no keyword.
    pub bad_key: Seq<char>,
    /// The fault of a key without a value.
    pub no_value: Seq<char>,
}

/// What the keyword pairs from `j` on add to a map.
pub open spec fn named_from(
    items: Seq<SxView>,
    j: int,
    acc: Seq<(Seq<char>, DatumView)>,
    style: PairStyle,
    env: EnvView,
) -> Result<Seq<(Seq<char>, DatumView)>, EvalErrorView>
    decreases items.len() - j,
{
    if j < 0 || j >= items.len() {
        Ok(acc)
    } else {
        match (items[j].as_kw(), nth(items, j + 1)) {
            (None, _) => Err(EvalErrorView::NotArchForm(style.bad_key)),
            (_, None) => Err(EvalErrorView::NotArchForm(style.no_value)),
            (Some(k), Some(x)) => match value_of(x, env) {
                Ok(v) => named_from(
                    items,
                    j + 2,
                    upsert(
                        acc,
                        if style.underscores {
                            type_id(k)
                        } else {
                            k
                        },
                        v,
                    ),
                    style,
                    env,
                ),
                Err(e) => Err(e),
            },
        }
    }
}

/// How `:outputs` pairs read.
pub open spec fn outputs_style() -> PairStyle {
    PairStyle {
        underscores: false,
        bad_key: ":outputs head not :kw"@,
        no_value: ":outputs missing value"@,
    }
}

/// How `:locals` pairs read.
pub open spec fn locals_style() -> PairStyle {
    PairStyle {
        underscores: true,
        bad_key: ":locals head not :kw"@,
        no_value: ":locals missing value"@,
    }
}

/// The entries of an `:outputs` or `:locals` clause.
pub open spec fn named_clause(
    clause: Option<SxView>,
    not_list: Seq<char>,
    style: PairStyle,
    env: EnvView,
) -> Result<Seq<(Seq<char>, DatumView)>, EvalErrorView> {
    match clause {
        None => Ok(Seq::empty()),
        Some(x) => match x.as_list() {
            None => Err(EvalErrorView::NotArchForm(not_list)),
            Some(items) => named_from(items, 0, Seq::empty(), style, env),
        },
    }
}

/// What the providers from `i` on add.
pub open spec fn providers_from(
    forms: Seq<SxView>,
    i: int,
    env: EnvView,
    acc: Seq<ProviderRefView>,
) -> Result<Seq<ProviderRefView>, EvalErrorView>
    decreases forms.len() - i,
{
    if i < 0 || i >= forms.len() {
        Ok(acc)
    } else {
        match provider_of(forms[i], env) {
            Ok(p) => providers_from(forms, i + 1, env, acc.push(p)),
            Err(e) => Err(e),
        }
    }
}

/// The providers of a `:providers` clause.
pub open spec fn providers_clause(clause: Option<SxView>, env: EnvView) -> Result<
    Seq<ProviderRefView>,
    EvalErrorView,
> {
    match clause {
        None => Ok(Seq::empty()),
        Some(x) => match x.as_list() {
            None => Err(EvalErrorView::NotArchForm(":providers not a list"@)),
            Some(forms) => providers_from(forms, 0, env, Seq::empty()),
        },
    }
}

/// The architecture of the clauses of a form, under given bindings.
pub open spec fn bound_arch(xs: Seq<SxView>, env: EnvView) -> Result<
    ArchitectureView,
    EvalErrorView,
> {
    match resources_clause(clause_from(xs, "resources"@, 2, None), env) {
        Err(e) => Err(e),
        Ok(resources) => match data_clause(clause_from(xs, "data"@, 2, None), env) {
            Err(e) => Err(e),
            Ok(data_sources) => match named_clause(
                clause_from(xs, "outputs"@, 2, None),
                ":outputs not a list"@,
                outputs_style(),
                env,
            ) {
                Err(e) => Err(e),
                Ok(outputs) => match providers_clause(
                    clause_from(xs, "providers"@, 2, None),
                    env,
                ) {
                    Err(e) => Err(e),
                    Ok(providers) => match named_clause(
                        clause_from(xs, "locals"@, 2, None),
                        ":locals not a list"@,
                        locals_style(),
                        env,
                    ) {
                        Err(e) => Err(e),
                        Ok(locals) => Ok(
                            ArchitectureView {
                                name: or_text(nth_sym(xs, 1), "anonymous"@),
                                resources,
                                data_sources,
                                outputs,
                                providers,
                                locals,
                            },
                        ),
                    },
                },
            },
        },
    }
}

/// The architecture of a form `(deflava-architecture name :clause value …)`.
pub open spec fn form_arch(xs: Seq<SxView>, b: InputsView) -> Result<
    ArchitectureView,
    EvalErrorView,
> {
    match inputs_env(clause_from(xs, "inputs"@, 2, None), b) {
        Err(e) => Err(e),
        Ok(env) => bound_arch(xs, env),
    }
}

/// The architecture that a run of forms declares: that of the first
/// `deflava-architecture` form.
pub open spec fn forms_arch(forms: Seq<SxView>, b: InputsView) -> Result<
    ArchitectureView,
    EvalErrorView,
> {
    match form_from(forms, "deflava-architecture"@, 0) {
        None => Err(EvalErrorView::NotArchForm("no deflava-architecture form"@)),
        Some(xs) => form_arch(xs, b),
    }
}

/// The architecture that a source declares.
pub open spec fn source_arch(src: Seq<char>, b: InputsView) -> Result<
    ArchitectureView,
    EvalErrorView,
> {
    match read_all(src, 0) {
        Err(e) => Err(EvalErrorView::Parse(e)),
        Ok(forms) => forms_arch(forms, b),
    }
}

/// Evaluates a `:resources` clause.
fn eval_resources(clause: Option<&Sx>, env: &Env) -> (r: Result<Vec<Resource>, EvalError>)
    ensures
        match r {
            Ok(rs) => resources_clause(clause_view(clause), env@) == Ok::<
                Seq<ResourceView>,
                EvalErrorView,
            >(resource_views(rs@)),
            Err(e) => resources_clause(clause_view(clause), env@) == Err::<
                Seq<ResourceView>,
                EvalErrorView,
            >(e@),
        },
{
    let x = match clause {
        Some(x) => x,
        None => {
            return Err(EvalError::MissingClause("resources"));
        },
    };
    let forms = match x.as_list() {
        Some(forms) => forms,
        None => {
            return Err(EvalError::NotArchForm(":resources not a list".to_owned()));
        },
    };
    let n: usize = forms.len();
    let mut out: Vec<Resource> = Vec::new();
    let mut i: usize = 0;
    assert(resource_views(out@) =~= Seq::empty());
    while i < n
        invariant
            n == forms@.len(),
            i <= n,
            resources_clause(clause_view(clause), env@) == resources_from(
                sx_views(forms@),
                i as int,
                env@,
                resource_views(out@),
            ),
        decreases n - i,
    {
        match eval_resource(&forms[i], env, &mut out) {
            Ok(_) => {},
            Err(e) => {
                return Err(e);
            },
        }
        i += 1;
    }
    Ok(out)
}

/// Evaluates a `:data` clause.
fn eval_data(clause: Option<&Sx>, env: &Env) -> (r: Result<Vec<Resource>, EvalError>)
    ensures
        match r {
            Ok(rs) => data_clause(clause_view(clause), env@) == Ok::<
                Seq<ResourceView>,
                EvalErrorView,
            >(resource_views(rs@)),
            Err(e) => data_clause(clause_view(clause), env@) == Err::<
                Seq<ResourceView>,
                EvalErrorView,
            >(e@),
        },
{
    let mut out: Vec<Resource> = Vec::new();
    assert(resource_views(out@) =~= Seq::empty());
    let x = match clause {
        Some(x) => x,
        None => {
            return Ok(out);
        },
    };
    let forms = match x.as_list() {
        Some(forms) => forms,
        None => {
            return Err(EvalError::NotArchForm(":data not a list".to_owned()));
        },
    };
    let n: usize = forms.len();
    let mut i: usize = 0;
    while i < n
        invariant
            n == forms@.len(),
            i <= n,
            data_clause(clause_view(clause), env@) == data_from(
                sx_views(forms@),
                i as int,
                env@,
                resource_views(out@),
            ),
        decreases n - i,
    {
        match build_resource(&forms[i], env) {
            Ok(Some(d)) => {
                let ghost before = resource_views(out@);
                let ghost v = d@;
                out.push(d);
                assert(resource_views(out@) =~= before.push(v));
            },
            Ok(None) => {},
            Err(e) => {
                return Err(e);
            },
        }
        i += 1;
    }
    Ok(out)
}

/// Evaluates an `:outputs` or `:locals` clause.
fn eval_named(
    clause: Option<&Sx>,
    env: &Env,
    not_list: &str,
    bad_key: &str,
    no_value: &str,
    underscores: bool,
) -> (r: Result<DatumMap, EvalError>)
    ensures
        match r {
            Ok(m) => named_clause(
                clause_view(clause),
                not_list@,
                PairStyle { underscores, bad_key: bad_key@, no_value: no_value@ },
                env@,
            ) == Ok::<Seq<(Seq<char>, DatumView)>, EvalErrorView>(m@),
            Err(e) => named_clause(
                clause_view(clause),
                not_list@,
                PairStyle { underscores, bad_key: bad_key@, no_value: no_value@ },
                env@,
            ) == Err::<Seq<(Seq<char>, DatumView)>, EvalErrorView>(e@),
        },
{
    let ghost style = PairStyle { underscores, bad_key: bad_key@, no_value: no_value@ };
    let mut m = DatumMap::new();
    let x = match clause {
        Some(x) => x,
        None => {
            return Ok(m);
        },
    };
    let items = match x.as_list() {
        Some(items) => items,
        None => {
            return Err(EvalError::NotArchForm(not_list.to_owned()));
        },
    };
    let n: usize = items.len();
    let mut j: usize = 0;
    while j < n
        invariant
            n == items@.len(),
            j <= n,
            style == (PairStyle { underscores, bad_key: bad_key@, no_value: no_value@ }),
            named_clause(clause_view(clause), not_list@, style, env@) == named_from(
                sx_views(items@),
                j as int,
                m@,
                style,
                env@,
            ),
        decreases n - j,
    {
        let k = match items[j].as_kw() {
            Some(k) => k,
            None => {
                return Err(EvalError::NotArchForm(bad_key.to_owned()));
            },
        };
        if n - j <= 1 {
            return Err(EvalError::NotArchForm(no_value.to_owned()));
        }
        match eval_value(&items[j + 1], env) {
            Ok(v) => {
                let key = if underscores {
                    sym_to_type_id(k)
                } else {
                    k.to_owned()
                };
                m.insert(key, v);
            },
            Err(e) => {
                return Err(e);
            },
        }
        j += 2;
    }
    Ok(m)
}

/// Evaluates a `:providers` clause.
fn eval_providers(clause: Option<&Sx>, env: &Env) -> (r: Result<Vec<ProviderRef>, EvalError>)
    ensures
        match r {
            Ok(ps) => providers_clause(clause_view(clause), env@) == Ok::<
                Seq<ProviderRefView>,
                EvalErrorView,
            >(provider_views(ps@)),
            Err(e) => providers_clause(clause_view(clause), env@) == Err::<
                Seq<ProviderRefView>,
                EvalErrorView,
            >(e@),
        },
{
    let mut out: Vec<ProviderRef> = Vec::new();
    assert(provider_views(out@) =~= Seq::empty());
    let x = match clause {
        Some(x) => x,
        None => {
            return Ok(out);
        },
    };
    let forms = match x.as_list() {
        Some(forms) => forms,
        None => {
            return Err(EvalError::NotArchForm(":providers not a list".to_owned()));
        },
    };
    let n: usize = forms.len();
    let mut i: usize = 0;
    while i < n
        invariant
            n == forms@.len(),
            i <= n,
            providers_clause(clause_view(clause), env@) == providers_from(
                sx_views(forms@),
                i as int,
                env@,
                provider_views(out@),
            ),
        decreases n - i,
    {
        match build_provider(&forms[i], env) {
            Ok(p) => {
                let ghost before = provider_views(out@);
                let ghost v = p@;
                out.push(p);
                assert(provider_views(out@) =~= before.push(v));
            },
            Err(e) => {
                return Err(e);
            },
        }
        i += 1;
    }
    Ok(out)
}

/// Whether an architecture evaluation gave what it is to give.
pub open spec fn gives_arch(
    r: Result<Architecture, EvalError>,
    want: Result<ArchitectureView, EvalErrorView>,
) -> bool {
    match r {
        Ok(a) => want == Ok::<ArchitectureView, EvalErrorView>(a@),
        Err(e) => want == Err::<ArchitectureView, EvalErrorView>(e@),
    }
}

/// Evaluates the clauses of an architecture form.
fn eval_form(xs: &[Sx], bindings: &InputBindings) -> (r: Result<Architecture, EvalError>)
    ensures
        gives_arch(r, form_arch(sx_views(xs@), bindings@)),
{
    let env = match eval_inputs(find_clause(xs, "inputs", 2), bindings) {
        Ok(env) => env,
        Err(e) => {
            return Err(e);
        },
    };
    let resources = match eval_resources(find_clause(xs, "resources", 2), &env) {
        Ok(resources) => resources,
        Err(e) => {
            return Err(e);
        },
    };
    let data_sources = match eval_data(find_clause(xs, "data", 2), &env) {
        Ok(data_sources) => data_sources,
        Err(e) => {
            return Err(e);
        },
    };
    let outputs = match eval_named(
        find_clause(xs, "outputs", 2),
        &env,
        ":outputs not a list",
        ":outputs head not :kw",
        ":outputs missing value",
        false,
    ) {
        Ok(outputs) => outputs,
        Err(e) => {
            return Err(e);
        },
    };
    let providers = match eval_providers(find_clause(xs, "providers", 2), &env) {
        Ok(providers) => providers,
        Err(e) => {
            return Err(e);
        },
    };
    let locals = match eval_named(
        find_clause(xs, "locals", 2),
        &env,
        ":locals not a list",
        ":locals head not :kw",
        ":locals missing value",
        true,
    ) {
        Ok(locals) => locals,
        Err(e) => {
            return Err(e);
        },
    };
    let name = match sym_at(xs, 1) {
        Some(name) => name.to_owned(),
        None => "anonymous".to_owned(),
    };
    Ok(Architecture { name, resources, data_sources, outputs, providers, locals })
}

/// Reads a source and evaluates its architecture form. Inputs that the caller
/// leaves open take the defaults that the form declares. Sibling forms are
/// left alone.
pub fn eval_architecture(src: &str, bindings: &InputBindings) -> (r: Result<
    Architecture,
    EvalError,
>)
    ensures
        gives_arch(r, source_arch(src@, bindings@)),
{
    let forms = match parse_all(src) {
        Ok(forms) => forms,
        Err(e) => {
            return Err(EvalError::from(e));
        },
    };
    match find_form(&forms, "deflava-architecture") {
        Some(xs) => eval_form(xs, bindings),
        None => Err(EvalError::NotArchForm("no deflava-architecture form".to_owned())),
    }
}

// ---------------------------------------------------------------------
// Laws
// ---------------------------------------------------------------------

proof fn lemma_emit(xs: Seq<SxView>, i: int, p: ResourceParts, env: EnvView)
    requires
        0 <= i,
    ensures
        parts_from(xs, i, p, env) matches Ok(q) ==> match clause_from(xs, "when"@, i, None) {
            None => q.emit == p.emit,
            Some(v) => predicate(v, env) == Ok::<bool, EvalErrorView>(q.emit),
        },
    decreases xs.len() - i,
{
    if i + 1 < xs.len() {
        lemma_clause_found(xs, "when"@, i + 2, Some(xs[i + 1]));
        if let Some(k) = xs[i].as_kw() {
            if k == "when"@ {
                if let Ok(emit) = predicate(xs[i + 1], env) {
                    lemma_emit(xs, i + 2, ResourceParts { emit, ..p }, env);
                }
            } else if k == "count"@ {
                if let Some(n) = xs[i + 1].as_int() {
                    lemma_emit(
                        xs,
                        i + 2,
                        ResourceParts { multiplicity: Some(MultiplicityView::Count(n)), ..p },
                        env,
                    );
                }
            } else if k == "for-each"@ {
                if let Some(items) = xs[i + 1].as_list() {
                    if let Ok(m) = each_from(items, 0, Seq::empty(), env) {
                        lemma_emit(
                            xs,
                            i + 2,
                            ResourceParts { multiplicity: Some(MultiplicityView::ForEach(m)), ..p },
                            env,
                        );
                    }
                }
            } else {
                if let Ok(v) = value_of(xs[i + 1], env) {
                    lemma_emit(
                        xs,
                        i + 2,
                        ResourceParts { attributes: upsert(p.attributes, type_id(k), v), ..p },
                        env,
                    );
                }
            }
        }
    }
}

/// Of a resource form that evaluates, its last `:when` decides whether there
/// is a resource; without one there is.
pub proof fn law_when_decides(xs: Seq<SxView>, env: EnvView)
    requires
        resource_of(SxView::List(xs), env) is Ok,
    ensures
        match clause_from(xs, "when"@, 2, None) {
            None => resource_of(SxView::List(xs), env)->Ok_0 is Some,
            Some(v) => predicate(v, env) == Ok::<bool, EvalErrorView>(
                resource_of(SxView::List(xs), env)->Ok_0 is Some,
            ),
        },
{
    lemma_emit(xs, 2, no_parts(), env);
}

/// A resource whose `:when` is `#f` adds nothing, if the form evaluates at all.
pub proof fn law_false_adds_nothing(xs: Seq<SxView>, env: EnvView, acc: Seq<ResourceView>)
    requires
        clause_from(xs, "when"@, 2, None) == Some(SxView::Atom(AtomView::Bool(false))),
        nth_sym(xs, 0) != Some("for-each"@),
        resource_of(SxView::List(xs), env) is Ok,
    ensures
        resources_of(SxView::List(xs), env, acc) == Ok::<Seq<ResourceView>, EvalErrorView>(acc),
{
    law_when_decides(xs, env);
}

/// A form adds its resources behind those before it, and changes none of them.
pub proof fn law_resources_are_appended(r: SxView, env: EnvView, acc: Seq<ResourceView>)
    ensures
        resources_of(r, env, acc) matches Ok(out) ==> acc.len() <= out.len() && out.take(
            acc.len() as int,
        ) == acc,
    decreases r, 0int,
{
    if let SxView::List(xs) = r {
        if nth_sym(xs, 0) == Some("for-each"@) {
            if let Ok(h) = loop_head(xs, env) {
                if xs.len() > 2 {
                    lemma_rounds_append(xs[2], h, 0, env, acc);
                }
            }
        } else {
            if let Ok(Some(x)) = resource_of(r, env) {
                assert(acc.push(x).take(acc.len() as int) =~= acc);
            }
        }
        assert(acc.take(acc.len() as int) =~= acc);
    }
}

proof fn lemma_rounds_append(
    body: SxView,
    head: LoopHead,
    k: int,
    env: EnvView,
    acc: Seq<ResourceView>,
)
    ensures
        rounds_from(body, head, k, env, acc) matches Ok(out) ==> acc.len() <= out.len() && out.take(
            acc.len() as int,
        ) == acc,
    decreases body, head.items.len() - k,
{
    if 0 <= k < head.items.len() {
        law_resources_are_appended(body, round_env(head, k, env), acc);
        if let Ok(more) = resources_of(body, round_env(head, k, env), acc) {
            lemma_rounds_append(body, head, k + 1, env, more);
            if let Ok(out) = rounds_from(body, head, k + 1, env, more) {
                assert(out.take(acc.len() as int) =~= more.take(acc.len() as int));
            }
        }
    } else {
        assert(acc.take(acc.len() as int) =~= acc);
    }
}

/// Whether or not a form evaluates, the resources before it stay as they are;
/// where it does, what is left is what it gives.
pub proof fn law_a_failure_takes_nothing_back(r: SxView, env: EnvView, acc: Seq<ResourceView>)
    ensures
        acc.is_prefix_of(left_by(r, env, acc)),
        resources_of(r, env, acc) matches Ok(out) ==> left_by(r, env, acc) == out,
    decreases r, 0int,
{
    if let SxView::List(xs) = r {
        if nth_sym(xs, 0) == Some("for-each"@) {
            if let Ok(h) = loop_head(xs, env) {
                if xs.len() > 2 {
                    lemma_rounds_left(xs[2], h, 0, env, acc);
                }
            }
        }
    }
}

proof fn lemma_rounds_left(
    body: SxView,
    head: LoopHead,
    k: int,
    env: EnvView,
    acc: Seq<ResourceView>,
)
    ensures
        acc.is_prefix_of(left_by_rounds(body, head, k, env, acc)),
        rounds_from(body, head, k, env, acc) matches Ok(out) ==> left_by_rounds(
            body,
            head,
            k,
            env,
            acc,
        ) == out,
    decreases body, head.items.len() - k,
{
    if 0 <= k < head.items.len() {
        law_a_failure_takes_nothing_back(body, round_env(head, k, env), acc);
        if let Ok(more) = resources_of(body, round_env(head, k, env), acc) {
            lemma_rounds_left(body, head, k + 1, env, more);
        }
    }
}

/// A loop over a plain resource adds one resource for each item of its list, in
/// order: that of its body under the index and the item.
pub proof fn law_loop_adds_one_resource_per_item(
    xs: Seq<SxView>,
    env: EnvView,
    head: LoopHead,
    added: Seq<ResourceView>,
    acc: Seq<ResourceView>,
)
    requires
        nth_sym(xs, 0) == Some("for-each"@),
        loop_head(xs, env) == Ok::<LoopHead, EvalErrorView>(head),
        added.len() == head.items.len(),
        xs[2] matches SxView::List(body) && nth_sym(body, 0) != Some("for-each"@),
        forall|k: int|
            0 <= k < added.len() ==> resource_of(xs[2], #[trigger] round_env(head, k, env)) == Ok::<
                Option<ResourceView>,
                EvalErrorView,
            >(Some(added[k])),
    ensures
        resources_of(SxView::List(xs), env, acc) == Ok::<Seq<ResourceView>, EvalErrorView>(
            acc + added,
        ),
{
    assert forall|k: int| 0 <= k < added.len() implies adds_one(
        xs[2],
        #[trigger] round_env(head, k, env),
        added[k],
    ) by {
        lemma_adds_one(xs[2], round_env(head, k, env), added[k]);
    }
    lemma_rounds_add(xs[2], head, 0, env, added, acc);
    assert(added.skip(0) =~= added);
    reveal(all_rounds);
}

proof fn lemma_plain_resource(
    body: SxView,
    env: EnvView,
    x: ResourceView,
    acc: Seq<ResourceView>,
)
    requires
        body matches SxView::List(xs) && nth_sym(xs, 0) != Some("for-each"@),
        resource_of(body, env) == Ok::<Option<ResourceView>, EvalErrorView>(Some(x)),
    ensures
        resources_of(body, env, acc) == Ok::<Seq<ResourceView>, EvalErrorView>(acc.push(x)),
{
}

/// What the rounds of a loop from `k` on add, as one thing.
#[verifier::opaque]
spec fn all_rounds(
    body: SxView,
    head: LoopHead,
    k: int,
    env: EnvView,
    acc: Seq<ResourceView>,
) -> Result<Seq<ResourceView>, EvalErrorView> {
    rounds_from(body, head, k, env, acc)
}

/// Whether a form adds one resource, whatever stands before it.
#[verifier::opaque]
spec fn adds_one(body: SxView, env: EnvView, x: ResourceView) -> bool {
    forall|acc: Seq<ResourceView>| #[trigger]
        resources_of(body, env, acc) == Ok::<Seq<ResourceView>, EvalErrorView>(acc.push(x))
}

proof fn lemma_adds_one(body: SxView, env: EnvView, x: ResourceView)
    requires
        body matches SxView::List(xs) && nth_sym(xs, 0) != Some("for-each"@),
        resource_of(body, env) == Ok::<Option<ResourceView>, EvalErrorView>(Some(x)),
    ensures
        adds_one(body, env, x),
{
    reveal(adds_one);
    assert forall|acc: Seq<ResourceView>| #[trigger]
        resources_of(body, env, acc) == Ok::<Seq<ResourceView>, EvalErrorView>(acc.push(x)) by {
        lemma_plain_resource(body, env, x, acc);
    }
}

/// A round that adds one resource is followed by the next round.
proof fn lemma_round_taken(
    body: SxView,
    head: LoopHead,
    k: int,
    env: EnvView,
    acc: Seq<ResourceView>,
    x: ResourceView,
)
    requires
        0 <= k < head.items.len(),
        adds_one(body, round_env(head, k, env), x),
    ensures
        all_rounds(body, head, k, env, acc) == all_rounds(body, head, k + 1, env, acc.push(x)),
{
    reveal(adds_one);
    reveal(all_rounds);
    assert(resources_of(body, round_env(head, k, env), acc) == Ok::<
        Seq<ResourceView>,
        EvalErrorView,
    >(acc.push(x)));
}

/// After the last round there is nothing more.
proof fn lemma_rounds_done(body: SxView, head: LoopHead, env: EnvView, acc: Seq<ResourceView>)
    ensures
        all_rounds(body, head, head.items.len() as int, env, acc) == Ok::<
            Seq<ResourceView>,
            EvalErrorView,
        >(acc),
{
    reveal(all_rounds);
}

proof fn lemma_rounds_add(
    body: SxView,
    head: LoopHead,
    k: int,
    env: EnvView,
    added: Seq<ResourceView>,
    acc: Seq<ResourceView>,
)
    requires
        0 <= k <= added.len(),
        added.len() == head.items.len(),
        forall|j: int|
            0 <= j < added.len() ==> adds_one(body, #[trigger] round_env(head, j, env), added[j]),
    ensures
        all_rounds(body, head, k, env, acc) == Ok::<Seq<ResourceView>, EvalErrorView>(
            acc + added.skip(k),
        ),
    decreases added.len() - k,
{
    if k < added.len() {
        let scoped = round_env(head, k, env);
        let more = acc.push(added[k]);
        assert(adds_one(body, scoped, added[k]));
        lemma_round_taken(body, head, k, env, acc, added[k]);
        lemma_rounds_add(body, head, k + 1, env, added, more);
        assert(more + added.skip(k + 1) =~= acc + added.skip(k));
    } else {
        lemma_rounds_done(body, head, env, acc);
        assert(acc + added.skip(k) =~= acc);
    }
}

/// What a caller binds is what a declared input is bound to, a string before a
/// list, whatever the default; and every declared input is bound.
pub proof fn law_caller_inputs_win(pairs: Seq<SxView>, i: int, key: Seq<char>, b: InputsView)
    requires
        inputs_from(pairs, 0, EnvView::empty(), b) is Ok,
        0 <= i < pairs.len(),
        pairs[i].as_list() matches Some(xs) && nth_kw(xs, 0) == Some(key),
    ensures
        ({
            let env = inputs_from(pairs, 0, EnvView::empty(), b)->Ok_0;
            &&& env.get(key) is Some || env.list(key) is Some
            &&& b.scalars.dom().contains(key) ==> env.get(key) == Some(b.scalars[key])
            &&& !b.scalars.dom().contains(key) && b.lists.dom().contains(key) ==> env.list(key)
                == Some(b.lists[key]) && env.get(key) is None
        }),
{
    lemma_inputs_kept(pairs, 0, EnvView::empty(), b, key);
    lemma_inputs_bound(pairs, 0, EnvView::empty(), b, i, key);
}

/// Bindings that agree with the caller on a name, as far as they bind it.
spec fn agrees(env: EnvView, b: InputsView, key: Seq<char>) -> bool {
    &&& env.loop_scalars == Map::<Seq<char>, Seq<char>>::empty()
    &&& b.scalars.dom().contains(key) && env.scalars.dom().contains(key) ==> env.scalars[key]
        == b.scalars[key]
    &&& b.scalars.dom().contains(key) ==> !env.lists.dom().contains(key)
    &&& !b.scalars.dom().contains(key) && b.lists.dom().contains(key)
        ==> !env.scalars.dom().contains(key) && (env.lists.dom().contains(key) ==> env.lists[key]
        == b.lists[key])
}

proof fn lemma_inputs_kept(
    pairs: Seq<SxView>,
    i: int,
    env: EnvView,
    b: InputsView,
    key: Seq<char>,
)
    requires
        0 <= i <= pairs.len(),
        agrees(env, b, key),
    ensures
        inputs_from(pairs, i, env, b) matches Ok(out) ==> agrees(out, b, key) && (
        env.scalars.dom().contains(key) ==> out.scalars.dom().contains(key)) && (
        env.lists.dom().contains(key) ==> out.lists.dom().contains(key)),
    decreases pairs.len() - i,
{
    if i < pairs.len() {
        if let Ok(next) = bind_input(pairs[i], env, b) {
            assert(agrees(next, b, key));
            lemma_inputs_kept(pairs, i + 1, next, b, key);
        }
    }
}

proof fn lemma_inputs_bound(
    pairs: Seq<SxView>,
    i: int,
    env: EnvView,
    b: InputsView,
    at: int,
    key: Seq<char>,
)
    requires
        0 <= i <= at < pairs.len(),
        agrees(env, b, key),
        pairs[at].as_list() matches Some(xs) && nth_kw(xs, 0) == Some(key),
    ensures
        inputs_from(pairs, i, env, b) matches Ok(out) ==> out.scalars.dom().contains(key)
            || out.lists.dom().contains(key),
    decreases at - i,
{
    if let Ok(next) = bind_input(pairs[i], env, b) {
        assert(agrees(next, b, key));
        if i < at {
            lemma_inputs_bound(pairs, i + 1, next, b, at, key);
        } else {
            lemma_inputs_kept(pairs, i + 1, next, b, key);
        }
    }
}

/// A sibling form of another kind, wherever it stands, changes nothing in the
/// architecture.
pub proof fn law_siblings_change_no_architecture(
    forms: Seq<SxView>,
    at: int,
    sibling: SxView,
    b: InputsView,
)
    requires
        0 <= at <= forms.len(),
        !is_form(sibling, "deflava-architecture"@),
    ensures
        forms_arch(forms.insert(at, sibling), b) == forms_arch(forms, b),
{
    law_siblings_hide_no_form(forms, at, sibling, "deflava-architecture"@);
}

/// The items of an array evaluate one by one, each as it does on its own.
pub proof fn law_arrays_evaluate_itemwise(items: Seq<SxView>, env: EnvView, i: int)
    requires
        values_from(items, 0, Seq::empty(), env) is Ok,
        0 <= i < items.len(),
    ensures
        ({
            let vs = values_from(items, 0, Seq::empty(), env)->Ok_0;
            vs.len() == items.len() && value_of(items[i], env) == Ok::<DatumView, EvalErrorView>(
                vs[i],
            )
        }),
{
    lemma_values(items, 0, Seq::empty(), env);
}

proof fn lemma_values(items: Seq<SxView>, i: int, acc: Seq<DatumView>, env: EnvView)
    requires
        0 <= i <= items.len(),
        acc.len() == i,
    ensures
        values_from(items, i, acc, env) matches Ok(vs) ==> vs.len() == items.len() && vs.take(i)
            == acc && (forall|j: int|
            i <= j < items.len() ==> value_of(#[trigger] items[j], env) == Ok::<
                DatumView,
                EvalErrorView,
            >(vs[j])),
    decreases items.len() - i,
{
    if i < items.len() {
        if let Ok(v) = value_of(items[i], env) {
            lemma_values(items, i + 1, acc.push(v), env);
            if let Ok(vs) = values_from(items, i + 1, acc.push(v), env) {
                assert(vs.take(i + 1)[i] == v);
                assert(vs.take(i) =~= vs.take(i + 1).take(i));
                assert(acc.push(v).take(i) =~= acc);
            }
        }
    } else {
        assert(acc.take(i) =~= acc);
    }
}

/// A keyword map holds under a keyword what the last pair with it evaluates to
/// on its own, and nothing under any other name.
pub proof fn law_maps_evaluate_keywise(items: Seq<SxView>, env: EnvView, key: Seq<char>)
    requires
        alternates(items, 0),
        pairs_from(items, 0, Seq::empty(), env) is Ok,
    ensures
        ({
            let m = pairs_from(items, 0, Seq::empty(), env)->Ok_0;
            match clause_from(items, key, 0, None) {
                Some(x) => value_of(x, env) is Ok && lookup(m, key) == Some(
                    value_of(x, env)->Ok_0,
                ),
                None => lookup(m, key) is None,
            }
        }),
{
    lemma_pairs(items, 0, Seq::empty(), env, key);
}

proof fn lemma_pairs(
    items: Seq<SxView>,
    i: int,
    acc: Seq<(Seq<char>, DatumView)>,
    env: EnvView,
    key: Seq<char>,
)
    requires
        0 <= i,
        alternates(items, i),
    ensures
        pairs_from(items, i, acc, env) matches Ok(m) ==> match clause_from(items, key, i, None) {
            Some(x) => value_of(x, env) is Ok && lookup(m, key) == Some(value_of(x, env)->Ok_0),
            None => lookup(m, key) == lookup(acc, key),
        },
    decreases items.len() - i,
{
    if i + 1 < items.len() {
        lemma_clause_found(items, key, i + 2, Some(items[i + 1]));
        if let Ok(v) = value_of(items[i + 1], env) {
            let k = nth_kw(items, i)->0;
            law_insert_then_read(acc, k, v, key);
            lemma_pairs(items, i + 2, upsert(acc, k, v), env, key);
        }
    }
}

/// An output is under its name what its last pair evaluates to, and no other
/// name has one.
pub proof fn law_outputs_evaluate_keywise(items: Seq<SxView>, env: EnvView, key: Seq<char>)
    requires
        named_from(items, 0, Seq::empty(), outputs_style(), env) is Ok,
    ensures
        ({
            let m = named_from(items, 0, Seq::empty(), outputs_style(), env)->Ok_0;
            match clause_from(items, key, 0, None) {
                Some(x) => value_of(x, env) is Ok && lookup(m, key) == Some(
                    value_of(x, env)->Ok_0,
                ),
                None => lookup(m, key) is None,
            }
        }),
{
    lemma_outputs(items, 0, Seq::empty(), env);
    law_maps_evaluate_keywise(items, env, key);
}

proof fn lemma_outputs(
    items: Seq<SxView>,
    j: int,
    acc: Seq<(Seq<char>, DatumView)>,
    env: EnvView,
)
    requires
        0 <= j,
    ensures
        named_from(items, j, acc, outputs_style(), env) matches Ok(m) ==> alternates(items, j)
            && pairs_from(items, j, acc, env) == Ok::<
            Seq<(Seq<char>, DatumView)>,
            EvalErrorView,
        >(m),
    decreases items.len() - j,
{
    if j + 1 < items.len() {
        if let Some(k) = items[j].as_kw() {
            if let Ok(v) = value_of(items[j + 1], env) {
                lemma_outputs(items, j + 2, upsert(acc, k, v), env);
            }
        }
    }
}

/// Entries whose names are type names, each once.
pub open spec fn clean_names(m: Seq<(Seq<char>, DatumView)>) -> bool {
    distinct_keys(m) && forall|i: int|
        0 <= i < m.len() ==> !has_char((#[trigger] m[i]).0, '-')
}

proof fn lemma_clean_upsert(m: Seq<(Seq<char>, DatumView)>, k: Seq<char>, v: DatumView)
    requires
        clean_names(m),
    ensures
        clean_names(upsert(m, type_id(k), v)),
{
    law_type_id_has_no_dash(k);
    law_insert_then_read(m, type_id(k), v, k);
    lemma_position(m, type_id(k));
}

proof fn lemma_clean_parts(xs: Seq<SxView>, i: int, p: ResourceParts, env: EnvView)
    requires
        0 <= i,
        clean_names(p.attributes),
    ensures
        parts_from(xs, i, p, env) matches Ok(q) ==> clean_names(q.attributes),
    decreases xs.len() - i,
{
    if i + 1 < xs.len() {
        if let Some(k) = xs[i].as_kw() {
            if let Ok(emit) = predicate(xs[i + 1], env) {
                lemma_clean_parts(xs, i + 2, ResourceParts { emit, ..p }, env);
            }
            if let Some(n) = xs[i + 1].as_int() {
                lemma_clean_parts(
                    xs,
                    i + 2,
                    ResourceParts { multiplicity: Some(MultiplicityView::Count(n)), ..p },
                    env,
                );
            }
            if let Some(items) = xs[i + 1].as_list() {
                if let Ok(m) = each_from(items, 0, Seq::empty(), env) {
                    lemma_clean_parts(
                        xs,
                        i + 2,
                        ResourceParts { multiplicity: Some(MultiplicityView::ForEach(m)), ..p },
                        env,
                    );
                }
            }
            if let Ok(v) = value_of(xs[i + 1], env) {
                lemma_clean_upsert(p.attributes, k, v);
                lemma_clean_parts(
                    xs,
                    i + 2,
                    ResourceParts { attributes: upsert(p.attributes, type_id(k), v), ..p },
                    env,
                );
            }
        }
    }
}

/// The type and the attributes of a resource have names without dashes, and no
/// attribute stands twice.
pub proof fn law_resource_names_have_no_dash(r: SxView, env: EnvView)
    ensures
        resource_of(r, env) matches Ok(Some(x)) ==> !has_char(x.type_id, '-') && clean_names(
            x.attributes,
        ),
{
    if let Some(xs) = r.as_list() {
        lemma_clean_parts(xs, 2, no_parts(), env);
        if let Some(head) = nth_sym(xs, 0) {
            law_type_id_has_no_dash(head);
        }
    }
}

proof fn lemma_clean_named(
    items: Seq<SxView>,
    j: int,
    acc: Seq<(Seq<char>, DatumView)>,
    env: EnvView,
)
    requires
        0 <= j,
        clean_names(acc),
    ensures
        named_from(items, j, acc, locals_style(), env) matches Ok(m) ==> clean_names(m),
    decreases items.len() - j,
{
    if j + 1 < items.len() {
        if let Some(k) = items[j].as_kw() {
            if let Ok(v) = value_of(items[j + 1], env) {
                lemma_clean_upsert(acc, k, v);
                lemma_clean_named(items, j + 2, upsert(acc, type_id(k), v), env);
            }
        }
    }
}

/// Locals have names without dashes, each once.
pub proof fn law_local_names_have_no_dash(items: Seq<SxView>, env: EnvView)
    ensures
        named_from(items, 0, Seq::empty(), locals_style(), env) matches Ok(m) ==> clean_names(m),
{
    lemma_clean_named(items, 0, Seq::empty(), env);
}

} // verus!
