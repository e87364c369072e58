//! What values are, form by form.
//!
//! A list is described by what one more item adds to it.
use crate::datum::{DatumView, ResourceRefView};
use crate::entries::upsert;
use crate::error::EvalErrorView;
use crate::eval::{
    alternates, pairs_from, resource_of, starts_tagged, tags_from, value_of, values_from,
};
use crate::sexpr::{AtomView, SxView};
use crate::template::{
    full_var, interpolated, law_a_full_variable_is_a_name_in_braces, law_full_variables_are_trimmed,
    law_other_texts_are_no_full_variable, law_plain_text_is_kept, type_id, EnvView,
};
use crate::text::{find_from, is_white, lemma_find_from, trimmed};
use vstd::prelude::*;

verus! {

/// Booleans and integers stand for themselves, so does a string without an
/// opening brace, and a keyword is no value.
pub proof fn law_plain_atoms_stand_for_themselves(
    b: bool,
    n: i64,
    s: Seq<char>,
    env: EnvView,
)
    ensures
        value_of(SxView::Atom(AtomView::Bool(b)), env) == Ok::<DatumView, EvalErrorView>(
            DatumView::Bool(b),
        ),
        value_of(SxView::Atom(AtomView::Int(n)), env) == Ok::<DatumView, EvalErrorView>(
            DatumView::Int(n),
        ),
        value_of(SxView::Atom(AtomView::Kw(s)), env) == Err::<DatumView, EvalErrorView>(
            EvalErrorView::Type("value (not kw)"@),
        ),
        !s.contains('{') ==> value_of(SxView::Atom(AtomView::Str(s)), env) == Ok::<
            DatumView,
            EvalErrorView,
        >(DatumView::Str(s)),
{
    if !s.contains('{') {
        law_other_texts_are_no_full_variable(s);
        lemma_find_from(s, '{', 0);
        if let Some(k) = find_from(s, '{', 0) {
            assert(s[k] == '{');
        }
        law_plain_text_is_kept(s, env);
    }
}

/// A list of strings as a value.
pub open spec fn string_list(items: Seq<Seq<char>>) -> DatumView {
    DatumView::List(Seq::new(items.len(), |i: int| DatumView::Str(items[i])))
}

/// A symbol stands for the loop variable of its name, else for the input, else
/// for the list, as it is bound; an unbound one is a fault.
pub proof fn law_symbols_stand_for_their_bindings(s: Seq<char>, env: EnvView)
    ensures
        value_of(SxView::Atom(AtomView::Sym(s)), env) == if env.loop_scalars.dom().contains(s) {
            Ok::<DatumView, EvalErrorView>(DatumView::Str(env.loop_scalars[s]))
        } else if env.scalars.dom().contains(s) {
            Ok(DatumView::Str(env.scalars[s]))
        } else if env.lists.dom().contains(s) {
            Ok(string_list(env.lists[s]))
        } else {
            Err(EvalErrorView::UnknownVar(s))
        },
{
    if env.lists.dom().contains(s) {
        let items = env.lists[s];
        assert(crate::datum::strings_view(items)->List_0 =~= string_list(items)->List_0);
    }
}

/// A string that is a name in braces stands for the list of that name, where
/// there is one; every other string stands for its interpolation.
pub proof fn law_strings_stand_for_lists_or_their_interpolation(
    a: Seq<char>,
    name: Seq<char>,
    b: Seq<char>,
    raw: Seq<char>,
    env: EnvView,
)
    requires
        forall|i: int| 0 <= i < a.len() ==> is_white(#[trigger] a[i]),
        forall|i: int| 0 <= i < b.len() ==> is_white(#[trigger] b[i]),
        name.len() > 0,
        !name.contains('{') && !name.contains('}') && !name.contains('+') && !name.contains('-'),
    ensures
        env.lists.dom().contains(name) ==> value_of(
            SxView::Atom(AtomView::Str(a + (seq!['{'] + name + seq!['}']) + b)),
            env,
        ) == Ok::<DatumView, EvalErrorView>(string_list(env.lists[name])),
        (forall|n: Seq<char>| #[trigger]
            env.lists.dom().contains(n) && n.len() > 0 && !n.contains('{') && !n.contains('}')
                && !n.contains('+') && !n.contains('-') ==> trimmed(raw) != seq!['{'] + n
                + seq!['}']) ==> value_of(
            SxView::Atom(AtomView::Str(raw)),
            env,
        ) == match interpolated(raw, env) {
            Ok(s) => Ok::<DatumView, EvalErrorView>(DatumView::Str(s)),
            Err(e) => Err(e),
        },
{
    law_a_full_variable_is_a_name_in_braces(a, name, b);
    if env.lists.dom().contains(name) {
        let items = env.lists[name];
        assert(crate::datum::strings_view(items)->List_0 =~= string_list(items)->List_0);
    }
    law_other_texts_are_no_full_variable(raw);
    if let Some(n) = full_var(raw) {
        let t = seq!['{'] + n + seq!['}'];
        let none = Seq::<char>::empty();
        law_a_full_variable_is_a_name_in_braces(none, n, none);
        assert(none + t + none =~= t);
        law_full_variables_are_trimmed(raw, t);
    }
}

/// `(ref type "name" attribute)` points at the attribute of the resource with
/// that type and name. A name without braces is kept as it is written. What
/// lacks a part is a fault that names the part.
pub proof fn law_references_point_where_they_say(items: Seq<SxView>, env: EnvView)
    requires
        items.len() > 0,
        items[0] == SxView::Atom(AtomView::Sym("ref"@)),
    ensures
        items.len() < 2 || !(items[1] matches SxView::Atom(AtomView::Sym(_))) ==> value_of(
            SxView::List(items),
            env,
        ) == Err::<DatumView, EvalErrorView>(EvalErrorView::BadRef("type"@)),
        items.len() >= 2 && (items[1] matches SxView::Atom(AtomView::Sym(_))) && (items.len() < 3
            || !(items[2] matches SxView::Atom(AtomView::Str(_)))) ==> value_of(
            SxView::List(items),
            env,
        ) == Err::<DatumView, EvalErrorView>(EvalErrorView::BadRef("name"@)),
        items.len() >= 3 && (items[1] matches SxView::Atom(AtomView::Sym(_))) && (
        items[2] matches SxView::Atom(AtomView::Str(_))) && (items.len() < 4 || !(
        items[3] matches SxView::Atom(AtomView::Sym(_)))) ==> value_of(SxView::List(items), env)
            == Err::<DatumView, EvalErrorView>(EvalErrorView::BadRef("attr"@)),
        items.len() >= 4 ==> match (items[1], items[2], items[3]) {
            (
                SxView::Atom(AtomView::Sym(t)),
                SxView::Atom(AtomView::Str(raw)),
                SxView::Atom(AtomView::Sym(attribute)),
            ) => {
                &&& value_of(SxView::List(items), env) == match interpolated(raw, env) {
                    Ok(name) => Ok::<DatumView, EvalErrorView>(
                        DatumView::Ref(ResourceRefView { type_id: type_id(t), name, attribute }),
                    ),
                    Err(e) => Err(e),
                }
                &&& !raw.contains('{') ==> value_of(SxView::List(items), env) == Ok::<
                    DatumView,
                    EvalErrorView,
                >(DatumView::Ref(ResourceRefView { type_id: type_id(t), name: raw, attribute }))
            },
            _ => true,
        },
{
    if items.len() >= 3 {
        if let SxView::Atom(AtomView::Str(raw)) = items[2] {
            if !raw.contains('{') {
                lemma_find_from(raw, '{', 0);
                if let Some(k) = find_from(raw, '{', 0) {
                    assert(raw[k] == '{');
                }
                law_plain_text_is_kept(raw, env);
            }
        }
    }
}

/// A reference and a resource that are written with one type symbol and one
/// name string agree: where the form declares a resource, the reference points
/// at it, by its type and by its name.
pub proof fn law_a_reference_names_its_resource(
    xs: Seq<SxView>,
    items: Seq<SxView>,
    attribute: Seq<char>,
    env: EnvView,
)
    requires
        xs.len() >= 2,
        items.len() >= 4,
        items[0] == SxView::Atom(AtomView::Sym("ref"@)),
        items[1] == xs[0],
        items[2] == xs[1],
        items[3] == SxView::Atom(AtomView::Sym(attribute)),
    ensures
        resource_of(SxView::List(xs), env) matches Ok(Some(r)) ==> value_of(
            SxView::List(items),
            env,
        ) == Ok::<DatumView, EvalErrorView>(
            DatumView::Ref(ResourceRefView { type_id: r.type_id, name: r.name, attribute }),
        ),
{
}

// ---------------------------------------------------------------------
// Arrays
// ---------------------------------------------------------------------

/// Whether a list that starts with an item is an array: the item is no keyword,
/// not the symbol `ref`, and no tag pair, that is no list that a symbol heads
/// unless it is a reference.
pub open spec fn starts_array(x: SxView) -> bool {
    match x {
        SxView::Atom(AtomView::Kw(_)) => false,
        SxView::Atom(AtomView::Sym(s)) => s != "ref"@,
        SxView::Atom(_) => true,
        SxView::List(p) => !(p.len() > 0 && (p[0] matches SxView::Atom(AtomView::Sym(_))) && !(p[0]
            == SxView::Atom(AtomView::Sym("ref"@)) && p.len() > 1 && (p[1] matches SxView::Atom(
            AtomView::Sym(_),
        )))),
    }
}

proof fn lemma_value_added(
    items: Seq<SxView>,
    x: SxView,
    i: int,
    acc: Seq<DatumView>,
    env: EnvView,
)
    requires
        0 <= i <= items.len(),
    ensures
        values_from(items.push(x), i, acc, env) == match values_from(items, i, acc, env) {
            Err(e) => Err::<Seq<DatumView>, EvalErrorView>(e),
            Ok(vs) => match value_of(x, env) {
                Ok(v) => Ok(vs.push(v)),
                Err(e) => Err(e),
            },
        },
    decreases items.len() - i,
{
    let more = items.push(x);
    if i < items.len() {
        assert(more[i] == items[i]);
        if let Ok(v) = value_of(items[i], env) {
            lemma_value_added(items, x, i + 1, acc.push(v), env);
        }
    } else {
        assert(more[i] == x);
        if let Ok(v) = value_of(x, env) {
            assert(values_from(more, i + 1, acc.push(v), env) == Ok::<
                Seq<DatumView>,
                EvalErrorView,
            >(acc.push(v)));
        }
    }
}

/// An array holds the values of its items, one for each and in order, and fails
/// as the first of them that fails does. The empty list is the empty array.
pub proof fn law_arrays_hold_their_items(items: Seq<SxView>, x: SxView, env: EnvView)
    ensures
        value_of(SxView::List(Seq::empty()), env) == Ok::<DatumView, EvalErrorView>(
            DatumView::List(Seq::empty()),
        ),
        starts_array(x) ==> value_of(SxView::List(seq![x]), env) == match value_of(x, env) {
            Ok(v) => Ok::<DatumView, EvalErrorView>(DatumView::List(seq![v])),
            Err(e) => Err(e),
        },
        items.len() > 0 && starts_array(items[0]) ==> (value_of(
            SxView::List(items),
            env,
        ) matches Ok(w) ==> w is List),
        items.len() > 0 && starts_array(items[0]) ==> value_of(SxView::List(items.push(x)), env)
            == match value_of(SxView::List(items), env) {
            Err(e) => Err::<DatumView, EvalErrorView>(e),
            Ok(w) => match value_of(x, env) {
                Ok(v) => Ok(DatumView::List(w->List_0.push(v))),
                Err(e) => Err(e),
            },
        },
{
    let none = Seq::<SxView>::empty();
    let start = Seq::<DatumView>::empty();
    assert(values_from(none, 0, start, env) == Ok::<Seq<DatumView>, EvalErrorView>(start));
    lemma_value_added(none, x, 0, start, env);
    assert(none.push(x) =~= seq![x]);
    assert(seq![x][0] == x);
    if let Ok(v) = value_of(x, env) {
        assert(start.push(v) =~= seq![v]);
    }
    if starts_array(x) {
        lemma_array(seq![x], env);
    }
    if items.len() > 0 && starts_array(items[0]) {
        lemma_value_added(items, x, 0, start, env);
        assert(items.push(x)[0] == items[0]);
        lemma_array(items, env);
        lemma_array(items.push(x), env);
    }
}

proof fn lemma_array(items: Seq<SxView>, env: EnvView)
    requires
        items.len() > 0,
        starts_array(items[0]),
    ensures
        value_of(SxView::List(items), env) == match values_from(items, 0, Seq::empty(), env) {
            Ok(vs) => Ok::<DatumView, EvalErrorView>(DatumView::List(vs)),
            Err(e) => Err(e),
        },
{
    let x = items[0];
    assert(!starts_tagged(items));
}

// ---------------------------------------------------------------------
// Keyword maps
// ---------------------------------------------------------------------

/// Whether a list is made of keywords and their values, in turns.
pub open spec fn is_keyword_map(items: Seq<SxView>) -> bool {
    &&& items.len() > 0
    &&& items.len() % 2 == 0
    &&& forall|i: int|
        0 <= i < items.len() && i % 2 == 0 ==> (#[trigger] items[i] matches SxView::Atom(
            AtomView::Kw(_),
        ))
}

proof fn lemma_alternates(items: Seq<SxView>, i: int)
    requires
        0 <= i,
        i % 2 == 0,
    ensures
        i <= items.len() ==> (alternates(items, i) <==> (items.len() % 2 == 0 && forall|j: int|
            i <= j < items.len() && j % 2 == 0 ==> (#[trigger] items[j] matches SxView::Atom(
                AtomView::Kw(_),
            )))),
    decreases items.len() - i,
{
    if i + 1 < items.len() {
        lemma_alternates(items, i + 2);
        if items.len() % 2 == 0 && (forall|j: int|
            i <= j < items.len() && j % 2 == 0 ==> (#[trigger] items[j] matches SxView::Atom(
                AtomView::Kw(_),
            ))) {
            assert(items[i] matches SxView::Atom(AtomView::Kw(_)));
        }
        if alternates(items, i) {
            assert forall|j: int| i <= j < items.len() && j % 2 == 0 implies (
            #[trigger] items[j] matches SxView::Atom(AtomView::Kw(_))) by {
                if j > i {
                    assert(j >= i + 2);
                }
            }
        }
    }
}

proof fn lemma_pair_added(
    items: Seq<SxView>,
    k: Seq<char>,
    x: SxView,
    i: int,
    acc: Seq<(Seq<char>, DatumView)>,
    env: EnvView,
)
    requires
        0 <= i <= items.len(),
        (items.len() - i) % 2 == 0,
    ensures
        pairs_from(items.push(SxView::Atom(AtomView::Kw(k))).push(x), i, acc, env)
            == match pairs_from(items, i, acc, env) {
            Err(e) => Err::<Seq<(Seq<char>, DatumView)>, EvalErrorView>(e),
            Ok(m) => match value_of(x, env) {
                Ok(v) => Ok(upsert(m, k, v)),
                Err(e) => Err(e),
            },
        },
    decreases items.len() - i,
{
    let key = SxView::Atom(AtomView::Kw(k));
    let more = items.push(key).push(x);
    if i < items.len() {
        assert(more[i] == items[i] && more[i + 1] == items[i + 1]);
        if let Ok(v) = value_of(items[i + 1], env) {
            let name = crate::forms::nth_kw(items, i)->0;
            lemma_pair_added(items, k, x, i + 2, upsert(acc, name, v), env);
        }
    } else {
        assert(more[i] == key && more[i + 1] == x);
        if let Ok(v) = value_of(x, env) {
            assert(pairs_from(more, i + 2, upsert(acc, k, v), env) == Ok::<
                Seq<(Seq<char>, DatumView)>,
                EvalErrorView,
            >(upsert(acc, k, v)));
        }
    }
}

/// A keyword map holds under each keyword, as it is written, what its value
/// evaluates to: one more pair inserts its value. It fails as its first value
/// that fails does. A list that starts with a keyword and is no keyword map is
/// a fault.
pub proof fn law_keyword_maps_hold_their_pairs(
    items: Seq<SxView>,
    k: Seq<char>,
    x: SxView,
    env: EnvView,
)
    ensures
        value_of(SxView::List(seq![SxView::Atom(AtomView::Kw(k)), x]), env) == match value_of(
            x,
            env,
        ) {
            Ok(v) => Ok::<DatumView, EvalErrorView>(DatumView::Object(seq![(k, v)])),
            Err(e) => Err(e),
        },
        is_keyword_map(items) ==> (value_of(SxView::List(items), env) matches Ok(w) ==> w is Object),
        is_keyword_map(items) ==> value_of(
            SxView::List(items.push(SxView::Atom(AtomView::Kw(k))).push(x)),
            env,
        ) == match value_of(SxView::List(items), env) {
            Err(e) => Err::<DatumView, EvalErrorView>(e),
            Ok(w) => match value_of(x, env) {
                Ok(v) => Ok(DatumView::Object(upsert(w->Object_0, k, v))),
                Err(e) => Err(e),
            },
        },
        items.len() > 0 && (items[0] matches SxView::Atom(AtomView::Kw(_))) && !is_keyword_map(
            items,
        ) ==> value_of(SxView::List(items), env) == Err::<DatumView, EvalErrorView>(
            EvalErrorView::Type("tag pair list"@),
        ),
{
    let key = SxView::Atom(AtomView::Kw(k));
    let none = Seq::<SxView>::empty();
    let start = Seq::<(Seq<char>, DatumView)>::empty();
    let pair = seq![key, x];
    assert(none.push(key).push(x) =~= pair);
    assert(pair[0] == key);
    assert(pairs_from(none, 0, start, env) == Ok::<
        Seq<(Seq<char>, DatumView)>,
        EvalErrorView,
    >(start));
    lemma_pair_added(none, k, x, 0, start, env);
    assert forall|j: int| 0 <= j < pair.len() && j % 2 == 0 implies (
    #[trigger] pair[j] matches SxView::Atom(AtomView::Kw(_))) by {
        assert(j == 0);
    }
    lemma_alternates(pair, 0);
    lemma_keyword_map(pair, env);
    if let Ok(v) = value_of(x, env) {
        assert(upsert(start, k, v) =~= seq![(k, v)]);
    }
    lemma_alternates(items, 0);
    if is_keyword_map(items) {
        let more = items.push(key).push(x);
        assert(items[0] matches SxView::Atom(AtomView::Kw(_)));
        assert forall|j: int| 0 <= j < more.len() && j % 2 == 0 implies (
        #[trigger] more[j] matches SxView::Atom(AtomView::Kw(_))) by {
            if j < items.len() {
                assert(more[j] == items[j]);
            } else {
                assert(more[j] == key);
            }
        }
        lemma_alternates(more, 0);
        lemma_keyword_map(items, env);
        lemma_keyword_map(more, env);
        lemma_pair_added(items, k, x, 0, start, env);
    }
}

proof fn lemma_keyword_map(items: Seq<SxView>, env: EnvView)
    requires
        items.len() > 0,
        items[0] matches SxView::Atom(AtomView::Kw(_)),
        alternates(items, 0),
    ensures
        value_of(SxView::List(items), env) == match pairs_from(items, 0, Seq::empty(), env) {
            Ok(m) => Ok::<DatumView, EvalErrorView>(DatumView::Object(m)),
            Err(e) => Err(e),
        },
{
}

// ---------------------------------------------------------------------
// Tag pairs
// ---------------------------------------------------------------------

/// Whether a list that starts with an item is one of tag pairs: the item is a
/// list that a symbol heads, and no reference.
pub open spec fn starts_tags(x: SxView) -> bool {
    x matches SxView::List(p) && p.len() > 0 && (p[0] matches SxView::Atom(AtomView::Sym(_)))
        && !starts_array(x)
}

/// A map of tag pairs with one more pair.
pub open spec fn with_tag(m: Seq<(Seq<char>, DatumView)>, x: SxView, env: EnvView) -> Result<
    DatumView,
    EvalErrorView,
> {
    match x {
        SxView::Atom(_) => Err(EvalErrorView::Type("tag pair list"@)),
        SxView::List(p) => if p.len() == 0 || !(p[0] matches SxView::Atom(AtomView::Sym(_))) {
            Err(EvalErrorView::Type("tag key sym"@))
        } else if p.len() == 1 || !(p[1] matches SxView::Atom(AtomView::Str(_))) {
            Err(EvalErrorView::Type("tag val str"@))
        } else {
            match interpolated(p[1]->Atom_0->Str_0, env) {
                Ok(v) => Ok(DatumView::Object(upsert(m, p[0]->Atom_0->Sym_0, DatumView::Str(v)))),
                Err(e) => Err(e),
            }
        },
    }
}

proof fn lemma_tag_added(
    items: Seq<SxView>,
    x: SxView,
    i: int,
    acc: Seq<(Seq<char>, DatumView)>,
    env: EnvView,
)
    requires
        0 <= i <= items.len(),
    ensures
        tags_from(items, i, acc, env) matches Err(e) ==> tags_from(items.push(x), i, acc, env)
            == Err::<Seq<(Seq<char>, DatumView)>, EvalErrorView>(e),
        tags_from(items, i, acc, env) matches Ok(m) ==> match with_tag(m, x, env) {
            Ok(w) => tags_from(items.push(x), i, acc, env) == Ok::<
                Seq<(Seq<char>, DatumView)>,
                EvalErrorView,
            >(w->Object_0),
            Err(e) => tags_from(items.push(x), i, acc, env) == Err::<
                Seq<(Seq<char>, DatumView)>,
                EvalErrorView,
            >(e),
        },
    decreases items.len() - i,
{
    let more = items.push(x);
    if i < items.len() {
        assert(more[i] == items[i]);
        if let SxView::List(p) = items[i] {
            if p.len() > 1 {
                if let SxView::Atom(AtomView::Sym(k)) = p[0] {
                    if let SxView::Atom(AtomView::Str(raw)) = p[1] {
                        if let Ok(v) = interpolated(raw, env) {
                            lemma_tag_added(
                                items,
                                x,
                                i + 1,
                                upsert(acc, k, DatumView::Str(v)),
                                env,
                            );
                        }
                    }
                }
            }
        }
    } else {
        assert(more[i] == x);
        if let Ok(w) = with_tag(acc, x, env) {
            assert(tags_from(more, i + 1, w->Object_0, env) == Ok::<
                Seq<(Seq<char>, DatumView)>,
                EvalErrorView,
            >(w->Object_0));
        }
    }
}

/// Tag pairs `(Key "value")` make a map: each pair puts the interpolation of its
/// string under its symbol, as it is written. The first pair that fails is the
/// failure of the whole.
pub proof fn law_tag_pairs_make_a_map(items: Seq<SxView>, x: SxView, env: EnvView)
    ensures
        starts_tags(x) ==> value_of(SxView::List(seq![x]), env) == with_tag(Seq::empty(), x, env),
        items.len() > 0 && starts_tags(items[0]) ==> (value_of(
            SxView::List(items),
            env,
        ) matches Ok(w) ==> w is Object),
        items.len() > 0 && starts_tags(items[0]) ==> value_of(SxView::List(items.push(x)), env)
            == match value_of(SxView::List(items), env) {
            Err(e) => Err::<DatumView, EvalErrorView>(e),
            Ok(w) => with_tag(w->Object_0, x, env),
        },
{
    let none = Seq::<SxView>::empty();
    let start = Seq::<(Seq<char>, DatumView)>::empty();
    assert(tags_from(none, 0, start, env) == Ok::<
        Seq<(Seq<char>, DatumView)>,
        EvalErrorView,
    >(start));
    lemma_tag_added(none, x, 0, start, env);
    assert(none.push(x) =~= seq![x]);
    assert(seq![x][0] == x);
    if starts_tags(x) {
        lemma_tags(seq![x], env);
    }
    if items.len() > 0 && starts_tags(items[0]) {
        lemma_tag_added(items, x, 0, start, env);
        assert(items.push(x)[0] == items[0]);
        lemma_tags(items, env);
        lemma_tags(items.push(x), env);
    }
}

proof fn lemma_tags(items: Seq<SxView>, env: EnvView)
    requires
        items.len() > 0,
        starts_tags(items[0]),
    ensures
        value_of(SxView::List(items), env) == match tags_from(items, 0, Seq::empty(), env) {
            Ok(m) => Ok::<DatumView, EvalErrorView>(DatumView::Object(m)),
            Err(e) => Err(e),
        },
{
    let x = items[0];
    assert(starts_tagged(items));
}

} // verus!
