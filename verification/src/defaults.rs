//! What the inputs of a caller and the defaults of a form do for one another.
//!
//! A caller's binding does what a default written in its place does, and a
//! binding for a name that the form does not declare does nothing.
use crate::error::EvalErrorView;
use crate::eval::{
    bind_input, form_arch, forms_arch, inputs_from, source_arch, words_from, InputsView,
};
use crate::forms::{clause_from, form_from, nth_kw};
use crate::sexpr::{read_all, AtomView, SxView};
use crate::template::EnvView;
use vstd::prelude::*;

verus! {

/// Whether an input pair `(:key …)` declares a name.
pub open spec fn declares(pair: SxView, key: Seq<char>) -> bool {
    pair.as_list() matches Some(xs) && nth_kw(xs, 0) == Some(key)
}

/// Whether the architecture form among the forms declares an input.
pub open spec fn declared(forms: Seq<SxView>, key: Seq<char>) -> bool {
    form_from(forms, "deflava-architecture"@, 0) matches Some(xs) && clause_from(
        xs,
        "inputs"@,
        2,
        None,
    ) matches Some(x) && x.as_list() matches Some(pairs) && exists|i: int|
        0 <= i < pairs.len() && declares(#[trigger] pairs[i], key)
}

/// An input pair with its default written anew, if it declares the name.
pub open spec fn pair_with(pair: SxView, key: Seq<char>, d: SxView) -> SxView {
    match pair {
        SxView::List(xs) if declares(pair, key) => if xs.len() == 1 {
            SxView::List(xs.push(d))
        } else {
            SxView::List(xs.update(1, d))
        },
        _ => pair,
    }
}

/// Input pairs with the default of a name written anew.
pub open spec fn pairs_with(pairs: Seq<SxView>, key: Seq<char>, d: SxView) -> Seq<SxView> {
    pairs.map_values(|p: SxView| pair_with(p, key, d))
}

/// An `:inputs` clause with the default of a name written anew.
pub open spec fn clause_with(x: SxView, key: Seq<char>, d: SxView) -> SxView {
    match x {
        SxView::List(pairs) => SxView::List(pairs_with(pairs, key, d)),
        _ => x,
    }
}

/// The items of an architecture form with the default of an input written anew.
pub open spec fn items_with(xs: Seq<SxView>, key: Seq<char>, d: SxView) -> Seq<SxView> {
    Seq::new(
        xs.len(),
        |i: int|
            if i >= 3 && i % 2 == 1 && xs[i - 1].as_kw() == Some("inputs"@) {
                clause_with(xs[i], key, d)
            } else {
                xs[i]
            },
    )
}

/// A string as a form.
pub open spec fn str_form(s: Seq<char>) -> SxView {
    SxView::Atom(AtomView::Str(s))
}

/// A list of strings as a form.
pub open spec fn strs_form(ws: Seq<Seq<char>>) -> SxView {
    SxView::List(ws.map_values(|w: Seq<char>| str_form(w)))
}

/// Whether two callers bind a name alike.
spec fn alike(a: InputsView, b: InputsView, key: Seq<char>) -> bool {
    &&& a.scalars.dom().contains(key) == b.scalars.dom().contains(key)
    &&& a.lists.dom().contains(key) == b.lists.dom().contains(key)
    &&& a.scalars.dom().contains(key) ==> a.scalars[key] == b.scalars[key]
    &&& a.lists.dom().contains(key) ==> a.lists[key] == b.lists[key]
}

/// Only what the callers bind for the declared names counts.
proof fn lemma_inputs_alike(
    pairs: Seq<SxView>,
    i: int,
    env: EnvView,
    a: InputsView,
    b: InputsView,
)
    requires
        0 <= i,
        forall|j: int, key: Seq<char>|
            0 <= j < pairs.len() && #[trigger] declares(pairs[j], key) ==> alike(a, b, key),
    ensures
        inputs_from(pairs, i, env, a) == inputs_from(pairs, i, env, b),
    decreases pairs.len() - i,
{
    if i < pairs.len() {
        if let Some(xs) = pairs[i].as_list() {
            if let Some(key) = nth_kw(xs, 0) {
                assert(declares(pairs[i], key));
            }
        }
        assert(bind_input(pairs[i], env, a) == bind_input(pairs[i], env, b));
        if let Ok(next) = bind_input(pairs[i], env, a) {
            lemma_inputs_alike(pairs, i + 1, next, a, b);
        }
    }
}

/// An architecture form looks only at what the callers bind for the names that
/// it declares.
proof fn lemma_forms_alike(forms: Seq<SxView>, a: InputsView, b: InputsView)
    requires
        forall|key: Seq<char>| #[trigger] declared(forms, key) ==> alike(a, b, key),
    ensures
        forms_arch(forms, a) == forms_arch(forms, b),
{
    if let Some(xs) = form_from(forms, "deflava-architecture"@, 0) {
        if let Some(x) = clause_from(xs, "inputs"@, 2, None) {
            if let Some(pairs) = x.as_list() {
                assert forall|j: int, key: Seq<char>|
                    0 <= j < pairs.len() && #[trigger] declares(pairs[j], key) implies alike(
                    a,
                    b,
                    key,
                ) by {
                    assert(declared(forms, key));
                }
                lemma_inputs_alike(pairs, 0, EnvView::empty(), a, b);
            }
        }
    }
}

/// A binding for a name that the architecture does not declare is invisible.
pub proof fn law_undeclared_bindings_are_invisible(
    src: Seq<char>,
    b: InputsView,
    key: Seq<char>,
    s: Seq<char>,
    ws: Seq<Seq<char>>,
)
    requires
        read_all(src, 0) matches Ok(forms) ==> !declared(forms, key),
    ensures
        source_arch(src, (InputsView { scalars: b.scalars.insert(key, s), ..b })) == source_arch(
            src,
            b,
        ),
        source_arch(src, (InputsView { lists: b.lists.insert(key, ws), ..b })) == source_arch(
            src,
            b,
        ),
{
    if let Ok(forms) = read_all(src, 0) {
        lemma_forms_alike(forms, InputsView { scalars: b.scalars.insert(key, s), ..b }, b);
        lemma_forms_alike(forms, InputsView { lists: b.lists.insert(key, ws), ..b }, b);
    }
}

/// The strings of a list of strings are those strings.
proof fn lemma_words(ws: Seq<Seq<char>>, i: int)
    requires
        0 <= i <= ws.len(),
    ensures
        words_from(strs_form(ws)->List_0, i, ws.take(i)) == Ok::<Seq<Seq<char>>, EvalErrorView>(ws),
    decreases ws.len() - i,
{
    if i < ws.len() {
        lemma_words(ws, i + 1);
        assert(ws.take(i + 1) =~= ws.take(i).push(ws[i]));
    } else {
        assert(ws.take(i) =~= ws);
    }
}

/// Whether a caller binds a name to what a form stands for as a default, and
/// another caller leaves it open, both binding all other names alike.
spec fn in_place_of(a: InputsView, b: InputsView, key: Seq<char>, d: SxView) -> bool {
    &&& !b.scalars.dom().contains(key)
    &&& !b.lists.dom().contains(key)
    &&& forall|other: Seq<char>| other != key ==> #[trigger] alike(a, b, other)
    &&& match d {
        SxView::Atom(AtomView::Str(s)) => a.scalars.dom().contains(key) && a.scalars[key] == s,
        SxView::List(items) => !a.scalars.dom().contains(key) && a.lists.dom().contains(key)
            && words_from(items, 0, Seq::empty()) == Ok::<Seq<Seq<char>>, EvalErrorView>(
            a.lists[key],
        ),
        _ => false,
    }
}

proof fn lemma_inputs_with(
    pairs: Seq<SxView>,
    i: int,
    env: EnvView,
    a: InputsView,
    b: InputsView,
    key: Seq<char>,
    d: SxView,
)
    requires
        0 <= i,
        in_place_of(a, b, key, d),
    ensures
        inputs_from(pairs, i, env, a) == inputs_from(pairs_with(pairs, key, d), i, env, b),
    decreases pairs.len() - i,
{
    if i < pairs.len() {
        let p = pairs[i];
        let q = pairs_with(pairs, key, d)[i];
        assert(q == pair_with(p, key, d));
        if let Some(xs) = p.as_list() {
            if let Some(other) = nth_kw(xs, 0) {
                assert(other != key ==> alike(a, b, other));
            }
        }
        assert(bind_input(p, env, a) == bind_input(q, env, b));
        if let Ok(next) = bind_input(p, env, a) {
            lemma_inputs_with(pairs, i + 1, next, a, b, key, d);
        }
    }
}

/// Writing a default anew changes the `:inputs` clause and no other.
proof fn lemma_clause_with(
    xs: Seq<SxView>,
    name: Seq<char>,
    i: int,
    found: Option<SxView>,
    key: Seq<char>,
    d: SxView,
)
    requires
        i >= 2,
        i % 2 == 0,
    ensures
        name != "inputs"@ ==> clause_from(items_with(xs, key, d), name, i, found) == clause_from(
            xs,
            name,
            i,
            found,
        ),
        name == "inputs"@ ==> clause_from(
            items_with(xs, key, d),
            name,
            i,
            option_with(found, key, d),
        ) == option_with(clause_from(xs, name, i, found), key, d),
    decreases xs.len() - i,
{
    if i + 1 < xs.len() {
        let ys = items_with(xs, key, d);
        assert(ys[i] == xs[i]);
        if xs[i].as_kw() == Some("inputs"@) {
            assert(ys[i + 1] == clause_with(xs[i + 1], key, d));
        } else {
            assert(ys[i + 1] == xs[i + 1]);
        }
        lemma_clause_with(xs, name, i + 2, found, key, d);
        lemma_clause_with(xs, name, i + 2, Some(xs[i + 1]), key, d);
    }
}

/// An optional `:inputs` clause with the default of a name written anew.
spec fn option_with(x: Option<SxView>, key: Seq<char>, d: SxView) -> Option<SxView> {
    match x {
        Some(c) => Some(clause_with(c, key, d)),
        None => None,
    }
}

proof fn lemma_form_with(xs: Seq<SxView>, a: InputsView, b: InputsView, key: Seq<char>, d: SxView)
    requires
        in_place_of(a, b, key, d),
    ensures
        form_arch(xs, a) == form_arch(items_with(xs, key, d), b),
{
    reveal_strlit("inputs");
    reveal_strlit("resources");
    reveal_strlit("data");
    reveal_strlit("outputs");
    reveal_strlit("providers");
    reveal_strlit("locals");
    lemma_clause_with(xs, "inputs"@, 2, None, key, d);
    lemma_clause_with(xs, "resources"@, 2, None, key, d);
    lemma_clause_with(xs, "data"@, 2, None, key, d);
    lemma_clause_with(xs, "outputs"@, 2, None, key, d);
    lemma_clause_with(xs, "providers"@, 2, None, key, d);
    lemma_clause_with(xs, "locals"@, 2, None, key, d);
    if let Some(SxView::List(pairs)) = clause_from(xs, "inputs"@, 2, None) {
        lemma_inputs_with(pairs, 0, EnvView::empty(), a, b, key, d);
    }
}

/// A binding does what a default written in its place does: a source gives
/// under a binding of a string, or of a list of strings, what a source whose
/// architecture form has it as the default of that input gives where the caller
/// leaves the input open. They agree in the architecture and in every failure.
pub proof fn law_a_binding_stands_for_a_default(
    src: Seq<char>,
    other: Seq<char>,
    xs: Seq<SxView>,
    b: InputsView,
    key: Seq<char>,
    s: Seq<char>,
    ws: Seq<Seq<char>>,
)
    requires
        read_all(src, 0) matches Ok(forms) && form_from(forms, "deflava-architecture"@, 0) == Some(
            xs,
        ),
        !b.scalars.dom().contains(key),
        !b.lists.dom().contains(key),
    ensures
        (read_all(other, 0) matches Ok(others) && form_from(others, "deflava-architecture"@, 0)
            == Some(items_with(xs, key, str_form(s)))) ==> source_arch(
            src,
            (InputsView { scalars: b.scalars.insert(key, s), ..b }),
        ) == source_arch(other, b),
        (read_all(other, 0) matches Ok(others) && form_from(others, "deflava-architecture"@, 0)
            == Some(items_with(xs, key, strs_form(ws)))) ==> source_arch(
            src,
            (InputsView { lists: b.lists.insert(key, ws), ..b }),
        ) == source_arch(other, b),
{
    let one = InputsView { scalars: b.scalars.insert(key, s), ..b };
    let many = InputsView { lists: b.lists.insert(key, ws), ..b };
    lemma_words(ws, 0);
    assert(ws.take(0) =~= Seq::empty());
    assert(in_place_of(one, b, key, str_form(s)));
    assert(in_place_of(many, b, key, strs_form(ws)));
    lemma_form_with(xs, one, b, key, str_form(s));
    lemma_form_with(xs, many, b, key, strs_form(ws));
}

} // verus!
