//! What an architecture is, clause by clause.
use crate::arch::{ArchitectureView, ProviderRefView, ResourceView};
use crate::datum::DatumView;
use crate::entries::upsert;
use crate::error::EvalErrorView;
use crate::eval::{
    bind_input, data_clause, data_from, form_arch, inputs_env, inputs_from, locals_style,
    named_from, outputs_style, provider_of, providers_clause, providers_from,
    resource_of, resources_clause, resources_from, resources_of, source_arch, value_of, words_from,
    InputsView, PairStyle,
};
use crate::forms::{clause_from, form_from, law_the_last_clause_counts};
use crate::sexpr::{read_all, AtomView, SxView};
use crate::template::{type_id, EnvView};
use vstd::prelude::*;

verus! {

// ---------------------------------------------------------------------
// Outputs and locals
// ---------------------------------------------------------------------

proof fn lemma_named_added(
    items: Seq<SxView>,
    k: SxView,
    x: SxView,
    i: int,
    acc: Seq<(Seq<char>, DatumView)>,
    style: PairStyle,
    env: EnvView,
)
    requires
        0 <= i <= items.len(),
        (items.len() - i) % 2 == 0,
    ensures
        named_from(items, i, acc, style, env) matches Err(e) ==> named_from(
            items.push(k).push(x),
            i,
            acc,
            style,
            env,
        ) == Err::<Seq<(Seq<char>, DatumView)>, EvalErrorView>(e) && named_from(
            items.push(k),
            i,
            acc,
            style,
            env,
        ) == Err::<Seq<(Seq<char>, DatumView)>, EvalErrorView>(e),
        named_from(items, i, acc, style, env) matches Ok(m) ==> match k {
            SxView::Atom(AtomView::Kw(name)) => {
                &&& named_from(items.push(k).push(x), i, acc, style, env) == match value_of(
                    x,
                    env,
                ) {
                    Ok(v) => Ok::<Seq<(Seq<char>, DatumView)>, EvalErrorView>(
                        upsert(
                            m,
                            if style.underscores {
                                type_id(name)
                            } else {
                                name
                            },
                            v,
                        ),
                    ),
                    Err(e) => Err(e),
                }
                &&& named_from(items.push(k), i, acc, style, env) == Err::<
                    Seq<(Seq<char>, DatumView)>,
                    EvalErrorView,
                >(EvalErrorView::NotArchForm(style.no_value))
            },
            _ => {
                &&& named_from(items.push(k).push(x), i, acc, style, env) == Err::<
                    Seq<(Seq<char>, DatumView)>,
                    EvalErrorView,
                >(EvalErrorView::NotArchForm(style.bad_key))
                &&& named_from(items.push(k), i, acc, style, env) == Err::<
                    Seq<(Seq<char>, DatumView)>,
                    EvalErrorView,
                >(EvalErrorView::NotArchForm(style.bad_key))
            },
        },
    decreases items.len() - i,
{
    let more = items.push(k).push(x);
    let lone = items.push(k);
    if i < items.len() {
        assert(more[i] == items[i] && more[i + 1] == items[i + 1]);
        assert(lone[i] == items[i] && lone[i + 1] == items[i + 1]);
        if let Some(key) = items[i].as_kw() {
            if let Ok(v) = value_of(items[i + 1], env) {
                lemma_named_added(
                    items,
                    k,
                    x,
                    i + 2,
                    upsert(
                        acc,
                        if style.underscores {
                            type_id(key)
                        } else {
                            key
                        },
                        v,
                    ),
                    style,
                    env,
                );
            }
        }
    } else {
        assert(more[i] == k && more[i + 1] == x);
        assert(lone[i] == k);
        reveal_with_fuel(named_from, 3);
    }
}

/// Outputs are pairs of a keyword and a value: one more pair inserts its value
/// under its keyword, as it is written. What is no keyword is a fault, and so is
/// a keyword without a value.
pub proof fn law_outputs_are_pairs(items: Seq<SxView>, k: SxView, x: SxView, env: EnvView)
    requires
        items.len() % 2 == 0,
    ensures
        named_from(Seq::empty(), 0, Seq::empty(), outputs_style(), env) == Ok::<
            Seq<(Seq<char>, DatumView)>,
            EvalErrorView,
        >(Seq::empty()),
        named_from(items, 0, Seq::empty(), outputs_style(), env) matches Err(e) ==> named_from(
            items.push(k).push(x),
            0,
            Seq::empty(),
            outputs_style(),
            env,
        ) == Err::<Seq<(Seq<char>, DatumView)>, EvalErrorView>(e),
        named_from(items, 0, Seq::empty(), outputs_style(), env) matches Ok(m) ==> named_from(
            items.push(k).push(x),
            0,
            Seq::empty(),
            outputs_style(),
            env,
        ) == match (k, value_of(x, env)) {
            (SxView::Atom(AtomView::Kw(name)), Ok(v)) => Ok::<
                Seq<(Seq<char>, DatumView)>,
                EvalErrorView,
            >(upsert(m, name, v)),
            (SxView::Atom(AtomView::Kw(name)), Err(e)) => Err(e),
            _ => Err(EvalErrorView::NotArchForm(":outputs head not :kw"@)),
        },
        named_from(items, 0, Seq::empty(), outputs_style(), env) is Ok ==> named_from(
            items.push(k),
            0,
            Seq::empty(),
            outputs_style(),
            env,
        ) == Err::<Seq<(Seq<char>, DatumView)>, EvalErrorView>(
            EvalErrorView::NotArchForm(
                if k matches SxView::Atom(AtomView::Kw(_)) {
                    ":outputs missing value"@
                } else {
                    ":outputs head not :kw"@
                },
            ),
        ),
{
    lemma_named_added(items, k, x, 0, Seq::empty(), outputs_style(), env);
}

/// Locals are pairs of a keyword and a value: one more pair inserts its value
/// under its keyword, with underscores for its dashes. What is no keyword is a
/// fault, and so is a keyword without a value.
pub proof fn law_locals_are_pairs(items: Seq<SxView>, k: SxView, x: SxView, env: EnvView)
    requires
        items.len() % 2 == 0,
    ensures
        named_from(Seq::empty(), 0, Seq::empty(), locals_style(), env) == Ok::<
            Seq<(Seq<char>, DatumView)>,
            EvalErrorView,
        >(Seq::empty()),
        named_from(items, 0, Seq::empty(), locals_style(), env) matches Err(e) ==> named_from(
            items.push(k).push(x),
            0,
            Seq::empty(),
            locals_style(),
            env,
        ) == Err::<Seq<(Seq<char>, DatumView)>, EvalErrorView>(e),
        named_from(items, 0, Seq::empty(), locals_style(), env) matches Ok(m) ==> named_from(
            items.push(k).push(x),
            0,
            Seq::empty(),
            locals_style(),
            env,
        ) == match (k, value_of(x, env)) {
            (SxView::Atom(AtomView::Kw(name)), Ok(v)) => Ok::<
                Seq<(Seq<char>, DatumView)>,
                EvalErrorView,
            >(upsert(m, type_id(name), v)),
            (SxView::Atom(AtomView::Kw(name)), Err(e)) => Err(e),
            _ => Err(EvalErrorView::NotArchForm(":locals head not :kw"@)),
        },
        named_from(items, 0, Seq::empty(), locals_style(), env) is Ok ==> named_from(
            items.push(k),
            0,
            Seq::empty(),
            locals_style(),
            env,
        ) == Err::<Seq<(Seq<char>, DatumView)>, EvalErrorView>(
            EvalErrorView::NotArchForm(
                if k matches SxView::Atom(AtomView::Kw(_)) {
                    ":locals missing value"@
                } else {
                    ":locals head not :kw"@
                },
            ),
        ),
{
    lemma_named_added(items, k, x, 0, Seq::empty(), locals_style(), env);
}

// ---------------------------------------------------------------------
// Inputs
// ---------------------------------------------------------------------

/// Whether every item is a string or a symbol.
pub open spec fn all_words(items: Seq<SxView>) -> bool {
    forall|i: int|
        0 <= i < items.len() ==> (#[trigger] items[i] matches SxView::Atom(AtomView::Str(_)))
            || (items[i] matches SxView::Atom(AtomView::Sym(_)))
}

/// The text of a string or symbol.
pub open spec fn word_text(x: SxView) -> Seq<char> {
    match x {
        SxView::Atom(AtomView::Str(s)) => s,
        SxView::Atom(AtomView::Sym(s)) => s,
        _ => Seq::empty(),
    }
}

proof fn lemma_words_read(items: Seq<SxView>, i: int, acc: Seq<Seq<char>>)
    requires
        0 <= i <= items.len(),
        acc == Seq::new(i as nat, |j: int| word_text(items[j])),
    ensures
        all_words(items) ==> words_from(items, i, acc) == Ok::<Seq<Seq<char>>, EvalErrorView>(
            Seq::new(items.len(), |j: int| word_text(items[j])),
        ),
        (exists|j: int|
            i <= j < items.len() && !(#[trigger] items[j] matches SxView::Atom(AtomView::Str(_)))
                && !(items[j] matches SxView::Atom(AtomView::Sym(_)))) ==> words_from(
            items,
            i,
            acc,
        ) == Err::<Seq<Seq<char>>, EvalErrorView>(EvalErrorView::Type("list of strings"@)),
    decreases items.len() - i,
{
    if i < items.len() {
        let next = Seq::new((i + 1) as nat, |j: int| word_text(items[j]));
        assert(acc.push(word_text(items[i])) =~= next);
        lemma_words_read(items, i + 1, next);
    }
}

/// The bindings with one more declared input: what the caller gives, a string
/// before a list, else the default that is declared.
pub open spec fn env_with(env: EnvView, p: SxView, b: InputsView) -> Result<
    EnvView,
    EvalErrorView,
> {
    match p {
        SxView::Atom(_) => Err(EvalErrorView::NotArchForm("input not a list"@)),
        SxView::List(xs) => if xs.len() == 0 || !(xs[0] matches SxView::Atom(AtomView::Kw(_))) {
            Err(EvalErrorView::NotArchForm("input head not :kw"@))
        } else {
            let key = xs[0]->Atom_0->Kw_0;
            let one = |s: Seq<char>| EnvView { scalars: env.scalars.insert(key, s), ..env };
            let many = |ws: Seq<Seq<char>>| EnvView { lists: env.lists.insert(key, ws), ..env };
            if b.scalars.dom().contains(key) {
                Ok(one(b.scalars[key]))
            } else if b.lists.dom().contains(key) {
                Ok(many(b.lists[key]))
            } else if xs.len() == 1 {
                Err(EvalErrorView::MissingInput(key))
            } else {
                match xs[1] {
                    SxView::Atom(AtomView::Str(s)) => Ok(one(s)),
                    SxView::Atom(AtomView::Sym(s)) => Ok(one(s)),
                    SxView::List(items) => if all_words(items) {
                        Ok(many(Seq::new(items.len(), |j: int| word_text(items[j]))))
                    } else {
                        Err(EvalErrorView::Type("list of strings"@))
                    },
                    _ => Err(EvalErrorView::Type("string | list"@)),
                }
            }
        },
    }
}

proof fn lemma_input_bound(env: EnvView, p: SxView, b: InputsView)
    ensures
        bind_input(p, env, b) == env_with(env, p, b),
{
    if let SxView::List(xs) = p {
        if xs.len() > 1 {
            if let SxView::List(items) = xs[1] {
                let none = Seq::new(0, |j: int| word_text(items[j]));
                assert(none =~= Seq::empty());
                lemma_words_read(items, 0, none);
            }
        }
    }
}

/// Inputs are declared one by one: one more binds its name, and nothing else
/// changes. The first that fails is the failure of the whole. Without a clause
/// nothing is bound.
pub proof fn law_inputs_are_bound_one_by_one(
    pairs: Seq<SxView>,
    p: SxView,
    a: AtomView,
    b: InputsView,
)
    ensures
        inputs_env(None, b) == Ok::<EnvView, EvalErrorView>(EnvView::empty()),
        inputs_env(Some(SxView::Atom(a)), b) == Err::<EnvView, EvalErrorView>(
            EvalErrorView::NotArchForm(":inputs not a list"@),
        ),
        inputs_env(Some(SxView::List(Seq::empty())), b) == Ok::<EnvView, EvalErrorView>(
            EnvView::empty(),
        ),
        inputs_env(Some(SxView::List(pairs.push(p))), b) == match inputs_env(
            Some(SxView::List(pairs)),
            b,
        ) {
            Ok(env) => env_with(env, p, b),
            Err(e) => Err(e),
        },
        EnvView::empty().scalars == Map::<Seq<char>, Seq<char>>::empty(),
        EnvView::empty().lists == Map::<Seq<char>, Seq<Seq<char>>>::empty(),
        EnvView::empty().loop_scalars == Map::<Seq<char>, Seq<char>>::empty(),
{
    lemma_input_added(pairs, p, 0, EnvView::empty(), b);
}

proof fn lemma_input_added(
    pairs: Seq<SxView>,
    p: SxView,
    i: int,
    env: EnvView,
    b: InputsView,
)
    requires
        0 <= i <= pairs.len(),
    ensures
        inputs_from(pairs.push(p), i, env, b) == match inputs_from(pairs, i, env, b) {
            Ok(out) => env_with(out, p, b),
            Err(e) => Err(e),
        },
    decreases pairs.len() - i,
{
    let more = pairs.push(p);
    if i < pairs.len() {
        assert(more[i] == pairs[i]);
        if let Ok(next) = bind_input(pairs[i], env, b) {
            lemma_input_added(pairs, p, i + 1, next, b);
        }
    } else {
        assert(more[i] == p);
        lemma_input_bound(env, p, b);
        reveal_with_fuel(inputs_from, 3);
    }
}

// ---------------------------------------------------------------------
// Resources, data sources and providers
// ---------------------------------------------------------------------

/// The forms of `:resources` are evaluated in order, each behind what those
/// before it gave; the first that fails is the failure of the whole. There must
/// be such a clause, and it must be a list.
pub proof fn law_resource_forms_are_evaluated_in_order(
    forms: Seq<SxView>,
    x: SxView,
    a: AtomView,
    env: EnvView,
)
    ensures
        resources_clause(None, env) == Err::<Seq<ResourceView>, EvalErrorView>(
            EvalErrorView::MissingClause("resources"@),
        ),
        resources_clause(Some(SxView::Atom(a)), env) == Err::<Seq<ResourceView>, EvalErrorView>(
            EvalErrorView::NotArchForm(":resources not a list"@),
        ),
        resources_clause(Some(SxView::List(Seq::empty())), env) == Ok::<
            Seq<ResourceView>,
            EvalErrorView,
        >(Seq::empty()),
        resources_clause(Some(SxView::List(forms.push(x))), env) == match resources_clause(
            Some(SxView::List(forms)),
            env,
        ) {
            Ok(rs) => resources_of(x, env, rs),
            Err(e) => Err(e),
        },
{
    lemma_resource_added(forms, x, 0, env, Seq::empty());
}

proof fn lemma_resource_added(
    forms: Seq<SxView>,
    x: SxView,
    i: int,
    env: EnvView,
    acc: Seq<ResourceView>,
)
    requires
        0 <= i <= forms.len(),
    ensures
        resources_from(forms.push(x), i, env, acc) == match resources_from(forms, i, env, acc) {
            Ok(rs) => resources_of(x, env, rs),
            Err(e) => Err(e),
        },
    decreases forms.len() - i,
{
    let more = forms.push(x);
    if i < forms.len() {
        assert(more[i] == forms[i]);
        if let Ok(next) = resources_of(forms[i], env, acc) {
            lemma_resource_added(forms, x, i + 1, env, next);
        }
    } else {
        assert(more[i] == x);
        reveal_with_fuel(resources_from, 3);
    }
}

/// The forms of `:data` declare data sources as those of `:resources` declare
/// resources, in order, but for loops, which they do not have.
pub proof fn law_data_sources_are_read_in_order(
    forms: Seq<SxView>,
    x: SxView,
    a: AtomView,
    env: EnvView,
)
    ensures
        data_clause(None, env) == Ok::<Seq<ResourceView>, EvalErrorView>(Seq::empty()),
        data_clause(Some(SxView::Atom(a)), env) == Err::<Seq<ResourceView>, EvalErrorView>(
            EvalErrorView::NotArchForm(":data not a list"@),
        ),
        data_clause(Some(SxView::List(Seq::empty())), env) == Ok::<
            Seq<ResourceView>,
            EvalErrorView,
        >(Seq::empty()),
        data_clause(Some(SxView::List(forms.push(x))), env) == match data_clause(
            Some(SxView::List(forms)),
            env,
        ) {
            Ok(ds) => match resource_of(x, env) {
                Ok(Some(r)) => Ok::<Seq<ResourceView>, EvalErrorView>(ds.push(r)),
                Ok(None) => Ok(ds),
                Err(e) => Err(e),
            },
            Err(e) => Err(e),
        },
{
    lemma_data_added(forms, x, 0, env, Seq::empty());
}

proof fn lemma_data_added(
    forms: Seq<SxView>,
    x: SxView,
    i: int,
    env: EnvView,
    acc: Seq<ResourceView>,
)
    requires
        0 <= i <= forms.len(),
    ensures
        data_from(forms.push(x), i, env, acc) == match data_from(forms, i, env, acc) {
            Ok(ds) => match resource_of(x, env) {
                Ok(Some(r)) => Ok::<Seq<ResourceView>, EvalErrorView>(ds.push(r)),
                Ok(None) => Ok(ds),
                Err(e) => Err(e),
            },
            Err(e) => Err(e),
        },
    decreases forms.len() - i,
{
    let more = forms.push(x);
    if i < forms.len() {
        assert(more[i] == forms[i]);
        lemma_data_added(forms, x, i + 1, env, acc);
        if let Ok(Some(r)) = resource_of(forms[i], env) {
            lemma_data_added(forms, x, i + 1, env, acc.push(r));
        }
    } else {
        assert(more[i] == x);
        reveal_with_fuel(data_from, 3);
    }
}

/// The forms of `:providers` declare one provider each, in order.
pub proof fn law_providers_are_read_in_order(
    forms: Seq<SxView>,
    x: SxView,
    a: AtomView,
    env: EnvView,
)
    ensures
        providers_clause(None, env) == Ok::<Seq<ProviderRefView>, EvalErrorView>(Seq::empty()),
        providers_clause(Some(SxView::Atom(a)), env) == Err::<
            Seq<ProviderRefView>,
            EvalErrorView,
        >(EvalErrorView::NotArchForm(":providers not a list"@)),
        providers_clause(Some(SxView::List(Seq::empty())), env) == Ok::<
            Seq<ProviderRefView>,
            EvalErrorView,
        >(Seq::empty()),
        providers_clause(Some(SxView::List(forms.push(x))), env) == match providers_clause(
            Some(SxView::List(forms)),
            env,
        ) {
            Ok(ps) => match provider_of(x, env) {
                Ok(p) => Ok::<Seq<ProviderRefView>, EvalErrorView>(ps.push(p)),
                Err(e) => Err(e),
            },
            Err(e) => Err(e),
        },
{
    lemma_provider_form_added(forms, x, 0, env, Seq::empty());
}

proof fn lemma_provider_form_added(
    forms: Seq<SxView>,
    x: SxView,
    i: int,
    env: EnvView,
    acc: Seq<ProviderRefView>,
)
    requires
        0 <= i <= forms.len(),
    ensures
        providers_from(forms.push(x), i, env, acc) == match providers_from(forms, i, env, acc) {
            Ok(ps) => match provider_of(x, env) {
                Ok(p) => Ok::<Seq<ProviderRefView>, EvalErrorView>(ps.push(p)),
                Err(e) => Err(e),
            },
            Err(e) => Err(e),
        },
    decreases forms.len() - i,
{
    let more = forms.push(x);
    if i < forms.len() {
        assert(more[i] == forms[i]);
        if let Ok(p) = provider_of(forms[i], env) {
            lemma_provider_form_added(forms, x, i + 1, env, acc.push(p));
        }
    } else {
        assert(more[i] == x);
        reveal_with_fuel(providers_from, 3);
    }
}

// ---------------------------------------------------------------------
// Architectures
// ---------------------------------------------------------------------

/// A source that does not read fails as reading it does. A source without an
/// architecture form is a fault; of the others the first such form counts.
pub proof fn law_a_source_is_its_first_architecture(src: Seq<char>, b: InputsView)
    ensures
        source_arch(src, b) == match read_all(src, 0) {
            Err(e) => Err::<ArchitectureView, EvalErrorView>(EvalErrorView::Parse(e)),
            Ok(forms) => match form_from(forms, "deflava-architecture"@, 0) {
                None => Err(EvalErrorView::NotArchForm("no deflava-architecture form"@)),
                Some(xs) => form_arch(xs, b),
            },
        },
{
}

/// An architecture form with nothing but resources: it has the name that it
/// gives, or else `anonymous`, and nothing else.
pub proof fn law_resources_alone_make_an_architecture(
    head: SxView,
    name: SxView,
    forms: SxView,
    b: InputsView,
)
    ensures
        form_arch(
            seq![head, name, SxView::Atom(AtomView::Kw("resources"@)), forms],
            b,
        ) == match resources_clause(Some(forms), EnvView::empty()) {
            Ok(resources) => Ok::<ArchitectureView, EvalErrorView>(
                ArchitectureView {
                    name: match name {
                        SxView::Atom(AtomView::Sym(s)) => s,
                        _ => "anonymous"@,
                    },
                    resources,
                    data_sources: Seq::empty(),
                    outputs: Seq::empty(),
                    providers: Seq::empty(),
                    locals: Seq::empty(),
                },
            ),
            Err(e) => Err(e),
        },
        form_arch(seq![head, name], b) == Err::<ArchitectureView, EvalErrorView>(
            EvalErrorView::MissingClause("resources"@),
        ),
{
    let base = seq![head, name];
    let k = SxView::Atom(AtomView::Kw("resources"@));
    let xs = seq![head, name, k, forms];
    assert(base.push(k).push(forms) =~= xs);
    assert(xs[1] == name && base[1] == name);
    lemma_names_differ();
    lemma_clauses_added(base, k, forms);
}

proof fn lemma_names_differ()
    ensures
        "inputs"@ != "resources"@,
        "inputs"@ != "data"@,
        "inputs"@ != "outputs"@,
        "inputs"@ != "providers"@,
        "inputs"@ != "locals"@,
        "resources"@ != "data"@,
        "resources"@ != "outputs"@,
        "resources"@ != "providers"@,
        "resources"@ != "locals"@,
        "data"@ != "outputs"@,
        "data"@ != "providers"@,
        "data"@ != "locals"@,
        "outputs"@ != "providers"@,
        "outputs"@ != "locals"@,
        "providers"@ != "locals"@,
{
    reveal_strlit("inputs");
    reveal_strlit("resources");
    reveal_strlit("data");
    reveal_strlit("outputs");
    reveal_strlit("providers");
    reveal_strlit("locals");
    assert("inputs"@[0] == 'i' && "resources"@[0] == 'r' && "data"@[0] == 'd' && "outputs"@[0]
        == 'o' && "providers"@[0] == 'p' && "locals"@[0] == 'l');
}

proof fn lemma_clauses_added(xs: Seq<SxView>, k: SxView, v: SxView)
    requires
        xs.len() >= 2,
        xs.len() % 2 == 0,
    ensures
        forall|key: Seq<char>|
            #![trigger clause_from(xs.push(k).push(v), key, 2, None)]
            clause_from(xs.push(k).push(v), key, 2, None) == if k == SxView::Atom(
                AtomView::Kw(key),
            ) {
                Some(v)
            } else {
                clause_from(xs, key, 2, None)
            },
        forall|key: Seq<char>|
            #![trigger clause_from(xs.push(k), key, 2, None)]
            clause_from(xs.push(k), key, 2, None) == clause_from(xs, key, 2, None),
        xs.len() == 2 ==> forall|key: Seq<char>|
            #![trigger clause_from(xs, key, 2, None)]
            clause_from(xs, key, 2, None) is None,
{
    assert forall|key: Seq<char>|
        #![trigger clause_from(xs.push(k).push(v), key, 2, None)]
        clause_from(xs.push(k).push(v), key, 2, None) == if k == SxView::Atom(AtomView::Kw(key)) {
            Some(v)
        } else {
            clause_from(xs, key, 2, None)
        } by {
        law_the_last_clause_counts(xs, 2, k, v, key);
    }
    assert forall|key: Seq<char>|
        #![trigger clause_from(xs.push(k), key, 2, None)]
        clause_from(xs.push(k), key, 2, None) == clause_from(xs, key, 2, None) by {
        law_the_last_clause_counts(xs, 2, k, v, key);
    }
}

/// An architecture with one more clause, under the bindings of its inputs.
pub open spec fn arch_with(a: ArchitectureView, k: SxView, v: SxView, env: EnvView) -> Result<
    ArchitectureView,
    EvalErrorView,
> {
    if k == SxView::Atom(AtomView::Kw("resources"@)) {
        match resources_clause(Some(v), env) {
            Ok(resources) => Ok(ArchitectureView { resources, ..a }),
            Err(e) => Err(e),
        }
    } else if k == SxView::Atom(AtomView::Kw("data"@)) {
        match data_clause(Some(v), env) {
            Ok(data_sources) => Ok(ArchitectureView { data_sources, ..a }),
            Err(e) => Err(e),
        }
    } else if k == SxView::Atom(AtomView::Kw("providers"@)) {
        match providers_clause(Some(v), env) {
            Ok(providers) => Ok(ArchitectureView { providers, ..a }),
            Err(e) => Err(e),
        }
    } else if k == SxView::Atom(AtomView::Kw("outputs"@)) {
        match v {
            SxView::List(items) => match named_from(
                items,
                0,
                Seq::empty(),
                outputs_style(),
                env,
            ) {
                Ok(outputs) => Ok(ArchitectureView { outputs, ..a }),
                Err(e) => Err(e),
            },
            _ => Err(EvalErrorView::NotArchForm(":outputs not a list"@)),
        }
    } else if k == SxView::Atom(AtomView::Kw("locals"@)) {
        match v {
            SxView::List(items) => match named_from(items, 0, Seq::empty(), locals_style(), env) {
                Ok(locals) => Ok(ArchitectureView { locals, ..a }),
                Err(e) => Err(e),
            },
            _ => Err(EvalErrorView::NotArchForm(":locals not a list"@)),
        }
    } else {
        Ok(a)
    }
}

/// One more clause sets the part of an architecture that it names, in place of
/// what an earlier one set, and leaves every other part as it is. A clause of an
/// unknown name changes nothing, and so does a keyword without a value.
pub proof fn law_one_more_clause_of_an_architecture(
    xs: Seq<SxView>,
    k: SxView,
    v: SxView,
    b: InputsView,
)
    requires
        xs.len() >= 2,
        xs.len() % 2 == 0,
        k != SxView::Atom(AtomView::Kw("inputs"@)),
    ensures
        form_arch(xs, b) matches Ok(a) ==> form_arch(xs.push(k).push(v), b) == arch_with(
            a,
            k,
            v,
            inputs_env(clause_from(xs, "inputs"@, 2, None), b)->Ok_0,
        ),
        form_arch(xs.push(k), b) == form_arch(xs, b),
{
    let more = xs.push(k).push(v);
    assert(more[1] == xs[1] && xs.push(k)[1] == xs[1]);
    lemma_names_differ();
    lemma_clauses_added(xs, k, v);
}

/// The name of an architecture is the symbol behind its head, or else
/// `anonymous`.
pub proof fn law_an_architecture_has_the_name_of_its_form(xs: Seq<SxView>, b: InputsView)
    ensures
        form_arch(xs, b) matches Ok(a) ==> a.name == (if xs.len() > 1 && xs[1] is Atom
            && xs[1]->Atom_0 is Sym {
            xs[1]->Atom_0->Sym_0
        } else {
            "anonymous"@
        }),
{
}

/// Inputs that do not bind are the failure of the whole, whatever else the form
/// holds; a form that lacks resources fails for that alone.
pub proof fn law_inputs_come_first(xs: Seq<SxView>, b: InputsView)
    ensures
        inputs_env(clause_from(xs, "inputs"@, 2, None), b) matches Err(e) ==> form_arch(xs, b)
            == Err::<ArchitectureView, EvalErrorView>(e),
        inputs_env(clause_from(xs, "inputs"@, 2, None), b) matches Ok(env) ==> (resources_clause(
            clause_from(xs, "resources"@, 2, None),
            env,
        ) matches Err(e) ==> form_arch(xs, b) == Err::<ArchitectureView, EvalErrorView>(e)),
{
}

/// Clauses fail in the order inputs, resources, data, outputs, providers, locals,
/// wherever they stand in the form: where those before succeed, the failure of one
/// is the failure of the whole, whatever those behind it do.
pub proof fn law_clauses_fail_in_order(xs: Seq<SxView>, b: InputsView, env: EnvView)
    requires
        inputs_env(clause_from(xs, "inputs"@, 2, None), b) == Ok::<EnvView, EvalErrorView>(env),
        resources_clause(clause_from(xs, "resources"@, 2, None), env) is Ok,
    ensures
        data_clause(clause_from(xs, "data"@, 2, None), env) matches Err(e) ==> form_arch(xs, b)
            == Err::<ArchitectureView, EvalErrorView>(e),
        data_clause(clause_from(xs, "data"@, 2, None), env) is Ok ==> match clause_from(
            xs,
            "outputs"@,
            2,
            None,
        ) {
            Some(SxView::List(items)) => named_from(
                items,
                0,
                Seq::empty(),
                outputs_style(),
                env,
            ) matches Err(e) ==> form_arch(xs, b) == Err::<ArchitectureView, EvalErrorView>(e),
            Some(_) => form_arch(xs, b) == Err::<ArchitectureView, EvalErrorView>(
                EvalErrorView::NotArchForm(":outputs not a list"@),
            ),
            None => providers_clause(clause_from(xs, "providers"@, 2, None), env) matches Err(e)
                ==> form_arch(xs, b) == Err::<ArchitectureView, EvalErrorView>(e),
        },
        data_clause(clause_from(xs, "data"@, 2, None), env) is Ok && (clause_from(
            xs,
            "outputs"@,
            2,
            None,
        ) matches Some(SxView::List(items)) && named_from(
            items,
            0,
            Seq::empty(),
            outputs_style(),
            env,
        ) is Ok) ==> (providers_clause(clause_from(xs, "providers"@, 2, None), env) matches Err(e)
            ==> form_arch(xs, b) == Err::<ArchitectureView, EvalErrorView>(e)),
{
}

} // verus!
