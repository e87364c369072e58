//! What resources, providers and loops are, clause by clause.
use crate::arch::{MultiplicityView, ProviderRefView, ResourceView};
use crate::datum::DatumView;
use crate::entries::{law_insert_then_read, lookup, upsert};
use crate::error::EvalErrorView;
use crate::eval::{
    each_from, law_a_failure_takes_nothing_back, left_by, left_by_rounds, loop_head, no_parts,
    parts_from, provider_from, provider_of, resource_of, resources_of, round_env, rounds_from,
    value_of, LoopHead, ResourceParts,
};
use crate::number::int_text;
use crate::sexpr::{AtomView, SxView};
use crate::template::{interpolated, predicate, type_id, EnvView};
use vstd::prelude::*;

verus! {

// ---------------------------------------------------------------------
// Resources
// ---------------------------------------------------------------------

/// `(type "name")` declares a resource of that type and name, with nothing else.
pub proof fn law_a_bare_form_declares_a_bare_resource(
    head: Seq<char>,
    raw: Seq<char>,
    env: EnvView,
)
    ensures
        resource_of(
            SxView::List(
                seq![SxView::Atom(AtomView::Sym(head)), SxView::Atom(AtomView::Str(raw))],
            ),
            env,
        ) == match interpolated(raw, env) {
            Ok(name) => Ok::<Option<ResourceView>, EvalErrorView>(
                Some(
                    ResourceView {
                        type_id: type_id(head),
                        name,
                        attributes: Seq::empty(),
                        depends_on: Seq::empty(),
                        provider: None,
                        multiplicity: None,
                    },
                ),
            ),
            Err(e) => Err(e),
        },
{
    let xs = seq![SxView::Atom(AtomView::Sym(head)), SxView::Atom(AtomView::Str(raw))];
    assert(xs[0] == SxView::Atom(AtomView::Sym(head)));
    assert(xs[1] == SxView::Atom(AtomView::Str(raw)));
}

/// Whatever clauses a resource form has, its type and its name are those that
/// it starts with, and it depends on nothing and names no provider. A form that
/// starts otherwise is a fault.
pub proof fn law_a_resource_has_the_type_and_name_of_its_form(
    xs: Seq<SxView>,
    a: AtomView,
    env: EnvView,
)
    ensures
        resource_of(SxView::Atom(a), env) == Err::<Option<ResourceView>, EvalErrorView>(
            EvalErrorView::NotArchForm("resource not a list"@),
        ),
        xs.len() == 0 || !(xs[0] matches SxView::Atom(AtomView::Sym(_))) ==> resource_of(
            SxView::List(xs),
            env,
        ) == Err::<Option<ResourceView>, EvalErrorView>(
            EvalErrorView::NotArchForm("resource head not sym"@),
        ),
        xs.len() > 0 && (xs[0] matches SxView::Atom(AtomView::Sym(_))) && (xs.len() == 1 || !(
        xs[1] matches SxView::Atom(AtomView::Str(_)))) ==> resource_of(SxView::List(xs), env)
            == Err::<Option<ResourceView>, EvalErrorView>(
            EvalErrorView::NotArchForm("resource name not string"@),
        ),
        resource_of(SxView::List(xs), env) matches Ok(Some(r)) ==> {
            &&& xs.len() >= 2
            &&& xs[0] matches SxView::Atom(AtomView::Sym(head)) && r.type_id == type_id(head)
            &&& xs[1] matches SxView::Atom(AtomView::Str(raw)) && interpolated(raw, env) == Ok::<
                Seq<char>,
                EvalErrorView,
            >(r.name)
            &&& r.depends_on.len() == 0
            &&& r.provider is None
        },
{
}

/// A resource with one more clause.
pub open spec fn resource_with(
    r: ResourceView,
    k: SxView,
    v: SxView,
    env: EnvView,
) -> Result<Option<ResourceView>, EvalErrorView> {
    if k == SxView::Atom(AtomView::Kw("when"@)) {
        match predicate(v, env) {
            Ok(true) => Ok(Some(r)),
            Ok(false) => Ok(None),
            Err(e) => Err(e),
        }
    } else if k == SxView::Atom(AtomView::Kw("count"@)) {
        match v {
            SxView::Atom(AtomView::Int(n)) => Ok(
                Some(ResourceView { multiplicity: Some(MultiplicityView::Count(n)), ..r }),
            ),
            _ => Err(EvalErrorView::Type(":count expects integer"@)),
        }
    } else if k == SxView::Atom(AtomView::Kw("for-each"@)) {
        match v {
            SxView::List(items) => match each_from(items, 0, Seq::empty(), env) {
                Ok(m) => Ok(
                    Some(ResourceView { multiplicity: Some(MultiplicityView::ForEach(m)), ..r }),
                ),
                Err(e) => Err(e),
            },
            _ => Err(EvalErrorView::Type(":for-each expects key/value pair list"@)),
        }
    } else {
        match k {
            SxView::Atom(AtomView::Kw(name)) => match value_of(v, env) {
                Ok(x) => Ok(
                    Some(ResourceView { attributes: upsert(r.attributes, type_id(name), x), ..r }),
                ),
                Err(e) => Err(e),
            },
            _ => Err(EvalErrorView::NotArchForm("attr key not :kw"@)),
        }
    }
}

/// What one more clause does to what the clauses before it say.
spec fn parts_with(p: ResourceParts, k: SxView, v: SxView, env: EnvView) -> Result<
    ResourceParts,
    EvalErrorView,
> {
    parts_from(seq![k, v], 0, p, env)
}

proof fn lemma_part_added(
    xs: Seq<SxView>,
    k: SxView,
    v: SxView,
    i: int,
    p: ResourceParts,
    env: EnvView,
)
    requires
        0 <= i <= xs.len(),
        (xs.len() - i) % 2 == 0,
    ensures
        parts_from(xs.push(k).push(v), i, p, env) == match parts_from(xs, i, p, env) {
            Ok(q) => parts_with(q, k, v, env),
            Err(e) => Err(e),
        },
        parts_from(xs.push(k), i, p, env) == parts_from(xs, i, p, env),
    decreases xs.len() - i,
{
    let more = xs.push(k).push(v);
    let lone = xs.push(k);
    if i < xs.len() {
        assert(more[i] == xs[i] && more[i + 1] == xs[i + 1]);
        assert(lone[i] == xs[i] && lone[i + 1] == xs[i + 1]);
        if let Some(key) = xs[i].as_kw() {
            if key == "when"@ {
                if let Ok(emit) = predicate(xs[i + 1], env) {
                    lemma_part_added(xs, k, v, i + 2, ResourceParts { emit, ..p }, env);
                }
            } else if key == "count"@ {
                if let Some(n) = xs[i + 1].as_int() {
                    lemma_part_added(
                        xs,
                        k,
                        v,
                        i + 2,
                        ResourceParts { multiplicity: Some(MultiplicityView::Count(n)), ..p },
                        env,
                    );
                }
            } else if key == "for-each"@ {
                if let Some(items) = xs[i + 1].as_list() {
                    if let Ok(m) = each_from(items, 0, Seq::empty(), env) {
                        lemma_part_added(
                            xs,
                            k,
                            v,
                            i + 2,
                            ResourceParts { multiplicity: Some(MultiplicityView::ForEach(m)), ..p },
                            env,
                        );
                    }
                }
            } else {
                if let Ok(x) = value_of(xs[i + 1], env) {
                    lemma_part_added(
                        xs,
                        k,
                        v,
                        i + 2,
                        ResourceParts { attributes: upsert(p.attributes, type_id(key), x), ..p },
                        env,
                    );
                }
            }
        }
    } else {
        assert(more[i] == k && more[i + 1] == v);
        lemma_parts_end(more, i, k, v, p, env);
    }
}

proof fn lemma_parts_end(
    more: Seq<SxView>,
    i: int,
    k: SxView,
    v: SxView,
    p: ResourceParts,
    env: EnvView,
)
    requires
        0 <= i,
        more.len() == i + 2,
        more[i] == k,
        more[i + 1] == v,
    ensures
        parts_from(more, i, p, env) == parts_with(p, k, v, env),
{
    let pair = seq![k, v];
    assert(pair[0] == k && pair[1] == v);
    reveal_with_fuel(parts_from, 3);
}

/// One more clause does to a resource what it says: `:when` keeps it or takes it
/// away, `:count` and `:for-each` say how often it stands, and every other clause
/// sets the attribute of its name to its value, whatever kind of value that is.
/// A form that fails without the clause fails in the same way with it. A keyword
/// without a value changes nothing.
pub proof fn law_one_more_clause_of_a_resource(
    xs: Seq<SxView>,
    k: SxView,
    v: SxView,
    env: EnvView,
)
    requires
        xs.len() >= 2,
        xs.len() % 2 == 0,
    ensures
        resource_of(SxView::List(xs), env) matches Ok(Some(r)) ==> resource_of(
            SxView::List(xs.push(k).push(v)),
            env,
        ) == resource_with(r, k, v, env),
        resource_of(SxView::List(xs), env) matches Err(e) ==> resource_of(
            SxView::List(xs.push(k).push(v)),
            env,
        ) == Err::<Option<ResourceView>, EvalErrorView>(e),
        resource_of(SxView::List(xs.push(k)), env) == resource_of(SxView::List(xs), env),
{
    let more = xs.push(k).push(v);
    let lone = xs.push(k);
    assert(more[0] == xs[0] && more[1] == xs[1] && lone[0] == xs[0] && lone[1] == xs[1]);
    lemma_part_added(xs, k, v, 2, no_parts(), env);
    let pair = seq![k, v];
    assert(pair[0] == k && pair[1] == v);
    reveal_strlit("when");
    reveal_strlit("count");
    reveal_strlit("for-each");
    assert("when"@.len() == 4 && "count"@.len() == 5 && "for-each"@.len() == 8);
    if let Ok(q) = parts_from(xs, 2, no_parts(), env) {
        reveal_with_fuel(parts_from, 3);
    }
}

/// Whether the clause at a place sets the attribute of a name: its keyword is
/// not `:when`, `:count` or `:for-each`, and has that name once its dashes are
/// underscores.
pub open spec fn sets_attribute(xs: Seq<SxView>, i: int, name: Seq<char>) -> bool {
    2 <= i && i % 2 == 0 && i + 1 < xs.len() && match xs[i] {
        SxView::Atom(AtomView::Kw(k)) => k != "when"@ && k != "count"@ && k != "for-each"@
            && type_id(k) == name,
        _ => false,
    }
}

proof fn lemma_attribute(
    xs: Seq<SxView>,
    i: int,
    p: ResourceParts,
    env: EnvView,
    name: Seq<char>,
)
    requires
        2 <= i,
        i % 2 == 0,
    ensures
        parts_from(xs, i, p, env) matches Ok(q) ==> {
            &&& forall|j: int|
                i <= j && #[trigger] sets_attribute(xs, j, name) && (forall|m: int|
                    j < m ==> !(#[trigger] sets_attribute(xs, m, name))) ==> value_of(
                    xs[j + 1],
                    env,
                ) is Ok && lookup(q.attributes, name) == Some(value_of(xs[j + 1], env)->Ok_0)
            &&& (forall|j: int| i <= j ==> !(#[trigger] sets_attribute(xs, j, name))) ==> lookup(
                q.attributes,
                name,
            ) == lookup(p.attributes, name)
        },
    decreases xs.len() - i,
{
    if i + 1 < xs.len() {
        if let Some(key) = xs[i].as_kw() {
            if key == "when"@ {
                if let Ok(emit) = predicate(xs[i + 1], env) {
                    lemma_attribute(xs, i + 2, ResourceParts { emit, ..p }, env, name);
                    lemma_attribute_step(xs, i, p, ResourceParts { emit, ..p }, env, name);
                }
            } else if key == "count"@ {
                if let Some(n) = xs[i + 1].as_int() {
                    let next = ResourceParts {
                        multiplicity: Some(MultiplicityView::Count(n)),
                        ..p
                    };
                    lemma_attribute(xs, i + 2, next, env, name);
                    lemma_attribute_step(xs, i, p, next, env, name);
                }
            } else if key == "for-each"@ {
                if let Some(items) = xs[i + 1].as_list() {
                    if let Ok(m) = each_from(items, 0, Seq::empty(), env) {
                        let next = ResourceParts {
                            multiplicity: Some(MultiplicityView::ForEach(m)),
                            ..p
                        };
                        lemma_attribute(xs, i + 2, next, env, name);
                        lemma_attribute_step(xs, i, p, next, env, name);
                    }
                }
            } else {
                if let Ok(x) = value_of(xs[i + 1], env) {
                    let next = ResourceParts {
                        attributes: upsert(p.attributes, type_id(key), x),
                        ..p
                    };
                    law_insert_then_read(p.attributes, type_id(key), x, name);
                    lemma_attribute(xs, i + 2, next, env, name);
                    lemma_attribute_step(xs, i, p, next, env, name);
                }
            }
        }
    }
}

/// What holds of the clauses behind a clause holds with it.
proof fn lemma_attribute_step(
    xs: Seq<SxView>,
    i: int,
    p: ResourceParts,
    next: ResourceParts,
    env: EnvView,
    name: Seq<char>,
)
    requires
        2 <= i,
        i % 2 == 0,
        i + 1 < xs.len(),
        parts_from(xs, i, p, env) == parts_from(xs, i + 2, next, env),
        sets_attribute(xs, i, name) ==> value_of(xs[i + 1], env) is Ok && lookup(
            next.attributes,
            name,
        ) == Some(value_of(xs[i + 1], env)->Ok_0),
        !sets_attribute(xs, i, name) ==> lookup(next.attributes, name) == lookup(
            p.attributes,
            name,
        ),
        parts_from(xs, i + 2, next, env) matches Ok(q) ==> {
            &&& forall|j: int|
                i + 2 <= j && #[trigger] sets_attribute(xs, j, name) && (forall|m: int|
                    j < m ==> !(#[trigger] sets_attribute(xs, m, name))) ==> value_of(
                    xs[j + 1],
                    env,
                ) is Ok && lookup(q.attributes, name) == Some(value_of(xs[j + 1], env)->Ok_0)
            &&& (forall|j: int| i + 2 <= j ==> !(#[trigger] sets_attribute(xs, j, name)))
                ==> lookup(q.attributes, name) == lookup(next.attributes, name)
        },
    ensures
        parts_from(xs, i, p, env) matches Ok(q) ==> {
            &&& forall|j: int|
                i <= j && #[trigger] sets_attribute(xs, j, name) && (forall|m: int|
                    j < m ==> !(#[trigger] sets_attribute(xs, m, name))) ==> value_of(
                    xs[j + 1],
                    env,
                ) is Ok && lookup(q.attributes, name) == Some(value_of(xs[j + 1], env)->Ok_0)
            &&& (forall|j: int| i <= j ==> !(#[trigger] sets_attribute(xs, j, name))) ==> lookup(
                q.attributes,
                name,
            ) == lookup(p.attributes, name)
        },
{
    assert(!sets_attribute(xs, i + 1, name));
}

/// An attribute of a resource is what the last clause of its name evaluates to
/// on its own, whatever kind of value that is; a name without such a clause has
/// no attribute.
pub proof fn law_an_attribute_is_its_last_clause(
    xs: Seq<SxView>,
    i: int,
    env: EnvView,
    name: Seq<char>,
)
    requires
        resource_of(SxView::List(xs), env) matches Ok(Some(_)),
    ensures
        resource_of(SxView::List(xs), env) matches Ok(Some(r)) && {
            &&& sets_attribute(xs, i, name) && (forall|j: int|
                i < j ==> !(#[trigger] sets_attribute(xs, j, name))) ==> value_of(
                xs[i + 1],
                env,
            ) is Ok && lookup(r.attributes, name) == Some(value_of(xs[i + 1], env)->Ok_0)
            &&& (forall|j: int| !(#[trigger] sets_attribute(xs, j, name))) ==> lookup(
                r.attributes,
                name,
            ) is None
        },
{
    lemma_attribute(xs, 2, no_parts(), env, name);
}

/// Whether the clause at a place says how often a resource stands.
pub open spec fn sets_multiplicity(xs: Seq<SxView>, i: int) -> bool {
    2 <= i && i % 2 == 0 && i + 1 < xs.len() && (xs[i] == SxView::Atom(AtomView::Kw("count"@))
        || xs[i] == SxView::Atom(AtomView::Kw("for-each"@)))
}

proof fn lemma_multiplicity(xs: Seq<SxView>, i: int, p: ResourceParts, env: EnvView)
    requires
        2 <= i,
        i % 2 == 0,
    ensures
        parts_from(xs, i, p, env) matches Ok(q) ==> {
            &&& forall|j: int|
                i <= j && #[trigger] sets_multiplicity(xs, j) && (forall|m: int|
                    j < m ==> !(#[trigger] sets_multiplicity(xs, m))) ==> stands_so(
                    xs,
                    j,
                    q.multiplicity,
                    env,
                )
            &&& (forall|j: int| i <= j ==> !(#[trigger] sets_multiplicity(xs, j)))
                ==> q.multiplicity == p.multiplicity
        },
    decreases xs.len() - i,
{
    reveal_strlit("when");
    reveal_strlit("count");
    reveal_strlit("for-each");
    assert("when"@.len() == 4 && "count"@.len() == 5 && "for-each"@.len() == 8);
    if i + 1 < xs.len() {
        assert(!sets_multiplicity(xs, i + 1));
        if let Some(key) = xs[i].as_kw() {
            if key == "when"@ {
                assert(!sets_multiplicity(xs, i));
                if let Ok(emit) = predicate(xs[i + 1], env) {
                    lemma_multiplicity(xs, i + 2, ResourceParts { emit, ..p }, env);
                }
            } else if key == "count"@ {
                assert(sets_multiplicity(xs, i));
                if let Some(n) = xs[i + 1].as_int() {
                    let next = ResourceParts {
                        multiplicity: Some(MultiplicityView::Count(n)),
                        ..p
                    };
                    lemma_multiplicity(xs, i + 2, next, env);
                }
            } else if key == "for-each"@ {
                assert(sets_multiplicity(xs, i));
                if let Some(items) = xs[i + 1].as_list() {
                    if let Ok(m) = each_from(items, 0, Seq::empty(), env) {
                        let next = ResourceParts {
                            multiplicity: Some(MultiplicityView::ForEach(m)),
                            ..p
                        };
                        lemma_multiplicity(xs, i + 2, next, env);
                    }
                }
            } else {
                assert(!sets_multiplicity(xs, i));
                if let Ok(x) = value_of(xs[i + 1], env) {
                    let next = ResourceParts {
                        attributes: upsert(p.attributes, type_id(key), x),
                        ..p
                    };
                    lemma_multiplicity(xs, i + 2, next, env);
                }
            }
        }
    }
}

/// Whether a multiplicity is what the clause at a place says: the integer of
/// `:count`, or the entries of `:for-each`.
pub open spec fn stands_so(
    xs: Seq<SxView>,
    i: int,
    m: Option<MultiplicityView>,
    env: EnvView,
) -> bool {
    if xs[i] == SxView::Atom(AtomView::Kw("count"@)) {
        xs[i + 1] matches SxView::Atom(AtomView::Int(n)) && m == Some(MultiplicityView::Count(n))
    } else {
        xs[i + 1] matches SxView::List(items) && each_from(items, 0, Seq::empty(), env) is Ok && m
            == Some(MultiplicityView::ForEach(each_from(items, 0, Seq::empty(), env)->Ok_0))
    }
}

/// How often a resource stands is what the last `:count` or `:for-each` says;
/// without one it says nothing.
pub proof fn law_the_last_multiplicity_counts(xs: Seq<SxView>, i: int, env: EnvView)
    requires
        resource_of(SxView::List(xs), env) matches Ok(Some(_)),
    ensures
        resource_of(SxView::List(xs), env) matches Ok(Some(r)) && {
            &&& sets_multiplicity(xs, i) && (forall|j: int|
                i < j ==> !(#[trigger] sets_multiplicity(xs, j))) ==> stands_so(
                xs,
                i,
                r.multiplicity,
                env,
            )
            &&& (forall|j: int| !(#[trigger] sets_multiplicity(xs, j))) ==> r.multiplicity is None
        },
{
    lemma_multiplicity(xs, 2, no_parts(), env);
}

/// The entries of a `:for-each` clause are its pairs of a keyword or string and
/// a value: one more pair inserts its value under its key, as it is written. A
/// key of another kind is a fault, and a key without a value adds nothing.
pub proof fn law_for_each_entries_are_pairs(
    items: Seq<SxView>,
    k: SxView,
    x: SxView,
    env: EnvView,
)
    requires
        items.len() % 2 == 0,
    ensures
        each_from(Seq::empty(), 0, Seq::empty(), env) == Ok::<
            Seq<(Seq<char>, DatumView)>,
            EvalErrorView,
        >(Seq::empty()),
        each_from(items.push(k), 0, Seq::empty(), env) == each_from(items, 0, Seq::empty(), env),
        each_from(items.push(k).push(x), 0, Seq::empty(), env) == match each_from(
            items,
            0,
            Seq::empty(),
            env,
        ) {
            Err(e) => Err::<Seq<(Seq<char>, DatumView)>, EvalErrorView>(e),
            Ok(m) => match (k, value_of(x, env)) {
                (SxView::Atom(AtomView::Kw(s)), Ok(v)) => Ok(upsert(m, s, v)),
                (SxView::Atom(AtomView::Str(s)), Ok(v)) => Ok(upsert(m, s, v)),
                (SxView::Atom(AtomView::Kw(s)), Err(e)) => Err(e),
                (SxView::Atom(AtomView::Str(s)), Err(e)) => Err(e),
                _ => Err(EvalErrorView::Type(":for-each key not :kw|str"@)),
            },
        },
{
    lemma_each_added(items, k, x, 0, Seq::empty(), env);
}

proof fn lemma_each_added(
    items: Seq<SxView>,
    k: SxView,
    x: SxView,
    i: int,
    acc: Seq<(Seq<char>, DatumView)>,
    env: EnvView,
)
    requires
        0 <= i <= items.len(),
        (items.len() - i) % 2 == 0,
    ensures
        each_from(items.push(k), i, acc, env) == each_from(items, i, acc, env),
        each_from(items.push(k).push(x), i, acc, env) == match each_from(items, i, acc, env) {
            Err(e) => Err::<Seq<(Seq<char>, DatumView)>, EvalErrorView>(e),
            Ok(m) => match (k, value_of(x, env)) {
                (SxView::Atom(AtomView::Kw(s)), Ok(v)) => Ok(upsert(m, s, v)),
                (SxView::Atom(AtomView::Str(s)), Ok(v)) => Ok(upsert(m, s, v)),
                (SxView::Atom(AtomView::Kw(s)), Err(e)) => Err(e),
                (SxView::Atom(AtomView::Str(s)), Err(e)) => Err(e),
                _ => Err(EvalErrorView::Type(":for-each key not :kw|str"@)),
            },
        },
    decreases items.len() - i,
{
    let more = items.push(k).push(x);
    let lone = items.push(k);
    if i < items.len() {
        assert(more[i] == items[i] && more[i + 1] == items[i + 1]);
        assert(lone[i] == items[i] && lone[i + 1] == items[i + 1]);
        if let Some(key) = crate::eval::each_key(items[i]) {
            if let Ok(v) = value_of(items[i + 1], env) {
                lemma_each_added(items, k, x, i + 2, upsert(acc, key, v), env);
            }
        }
    } else {
        assert(more[i] == k && more[i + 1] == x);
        reveal_with_fuel(each_from, 3);
    }
}

// ---------------------------------------------------------------------
// Loops
// ---------------------------------------------------------------------

/// The bindings of a round: the index in decimal and the item, each under its
/// variable, over those around the loop.
pub open spec fn bound_round(
    env: EnvView,
    index: Seq<char>,
    k: int,
    item: Seq<char>,
    value: Seq<char>,
) -> EnvView {
    EnvView {
        loop_scalars: env.loop_scalars.insert(index, int_text(k)).insert(item, value),
        scalars: env.scalars,
        lists: env.lists,
    }
}

/// Whether a form is a loop over a list, with its two variables. A variable
/// that is left out is called `i` or `item`.
pub open spec fn is_loop(
    xs: Seq<SxView>,
    index: Seq<char>,
    item: Seq<char>,
    source: Seq<char>,
) -> bool {
    &&& xs.len() >= 3
    &&& xs[0] == SxView::Atom(AtomView::Sym("for-each"@))
    &&& xs[1] matches SxView::List(binding) && binding.len() >= 2 && (
    binding[0] matches SxView::List(vars) && index == (if vars.len() > 0
        && vars[0] is Atom && vars[0]->Atom_0 is Sym {
        vars[0]->Atom_0->Sym_0
    } else {
        "i"@
    }) && item == (if vars.len() > 1 && vars[1] is Atom && vars[1]->Atom_0 is Sym {
        vars[1]->Atom_0->Sym_0
    } else {
        "item"@
    })) && (binding[1] matches SxView::List(iter) && iter.len() >= 2 && iter[0] == SxView::Atom(
        AtomView::Sym("enumerate"@),
    ) && iter[1] == SxView::Atom(AtomView::Sym(source)))
}

/// A loop evaluates its body once for each item of its list, in order, under
/// the index from zero on and the item; `steps` are the resources after each
/// round. It fails as the first round that fails does.
pub proof fn law_a_loop_runs_its_body_for_each_item(
    xs: Seq<SxView>,
    index: Seq<char>,
    item: Seq<char>,
    source: Seq<char>,
    n: int,
    steps: Seq<Seq<ResourceView>>,
    env: EnvView,
)
    requires
        is_loop(xs, index, item, source),
        env.lists.dom().contains(source),
        0 <= n <= env.lists[source].len(),
        steps.len() == n + 1,
        forall|k: int|
            0 <= k < n ==> resources_of(
                xs[2],
                bound_round(env, index, k, item, env.lists[source][k]),
                #[trigger] steps[k],
            ) == Ok::<Seq<ResourceView>, EvalErrorView>(steps[k + 1]),
    ensures
        n == env.lists[source].len() ==> resources_of(SxView::List(xs), env, steps[0]) == Ok::<
            Seq<ResourceView>,
            EvalErrorView,
        >(steps[n]),
        n < env.lists[source].len() ==> (resources_of(
            xs[2],
            bound_round(env, index, n, item, env.lists[source][n]),
            steps[n],
        ) matches Err(e) ==> resources_of(SxView::List(xs), env, steps[0]) == Err::<
            Seq<ResourceView>,
            EvalErrorView,
        >(e)),
{
    let head = LoopHead { index, item, items: env.lists[source] };
    assert(loop_head(xs, env) == Ok::<LoopHead, EvalErrorView>(head));
    lemma_rounds(xs[2], head, 0, n, steps, env);
}

proof fn lemma_round_env(head: LoopHead, k: int, env: EnvView)
    requires
        0 <= k,
    ensures
        round_env(head, k, env) == bound_round(env, head.index, k, head.item, head.items[k]),
{
    assert(round_env(head, k, env) =~= bound_round(env, head.index, k, head.item, head.items[k]));
}

proof fn lemma_rounds(
    body: SxView,
    head: LoopHead,
    k: int,
    n: int,
    steps: Seq<Seq<ResourceView>>,
    env: EnvView,
)
    requires
        0 <= k <= n <= head.items.len(),
        steps.len() == n + 1,
        forall|j: int|
            0 <= j < n ==> resources_of(
                body,
                bound_round(env, head.index, j, head.item, head.items[j]),
                #[trigger] steps[j],
            ) == Ok::<Seq<ResourceView>, EvalErrorView>(steps[j + 1]),
    ensures
        n == head.items.len() ==> rounds_from(body, head, k, env, steps[k]) == Ok::<
            Seq<ResourceView>,
            EvalErrorView,
        >(steps[n]),
        n < head.items.len() ==> (resources_of(
            body,
            bound_round(env, head.index, n, head.item, head.items[n]),
            steps[n],
        ) matches Err(e) ==> rounds_from(body, head, k, env, steps[k]) == Err::<
            Seq<ResourceView>,
            EvalErrorView,
        >(e)),
    decreases n - k,
{
    lemma_round_env(head, k, env);
    if k < n {
        let more = steps[k];
        lemma_rounds(body, head, k + 1, n, steps, env);
    }
}

/// A form that is no loop adds its resource behind the others, or nothing where
/// it declares none, and fails where the resource does.
pub proof fn law_a_plain_form_adds_its_resource(
    xs: Seq<SxView>,
    head: Seq<char>,
    a: AtomView,
    env: EnvView,
    acc: Seq<ResourceView>,
)
    ensures
        resources_of(SxView::Atom(a), env, acc) == Err::<Seq<ResourceView>, EvalErrorView>(
            EvalErrorView::NotArchForm("resource not a list"@),
        ),
        xs.len() == 0 || !(xs[0] matches SxView::Atom(AtomView::Sym(_))) ==> resources_of(
            SxView::List(xs),
            env,
            acc,
        ) == Err::<Seq<ResourceView>, EvalErrorView>(
            EvalErrorView::NotArchForm("resource head not sym"@),
        ),
        xs.len() > 0 && xs[0] == SxView::Atom(AtomView::Sym(head)) && head != "for-each"@
            ==> resources_of(SxView::List(xs), env, acc) == match resource_of(
            SxView::List(xs),
            env,
        ) {
            Ok(Some(r)) => Ok::<Seq<ResourceView>, EvalErrorView>(acc.push(r)),
            Ok(None) => Ok(acc),
            Err(e) => Err(e),
        },
{
}

/// What is wrong with a loop that cannot run, in the order in which it is found.
pub open spec fn loop_fault(xs: Seq<SxView>, env: EnvView) -> Option<EvalErrorView> {
    if xs.len() < 2 || !(xs[1] is List) {
        Some(EvalErrorView::NotArchForm("for-each binding"@))
    } else {
        let binding = xs[1]->List_0;
        if binding.len() < 1 || !(binding[0] is List) {
            Some(EvalErrorView::NotArchForm("for-each vars"@))
        } else if binding.len() < 2 || !(binding[1] is List) {
            Some(EvalErrorView::NotArchForm("for-each iter"@))
        } else {
            let iter = binding[1]->List_0;
            if iter.len() < 1 || iter[0] != SxView::Atom(AtomView::Sym("enumerate"@)) {
                Some(EvalErrorView::NotArchForm("for-each iter != enumerate"@))
            } else if iter.len() < 2 || !(iter[1] is Atom && iter[1]->Atom_0 is Sym) {
                Some(EvalErrorView::NotArchForm("enumerate source"@))
            } else if !env.lists.dom().contains(iter[1]->Atom_0->Sym_0) {
                Some(EvalErrorView::UnknownVar(iter[1]->Atom_0->Sym_0))
            } else if xs.len() < 3 {
                Some(EvalErrorView::NotArchForm("for-each body"@))
            } else {
                None
            }
        }
    }
}

/// A loop without a list to run over, or of another shape, is a fault that says
/// what is missing first.
pub proof fn law_a_loop_of_another_shape_is_a_fault(
    xs: Seq<SxView>,
    env: EnvView,
    acc: Seq<ResourceView>,
)
    requires
        xs.len() > 0,
        xs[0] == SxView::Atom(AtomView::Sym("for-each"@)),
    ensures
        loop_fault(xs, env) matches Some(e) ==> resources_of(SxView::List(xs), env, acc) == Err::<
            Seq<ResourceView>,
            EvalErrorView,
        >(e),
{
    let empty = loop_head(xs, env);
    if let Some(e) = loop_fault(xs, env) {
        assert(empty == Err::<LoopHead, EvalErrorView>(e));
    }
}

// ---------------------------------------------------------------------
// Providers
// ---------------------------------------------------------------------

/// A provider with one more clause.
pub open spec fn provider_with(p: ProviderRefView, k: SxView, v: SxView, env: EnvView) -> Result<
    ProviderRefView,
    EvalErrorView,
> {
    if k == SxView::Atom(AtomView::Kw("alias"@)) {
        Ok(
            ProviderRefView {
                alias: match v {
                    SxView::Atom(AtomView::Str(s)) => Some(s),
                    _ => None,
                },
                ..p
            },
        )
    } else if k == SxView::Atom(AtomView::Kw("source"@)) {
        Ok(
            ProviderRefView {
                source: match v {
                    SxView::Atom(AtomView::Str(s)) => s,
                    _ => p.source,
                },
                ..p
            },
        )
    } else {
        match k {
            SxView::Atom(AtomView::Kw(name)) => match value_of(v, env) {
                Ok(x) => Ok(ProviderRefView { config: upsert(p.config, type_id(name), x), ..p }),
                Err(e) => Err(e),
            },
            _ => Err(EvalErrorView::NotArchForm("provider attr key not :kw"@)),
        }
    }
}

/// A provider comes from the registry under its own name, with no alias and no
/// configuration, until a clause says otherwise: `:alias` and `:source` set
/// those to their string, every other clause sets the entry of its name to its
/// value. A keyword without a value changes nothing.
pub proof fn law_a_provider_is_its_clauses(
    name: Seq<char>,
    xs: Seq<SxView>,
    k: SxView,
    v: SxView,
    a: AtomView,
    env: EnvView,
)
    requires
        xs.len() % 2 == 1,
    ensures
        provider_of(SxView::Atom(a), env) == Err::<ProviderRefView, EvalErrorView>(
            EvalErrorView::NotArchForm("provider not a list"@),
        ),
        !(xs[0] matches SxView::Atom(AtomView::Sym(_))) ==> provider_of(SxView::List(xs), env)
            == Err::<ProviderRefView, EvalErrorView>(
            EvalErrorView::NotArchForm("provider head not sym"@),
        ),
        provider_of(SxView::List(seq![SxView::Atom(AtomView::Sym(name))]), env) == Ok::<
            ProviderRefView,
            EvalErrorView,
        >(
            ProviderRefView {
                source: "hashicorp/"@ + name,
                name,
                alias: None,
                config: Seq::empty(),
            },
        ),
        provider_of(SxView::List(xs.push(k).push(v)), env) == match provider_of(
            SxView::List(xs),
            env,
        ) {
            Ok(p) => provider_with(p, k, v, env),
            Err(e) => Err(e),
        },
        provider_of(SxView::List(xs.push(k)), env) == provider_of(SxView::List(xs), env),
{
    let one = seq![SxView::Atom(AtomView::Sym(name))];
    assert(one[0] == SxView::Atom(AtomView::Sym(name)));
    let more = xs.push(k).push(v);
    assert(more[0] == xs[0] && xs.push(k)[0] == xs[0]);
    if let SxView::Atom(AtomView::Sym(n)) = xs[0] {
        lemma_provider_added(
            xs,
            k,
            v,
            1,
            ProviderRefView {
                source: "hashicorp/"@ + n,
                name: n,
                alias: None,
                config: Seq::empty(),
            },
            env,
        );
    }
}

proof fn lemma_provider_added(
    xs: Seq<SxView>,
    k: SxView,
    v: SxView,
    i: int,
    p: ProviderRefView,
    env: EnvView,
)
    requires
        0 <= i <= xs.len(),
        (xs.len() - i) % 2 == 0,
    ensures
        provider_from(xs.push(k), i, p, env) == provider_from(xs, i, p, env),
        provider_from(xs.push(k).push(v), i, p, env) == match provider_from(xs, i, p, env) {
            Ok(q) => provider_with(q, k, v, env),
            Err(e) => Err(e),
        },
    decreases xs.len() - i,
{
    let more = xs.push(k).push(v);
    let lone = xs.push(k);
    if i < xs.len() {
        assert(more[i] == xs[i] && more[i + 1] == xs[i + 1]);
        assert(lone[i] == xs[i] && lone[i + 1] == xs[i + 1]);
        if let Some(key) = xs[i].as_kw() {
            if key == "alias"@ {
                lemma_provider_added(
                    xs,
                    k,
                    v,
                    i + 2,
                    ProviderRefView { alias: xs[i + 1].as_str(), ..p },
                    env,
                );
            } else if key == "source"@ {
                lemma_provider_added(xs, k, v, i + 2, p, env);
                if let Some(source) = xs[i + 1].as_str() {
                    lemma_provider_added(xs, k, v, i + 2, ProviderRefView { source, ..p }, env);
                }
            } else {
                if let Ok(x) = value_of(xs[i + 1], env) {
                    lemma_provider_added(
                        xs,
                        k,
                        v,
                        i + 2,
                        ProviderRefView { config: upsert(p.config, type_id(key), x), ..p },
                        env,
                    );
                }
            }
        }
    } else {
        assert(more[i] == k && more[i + 1] == v);
        reveal_with_fuel(provider_from, 3);
    }
}

/// A form whose `:when` is false is evaluated to its end all the same: one more
/// clause that would fail a resource fails it too, in the same way, and one that
/// would not does not.
pub proof fn law_a_false_when_hides_no_fault(
    xs: Seq<SxView>,
    k: SxView,
    v: SxView,
    env: EnvView,
    any: ResourceView,
)
    requires
        xs.len() >= 2,
        xs.len() % 2 == 0,
        resource_of(SxView::List(xs), env) == Ok::<Option<ResourceView>, EvalErrorView>(None),
    ensures
        match resource_with(any, k, v, env) {
            Err(e) => resource_of(SxView::List(xs.push(k).push(v)), env) == Err::<
                Option<ResourceView>,
                EvalErrorView,
            >(e),
            Ok(_) => resource_of(SxView::List(xs.push(k).push(v)), env) is Ok,
        },
        resource_with(any, k, v, env) is Ok && k != SxView::Atom(AtomView::Kw("when"@))
            ==> resource_of(SxView::List(xs.push(k).push(v)), env) == Ok::<
            Option<ResourceView>,
            EvalErrorView,
        >(None),
{
    let more = xs.push(k).push(v);
    assert(more[0] == xs[0] && more[1] == xs[1]);
    lemma_part_added(xs, k, v, 2, no_parts(), env);
    let pair = seq![k, v];
    assert(pair[0] == k && pair[1] == v);
    reveal_strlit("when");
    reveal_strlit("count");
    reveal_strlit("for-each");
    assert("when"@.len() == 4 && "count"@.len() == 5 && "for-each"@.len() == 8);
    reveal_with_fuel(parts_from, 3);
}

/// A loop that fails in a round keeps what the rounds before it gave, and what the
/// failing round left; a plain form that fails leaves everything as it was.
pub proof fn law_a_failing_loop_keeps_its_earlier_rounds(
    xs: Seq<SxView>,
    index: Seq<char>,
    item: Seq<char>,
    source: Seq<char>,
    n: int,
    steps: Seq<Seq<ResourceView>>,
    env: EnvView,
    plain: Seq<SxView>,
    acc: Seq<ResourceView>,
)
    requires
        is_loop(xs, index, item, source),
        env.lists.dom().contains(source),
        0 <= n < env.lists[source].len(),
        steps.len() == n + 1,
        forall|k: int|
            0 <= k < n ==> resources_of(
                xs[2],
                bound_round(env, index, k, item, env.lists[source][k]),
                #[trigger] steps[k],
            ) == Ok::<Seq<ResourceView>, EvalErrorView>(steps[k + 1]),
        resources_of(xs[2], bound_round(env, index, n, item, env.lists[source][n]), steps[n]) is Err,
    ensures
        left_by(SxView::List(xs), env, steps[0]) == left_by(
            xs[2],
            bound_round(env, index, n, item, env.lists[source][n]),
            steps[n],
        ),
        plain.len() == 0 || plain[0] != SxView::Atom(AtomView::Sym("for-each"@)) ==> (resource_of(
            SxView::List(plain),
            env,
        ) is Err ==> left_by(SxView::List(plain), env, acc) == acc),
{
    let head = LoopHead { index, item, items: env.lists[source] };
    assert(loop_head(xs, env) == Ok::<LoopHead, EvalErrorView>(head));
    lemma_rounds_kept(xs[2], head, 0, n, steps, env);
}

proof fn lemma_rounds_kept(
    body: SxView,
    head: LoopHead,
    k: int,
    n: int,
    steps: Seq<Seq<ResourceView>>,
    env: EnvView,
)
    requires
        0 <= k <= n < head.items.len(),
        steps.len() == n + 1,
        forall|j: int|
            0 <= j < n ==> resources_of(
                body,
                bound_round(env, head.index, j, head.item, head.items[j]),
                #[trigger] steps[j],
            ) == Ok::<Seq<ResourceView>, EvalErrorView>(steps[j + 1]),
        resources_of(
            body,
            bound_round(env, head.index, n, head.item, head.items[n]),
            steps[n],
        ) is Err,
    ensures
        left_by_rounds(body, head, k, env, steps[k]) == left_by(
            body,
            bound_round(env, head.index, n, head.item, head.items[n]),
            steps[n],
        ),
    decreases n - k,
{
    lemma_round_env(head, k, env);
    if k < n {
        let before = steps[k];
        law_a_failure_takes_nothing_back(body, round_env(head, k, env), before);
        lemma_rounds_kept(body, head, k + 1, n, steps, env);
    }
}

} // verus!
