//! What imports are, clause by clause.
use crate::entries::upsert;
use crate::error::parse_message;
use crate::import::{
    bindings_from, import_from, import_message, import_of, imports_from, plain_import,
    source_imports, ImportErrorView, ImportView,
};
use crate::sexpr::{read_all, AtomView, SxView};
use vstd::prelude::*;

verus! {

/// Whether a form is a name, and which.
pub open spec fn is_name(x: SxView, name: Seq<char>) -> bool {
    x == SxView::Atom(AtomView::Sym(name)) || x == SxView::Atom(AtomView::Str(name))
}

/// Whether a form is no name.
pub open spec fn is_nameless(x: SxView) -> bool {
    !(x matches SxView::Atom(AtomView::Sym(_))) && !(x matches SxView::Atom(AtomView::Str(_)))
}

/// Bindings are pairs of a keyword and a string: one more pair inserts its string
/// under its keyword, both as they are written. A pair of another kind adds
/// nothing, and neither does a keyword without a value.
pub proof fn law_bindings_are_pairs(
    pairs: Seq<SxView>,
    k: SxView,
    v: SxView,
    acc: Seq<(Seq<char>, Seq<char>)>,
)
    requires
        pairs.len() % 2 == 0,
    ensures
        bindings_from(Seq::empty(), 0, acc) == acc,
        bindings_from(pairs.push(k), 0, acc) == bindings_from(pairs, 0, acc),
        bindings_from(pairs.push(k).push(v), 0, acc) == match (k, v) {
            (SxView::Atom(AtomView::Kw(name)), SxView::Atom(AtomView::Str(s))) => upsert(
                bindings_from(pairs, 0, acc),
                name,
                s,
            ),
            _ => bindings_from(pairs, 0, acc),
        },
{
    lemma_binding_added(pairs, k, v, 0, acc);
}

proof fn lemma_binding_added(
    pairs: Seq<SxView>,
    k: SxView,
    v: SxView,
    i: int,
    acc: Seq<(Seq<char>, Seq<char>)>,
)
    requires
        0 <= i <= pairs.len(),
        (pairs.len() - i) % 2 == 0,
    ensures
        bindings_from(pairs.push(k), i, acc) == bindings_from(pairs, i, acc),
        bindings_from(pairs.push(k).push(v), i, acc) == match (k, v) {
            (SxView::Atom(AtomView::Kw(name)), SxView::Atom(AtomView::Str(s))) => upsert(
                bindings_from(pairs, i, acc),
                name,
                s,
            ),
            _ => bindings_from(pairs, i, acc),
        },
    decreases pairs.len() - i,
{
    let more = pairs.push(k).push(v);
    let lone = pairs.push(k);
    if i < pairs.len() {
        assert(more[i] == pairs[i] && more[i + 1] == pairs[i + 1]);
        assert(lone[i] == pairs[i] && lone[i + 1] == pairs[i + 1]);
        lemma_binding_added(pairs, k, v, i + 2, acc);
        if let Some(name) = pairs[i].as_kw() {
            if let Some(s) = pairs[i + 1].as_str() {
                lemma_binding_added(pairs, k, v, i + 2, upsert(acc, name, s));
            }
        }
    } else {
        assert(more[i] == k && more[i + 1] == v);
        reveal_with_fuel(bindings_from, 3);
    }
}

/// An import with one more clause.
pub open spec fn import_with(f: ImportView, k: SxView, v: SxView) -> ImportView {
    if k == SxView::Atom(AtomView::Kw("as"@)) {
        ImportView {
            alias: match v {
                SxView::Atom(AtomView::Sym(s)) => Some(s),
                SxView::Atom(AtomView::Str(s)) => Some(s),
                _ => None,
            },
            ..f
        }
    } else if k == SxView::Atom(AtomView::Kw("bindings"@)) {
        match v {
            SxView::List(pairs) => ImportView {
                bindings: bindings_from(pairs, 0, f.bindings),
                ..f
            },
            _ => f,
        }
    } else {
        f
    }
}

/// An import names its target by a symbol or a string; a form that does not is a
/// fault. One more clause adds what it says: `:as` the alias, `:bindings` its
/// pairs, and any other clause nothing. A keyword without a value adds nothing.
pub proof fn law_an_import_is_its_clauses(
    head: SxView,
    target: SxView,
    name: Seq<char>,
    xs: Seq<SxView>,
    k: SxView,
    v: SxView,
)
    requires
        xs.len() >= 2,
        xs.len() % 2 == 0,
    ensures
        is_name(target, name) ==> import_of(seq![head, target]) == Ok::<
            ImportView,
            ImportErrorView,
        >(ImportView { target: name, alias: None, bindings: Seq::empty() }),
        import_of(seq![head]) == Err::<ImportView, ImportErrorView>(
            ImportErrorView::NotImportForm,
        ),
        is_nameless(xs[1]) ==> import_of(xs) == Err::<ImportView, ImportErrorView>(
            ImportErrorView::NotImportForm,
        ),
        import_of(xs.push(k).push(v)) == match import_of(xs) {
            Ok(f) => Ok::<ImportView, ImportErrorView>(import_with(f, k, v)),
            Err(e) => Err(e),
        },
        import_of(xs.push(k)) == import_of(xs),
{
    assert(seq![head, target][1] == target);
    assert(xs.push(k).push(v)[1] == xs[1] && xs.push(k)[1] == xs[1]);
    reveal_strlit("as");
    reveal_strlit("bindings");
    assert("as"@.len() == 2 && "bindings"@.len() == 8);
    if let Some(n) = crate::import::name_of(xs[1]) {
        lemma_import_clause_added(xs, k, v, 2, plain_import(n));
    }
}

proof fn lemma_import_clause_added(
    xs: Seq<SxView>,
    k: SxView,
    v: SxView,
    i: int,
    f: ImportView,
)
    requires
        0 <= i <= xs.len(),
        (xs.len() - i) % 2 == 0,
    ensures
        import_from(xs.push(k).push(v), i, f) == import_with(import_from(xs, i, f), k, v),
        import_from(xs.push(k), i, f) == import_from(xs, i, f),
    decreases xs.len() - i,
{
    let more = xs.push(k).push(v);
    let lone = xs.push(k);
    if i < xs.len() {
        assert(more[i] == xs[i] && more[i + 1] == xs[i + 1]);
        assert(lone[i] == xs[i] && lone[i + 1] == xs[i + 1]);
        lemma_import_clause_added(xs, k, v, i + 2, f);
        lemma_import_clause_added(
            xs,
            k,
            v,
            i + 2,
            ImportView { alias: crate::import::name_of(xs[i + 1]), ..f },
        );
        if let Some(pairs) = xs[i + 1].as_list() {
            lemma_import_clause_added(
                xs,
                k,
                v,
                i + 2,
                ImportView { bindings: bindings_from(pairs, 0, f.bindings), ..f },
            );
        }
    } else {
        assert(more[i] == k && more[i + 1] == v);
        reveal_with_fuel(import_from, 3);
    }
}

/// The imports of a source are those of its import forms, one for each and in
/// order; other forms give none. The first that fails is the failure of the
/// whole, and so is a source that does not read.
pub proof fn law_imports_are_read_in_order(src: Seq<char>, forms: Seq<SxView>, x: SxView)
    ensures
        source_imports(src) == match read_all(src, 0) {
            Err(e) => Err::<Seq<ImportView>, ImportErrorView>(ImportErrorView::Parse(e)),
            Ok(fs) => imports_from(fs, 0, Seq::empty()),
        },
        imports_from(Seq::empty(), 0, Seq::empty()) == Ok::<Seq<ImportView>, ImportErrorView>(
            Seq::empty(),
        ),
        imports_from(forms.push(x), 0, Seq::empty()) == match imports_from(
            forms,
            0,
            Seq::empty(),
        ) {
            Err(e) => Err::<Seq<ImportView>, ImportErrorView>(e),
            Ok(is) => match x {
                SxView::List(xs) if xs.len() > 0 && xs[0] == SxView::Atom(
                    AtomView::Sym("deflava-import"@),
                ) => match import_of(xs) {
                    Ok(f) => Ok(is.push(f)),
                    Err(e) => Err(e),
                },
                _ => Ok(is),
            },
        },
{
    lemma_import_form_added(forms, x, 0, Seq::empty());
}

proof fn lemma_import_form_added(
    forms: Seq<SxView>,
    x: SxView,
    i: int,
    acc: Seq<ImportView>,
)
    requires
        0 <= i <= forms.len(),
    ensures
        imports_from(forms.push(x), i, acc) == match imports_from(forms, i, acc) {
            Err(e) => Err::<Seq<ImportView>, ImportErrorView>(e),
            Ok(is) => match x {
                SxView::List(xs) if xs.len() > 0 && xs[0] == SxView::Atom(
                    AtomView::Sym("deflava-import"@),
                ) => match import_of(xs) {
                    Ok(f) => Ok(is.push(f)),
                    Err(e) => Err(e),
                },
                _ => Ok(is),
            },
        },
    decreases forms.len() - i,
{
    let more = forms.push(x);
    if i < forms.len() {
        assert(more[i] == forms[i]);
        lemma_import_form_added(forms, x, i + 1, acc);
        if let Some(xs) = forms[i].as_list() {
            if let Ok(f) = import_of(xs) {
                lemma_import_form_added(forms, x, i + 1, acc.push(f));
            }
        }
    } else {
        assert(more[i] == x);
        reveal_with_fuel(imports_from, 3);
    }
}

/// How import errors read.
pub proof fn law_import_errors_read_as_sentences(p: crate::sexpr::ParseError, s: Seq<char>)
    ensures
        import_message(ImportErrorView::Parse(p)) == "parse: "@ + parse_message(p),
        import_message(ImportErrorView::NotImportForm) == "expected deflava-import form"@,
        import_message(ImportErrorView::Malformed(s)) == "malformed deflava-import: "@ + s,
{
}

} // verus!
