//! Picking apart the forms that the reader gives.
use crate::sexpr::{same_text, sx_views, Atom, AtomView, Sx, SxView};
use crate::text::{same, texts};
use vstd::prelude::*;

verus! {

/// The item at a position.
pub open spec fn nth(xs: Seq<SxView>, i: int) -> Option<SxView> {
    if 0 <= i < xs.len() {
        Some(xs[i])
    } else {
        None
    }
}

/// The symbol at a position.
pub open spec fn nth_sym(xs: Seq<SxView>, i: int) -> Option<Seq<char>> {
    match nth(xs, i) {
        Some(x) => x.as_sym(),
        None => None,
    }
}

/// The keyword at a position.
pub open spec fn nth_kw(xs: Seq<SxView>, i: int) -> Option<Seq<char>> {
    match nth(xs, i) {
        Some(x) => x.as_kw(),
        None => None,
    }
}

/// The string at a position.
pub open spec fn nth_str(xs: Seq<SxView>, i: int) -> Option<Seq<char>> {
    match nth(xs, i) {
        Some(x) => x.as_str(),
        None => None,
    }
}

/// The list at a position.
pub open spec fn nth_list(xs: Seq<SxView>, i: int) -> Option<Seq<SxView>> {
    match nth(xs, i) {
        Some(x) => x.as_list(),
        None => None,
    }
}

/// The symbol at a position.
pub fn sym_at(xs: &[Sx], i: usize) -> (r: Option<&str>)
    ensures
        same_text(r, nth_sym(sx_views(xs@), i as int)),
{
    if i < xs.len() {
        xs[i].as_sym()
    } else {
        None
    }
}

/// The keyword at a position.
pub fn kw_at(xs: &[Sx], i: usize) -> (r: Option<&str>)
    ensures
        same_text(r, nth_kw(sx_views(xs@), i as int)),
{
    if i < xs.len() {
        xs[i].as_kw()
    } else {
        None
    }
}

/// The string at a position.
pub fn str_at(xs: &[Sx], i: usize) -> (r: Option<&str>)
    ensures
        same_text(r, nth_str(sx_views(xs@), i as int)),
{
    if i < xs.len() {
        xs[i].as_str()
    } else {
        None
    }
}

/// The list at a position.
pub fn list_at(xs: &[Sx], i: usize) -> (r: Option<&[Sx]>)
    ensures
        match r {
            Some(ys) => nth_list(sx_views(xs@), i as int) == Some(sx_views(ys@)),
            None => nth_list(sx_views(xs@), i as int) is None,
        },
{
    if i < xs.len() {
        xs[i].as_list()
    } else {
        None
    }
}

/// Whether an optional string is the given one.
pub fn is_some_text(s: Option<&str>, want: &str) -> (r: bool)
    ensures
        r == (s matches Some(t) && t@ == want@),
{
    match s {
        Some(t) => same(t, want),
        None => false,
    }
}

/// Whether a form is a list that starts with the given symbol.
pub open spec fn is_form(x: SxView, head: Seq<char>) -> bool {
    x.as_list() matches Some(xs) && nth_sym(xs, 0) == Some(head)
}

/// The items of the first form at or after `i` that starts with a symbol.
pub open spec fn form_from(forms: Seq<SxView>, head: Seq<char>, i: int) -> Option<Seq<SxView>>
    decreases forms.len() - i,
{
    if i < 0 || i >= forms.len() {
        None
    } else if is_form(forms[i], head) {
        forms[i].as_list()
    } else {
        form_from(forms, head, i + 1)
    }
}

/// Finds the first form that starts with a symbol.
pub fn find_form<'a>(forms: &'a Vec<Sx>, head: &str) -> (r: Option<&'a [Sx]>)
    ensures
        match r {
            Some(xs) => form_from(sx_views(forms@), head@, 0) == Some(sx_views(xs@)),
            None => form_from(sx_views(forms@), head@, 0) is None,
        },
{
    let n: usize = forms.len();
    let mut i: usize = 0;
    while i < n
        invariant
            n == forms@.len(),
            i <= n,
            form_from(sx_views(forms@), head@, i as int) == form_from(
                sx_views(forms@),
                head@,
                0,
            ),
        decreases n - i,
    {
        assert(sx_views(forms@)[i as int] == forms@[i as int]@);
        if let Some(xs) = forms[i].as_list() {
            if is_some_text(sym_at(xs, 0), head) {
                return Some(xs);
            }
        }
        i += 1;
    }
    None
}

/// The value of the last clause with a keyword among the pairs from `i` on,
/// or `found` where none has it.
pub open spec fn clause_from(
    xs: Seq<SxView>,
    key: Seq<char>,
    i: int,
    found: Option<SxView>,
) -> Option<SxView>
    decreases xs.len() - i,
{
    if i < 0 || i + 1 >= xs.len() {
        found
    } else if xs[i].as_kw() == Some(key) {
        clause_from(xs, key, i + 2, Some(xs[i + 1]))
    } else {
        clause_from(xs, key, i + 2, found)
    }
}

/// Finds the value of the last clause with a keyword among the pairs from
/// `start` on.
pub fn find_clause<'a>(xs: &'a [Sx], key: &str, start: usize) -> (r: Option<&'a Sx>)
    ensures
        clause_view(r) == clause_from(sx_views(xs@), key@, start as int, None),
{
    let n: usize = xs.len();
    let mut found: Option<&'a Sx> = None;
    let mut i: usize = start;
    while i < n && n - i > 1
        invariant
            n == xs@.len(),
            clause_from(sx_views(xs@), key@, start as int, None) == clause_from(
                sx_views(xs@),
                key@,
                i as int,
                clause_view(found),
            ),
        decreases n - i,
    {
        if is_some_text(xs[i].as_kw(), key) {
            found = Some(&xs[i + 1]);
        }
        i += 2;
    }
    found
}

/// The value of the last clause with one of two keywords among the pairs from
/// `i` on, or `found` where none has one.
pub open spec fn either_from(
    xs: Seq<SxView>,
    a: Seq<char>,
    b: Seq<char>,
    i: int,
    found: Option<SxView>,
) -> Option<SxView>
    decreases xs.len() - i,
{
    if i < 0 || i + 1 >= xs.len() {
        found
    } else if xs[i].as_kw() == Some(a) || xs[i].as_kw() == Some(b) {
        either_from(xs, a, b, i + 2, Some(xs[i + 1]))
    } else {
        either_from(xs, a, b, i + 2, found)
    }
}

/// Finds the value of the last clause with one of two keywords among the pairs
/// from `start` on.
pub fn find_either<'a>(xs: &'a [Sx], a: &str, b: &str, start: usize) -> (r: Option<&'a Sx>)
    ensures
        clause_view(r) == either_from(sx_views(xs@), a@, b@, start as int, None),
{
    let n: usize = xs.len();
    let mut found: Option<&'a Sx> = None;
    let mut i: usize = start;
    while i < n && n - i > 1
        invariant
            n == xs@.len(),
            either_from(sx_views(xs@), a@, b@, start as int, None) == either_from(
                sx_views(xs@),
                a@,
                b@,
                i as int,
                clause_view(found),
            ),
        decreases n - i,
    {
        if is_some_text(xs[i].as_kw(), a) || is_some_text(xs[i].as_kw(), b) {
            found = Some(&xs[i + 1]);
        }
        i += 2;
    }
    found
}

/// The strings and symbols among the items from `i` on, behind those before.
pub open spec fn words_among(items: Seq<SxView>, i: int, acc: Seq<Seq<char>>) -> Seq<Seq<char>>
    decreases items.len() - i,
{
    if i < 0 || i >= items.len() {
        acc
    } else {
        match items[i] {
            SxView::Atom(AtomView::Str(s)) => words_among(items, i + 1, acc.push(s)),
            SxView::Atom(AtomView::Sym(s)) => words_among(items, i + 1, acc.push(s)),
            _ => words_among(items, i + 1, acc),
        }
    }
}

/// Collects the strings and symbols among the items from `start` on.
pub fn collect_words(items: &[Sx], start: usize) -> (r: Vec<String>)
    ensures
        texts(r@) == words_among(sx_views(items@), start as int, Seq::empty()),
{
    let n: usize = items.len();
    let mut out: Vec<String> = Vec::new();
    let mut i: usize = start;
    assert(texts(out@) =~= Seq::empty());
    while i < n
        invariant
            n == items@.len(),
            words_among(sx_views(items@), i as int, texts(out@)) == words_among(
                sx_views(items@),
                start as int,
                Seq::empty(),
            ),
        decreases n - i,
    {
        let ghost before = texts(out@);
        assert(sx_views(items@)[i as int] == items@[i as int]@);
        match &items[i] {
            Sx::Atom(Atom::Str(s)) => {
                out.push(s.clone());
                assert(texts(out@) =~= before.push(s@));
            },
            Sx::Atom(Atom::Sym(s)) => {
                out.push(s.clone());
                assert(texts(out@) =~= before.push(s@));
            },
            _ => {},
        }
        i += 1;
    }
    out
}

/// An optional clause as what it stands for.
pub open spec fn clause_view(clause: Option<&Sx>) -> Option<SxView> {
    match clause {
        Some(x) => Some(x@),
        None => None,
    }
}

// ---------------------------------------------------------------------
// Laws
// ---------------------------------------------------------------------

/// A sibling of another kind, wherever it stands, hides no form.
pub proof fn law_siblings_hide_no_form(
    forms: Seq<SxView>,
    at: int,
    sibling: SxView,
    head: Seq<char>,
)
    requires
        0 <= at <= forms.len(),
        !is_form(sibling, head),
    ensures
        form_from(forms.insert(at, sibling), head, 0) == form_from(forms, head, 0),
{
    lemma_form_before(forms, at, sibling, head, 0);
}

proof fn lemma_form_before(
    forms: Seq<SxView>,
    at: int,
    sibling: SxView,
    head: Seq<char>,
    i: int,
)
    requires
        0 <= i <= at <= forms.len(),
        !is_form(sibling, head),
    ensures
        form_from(forms.insert(at, sibling), head, i) == form_from(forms, head, i),
    decreases at - i,
{
    let more = forms.insert(at, sibling);
    if i < at {
        assert(more[i] == forms[i]);
        lemma_form_before(forms, at, sibling, head, i + 1);
    } else {
        assert(more[at] == sibling);
        lemma_form_behind(forms, at, sibling, head, at);
    }
}

proof fn lemma_form_behind(
    forms: Seq<SxView>,
    at: int,
    sibling: SxView,
    head: Seq<char>,
    i: int,
)
    requires
        0 <= at <= i <= forms.len(),
    ensures
        form_from(forms.insert(at, sibling), head, i + 1) == form_from(forms, head, i),
    decreases forms.len() - i,
{
    let more = forms.insert(at, sibling);
    if i < forms.len() {
        assert(more[i + 1] == forms[i]);
        lemma_form_behind(forms, at, sibling, head, i + 1);
    }
}

/// A form with one more clause at a place.
pub open spec fn with_clause(xs: Seq<SxView>, at: int, key: SxView, value: SxView) -> Seq<SxView> {
    xs.take(at) + seq![key, value] + xs.skip(at)
}

/// A clause with another keyword, wherever it stands among the clauses, leaves
/// what a keyword finds unchanged.
pub proof fn law_other_clauses_are_ignored(
    xs: Seq<SxView>,
    start: int,
    at: int,
    key: SxView,
    value: SxView,
    want: Seq<char>,
)
    requires
        0 <= start <= at <= xs.len(),
        (at - start) % 2 == 0,
        key.as_kw() != Some(want),
    ensures
        clause_from(with_clause(xs, at, key, value), want, start, None) == clause_from(
            xs,
            want,
            start,
            None,
        ),
{
    lemma_clause_before(xs, start, at, key, value, want, None);
}

proof fn lemma_clause_before(
    xs: Seq<SxView>,
    i: int,
    at: int,
    key: SxView,
    value: SxView,
    want: Seq<char>,
    found: Option<SxView>,
)
    requires
        0 <= i <= at <= xs.len(),
        (at - i) % 2 == 0,
        key.as_kw() != Some(want),
    ensures
        clause_from(with_clause(xs, at, key, value), want, i, found) == clause_from(
            xs,
            want,
            i,
            found,
        ),
    decreases at - i,
{
    let more = with_clause(xs, at, key, value);
    if i < at {
        assert(more[i] == xs[i] && more[i + 1] == xs[i + 1]);
        lemma_clause_before(xs, i + 2, at, key, value, want, found);
        lemma_clause_before(xs, i + 2, at, key, value, want, Some(xs[i + 1]));
    } else {
        assert(more[at] == key && more[at + 1] == value);
        lemma_clause_behind(xs, at, at, key, value, want, found);
    }
}

proof fn lemma_clause_behind(
    xs: Seq<SxView>,
    i: int,
    at: int,
    key: SxView,
    value: SxView,
    want: Seq<char>,
    found: Option<SxView>,
)
    requires
        0 <= at <= i,
        at <= xs.len(),
    ensures
        clause_from(with_clause(xs, at, key, value), want, i + 2, found) == clause_from(
            xs,
            want,
            i,
            found,
        ),
    decreases xs.len() - i,
{
    let more = with_clause(xs, at, key, value);
    if i + 1 < xs.len() {
        assert(more[i + 2] == xs[i] && more[i + 3] == xs[i + 1]);
        lemma_clause_behind(xs, i + 2, at, key, value, want, found);
        lemma_clause_behind(xs, i + 2, at, key, value, want, Some(xs[i + 1]));
    }
}

/// What was found before only counts where nothing is found behind it.
pub proof fn lemma_clause_found(
    xs: Seq<SxView>,
    key: Seq<char>,
    i: int,
    found: Option<SxView>,
)
    ensures
        clause_from(xs, key, i, found) == match clause_from(xs, key, i, None) {
            Some(x) => Some(x),
            None => found,
        },
    decreases xs.len() - i,
{
    if 0 <= i && i + 1 < xs.len() {
        lemma_clause_found(xs, key, i + 2, found);
        lemma_clause_found(xs, key, i + 2, Some(xs[i + 1]));
    }
}

/// Of the clauses with one keyword the last counts: a clause that is added
/// behind the others is found under its keyword and under no other. A keyword
/// without a value is no clause, and where there are no clauses none is found.
pub proof fn law_the_last_clause_counts(
    xs: Seq<SxView>,
    start: int,
    k: SxView,
    v: SxView,
    key: Seq<char>,
)
    requires
        0 <= start <= xs.len(),
        (xs.len() - start) % 2 == 0,
    ensures
        clause_from(xs.push(k).push(v), key, start, None) == if k == SxView::Atom(
            AtomView::Kw(key),
        ) {
            Some(v)
        } else {
            clause_from(xs, key, start, None)
        },
        clause_from(xs.push(k), key, start, None) == clause_from(xs, key, start, None),
        xs.len() == start ==> clause_from(xs, key, start, None) is None,
{
    lemma_clause_added(xs, start, k, v, key, None);
}

proof fn lemma_clause_added(
    xs: Seq<SxView>,
    i: int,
    k: SxView,
    v: SxView,
    key: Seq<char>,
    found: Option<SxView>,
)
    requires
        0 <= i <= xs.len(),
        (xs.len() - i) % 2 == 0,
    ensures
        clause_from(xs.push(k).push(v), key, i, found) == if k == SxView::Atom(AtomView::Kw(key)) {
            Some(v)
        } else {
            clause_from(xs, key, i, found)
        },
        clause_from(xs.push(k), key, i, found) == clause_from(xs, key, i, found),
    decreases xs.len() - i,
{
    let more = xs.push(k).push(v);
    if i < xs.len() {
        assert(more[i] == xs[i] && more[i + 1] == xs[i + 1]);
        assert(xs.push(k)[i] == xs[i] && xs.push(k)[i + 1] == xs[i + 1]);
        lemma_clause_added(xs, i + 2, k, v, key, found);
        lemma_clause_added(xs, i + 2, k, v, key, Some(xs[i + 1]));
    } else {
        assert(more[i] == k && more[i + 1] == v);
        assert(clause_from(more, key, i + 2, Some(v)) == Some(v));
        assert(clause_from(more, key, i + 2, found) == found);
    }
}

/// Of the clauses with one of two keywords the last counts, whichever of the
/// two it has.
pub proof fn law_the_last_of_either_clause_counts(
    xs: Seq<SxView>,
    start: int,
    k: SxView,
    v: SxView,
    a: Seq<char>,
    b: Seq<char>,
)
    requires
        0 <= start <= xs.len(),
        (xs.len() - start) % 2 == 0,
    ensures
        either_from(xs.push(k).push(v), a, b, start, None) == if k == SxView::Atom(AtomView::Kw(a))
            || k == SxView::Atom(AtomView::Kw(b)) {
            Some(v)
        } else {
            either_from(xs, a, b, start, None)
        },
        either_from(xs.push(k), a, b, start, None) == either_from(xs, a, b, start, None),
        xs.len() == start ==> either_from(xs, a, b, start, None) is None,
{
    lemma_either_added(xs, start, k, v, a, b, None);
}

proof fn lemma_either_added(
    xs: Seq<SxView>,
    i: int,
    k: SxView,
    v: SxView,
    a: Seq<char>,
    b: Seq<char>,
    found: Option<SxView>,
)
    requires
        0 <= i <= xs.len(),
        (xs.len() - i) % 2 == 0,
    ensures
        either_from(xs.push(k).push(v), a, b, i, found) == if k == SxView::Atom(AtomView::Kw(a))
            || k == SxView::Atom(AtomView::Kw(b)) {
            Some(v)
        } else {
            either_from(xs, a, b, i, found)
        },
        either_from(xs.push(k), a, b, i, found) == either_from(xs, a, b, i, found),
    decreases xs.len() - i,
{
    let more = xs.push(k).push(v);
    if i < xs.len() {
        assert(more[i] == xs[i] && more[i + 1] == xs[i + 1]);
        assert(xs.push(k)[i] == xs[i] && xs.push(k)[i + 1] == xs[i + 1]);
        lemma_either_added(xs, i + 2, k, v, a, b, found);
        lemma_either_added(xs, i + 2, k, v, a, b, Some(xs[i + 1]));
    } else {
        assert(more[i] == k && more[i + 1] == v);
        assert(either_from(more, a, b, i + 2, Some(v)) == Some(v));
        assert(either_from(more, a, b, i + 2, found) == found);
    }
}

/// Of the forms that start with a symbol the first counts: a form that is put
/// in front of the others is found if it starts so, else what was found is.
pub proof fn law_the_first_form_counts(forms: Seq<SxView>, x: SxView, head: Seq<char>)
    ensures
        form_from(Seq::empty(), head, 0) is None,
        form_from(seq![x] + forms, head, 0) == match x {
            SxView::List(xs) if xs.len() > 0 && xs[0] == SxView::Atom(AtomView::Sym(head)) => Some(
                xs,
            ),
            _ => form_from(forms, head, 0),
        },
{
    lemma_form_shifted(forms, x, head, 0);
    assert((seq![x] + forms)[0] == x);
}

proof fn lemma_form_shifted(forms: Seq<SxView>, x: SxView, head: Seq<char>, i: int)
    requires
        0 <= i <= forms.len(),
    ensures
        form_from(seq![x] + forms, head, i + 1) == form_from(forms, head, i),
    decreases forms.len() - i,
{
    if i < forms.len() {
        assert((seq![x] + forms)[i + 1] == forms[i]);
        lemma_form_shifted(forms, x, head, i + 1);
    }
}

/// The words of a list are its strings and symbols, in order and as they are
/// written; what is neither adds none.
pub proof fn law_words_are_strings_and_symbols(
    items: Seq<SxView>,
    start: int,
    x: SxView,
)
    requires
        0 <= start <= items.len(),
    ensures
        words_among(items.push(x), start, Seq::empty()) == match x {
            SxView::Atom(AtomView::Str(s)) => words_among(items, start, Seq::empty()).push(s),
            SxView::Atom(AtomView::Sym(s)) => words_among(items, start, Seq::empty()).push(s),
            _ => words_among(items, start, Seq::empty()),
        },
        items.len() == start ==> words_among(items, start, Seq::empty()).len() == 0,
{
    lemma_word_added(items, start, x, Seq::empty());
}

proof fn lemma_word_added(items: Seq<SxView>, i: int, x: SxView, acc: Seq<Seq<char>>)
    requires
        0 <= i <= items.len(),
    ensures
        words_among(items.push(x), i, acc) == match x {
            SxView::Atom(AtomView::Str(s)) => words_among(items, i, acc).push(s),
            SxView::Atom(AtomView::Sym(s)) => words_among(items, i, acc).push(s),
            _ => words_among(items, i, acc),
        },
    decreases items.len() - i,
{
    let more = items.push(x);
    if i < items.len() {
        assert(more[i] == items[i]);
        lemma_word_added(items, i + 1, x, acc);
        if let SxView::Atom(AtomView::Str(s)) = items[i] {
            lemma_word_added(items, i + 1, x, acc.push(s));
        }
        if let SxView::Atom(AtomView::Sym(s)) = items[i] {
            lemma_word_added(items, i + 1, x, acc.push(s));
        }
    } else {
        assert(more[i] == x);
        assert(words_among(items, i, acc) == acc);
        if let SxView::Atom(AtomView::Str(s)) = x {
            assert(words_among(more, i + 1, acc.push(s)) == acc.push(s));
        }
        if let SxView::Atom(AtomView::Sym(s)) = x {
            assert(words_among(more, i + 1, acc.push(s)) == acc.push(s));
        }
        assert(words_among(more, i + 1, acc) == acc);
    }
}

} // verus!
