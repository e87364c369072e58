//! Reader for `deflava-import` forms.
//!
//! An import names another architecture, and may give it an alias and its own
//! bindings:
//!
//! ```lisp
//! (deflava-import aws-vpc-network
//!   :as       network
//!   :bindings (:name "preview" :cidr "10.42.0.0/16"))
//! ```
//!
//! The reader only extracts the typed values; looking the target up and
//! merging it are the caller's concern.
use crate::entries::{distinct_keys, law_insert_then_read, upsert};
use crate::error::parse_message;
use crate::forms::{is_form, is_some_text, nth, sym_at, with_clause};
use crate::sexpr::{parse_all, read_all, same_text, sx_views, ParseError, Sx, SxView};
use crate::text::{glue, option_text};
use crate::textmap::{text_entries, text_map_copy, text_map_insert, text_map_new};
use indexmap::IndexMap;
use vstd::prelude::*;

verus! {

/// An import of an architecture.
#[derive(Debug, PartialEq, Eq)]
pub struct Import {
    /// The name of the architecture.
    pub target: String,
    /// The prefix under which it is merged.
    pub alias: Option<String>,
    /// What its inputs are bound to, over its own defaults.
    pub bindings: IndexMap<String, String>,
}

/// What an [`Import`] stands for.
pub struct ImportView {
    pub target: Seq<char>,
    pub alias: Option<Seq<char>>,
    pub bindings: Seq<(Seq<char>, Seq<char>)>,
}

impl View for Import {
    type V = ImportView;

    open spec fn view(&self) -> ImportView {
        ImportView {
            target: self.target@,
            alias: option_text(self.alias),
            bindings: text_entries(self.bindings),
        }
    }
}

impl Import {
    /// An import without alias and bindings.
    pub fn new(target: &str) -> (r: Import)
        ensures
            r@ == plain_import(target@),
    {
        Import { target: target.to_owned(), alias: None, bindings: text_map_new() }
    }
}

impl Clone for Import {
    fn clone(&self) -> (r: Import)
        ensures
            r@ == self@,
    {
        Import {
            target: self.target.clone(),
            alias: self.alias.clone(),
            bindings: text_map_copy(&self.bindings),
        }
    }
}

/// An import without alias and bindings.
pub open spec fn plain_import(target: Seq<char>) -> ImportView {
    ImportView { target, alias: None, bindings: Seq::empty() }
}

/// Why imports do not read.
#[derive(Debug)]
pub enum ImportParseError {
    /// The source does not read.
    Parse(ParseError),
    /// An import has no target.
    NotImportForm,
    /// An import has the wrong shape.
    Malformed(String),
}

impl From<ParseError> for ImportParseError {
    fn from(e: ParseError) -> (r: ImportParseError) {
        ImportParseError::Parse(e)
    }
}

impl vstd::std_specs::convert::FromSpecImpl<ParseError> for ImportParseError {
    open spec fn obeys_from_spec() -> bool {
        true
    }

    open spec fn from_spec(e: ParseError) -> ImportParseError {
        ImportParseError::Parse(e)
    }
}

/// What an [`ImportParseError`] stands for.
pub enum ImportErrorView {
    Parse(ParseError),
    NotImportForm,
    Malformed(Seq<char>),
}

impl View for ImportParseError {
    type V = ImportErrorView;

    open spec fn view(&self) -> ImportErrorView {
        match self {
            ImportParseError::Parse(e) => ImportErrorView::Parse(*e),
            ImportParseError::NotImportForm => ImportErrorView::NotImportForm,
            ImportParseError::Malformed(s) => ImportErrorView::Malformed(s@),
        }
    }
}

/// How an import error reads.
pub open spec fn import_message(e: ImportErrorView) -> Seq<char> {
    match e {
        ImportErrorView::Parse(p) => "parse: "@ + parse_message(p),
        ImportErrorView::NotImportForm => "expected deflava-import form"@,
        ImportErrorView::Malformed(s) => "malformed deflava-import: "@ + s,
    }
}

impl ImportParseError {
    /// How the error reads.
    pub fn message(&self) -> (r: String)
        ensures
            r@ == import_message(self@),
    {
        match self {
            ImportParseError::Parse(p) => glue("parse: ", p.message().as_str()),
            ImportParseError::NotImportForm => "expected deflava-import form".to_owned(),
            ImportParseError::Malformed(s) => glue("malformed deflava-import: ", s.as_str()),
        }
    }
}

/// A name, written as a symbol or as a string.
pub open spec fn name_of(x: SxView) -> Option<Seq<char>> {
    match x.as_sym() {
        Some(s) => Some(s),
        None => x.as_str(),
    }
}

/// What the binding pairs from `j` on add. A pair that is not a keyword and a
/// string adds nothing.
pub open spec fn bindings_from(
    pairs: Seq<SxView>,
    j: int,
    acc: Seq<(Seq<char>, Seq<char>)>,
) -> Seq<(Seq<char>, Seq<char>)>
    decreases pairs.len() - j,
{
    if j < 0 || j + 1 >= pairs.len() {
        acc
    } else {
        match (pairs[j].as_kw(), pairs[j + 1].as_str()) {
            (Some(k), Some(v)) => bindings_from(pairs, j + 2, upsert(acc, k, v)),
            _ => bindings_from(pairs, j + 2, acc),
        }
    }
}

/// What the clauses of an import from `i` on add. Unknown clauses add nothing.
pub open spec fn import_from(xs: Seq<SxView>, i: int, import: ImportView) -> ImportView
    decreases xs.len() - i,
{
    if i < 0 || i + 1 >= xs.len() {
        import
    } else if xs[i].as_kw() == Some("as"@) {
        import_from(xs, i + 2, ImportView { alias: name_of(xs[i + 1]), ..import })
    } else if xs[i].as_kw() == Some("bindings"@) {
        match xs[i + 1].as_list() {
            Some(pairs) => import_from(
                xs,
                i + 2,
                ImportView { bindings: bindings_from(pairs, 0, import.bindings), ..import },
            ),
            None => import_from(xs, i + 2, import),
        }
    } else {
        import_from(xs, i + 2, import)
    }
}

/// The import that a form declares.
pub open spec fn import_of(xs: Seq<SxView>) -> Result<ImportView, ImportErrorView> {
    match nth(xs, 1) {
        None => Err(ImportErrorView::NotImportForm),
        Some(x) => match name_of(x) {
            None => Err(ImportErrorView::NotImportForm),
            Some(target) => Ok(import_from(xs, 2, plain_import(target))),
        },
    }
}

/// The imports that the forms from `i` on declare, behind those before. Forms
/// of another kind declare none.
pub open spec fn imports_from(forms: Seq<SxView>, i: int, acc: Seq<ImportView>) -> Result<
    Seq<ImportView>,
    ImportErrorView,
>
    decreases forms.len() - i,
{
    if i < 0 || i >= forms.len() {
        Ok(acc)
    } else if is_form(forms[i], "deflava-import"@) {
        match import_of(forms[i].as_list()->0) {
            Ok(import) => imports_from(forms, i + 1, acc.push(import)),
            Err(e) => Err(e),
        }
    } else {
        imports_from(forms, i + 1, acc)
    }
}

/// The imports that a source declares.
pub open spec fn source_imports(src: Seq<char>) -> Result<Seq<ImportView>, ImportErrorView> {
    match read_all(src, 0) {
        Err(e) => Err(ImportErrorView::Parse(e)),
        Ok(forms) => imports_from(forms, 0, Seq::empty()),
    }
}

/// The meanings of a run of imports.
pub open spec fn import_views(is: Seq<Import>) -> Seq<ImportView> {
    is.map_values(|i: Import| i@)
}

/// A name, written as a symbol or as a string.
fn read_name(x: &Sx) -> (r: Option<&str>)
    ensures
        same_text(r, name_of(x@)),
{
    match x.as_sym() {
        Some(s) => Some(s),
        None => x.as_str(),
    }
}

/// Reads the pairs of a `:bindings` clause.
fn read_bindings(pairs: &[Sx], bindings: &mut IndexMap<String, String>)
    ensures
        text_entries(*final(bindings)) == bindings_from(
            sx_views(pairs@),
            0,
            text_entries(*old(bindings)),
        ),
{
    let n: usize = pairs.len();
    let mut j: usize = 0;
    while n - j > 1
        invariant
            n == pairs@.len(),
            j <= n,
            bindings_from(sx_views(pairs@), j as int, text_entries(*bindings)) == bindings_from(
                sx_views(pairs@),
                0,
                text_entries(*old(bindings)),
            ),
        decreases n - j,
    {
        if let Some(k) = pairs[j].as_kw() {
            if let Some(v) = pairs[j + 1].as_str() {
                text_map_insert(bindings, k.to_owned(), v.to_owned());
            }
        }
        j += 2;
    }
}

/// Reads the import that a form declares.
pub fn import_from_form(xs: &[Sx]) -> (r: Result<Import, ImportParseError>)
    ensures
        match r {
            Ok(import) => import_of(sx_views(xs@)) == Ok::<ImportView, ImportErrorView>(import@),
            Err(e) => import_of(sx_views(xs@)) == Err::<ImportView, ImportErrorView>(e@),
        },
{
    let n: usize = xs.len();
    if n <= 1 {
        return Err(ImportParseError::NotImportForm);
    }
    let target = match read_name(&xs[1]) {
        Some(target) => target,
        None => {
            return Err(ImportParseError::NotImportForm);
        },
    };
    let mut import = Import::new(target);
    let mut i: usize = 2;
    while i < n && n - i > 1
        invariant
            n == xs@.len(),
            import_of(sx_views(xs@)) == Ok::<ImportView, ImportErrorView>(
                import_from(sx_views(xs@), i as int, import@),
            ),
        decreases n - i,
    {
        if is_some_text(xs[i].as_kw(), "as") {
            import.alias = match read_name(&xs[i + 1]) {
                Some(s) => Some(s.to_owned()),
                None => None,
            };
        } else if is_some_text(xs[i].as_kw(), "bindings") {
            if let Some(pairs) = xs[i + 1].as_list() {
                read_bindings(pairs, &mut import.bindings);
            }
        }
        i += 2;
    }
    Ok(import)
}

/// Reads every `deflava-import` form of a source, in order.
pub fn imports_in_source(src: &str) -> (r: Result<Vec<Import>, ImportParseError>)
    ensures
        match r {
            Ok(is) => source_imports(src@) == Ok::<Seq<ImportView>, ImportErrorView>(
                import_views(is@),
            ),
            Err(e) => source_imports(src@) == Err::<Seq<ImportView>, ImportErrorView>(e@),
        },
{
    let forms = match parse_all(src) {
        Ok(forms) => forms,
        Err(e) => {
            return Err(ImportParseError::from(e));
        },
    };
    let n: usize = forms.len();
    let mut out: Vec<Import> = Vec::new();
    let mut i: usize = 0;
    assert(import_views(out@) =~= Seq::empty());
    while i < n
        invariant
            n == forms@.len(),
            i <= n,
            source_imports(src@) == imports_from(
                sx_views(forms@),
                i as int,
                import_views(out@),
            ),
        decreases n - i,
    {
        assert(sx_views(forms@)[i as int] == forms@[i as int]@);
        if let Some(xs) = forms[i].as_list() {
            if is_some_text(sym_at(xs, 0), "deflava-import") {
                let ghost before = import_views(out@);
                match import_from_form(xs) {
                    Ok(import) => {
                        let ghost v = import@;
                        out.push(import);
                        assert(import_views(out@) =~= before.push(v));
                    },
                    Err(e) => {
                        return Err(e);
                    },
                }
            }
        }
        i += 1;
    }
    Ok(out)
}

// ---------------------------------------------------------------------
// Laws
// ---------------------------------------------------------------------

/// A sibling form of another kind, wherever it stands, changes nothing in the
/// imports.
pub proof fn law_siblings_change_no_import(forms: Seq<SxView>, at: int, sibling: SxView)
    requires
        0 <= at <= forms.len(),
        !is_form(sibling, "deflava-import"@),
    ensures
        imports_from(forms.insert(at, sibling), 0, Seq::empty()) == imports_from(
            forms,
            0,
            Seq::empty(),
        ),
{
    lemma_imports_before(forms, at, sibling, 0, Seq::empty());
}

proof fn lemma_imports_before(
    forms: Seq<SxView>,
    at: int,
    sibling: SxView,
    i: int,
    acc: Seq<ImportView>,
)
    requires
        0 <= i <= at <= forms.len(),
        !is_form(sibling, "deflava-import"@),
    ensures
        imports_from(forms.insert(at, sibling), i, acc) == imports_from(forms, i, acc),
    decreases at - i,
{
    let more = forms.insert(at, sibling);
    if i < at {
        assert(more[i] == forms[i]);
        lemma_imports_before(forms, at, sibling, i + 1, acc);
        if is_form(forms[i], "deflava-import"@) {
            if let Ok(import) = import_of(forms[i].as_list()->0) {
                lemma_imports_before(forms, at, sibling, i + 1, acc.push(import));
            }
        }
    } else {
        assert(more[at] == sibling);
        lemma_imports_behind(forms, at, sibling, at, acc);
    }
}

proof fn lemma_imports_behind(
    forms: Seq<SxView>,
    at: int,
    sibling: SxView,
    i: int,
    acc: Seq<ImportView>,
)
    requires
        0 <= at <= i <= forms.len(),
    ensures
        imports_from(forms.insert(at, sibling), i + 1, acc) == imports_from(forms, i, acc),
    decreases forms.len() - i,
{
    let more = forms.insert(at, sibling);
    if i < forms.len() {
        assert(more[i + 1] == forms[i]);
        lemma_imports_behind(forms, at, sibling, i + 1, acc);
        if is_form(forms[i], "deflava-import"@) {
            if let Ok(import) = import_of(forms[i].as_list()->0) {
                lemma_imports_behind(forms, at, sibling, i + 1, acc.push(import));
            }
        }
    }
}

/// A clause that is neither `:as` nor `:bindings`, wherever it stands among the
/// clauses, changes nothing in the import.
pub proof fn law_unknown_import_clauses_are_ignored(
    xs: Seq<SxView>,
    at: int,
    key: SxView,
    value: SxView,
)
    requires
        2 <= at <= xs.len(),
        at % 2 == 0,
        key.as_kw() != Some("as"@),
        key.as_kw() != Some("bindings"@),
    ensures
        import_of(with_clause(xs, at, key, value)) == import_of(xs),
{
    assert(with_clause(xs, at, key, value)[1] == xs[1]);
    if let Some(target) = name_of(xs[1]) {
        lemma_import_before(xs, 2, at, key, value, plain_import(target));
    }
}

proof fn lemma_import_before(
    xs: Seq<SxView>,
    i: int,
    at: int,
    key: SxView,
    value: SxView,
    import: ImportView,
)
    requires
        0 <= i <= at <= xs.len(),
        (at - i) % 2 == 0,
        key.as_kw() != Some("as"@),
        key.as_kw() != Some("bindings"@),
    ensures
        import_from(with_clause(xs, at, key, value), i, import) == import_from(xs, i, import),
    decreases at - i,
{
    let more = with_clause(xs, at, key, value);
    if i < at {
        assert(more[i] == xs[i] && more[i + 1] == xs[i + 1]);
        lemma_import_before(xs, i + 2, at, key, value, import);
        lemma_import_before(
            xs,
            i + 2,
            at,
            key,
            value,
            ImportView { alias: name_of(xs[i + 1]), ..import },
        );
        if let Some(pairs) = xs[i + 1].as_list() {
            lemma_import_before(
                xs,
                i + 2,
                at,
                key,
                value,
                ImportView { bindings: bindings_from(pairs, 0, import.bindings), ..import },
            );
        }
    } else {
        assert(more[at] == key && more[at + 1] == value);
        lemma_import_behind(xs, at, at, key, value, import);
    }
}

proof fn lemma_import_behind(
    xs: Seq<SxView>,
    i: int,
    at: int,
    key: SxView,
    value: SxView,
    import: ImportView,
)
    requires
        0 <= at <= i,
        at <= xs.len(),
    ensures
        import_from(with_clause(xs, at, key, value), i + 2, import) == import_from(xs, i, import),
    decreases xs.len() - i,
{
    let more = with_clause(xs, at, key, value);
    if i + 1 < xs.len() {
        assert(more[i + 2] == xs[i] && more[i + 3] == xs[i + 1]);
        lemma_import_behind(xs, i + 2, at, key, value, import);
        lemma_import_behind(
            xs,
            i + 2,
            at,
            key,
            value,
            ImportView { alias: name_of(xs[i + 1]), ..import },
        );
        if let Some(pairs) = xs[i + 1].as_list() {
            lemma_import_behind(
                xs,
                i + 2,
                at,
                key,
                value,
                ImportView { bindings: bindings_from(pairs, 0, import.bindings), ..import },
            );
        }
    }
}

/// No name is bound twice in an import.
pub proof fn law_import_bindings_are_distinct(xs: Seq<SxView>)
    ensures
        import_of(xs) matches Ok(import) ==> distinct_keys(import.bindings),
{
    if xs.len() > 1 {
        if let Some(target) = name_of(xs[1]) {
            lemma_import_distinct(xs, 2, plain_import(target));
        }
    }
}

proof fn lemma_import_distinct(xs: Seq<SxView>, i: int, import: ImportView)
    requires
        0 <= i,
        distinct_keys(import.bindings),
    ensures
        distinct_keys(import_from(xs, i, import).bindings),
    decreases xs.len() - i,
{
    if i + 1 < xs.len() {
        lemma_import_distinct(xs, i + 2, import);
        lemma_import_distinct(
            xs,
            i + 2,
            ImportView { alias: name_of(xs[i + 1]), ..import },
        );
        if let Some(pairs) = xs[i + 1].as_list() {
            lemma_bindings_distinct(pairs, 0, import.bindings);
            lemma_import_distinct(
                xs,
                i + 2,
                ImportView { bindings: bindings_from(pairs, 0, import.bindings), ..import },
            );
        }
    }
}

proof fn lemma_bindings_distinct(
    pairs: Seq<SxView>,
    j: int,
    acc: Seq<(Seq<char>, Seq<char>)>,
)
    requires
        0 <= j,
        distinct_keys(acc),
    ensures
        distinct_keys(bindings_from(pairs, j, acc)),
    decreases pairs.len() - j,
{
    if j + 1 < pairs.len() {
        lemma_bindings_distinct(pairs, j + 2, acc);
        if let Some(k) = pairs[j].as_kw() {
            if let Some(v) = pairs[j + 1].as_str() {
                law_insert_then_read(acc, k, v, k);
                lemma_bindings_distinct(pairs, j + 2, upsert(acc, k, v));
            }
        }
    }
}

} // verus!
