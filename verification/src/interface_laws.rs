//! What interfaces are, name by name and clause by clause.
use crate::entries::upsert;
use crate::error::parse_message;
use crate::forms::{clause_from, either_from, words_among};
use crate::interface::{
    default_text, field_of, fields_from, interface_from, interface_message, interface_of,
    interfaces_from, source_interfaces, type_clause, type_of, InterfaceErrorView,
};
use crate::number::int_text;
use crate::sexpr::{read_all, AtomView, SxView};
use crate::text::{joined, quoted};
use crate::types::{plain_interface, FieldView, InterfaceView, MatchKind, TypeView};
use vstd::prelude::*;

verus! {

// ---------------------------------------------------------------------
// Types
// ---------------------------------------------------------------------

/// A keyword as a form.
pub open spec fn kw(s: Seq<char>) -> SxView {
    SxView::Atom(AtomView::Kw(s))
}

/// The texts of the type keywords.
proof fn lemma_type_names()
    ensures
        "string"@ == seq!['s', 't', 'r', 'i', 'n', 'g'],
        "integer"@ == seq!['i', 'n', 't', 'e', 'g', 'e', 'r'],
        "boolean"@ == seq!['b', 'o', 'o', 'l', 'e', 'a', 'n'],
        "any"@ == seq!['a', 'n', 'y'],
        "dynamic"@ == seq!['d', 'y', 'n', 'a', 'm', 'i', 'c'],
        "cidr-block"@.len() == 10,
        "ipv4"@ == seq!['i', 'p', 'v', '4'],
        "ipv6"@ == seq!['i', 'p', 'v', '6'],
        "hostname"@ == seq!['h', 'o', 's', 't', 'n', 'a', 'm', 'e'],
        "port-range"@.len() == 10,
        "port-range"@[0] == 'p',
        "cidr-block"@[0] == 'c',
        "availability-zone"@.len() == 17,
        "email"@ == seq!['e', 'm', 'a', 'i', 'l'],
        "url"@ == seq!['u', 'r', 'l'],
{
    reveal_strlit("string");
    reveal_strlit("integer");
    reveal_strlit("boolean");
    reveal_strlit("any");
    reveal_strlit("dynamic");
    reveal_strlit("cidr-block");
    reveal_strlit("ipv4");
    reveal_strlit("ipv6");
    reveal_strlit("hostname");
    reveal_strlit("port-range");
    reveal_strlit("availability-zone");
    reveal_strlit("email");
    reveal_strlit("url");
    assert("string"@ =~= seq!['s', 't', 'r', 'i', 'n', 'g']);
    assert("integer"@ =~= seq!['i', 'n', 't', 'e', 'g', 'e', 'r']);
    assert("boolean"@ =~= seq!['b', 'o', 'o', 'l', 'e', 'a', 'n']);
    assert("any"@ =~= seq!['a', 'n', 'y']);
    assert("dynamic"@ =~= seq!['d', 'y', 'n', 'a', 'm', 'i', 'c']);
    assert("ipv4"@ =~= seq!['i', 'p', 'v', '4']);
    assert("ipv6"@ =~= seq!['i', 'p', 'v', '6']);
    assert("hostname"@ =~= seq!['h', 'o', 's', 't', 'n', 'a', 'm', 'e']);
    assert("email"@ =~= seq!['e', 'm', 'a', 'i', 'l']);
    assert("url"@ =~= seq!['u', 'r', 'l']);
}

/// Each type keyword names its type, and no other keyword names one.
pub proof fn law_keywords_name_their_types(k: Seq<char>)
    ensures
        type_of(kw("string"@)) == Ok::<TypeView, InterfaceErrorView>(TypeView::Text),
        type_of(kw("integer"@)) == Ok::<TypeView, InterfaceErrorView>(TypeView::Integer),
        type_of(kw("boolean"@)) == Ok::<TypeView, InterfaceErrorView>(TypeView::Boolean),
        type_of(kw("any"@)) == Ok::<TypeView, InterfaceErrorView>(TypeView::Any),
        type_of(kw("dynamic"@)) == Ok::<TypeView, InterfaceErrorView>(TypeView::Dynamic),
        type_of(kw("cidr-block"@)) == Ok::<TypeView, InterfaceErrorView>(TypeView::CidrBlock),
        type_of(kw("ipv4"@)) == Ok::<TypeView, InterfaceErrorView>(TypeView::Ipv4),
        type_of(kw("ipv6"@)) == Ok::<TypeView, InterfaceErrorView>(TypeView::Ipv6),
        type_of(kw("hostname"@)) == Ok::<TypeView, InterfaceErrorView>(TypeView::Hostname),
        type_of(kw("port-range"@)) == Ok::<TypeView, InterfaceErrorView>(
            TypeView::PortRange { lo: 1024, hi: 65535 },
        ),
        type_of(kw("availability-zone"@)) == Ok::<TypeView, InterfaceErrorView>(
            TypeView::AvailabilityZone,
        ),
        type_of(kw("email"@)) == Ok::<TypeView, InterfaceErrorView>(TypeView::Email),
        type_of(kw("url"@)) == Ok::<TypeView, InterfaceErrorView>(TypeView::Url),
        k != "string"@ && k != "integer"@ && k != "boolean"@ && k != "any"@ && k != "dynamic"@ && k
            != "cidr-block"@ && k != "ipv4"@ && k != "ipv6"@ && k != "hostname"@ && k
            != "port-range"@ && k != "availability-zone"@ && k != "email"@ && k != "url"@
            ==> type_of(kw(k)) == Err::<TypeView, InterfaceErrorView>(
            InterfaceErrorView::UnknownType(k),
        ),
{
    lemma_type_names();
}

/// An atom that is no keyword names no type; the fault shows it.
pub proof fn law_other_atoms_name_no_type(s: Seq<char>, b: bool, n: i64)
    ensures
        type_of(SxView::Atom(AtomView::Sym(s))) == Err::<TypeView, InterfaceErrorView>(
            InterfaceErrorView::BadTypeForm("Atom(Sym("@ + quoted(s) + "))"@),
        ),
        type_of(SxView::Atom(AtomView::Str(s))) == Err::<TypeView, InterfaceErrorView>(
            InterfaceErrorView::BadTypeForm("Atom(Str("@ + quoted(s) + "))"@),
        ),
        type_of(SxView::Atom(AtomView::Bool(b))) == Err::<TypeView, InterfaceErrorView>(
            InterfaceErrorView::BadTypeForm(
                "Atom(Bool("@ + (if b {
                    "true"@
                } else {
                    "false"@
                }) + "))"@,
            ),
        ),
        type_of(SxView::Atom(AtomView::Int(n))) == Err::<TypeView, InterfaceErrorView>(
            InterfaceErrorView::BadTypeForm("Atom(Int("@ + int_text(n as int) + "))"@),
        ),
{
}

/// The integer of a clause, where it has one within limits.
pub open spec fn int_within(x: Option<SxView>, lo: int, hi: int) -> Option<int> {
    match x {
        Some(SxView::Atom(AtomView::Int(n))) if lo <= n <= hi => Some(n as int),
        _ => None,
    }
}

/// The size of a clause, where it has one.
pub open spec fn size_within(x: Option<SxView>) -> Option<usize> {
    match int_within(x, 0, usize::MAX as int) {
        Some(n) => Some(n as usize),
        None => None,
    }
}

/// `(:list-of type …)` is a list of that type within its limits, and `(:enum …)`
/// one of the words that it lists.
pub proof fn law_lists_and_enums_are_read(items: Seq<SxView>)
    ensures
        items.len() >= 2 && items[0] == kw("list-of"@) ==> type_of(SxView::List(items))
            == match type_of(items[1]) {
            Err(e) => Err::<TypeView, InterfaceErrorView>(e),
            Ok(inner) => Ok(
                TypeView::ListOf {
                    inner: Box::new(inner),
                    min_items: size_within(clause_from(items, "min-items"@, 2, None)),
                    max_items: size_within(clause_from(items, "max-items"@, 2, None)),
                },
            ),
        },
        items.len() == 1 && items[0] == kw("list-of"@) ==> type_of(SxView::List(items)) == Err::<
            TypeView,
            InterfaceErrorView,
        >(InterfaceErrorView::BadTypeForm(":list-of missing inner"@)),
        items.len() > 0 && items[0] == kw("enum"@) ==> type_of(SxView::List(items)) == Ok::<
            TypeView,
            InterfaceErrorView,
        >(TypeView::Enum { values: words_among(items, 1, Seq::empty()) }),
        items.len() == 0 || !(items[0] matches SxView::Atom(AtomView::Kw(_))) ==> type_of(
            SxView::List(items),
        ) == Err::<TypeView, InterfaceErrorView>(
            InterfaceErrorView::BadTypeForm("parametric head must be :kw"@),
        ),
{
    lemma_heads();
}

proof fn lemma_heads()
    ensures
        "list-of"@.len() == 7,
        "enum"@.len() == 4,
        "int-range"@.len() == 9,
        "port-range"@.len() == 10,
        "length"@.len() == 6,
        "pattern"@.len() == 7,
        "list-of"@[0] == 'l',
        "pattern"@[0] == 'p',
{
    reveal_strlit("list-of");
    reveal_strlit("enum");
    reveal_strlit("int-range");
    reveal_strlit("port-range");
    reveal_strlit("length");
    reveal_strlit("pattern");
}

/// The ranges `:int-range` and `:port-range` go from `:lo`, or `:min`, to `:hi`,
/// or `:max`; `:length` goes from `:min` to `:max`. A bound that is missing or
/// does not fit is a fault, the lower one first.
pub proof fn law_ranges_are_read(items: Seq<SxView>)
    requires
        items.len() > 0,
    ensures
        items[0] == kw("int-range"@) ==> type_of(SxView::List(items)) == match (
            int_within(either_from(items, "lo"@, "min"@, 1, None), i64::MIN as int, i64::MAX as int),
            int_within(either_from(items, "hi"@, "max"@, 1, None), i64::MIN as int, i64::MAX as int),
        ) {
            (None, _) => Err::<TypeView, InterfaceErrorView>(
                InterfaceErrorView::BadTypeForm(":int-range needs :lo"@),
            ),
            (_, None) => Err(InterfaceErrorView::BadTypeForm(":int-range needs :hi"@)),
            (Some(lo), Some(hi)) => Ok(TypeView::IntRange { lo: lo as i64, hi: hi as i64 }),
        },
        items[0] == kw("port-range"@) ==> type_of(SxView::List(items)) == match (
            int_within(either_from(items, "lo"@, "min"@, 1, None), 0, 65535),
            int_within(either_from(items, "hi"@, "max"@, 1, None), 0, 65535),
        ) {
            (None, _) => Err::<TypeView, InterfaceErrorView>(
                InterfaceErrorView::BadTypeForm(":port-range needs :lo"@),
            ),
            (_, None) => Err(InterfaceErrorView::BadTypeForm(":port-range needs :hi"@)),
            (Some(lo), Some(hi)) => Ok(TypeView::PortRange { lo: lo as u16, hi: hi as u16 }),
        },
        items[0] == kw("length"@) ==> type_of(SxView::List(items)) == match (
            size_within(clause_from(items, "min"@, 1, None)),
            size_within(clause_from(items, "max"@, 1, None)),
        ) {
            (None, _) => Err::<TypeView, InterfaceErrorView>(
                InterfaceErrorView::BadTypeForm(":length needs :min"@),
            ),
            (_, None) => Err(InterfaceErrorView::BadTypeForm(":length needs :max"@)),
            (Some(min), Some(max)) => Ok(TypeView::Length { min, max }),
        },
{
    lemma_heads();
}

/// A pattern is the string of `:source`, or `:value`, and is matched as
/// `:match-kind` says: at the start, at the end, and anywhere by default. A head
/// that names no parametric type is unknown.
pub proof fn law_patterns_are_read(items: Seq<SxView>, head: Seq<char>)
    requires
        items.len() > 0,
        items[0] == kw(head),
    ensures
        head == "pattern"@ ==> (type_of(SxView::List(items)) matches Ok(t) && t is Pattern && {
            &&& t->source == match either_from(items, "source"@, "value"@, 1, None) {
                Some(SxView::Atom(AtomView::Str(s))) => s,
                _ => Seq::empty(),
            }
            &&& t->match_kind == MatchKind::StartsWith <==> clause_from(
                items,
                "match-kind"@,
                1,
                None,
            ) == Some(SxView::Atom(AtomView::Sym("starts-with"@)))
            &&& t->match_kind == MatchKind::EndsWith <==> clause_from(
                items,
                "match-kind"@,
                1,
                None,
            ) == Some(SxView::Atom(AtomView::Sym("ends-with"@)))
        }),
        head != "list-of"@ && head != "enum"@ && head != "int-range"@ && head != "port-range"@
            && head != "length"@ && head != "pattern"@ ==> type_of(SxView::List(items)) == Err::<
            TypeView,
            InterfaceErrorView,
        >(InterfaceErrorView::UnknownType(head)),
{
    lemma_heads();
    reveal_strlit("starts-with");
    reveal_strlit("ends-with");
    assert("starts-with"@.len() == 11 && "ends-with"@.len() == 9);
}

// ---------------------------------------------------------------------
// Fields
// ---------------------------------------------------------------------

/// The text of a default: that of a string or symbol is the string or symbol
/// itself, that of an integer its digits, that of a boolean `true` or `false`,
/// and that of a list its words with commas between them. A keyword has none,
/// and neither has a list without words.
pub proof fn law_defaults_are_texts(
    s: Seq<char>,
    n: i64,
    items: Seq<SxView>,
)
    ensures
        default_text(SxView::Atom(AtomView::Str(s))) == Some(s),
        default_text(SxView::Atom(AtomView::Sym(s))) == Some(s),
        default_text(SxView::Atom(AtomView::Int(n))) == Some(int_text(n as int)),
        default_text(SxView::Atom(AtomView::Bool(true))) == Some("true"@),
        default_text(SxView::Atom(AtomView::Bool(false))) == Some("false"@),
        default_text(SxView::Atom(AtomView::Bool(true))) != default_text(
            SxView::Atom(AtomView::Bool(false)),
        ),
        default_text(SxView::Atom(AtomView::Kw(s))) is None,
        words_among(items, 0, Seq::empty()).len() == 0 ==> default_text(
            SxView::List(items),
        ) is None,
        words_among(items, 0, Seq::empty()).len() > 0 ==> default_text(SxView::List(items)) == Some(
            joined(words_among(items, 0, Seq::empty()), ","@),
        ),
{
    reveal_strlit("true");
    reveal_strlit("false");
    assert("true"@.len() == 4 && "false"@.len() == 5);
}

proof fn lemma_type_found(xs: Seq<SxView>, i: int, found: Option<TypeView>)
    requires
        0 <= i,
    ensures
        type_clause(xs, i, found) matches Ok(t) ==> match clause_from(xs, "type"@, i, None) {
            Some(x) => t is Some && type_of(x) == Ok::<TypeView, InterfaceErrorView>(t->0),
            None => t == found,
        },
    decreases xs.len() - i,
{
    if i + 1 < xs.len() {
        crate::forms::lemma_clause_found(xs, "type"@, i + 2, Some(xs[i + 1]));
        lemma_type_found(xs, i + 2, found);
        if let Ok(t) = type_of(xs[i + 1]) {
            lemma_type_found(xs, i + 2, Some(t));
        }
    }
}

/// A type with the item limits that its field gives.
pub open spec fn limited(t: TypeView, min: Option<usize>, max: Option<usize>) -> TypeView {
    match t {
        TypeView::ListOf { inner, min_items, max_items } => TypeView::ListOf {
            inner,
            min_items: match min {
                Some(n) => Some(n),
                None => min_items,
            },
            max_items: match max {
                Some(n) => Some(n),
                None => max_items,
            },
        },
        _ => t,
    }
}

/// A field has the name that heads its form, and what its last clause of each
/// kind says: the type of `:type`, or any value, with the limits `:min-items` and
/// `:max-items` on a list; it is required where `:required` is true; its default
/// is the text of `:default` and its doc the string of `:doc`; it is loose where
/// its type takes every value.
pub proof fn law_a_field_is_its_clauses(xs: Seq<SxView>)
    ensures
        field_of(SxView::List(xs)) matches Ok((name, f)) ==> {
            &&& xs.len() > 0
            &&& xs[0] == kw(name)
            &&& match clause_from(xs, "type"@, 1, None) {
                None => f.ty is Any,
                Some(x) => type_of(x) is Ok && f.ty == limited(
                    type_of(x)->Ok_0,
                    size_within(clause_from(xs, "min-items"@, 1, None)),
                    size_within(clause_from(xs, "max-items"@, 1, None)),
                ),
            }
            &&& f.required == (clause_from(xs, "required"@, 1, None) == Some(
                SxView::Atom(AtomView::Bool(true)),
            ))
            &&& f.default == match clause_from(xs, "default"@, 1, None) {
                Some(v) => default_text(v),
                None => None,
            }
            &&& f.doc == match clause_from(xs, "doc"@, 1, None) {
                Some(SxView::Atom(AtomView::Str(s))) => Some(s),
                _ => None,
            }
            &&& f.loose == (f.ty is Any || f.ty is Dynamic)
        },
{
    lemma_type_found(xs, 1, None);
}

proof fn lemma_type_added(
    xs: Seq<SxView>,
    k: SxView,
    v: SxView,
    i: int,
    found: Option<TypeView>,
)
    requires
        0 <= i <= xs.len(),
        (xs.len() - i) % 2 == 0,
    ensures
        type_clause(xs.push(k).push(v), i, found) == match type_clause(xs, i, found) {
            Err(e) => Err::<Option<TypeView>, InterfaceErrorView>(e),
            Ok(t) => if k == kw("type"@) {
                match type_of(v) {
                    Ok(u) => Ok(Some(u)),
                    Err(e) => Err(e),
                }
            } else {
                Ok(t)
            },
        },
    decreases xs.len() - i,
{
    let more = xs.push(k).push(v);
    if i < xs.len() {
        assert(more[i] == xs[i] && more[i + 1] == xs[i + 1]);
        lemma_type_added(xs, k, v, i + 2, found);
        if let Ok(t) = type_of(xs[i + 1]) {
            lemma_type_added(xs, k, v, i + 2, Some(t));
        }
    } else {
        assert(more[i] == k && more[i + 1] == v);
        reveal_with_fuel(type_clause, 3);
    }
}

/// Which forms are fields: a keyword alone is one, and takes any value. One more
/// clause spoils a field only where it is a `:type` that names none, and mends
/// none. What is no list, or has no keyword in front, is a fault.
pub proof fn law_fields_fail_for_their_types_only(
    name: Seq<char>,
    xs: Seq<SxView>,
    k: SxView,
    v: SxView,
)
    requires
        xs.len() % 2 == 1,
    ensures
        field_of(SxView::List(seq![kw(name)])) == Ok::<(Seq<char>, FieldView), InterfaceErrorView>(
            (
                name,
                FieldView {
                    ty: TypeView::Any,
                    required: false,
                    default: None,
                    doc: None,
                    loose: true,
                },
            ),
        ),
        !(xs[0] matches SxView::Atom(AtomView::Kw(_))) ==> field_of(SxView::List(xs)) == Err::<
            (Seq<char>, FieldView),
            InterfaceErrorView,
        >(InterfaceErrorView::BadField("field head must be :kw"@)),
        field_of(SxView::List(xs)) matches Err(e) ==> field_of(SxView::List(xs.push(k).push(v)))
            == Err::<(Seq<char>, FieldView), InterfaceErrorView>(e),
        field_of(SxView::List(xs)) is Ok ==> (field_of(
            SxView::List(xs.push(k).push(v)),
        ) is Err <==> (k == kw("type"@) && type_of(v) is Err)),
        field_of(SxView::List(xs)) is Ok && k == kw("type"@) ==> (type_of(v) matches Err(e)
            ==> field_of(SxView::List(xs.push(k).push(v))) == Err::<
            (Seq<char>, FieldView),
            InterfaceErrorView,
        >(e)),
{
    let one = seq![kw(name)];
    assert(one[0] == kw(name));
    assert(xs.push(k).push(v)[0] == xs[0]);
    lemma_type_added(xs, k, v, 1, None);
}

/// An atom is no field; the fault shows it.
pub proof fn law_atoms_are_no_fields(s: Seq<char>, b: bool, n: i64)
    ensures
        field_of(SxView::Atom(AtomView::Sym(s))) == Err::<(Seq<char>, FieldView), InterfaceErrorView>(
            InterfaceErrorView::BadField("field not a list: "@ + ("Atom(Sym("@ + quoted(s) + "))"@)),
        ),
        field_of(SxView::Atom(AtomView::Str(s))) == Err::<(Seq<char>, FieldView), InterfaceErrorView>(
            InterfaceErrorView::BadField("field not a list: "@ + ("Atom(Str("@ + quoted(s) + "))"@)),
        ),
        field_of(SxView::Atom(AtomView::Kw(s))) == Err::<(Seq<char>, FieldView), InterfaceErrorView>(
            InterfaceErrorView::BadField("field not a list: "@ + ("Atom(Kw("@ + quoted(s) + "))"@)),
        ),
        field_of(SxView::Atom(AtomView::Bool(b))) == Err::<(Seq<char>, FieldView), InterfaceErrorView>(
            InterfaceErrorView::BadField(
                "field not a list: "@ + ("Atom(Bool("@ + (if b {
                    "true"@
                } else {
                    "false"@
                }) + "))"@),
            ),
        ),
        field_of(SxView::Atom(AtomView::Int(n))) == Err::<(Seq<char>, FieldView), InterfaceErrorView>(
            InterfaceErrorView::BadField(
                "field not a list: "@ + ("Atom(Int("@ + int_text(n as int) + "))"@),
            ),
        ),
{
}

// ---------------------------------------------------------------------
// Interfaces
// ---------------------------------------------------------------------

/// Fields are declared one by one: one more goes in under its name, and the
/// first that fails is the failure of the whole.
pub proof fn law_fields_are_declared_one_by_one(
    forms: Seq<SxView>,
    x: SxView,
    acc: Seq<(Seq<char>, FieldView)>,
)
    ensures
        fields_from(Seq::empty(), 0, acc) == Ok::<
            Seq<(Seq<char>, FieldView)>,
            InterfaceErrorView,
        >(acc),
        fields_from(forms.push(x), 0, acc) == match fields_from(forms, 0, acc) {
            Err(e) => Err::<Seq<(Seq<char>, FieldView)>, InterfaceErrorView>(e),
            Ok(fs) => match field_of(x) {
                Ok((name, f)) => Ok(upsert(fs, name, f)),
                Err(e) => Err(e),
            },
        },
{
    lemma_field_added(forms, x, 0, acc);
}

proof fn lemma_field_added(
    forms: Seq<SxView>,
    x: SxView,
    i: int,
    acc: Seq<(Seq<char>, FieldView)>,
)
    requires
        0 <= i <= forms.len(),
    ensures
        fields_from(forms.push(x), i, acc) == match fields_from(forms, i, acc) {
            Err(e) => Err::<Seq<(Seq<char>, FieldView)>, InterfaceErrorView>(e),
            Ok(fs) => match field_of(x) {
                Ok((name, f)) => Ok(upsert(fs, name, f)),
                Err(e) => Err(e),
            },
        },
    decreases forms.len() - i,
{
    let more = forms.push(x);
    if i < forms.len() {
        assert(more[i] == forms[i]);
        if let Ok((name, f)) = field_of(forms[i]) {
            lemma_field_added(forms, x, i + 1, upsert(acc, name, f));
        }
    } else {
        assert(more[i] == x);
        reveal_with_fuel(fields_from, 3);
    }
}

/// An interface with one more clause.
pub open spec fn interface_with(f: InterfaceView, k: SxView, v: SxView) -> Result<
    InterfaceView,
    InterfaceErrorView,
> {
    if k == kw("doc"@) {
        Ok(
            InterfaceView {
                doc: match v {
                    SxView::Atom(AtomView::Str(s)) => Some(s),
                    _ => None,
                },
                ..f
            },
        )
    } else if k == kw("inputs"@) {
        match v {
            SxView::List(forms) => match fields_from(forms, 0, f.inputs) {
                Ok(inputs) => Ok(InterfaceView { inputs, ..f }),
                Err(e) => Err(e),
            },
            _ => Err(InterfaceErrorView::BadField(":inputs not a list"@)),
        }
    } else if k == kw("outputs"@) {
        match v {
            SxView::List(forms) => match fields_from(forms, 0, f.outputs) {
                Ok(outputs) => Ok(InterfaceView { outputs, ..f }),
                Err(e) => Err(e),
            },
            _ => Err(InterfaceErrorView::BadField(":outputs not a list"@)),
        }
    } else {
        Ok(f)
    }
}

/// An interface has the name that its form gives. One more clause adds what it
/// says: `:doc` its string, `:inputs` and `:outputs` their fields, and any other
/// clause nothing. A keyword without a value adds nothing.
pub proof fn law_an_interface_is_its_clauses(
    head: SxView,
    name: Seq<char>,
    xs: Seq<SxView>,
    k: SxView,
    v: SxView,
)
    requires
        xs.len() >= 2,
        xs.len() % 2 == 0,
    ensures
        interface_of(seq![head, SxView::Atom(AtomView::Sym(name))]) == Ok::<
            InterfaceView,
            InterfaceErrorView,
        >(InterfaceView { name, doc: None, inputs: Seq::empty(), outputs: Seq::empty() }),
        interface_of(seq![head]) == Err::<InterfaceView, InterfaceErrorView>(
            InterfaceErrorView::NotInterfaceForm("missing name"@),
        ),
        !(xs[1] matches SxView::Atom(AtomView::Sym(_))) ==> interface_of(xs) == Err::<
            InterfaceView,
            InterfaceErrorView,
        >(InterfaceErrorView::NotInterfaceForm("missing name"@)),
        interface_of(xs.push(k).push(v)) == match interface_of(xs) {
            Ok(f) => interface_with(f, k, v),
            Err(e) => Err(e),
        },
        interface_of(xs.push(k)) == interface_of(xs),
{
    let two = seq![head, SxView::Atom(AtomView::Sym(name))];
    assert(two[1] == SxView::Atom(AtomView::Sym(name)));
    assert(xs.push(k).push(v)[1] == xs[1] && xs.push(k)[1] == xs[1]);
    if let SxView::Atom(AtomView::Sym(n)) = xs[1] {
        lemma_interface_clause_added(xs, k, v, 2, plain_interface(n));
    }
}

proof fn lemma_interface_clause_added(
    xs: Seq<SxView>,
    k: SxView,
    v: SxView,
    i: int,
    f: InterfaceView,
)
    requires
        0 <= i <= xs.len(),
        (xs.len() - i) % 2 == 0,
    ensures
        interface_from(xs.push(k).push(v), i, f) == match interface_from(xs, i, f) {
            Ok(g) => interface_with(g, k, v),
            Err(e) => Err(e),
        },
        interface_from(xs.push(k), i, f) == interface_from(xs, i, f),
    decreases xs.len() - i,
{
    let more = xs.push(k).push(v);
    let lone = xs.push(k);
    if i < xs.len() {
        assert(more[i] == xs[i] && more[i + 1] == xs[i + 1]);
        assert(lone[i] == xs[i] && lone[i + 1] == xs[i + 1]);
        lemma_interface_clause_added(xs, k, v, i + 2, f);
        lemma_interface_clause_added(
            xs,
            k,
            v,
            i + 2,
            InterfaceView { doc: xs[i + 1].as_str(), ..f },
        );
        if let Some(forms) = xs[i + 1].as_list() {
            if let Ok(inputs) = fields_from(forms, 0, f.inputs) {
                lemma_interface_clause_added(xs, k, v, i + 2, InterfaceView { inputs, ..f });
            }
            if let Ok(outputs) = fields_from(forms, 0, f.outputs) {
                lemma_interface_clause_added(xs, k, v, i + 2, InterfaceView { outputs, ..f });
            }
        }
    } else {
        assert(more[i] == k && more[i + 1] == v);
        reveal_with_fuel(interface_from, 3);
    }
}

/// The interfaces of a source are those of its interface forms, one for each
/// and in order; other forms give none. The first that fails is the failure of
/// the whole, and so is a source that does not read.
pub proof fn law_interfaces_are_read_in_order(
    src: Seq<char>,
    forms: Seq<SxView>,
    x: SxView,
)
    ensures
        source_interfaces(src) == match read_all(src, 0) {
            Err(e) => Err::<Seq<InterfaceView>, InterfaceErrorView>(InterfaceErrorView::Parse(e)),
            Ok(fs) => interfaces_from(fs, 0, Seq::empty()),
        },
        interfaces_from(Seq::empty(), 0, Seq::empty()) == Ok::<
            Seq<InterfaceView>,
            InterfaceErrorView,
        >(Seq::empty()),
        interfaces_from(forms.push(x), 0, Seq::empty()) == match interfaces_from(
            forms,
            0,
            Seq::empty(),
        ) {
            Err(e) => Err::<Seq<InterfaceView>, InterfaceErrorView>(e),
            Ok(is) => match x {
                SxView::List(xs) if xs.len() > 0 && xs[0] == SxView::Atom(
                    AtomView::Sym("deflava-interface"@),
                ) => match interface_of(xs) {
                    Ok(f) => Ok(is.push(f)),
                    Err(e) => Err(e),
                },
                _ => Ok(is),
            },
        },
{
    lemma_interface_form_added(forms, x, 0, Seq::empty());
}

proof fn lemma_interface_form_added(
    forms: Seq<SxView>,
    x: SxView,
    i: int,
    acc: Seq<InterfaceView>,
)
    requires
        0 <= i <= forms.len(),
    ensures
        interfaces_from(forms.push(x), i, acc) == match interfaces_from(forms, i, acc) {
            Err(e) => Err::<Seq<InterfaceView>, InterfaceErrorView>(e),
            Ok(is) => match x {
                SxView::List(xs) if xs.len() > 0 && xs[0] == SxView::Atom(
                    AtomView::Sym("deflava-interface"@),
                ) => match interface_of(xs) {
                    Ok(f) => Ok(is.push(f)),
                    Err(e) => Err(e),
                },
                _ => Ok(is),
            },
        },
    decreases forms.len() - i,
{
    let more = forms.push(x);
    if i < forms.len() {
        assert(more[i] == forms[i]);
        lemma_interface_form_added(forms, x, i + 1, acc);
        if let Some(xs) = forms[i].as_list() {
            if let Ok(f) = interface_of(xs) {
                lemma_interface_form_added(forms, x, i + 1, acc.push(f));
            }
        }
    } else {
        assert(more[i] == x);
        reveal_with_fuel(interfaces_from, 3);
    }
}

/// How interface errors read: each says what is wrong and holds what it is about.
pub proof fn law_interface_errors_read_as_sentences(p: crate::sexpr::ParseError, s: Seq<char>)
    ensures
        interface_message(InterfaceErrorView::Parse(p)) == "parse: "@ + parse_message(p),
        interface_message(InterfaceErrorView::NotInterfaceForm(s))
            == "expected deflava-interface form, got "@ + s,
        interface_message(InterfaceErrorView::MissingClause(s)) == "missing :"@ + s + " clause"@,
        interface_message(InterfaceErrorView::BadField(s)) == "malformed field declaration: "@ + s,
        interface_message(InterfaceErrorView::UnknownType(s)) == "unknown type keyword `"@ + s
            + "`"@,
        interface_message(InterfaceErrorView::BadTypeForm(s)) == "malformed type form: "@ + s,
{
}

} // verus!
