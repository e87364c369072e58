//! Reader for `deflava-interface` forms.
//!
//! ```lisp
//! (deflava-interface aws-vpc-network
//!   :doc "Standard AWS VPC + IGW + subnets + NAT"
//!   :inputs ((:cidr :type :cidr-block :default "10.0.0.0/16")
//!            (:azs  :type (:list-of :availability-zone)
//!                   :min-items 1 :default ("us-east-1a"))
//!            (:env  :type (:enum "prod" "staging" "dev") :default "prod"))
//!   :outputs ((:vpc-id            :type :string :required #t)
//!             (:public-subnet-ids :type (:list-of :string))))
//! ```
//!
//! A keyword names a primitive type: `:string`, `:integer`, `:boolean`,
//! `:any`, `:dynamic`, `:cidr-block`, `:ipv4`, `:ipv6`, `:hostname`,
//! `:port-range`, `:availability-zone`, `:email`, `:url`. A list names a
//! parametric one: `(:list-of <type> :min-items N :max-items M)`,
//! `(:enum "a" "b" …)`, `(:int-range :min N :max M)`,
//! `(:port-range :min N :max M)`, `(:length :min N :max M)`,
//! `(:pattern :match-kind contains :value "…")`.
use crate::entries::{distinct_keys, law_insert_then_read, upsert};
use crate::error::parse_message;
use crate::forms::{
    clause_from, clause_view, collect_words, either_from, find_clause, find_either, is_form,
    is_some_text, kw_at, law_other_clauses_are_ignored, nth_kw, nth_sym, sym_at, with_clause,
    words_among,
};
use crate::number::{i64_text, int_text};
use crate::sexpr::{
    lemma_list_view, parse_all, read_all, sx_views, Atom, AtomView, ParseError, Sx, SxView,
};
use crate::text::{glue, glue3, join, joined, option_text, quoted, same, text_debug};
use crate::types::{
    field_entries, field_map_insert, plain_interface, Field, FieldView, Interface, InterfaceView,
    MatchKind, Type, TypeView,
};
use indexmap::IndexMap;
use vstd::prelude::*;

verus! {

/// Why an interface does not read.
#[derive(Debug)]
pub enum InterfaceParseError {
    /// The source does not read.
    Parse(ParseError),
    /// A form is no interface.
    NotInterfaceForm(String),
    /// A clause that must be there is not.
    MissingClause(&'static str),
    /// A field has the wrong shape.
    BadField(String),
    /// A type keyword names no type.
    UnknownType(String),
    /// A type form has the wrong shape.
    BadTypeForm(String),
}

impl From<ParseError> for InterfaceParseError {
    fn from(e: ParseError) -> (r: InterfaceParseError) {
        InterfaceParseError::Parse(e)
    }
}

impl vstd::std_specs::convert::FromSpecImpl<ParseError> for InterfaceParseError {
    open spec fn obeys_from_spec() -> bool {
        true
    }

    open spec fn from_spec(e: ParseError) -> InterfaceParseError {
        InterfaceParseError::Parse(e)
    }
}

/// What an [`InterfaceParseError`] stands for.
pub enum InterfaceErrorView {
    Parse(ParseError),
    NotInterfaceForm(Seq<char>),
    MissingClause(Seq<char>),
    BadField(Seq<char>),
    UnknownType(Seq<char>),
    BadTypeForm(Seq<char>),
}

impl View for InterfaceParseError {
    type V = InterfaceErrorView;

    open spec fn view(&self) -> InterfaceErrorView {
        match self {
            InterfaceParseError::Parse(e) => InterfaceErrorView::Parse(*e),
            InterfaceParseError::NotInterfaceForm(s) => InterfaceErrorView::NotInterfaceForm(s@),
            InterfaceParseError::MissingClause(s) => InterfaceErrorView::MissingClause(s@),
            InterfaceParseError::BadField(s) => InterfaceErrorView::BadField(s@),
            InterfaceParseError::UnknownType(s) => InterfaceErrorView::UnknownType(s@),
            InterfaceParseError::BadTypeForm(s) => InterfaceErrorView::BadTypeForm(s@),
        }
    }
}

/// How an interface error reads.
pub open spec fn interface_message(e: InterfaceErrorView) -> Seq<char> {
    match e {
        InterfaceErrorView::Parse(p) => "parse: "@ + parse_message(p),
        InterfaceErrorView::NotInterfaceForm(s) => "expected deflava-interface form, got "@ + s,
        InterfaceErrorView::MissingClause(s) => "missing :"@ + s + " clause"@,
        InterfaceErrorView::BadField(s) => "malformed field declaration: "@ + s,
        InterfaceErrorView::UnknownType(s) => "unknown type keyword `"@ + s + "`"@,
        InterfaceErrorView::BadTypeForm(s) => "malformed type form: "@ + s,
    }
}

impl InterfaceParseError {
    /// How the error reads.
    pub fn message(&self) -> (r: String)
        ensures
            r@ == interface_message(self@),
    {
        match self {
            InterfaceParseError::Parse(p) => glue("parse: ", p.message().as_str()),
            InterfaceParseError::NotInterfaceForm(s) => glue(
                "expected deflava-interface form, got ",
                s.as_str(),
            ),
            InterfaceParseError::MissingClause(s) => glue3("missing :", s, " clause"),
            InterfaceParseError::BadField(s) => glue(
                "malformed field declaration: ",
                s.as_str(),
            ),
            InterfaceParseError::UnknownType(s) => glue3(
                "unknown type keyword `",
                s.as_str(),
                "`",
            ),
            InterfaceParseError::BadTypeForm(s) => glue("malformed type form: ", s.as_str()),
        }
    }
}

// ---------------------------------------------------------------------
// Types
// ---------------------------------------------------------------------

/// How an atom is shown in an error.
pub open spec fn shown_atom(a: AtomView) -> Seq<char> {
    match a {
        AtomView::Sym(s) => "Atom(Sym("@ + quoted(s) + "))"@,
        AtomView::Kw(s) => "Atom(Kw("@ + quoted(s) + "))"@,
        AtomView::Str(s) => "Atom(Str("@ + quoted(s) + "))"@,
        AtomView::Bool(b) => "Atom(Bool("@ + bool_text(b) + "))"@,
        AtomView::Int(n) => "Atom(Int("@ + int_text(n as int) + "))"@,
    }
}

/// How a boolean is written.
pub open spec fn bool_text(b: bool) -> Seq<char> {
    if b {
        "true"@
    } else {
        "false"@
    }
}

/// Shows an atom.
fn show_atom(a: &Atom) -> (r: String)
    ensures
        r@ == shown_atom(a@),
{
    match a {
        Atom::Sym(s) => glue3("Atom(Sym(", text_debug(s.as_str()).as_str(), "))"),
        Atom::Kw(s) => glue3("Atom(Kw(", text_debug(s.as_str()).as_str(), "))"),
        Atom::Str(s) => glue3("Atom(Str(", text_debug(s.as_str()).as_str(), "))"),
        Atom::Bool(b) => glue3(
            "Atom(Bool(",
            if *b {
                "true"
            } else {
                "false"
            },
            "))",
        ),
        Atom::Int(n) => glue3("Atom(Int(", i64_text(*n).as_str(), "))"),
    }
}

/// The type that a keyword names.
pub open spec fn primitive_of(k: Seq<char>) -> Result<TypeView, InterfaceErrorView> {
    if k == "string"@ {
        Ok(TypeView::Text)
    } else if k == "integer"@ {
        Ok(TypeView::Integer)
    } else if k == "boolean"@ {
        Ok(TypeView::Boolean)
    } else if k == "any"@ {
        Ok(TypeView::Any)
    } else if k == "dynamic"@ {
        Ok(TypeView::Dynamic)
    } else if k == "cidr-block"@ {
        Ok(TypeView::CidrBlock)
    } else if k == "ipv4"@ {
        Ok(TypeView::Ipv4)
    } else if k == "ipv6"@ {
        Ok(TypeView::Ipv6)
    } else if k == "hostname"@ {
        Ok(TypeView::Hostname)
    } else if k == "port-range"@ {
        Ok(TypeView::PortRange { lo: 1024, hi: 65535 })
    } else if k == "availability-zone"@ {
        Ok(TypeView::AvailabilityZone)
    } else if k == "email"@ {
        Ok(TypeView::Email)
    } else if k == "url"@ {
        Ok(TypeView::Url)
    } else {
        Err(InterfaceErrorView::UnknownType(k))
    }
}

/// The integer of a clause.
pub open spec fn int_clause(x: Option<SxView>) -> Option<i64> {
    match x {
        Some(v) => v.as_int(),
        None => None,
    }
}

/// The integer of a clause, where it is a size.
pub open spec fn size_clause(x: Option<SxView>) -> Option<usize> {
    match int_clause(x) {
        Some(n) if 0 <= n <= usize::MAX => Some(n as usize),
        _ => None,
    }
}

/// The integer of a clause, where it is a port.
pub open spec fn port_clause(x: Option<SxView>) -> Option<u16> {
    match int_clause(x) {
        Some(n) if 0 <= n <= u16::MAX => Some(n as u16),
        _ => None,
    }
}

/// The string of a clause, or none.
pub open spec fn str_clause(x: Option<SxView>) -> Option<Seq<char>> {
    match x {
        Some(v) => v.as_str(),
        None => None,
    }
}

/// How a pattern matches, by the name that a clause gives.
pub open spec fn match_kind_of(x: Option<SxView>) -> MatchKind {
    match x {
        Some(v) => if v.as_sym() == Some("starts-with"@) {
            MatchKind::StartsWith
        } else if v.as_sym() == Some("ends-with"@) {
            MatchKind::EndsWith
        } else {
            MatchKind::Contains
        },
        None => MatchKind::Contains,
    }
}

/// The type that a form names.
pub open spec fn type_of(v: SxView) -> Result<TypeView, InterfaceErrorView>
    decreases v,
{
    match v {
        SxView::Atom(AtomView::Kw(k)) => primitive_of(k),
        SxView::Atom(a) => Err(InterfaceErrorView::BadTypeForm(shown_atom(a))),
        SxView::List(items) => parametric_of(items),
    }
}

/// The type that the items of a list name.
pub open spec fn parametric_of(items: Seq<SxView>) -> Result<TypeView, InterfaceErrorView>
    decreases items,
{
    match nth_kw(items, 0) {
        None => Err(InterfaceErrorView::BadTypeForm("parametric head must be :kw"@)),
        Some(head) => if head == "list-of"@ {
            if items.len() < 2 {
                Err(InterfaceErrorView::BadTypeForm(":list-of missing inner"@))
            } else {
                match type_of(items[1]) {
                    Err(e) => Err(e),
                    Ok(inner) => Ok(
                        TypeView::ListOf {
                            inner: Box::new(inner),
                            min_items: size_clause(clause_from(items, "min-items"@, 2, None)),
                            max_items: size_clause(clause_from(items, "max-items"@, 2, None)),
                        },
                    ),
                }
            }
        } else if head == "enum"@ {
            Ok(TypeView::Enum { values: words_among(items, 1, Seq::empty()) })
        } else if head == "int-range"@ {
            match (
                int_clause(either_from(items, "lo"@, "min"@, 1, None)),
                int_clause(either_from(items, "hi"@, "max"@, 1, None)),
            ) {
                (None, _) => Err(InterfaceErrorView::BadTypeForm(":int-range needs :lo"@)),
                (_, None) => Err(InterfaceErrorView::BadTypeForm(":int-range needs :hi"@)),
                (Some(lo), Some(hi)) => Ok(TypeView::IntRange { lo, hi }),
            }
        } else if head == "port-range"@ {
            match (
                port_clause(either_from(items, "lo"@, "min"@, 1, None)),
                port_clause(either_from(items, "hi"@, "max"@, 1, None)),
            ) {
                (None, _) => Err(InterfaceErrorView::BadTypeForm(":port-range needs :lo"@)),
                (_, None) => Err(InterfaceErrorView::BadTypeForm(":port-range needs :hi"@)),
                (Some(lo), Some(hi)) => Ok(TypeView::PortRange { lo, hi }),
            }
        } else if head == "length"@ {
            match (
                size_clause(clause_from(items, "min"@, 1, None)),
                size_clause(clause_from(items, "max"@, 1, None)),
            ) {
                (None, _) => Err(InterfaceErrorView::BadTypeForm(":length needs :min"@)),
                (_, None) => Err(InterfaceErrorView::BadTypeForm(":length needs :max"@)),
                (Some(min), Some(max)) => Ok(TypeView::Length { min, max }),
            }
        } else if head == "pattern"@ {
            Ok(
                TypeView::Pattern {
                    source: match str_clause(either_from(items, "source"@, "value"@, 1, None)) {
                        Some(s) => s,
                        None => Seq::empty(),
                    },
                    match_kind: match_kind_of(clause_from(items, "match-kind"@, 1, None)),
                },
            )
        } else {
            Err(InterfaceErrorView::UnknownType(head))
        },
    }
}

/// Whether a type reading gave what it is to give.
pub open spec fn gives_type(
    r: Result<Type, InterfaceParseError>,
    want: Result<TypeView, InterfaceErrorView>,
) -> bool {
    match r {
        Ok(t) => want == Ok::<TypeView, InterfaceErrorView>(t@),
        Err(e) => want == Err::<TypeView, InterfaceErrorView>(e@),
    }
}

/// The integer of a clause.
fn int_of(x: Option<&Sx>) -> (r: Option<i64>)
    ensures
        r == int_clause(clause_view(x)),
{
    match x {
        Some(v) => v.as_int(),
        None => None,
    }
}

/// The integer of a clause, where it is a size.
fn size_of(x: Option<&Sx>) -> (r: Option<usize>)
    ensures
        r == size_clause(clause_view(x)),
{
    match int_of(x) {
        Some(n) => if n >= 0 && (n as u64) as u128 <= usize::MAX as u128 {
            Some(n as usize)
        } else {
            None
        },
        None => None,
    }
}

/// The integer of a clause, where it is a port.
fn port_of(x: Option<&Sx>) -> (r: Option<u16>)
    ensures
        r == port_clause(clause_view(x)),
{
    match int_of(x) {
        Some(n) => if 0 <= n && n <= 65535 {
            Some(n as u16)
        } else {
            None
        },
        None => None,
    }
}

/// Reads a primitive type.
pub fn primitive_type(k: &str) -> (r: Result<Type, InterfaceParseError>)
    ensures
        gives_type(r, primitive_of(k@)),
{
    if same(k, "string") {
        Ok(Type::String)
    } else if same(k, "integer") {
        Ok(Type::Integer)
    } else if same(k, "boolean") {
        Ok(Type::Boolean)
    } else if same(k, "any") {
        Ok(Type::Any)
    } else if same(k, "dynamic") {
        Ok(Type::Dynamic)
    } else if same(k, "cidr-block") {
        Ok(Type::CidrBlock)
    } else if same(k, "ipv4") {
        Ok(Type::Ipv4)
    } else if same(k, "ipv6") {
        Ok(Type::Ipv6)
    } else if same(k, "hostname") {
        Ok(Type::Hostname)
    } else if same(k, "port-range") {
        Ok(Type::PortRange { lo: 1024, hi: 65535 })
    } else if same(k, "availability-zone") {
        Ok(Type::AvailabilityZone)
    } else if same(k, "email") {
        Ok(Type::Email)
    } else if same(k, "url") {
        Ok(Type::Url)
    } else {
        Err(InterfaceParseError::UnknownType(k.to_owned()))
    }
}

/// Reads a type.
pub fn type_from_form(v: &Sx) -> (r: Result<Type, InterfaceParseError>)
    ensures
        gives_type(r, type_of(v@)),
    decreases v,
{
    match v {
        Sx::Atom(Atom::Kw(k)) => primitive_type(k.as_str()),
        Sx::Atom(a) => Err(InterfaceParseError::BadTypeForm(show_atom(a))),
        Sx::List(items) => {
            proof {
                lemma_list_view(*items);
            }
            parametric_type(items)
        },
    }
}

/// Reads a parametric type.
pub fn parametric_type(items: &Vec<Sx>) -> (r: Result<Type, InterfaceParseError>)
    ensures
        gives_type(r, parametric_of(sx_views(items@))),
    decreases items,
{
    let xs = items.as_slice();
    let head = match kw_at(xs, 0) {
        Some(head) => head,
        None => {
            return Err(
                InterfaceParseError::BadTypeForm("parametric head must be :kw".to_owned()),
            );
        },
    };
    if same(head, "list-of") {
        if items.len() < 2 {
            return Err(InterfaceParseError::BadTypeForm(":list-of missing inner".to_owned()));
        }
        let inner = match type_from_form(&items[1]) {
            Ok(inner) => inner,
            Err(e) => {
                return Err(e);
            },
        };
        let min_items = size_of(find_clause(xs, "min-items", 2));
        let max_items = size_of(find_clause(xs, "max-items", 2));
        return Ok(Type::ListOf { inner: Box::new(inner), min_items, max_items });
    }
    if same(head, "enum") {
        return Ok(Type::Enum { values: collect_words(xs, 1) });
    }
    if same(head, "int-range") {
        let lo: i64 = match int_of(find_either(xs, "lo", "min", 1)) {
            Some(lo) => lo,
            None => {
                return Err(InterfaceParseError::BadTypeForm(":int-range needs :lo".to_owned()));
            },
        };
        let hi: i64 = match int_of(find_either(xs, "hi", "max", 1)) {
            Some(hi) => hi,
            None => {
                return Err(InterfaceParseError::BadTypeForm(":int-range needs :hi".to_owned()));
            },
        };
        return Ok(Type::IntRange { lo, hi });
    }
    if same(head, "port-range") {
        let lo: u16 = match port_of(find_either(xs, "lo", "min", 1)) {
            Some(lo) => lo,
            None => {
                return Err(InterfaceParseError::BadTypeForm(":port-range needs :lo".to_owned()));
            },
        };
        let hi: u16 = match port_of(find_either(xs, "hi", "max", 1)) {
            Some(hi) => hi,
            None => {
                return Err(InterfaceParseError::BadTypeForm(":port-range needs :hi".to_owned()));
            },
        };
        return Ok(Type::PortRange { lo, hi });
    }
    if same(head, "length") {
        let min: usize = match size_of(find_clause(xs, "min", 1)) {
            Some(min) => min,
            None => {
                return Err(InterfaceParseError::BadTypeForm(":length needs :min".to_owned()));
            },
        };
        let max: usize = match size_of(find_clause(xs, "max", 1)) {
            Some(max) => max,
            None => {
                return Err(InterfaceParseError::BadTypeForm(":length needs :max".to_owned()));
            },
        };
        return Ok(Type::Length { min, max });
    }
    if same(head, "pattern") {
        let source = match find_either(xs, "source", "value", 1) {
            Some(v) => match v.as_str() {
                Some(s) => s.to_owned(),
                None => String::new(),
            },
            None => String::new(),
        };
        let match_kind = match find_clause(xs, "match-kind", 1) {
            Some(v) => if is_some_text(v.as_sym(), "starts-with") {
                MatchKind::StartsWith
            } else if is_some_text(v.as_sym(), "ends-with") {
                MatchKind::EndsWith
            } else {
                MatchKind::Contains
            },
            None => MatchKind::Contains,
        };
        return Ok(Type::Pattern { source, match_kind });
    }
    Err(InterfaceParseError::UnknownType(head.to_owned()))
}

// ---------------------------------------------------------------------
// Fields
// ---------------------------------------------------------------------

/// A default as a string: strings, symbols, integers and booleans as they are
/// written, and the strings and symbols of a list joined by commas.
pub open spec fn default_text(v: SxView) -> Option<Seq<char>> {
    match v {
        SxView::Atom(AtomView::Str(s)) => Some(s),
        SxView::Atom(AtomView::Sym(s)) => Some(s),
        SxView::Atom(AtomView::Bool(b)) => Some(bool_text(b)),
        SxView::Atom(AtomView::Int(n)) => Some(int_text(n as int)),
        SxView::Atom(AtomView::Kw(_)) => None,
        SxView::List(items) => {
            let parts = words_among(items, 0, Seq::empty());
            if parts.len() == 0 {
                None
            } else {
                Some(joined(parts, ","@))
            }
        },
    }
}

/// The last type among the clauses from `i` on, or `found`. Every type clause
/// must name a type.
pub open spec fn type_clause(xs: Seq<SxView>, i: int, found: Option<TypeView>) -> Result<
    Option<TypeView>,
    InterfaceErrorView,
>
    decreases xs.len() - i,
{
    if i < 0 || i + 1 >= xs.len() {
        Ok(found)
    } else if xs[i].as_kw() == Some("type"@) {
        match type_of(xs[i + 1]) {
            Ok(t) => type_clause(xs, i + 2, Some(t)),
            Err(e) => Err(e),
        }
    } else {
        type_clause(xs, i + 2, found)
    }
}

/// A type with the item limits of its field: they replace those of a list type
/// where the field gives them.
pub open spec fn with_limits(ty: TypeView, min: Option<usize>, max: Option<usize>) -> TypeView {
    match ty {
        TypeView::ListOf { inner, min_items, max_items } => TypeView::ListOf {
            inner,
            min_items: if min is Some {
                min
            } else {
                min_items
            },
            max_items: if max is Some {
                max
            } else {
                max_items
            },
        },
        _ => ty,
    }
}

/// The field that the clauses of a form declare, given the type that they name.
pub open spec fn field_with(xs: Seq<SxView>, found: Option<TypeView>) -> FieldView {
    let ty = with_limits(
        match found {
            Some(t) => t,
            None => TypeView::Any,
        },
        size_clause(clause_from(xs, "min-items"@, 1, None)),
        size_clause(clause_from(xs, "max-items"@, 1, None)),
    );
    FieldView {
        ty,
        required: match clause_from(xs, "required"@, 1, None) {
            Some(v) => v.as_bool() == Some(true),
            None => false,
        },
        default: match clause_from(xs, "default"@, 1, None) {
            Some(v) => default_text(v),
            None => None,
        },
        doc: str_clause(clause_from(xs, "doc"@, 1, None)),
        loose: ty.is_loose(),
    }
}

/// The name and the field that a form `(:name :type … :clause value …)`
/// declares.
pub open spec fn field_of(form: SxView) -> Result<(Seq<char>, FieldView), InterfaceErrorView> {
    match form {
        SxView::Atom(a) => Err(
            InterfaceErrorView::BadField("field not a list: "@ + shown_atom(a)),
        ),
        SxView::List(xs) => match nth_kw(xs, 0) {
            None => Err(InterfaceErrorView::BadField("field head must be :kw"@)),
            Some(name) => match type_clause(xs, 1, None) {
                Err(e) => Err(e),
                Ok(found) => Ok((name, field_with(xs, found))),
            },
        },
    }
}

/// Writes a default as a string.
pub fn render_default(v: &Sx) -> (r: Option<String>)
    ensures
        option_text(r) == default_text(v@),
{
    match v {
        Sx::Atom(Atom::Str(s)) => Some(s.clone()),
        Sx::Atom(Atom::Sym(s)) => Some(s.clone()),
        Sx::Atom(Atom::Bool(b)) => Some(
            if *b {
                "true".to_owned()
            } else {
                "false".to_owned()
            },
        ),
        Sx::Atom(Atom::Int(n)) => Some(i64_text(*n)),
        Sx::Atom(Atom::Kw(_)) => None,
        Sx::List(items) => {
            proof {
                lemma_list_view(*items);
            }
            let parts = collect_words(items.as_slice(), 0);
            if parts.len() == 0 {
                None
            } else {
                Some(join(&parts, ","))
            }
        },
    }
}

/// Reads the type clauses of a field.
fn find_type(xs: &[Sx]) -> (r: Result<Option<Type>, InterfaceParseError>)
    ensures
        match r {
            Ok(Some(t)) => type_clause(sx_views(xs@), 1, None) == Ok::<
                Option<TypeView>,
                InterfaceErrorView,
            >(Some(t@)),
            Ok(None) => type_clause(sx_views(xs@), 1, None) == Ok::<
                Option<TypeView>,
                InterfaceErrorView,
            >(None),
            Err(e) => type_clause(sx_views(xs@), 1, None) == Err::<
                Option<TypeView>,
                InterfaceErrorView,
            >(e@),
        },
{
    let n: usize = xs.len();
    let mut found: Option<Type> = None;
    let mut i: usize = 1;
    while i < n && n - i > 1
        invariant
            n == xs@.len(),
            type_clause(sx_views(xs@), 1, None) == type_clause(
                sx_views(xs@),
                i as int,
                match found {
                    Some(t) => Some(t@),
                    None => None,
                },
            ),
        decreases n - i,
    {
        if is_some_text(xs[i].as_kw(), "type") {
            match type_from_form(&xs[i + 1]) {
                Ok(t) => {
                    found = Some(t);
                },
                Err(e) => {
                    return Err(e);
                },
            }
        }
        i += 2;
    }
    Ok(found)
}

/// Puts the item limits of a field into its list type.
fn limit_items(ty: Type, min: Option<usize>, max: Option<usize>) -> (r: Type)
    ensures
        r@ == with_limits(ty@, min, max),
{
    match ty {
        Type::ListOf { inner, min_items, max_items } => Type::ListOf {
            inner,
            min_items: if min.is_some() {
                min
            } else {
                min_items
            },
            max_items: if max.is_some() {
                max
            } else {
                max_items
            },
        },
        other => other,
    }
}

/// Reads a field.
pub fn field_from_form(form: &Sx) -> (r: Result<(String, Field), InterfaceParseError>)
    ensures
        match r {
            Ok((name, field)) => field_of(form@) == Ok::<
                (Seq<char>, FieldView),
                InterfaceErrorView,
            >((name@, field@)),
            Err(e) => field_of(form@) == Err::<(Seq<char>, FieldView), InterfaceErrorView>(e@),
        },
{
    let items = match form {
        Sx::List(items) => items,
        Sx::Atom(a) => {
            return Err(
                InterfaceParseError::BadField(
                    glue("field not a list: ", show_atom(a).as_str()),
                ),
            );
        },
    };
    proof {
        lemma_list_view(*items);
    }
    let xs = items.as_slice();
    let name = match kw_at(xs, 0) {
        Some(name) => name,
        None => {
            return Err(InterfaceParseError::BadField("field head must be :kw".to_owned()));
        },
    };
    let found = match find_type(xs) {
        Ok(Some(t)) => t,
        Ok(None) => Type::Any,
        Err(e) => {
            return Err(e);
        },
    };
    let min = size_of(find_clause(xs, "min-items", 1));
    let max = size_of(find_clause(xs, "max-items", 1));
    let ty = limit_items(found, min, max);
    let loose = ty.is_loose();
    let required = match find_clause(xs, "required", 1) {
        Some(v) => match v.as_bool() {
            Some(b) => b,
            None => false,
        },
        None => false,
    };
    let default = match find_clause(xs, "default", 1) {
        Some(v) => render_default(v),
        None => None,
    };
    let doc = match find_clause(xs, "doc", 1) {
        Some(v) => match v.as_str() {
            Some(s) => Some(s.to_owned()),
            None => None,
        },
        None => None,
    };
    Ok((name.to_owned(), Field { ty, required, default, doc, loose }))
}

// ---------------------------------------------------------------------
// Interfaces
// ---------------------------------------------------------------------

/// What the field forms from `i` on add to a map of fields.
pub open spec fn fields_from(
    forms: Seq<SxView>,
    i: int,
    acc: Seq<(Seq<char>, FieldView)>,
) -> Result<Seq<(Seq<char>, FieldView)>, InterfaceErrorView>
    decreases forms.len() - i,
{
    if i < 0 || i >= forms.len() {
        Ok(acc)
    } else {
        match field_of(forms[i]) {
            Ok((name, field)) => fields_from(forms, i + 1, upsert(acc, name, field)),
            Err(e) => Err(e),
        }
    }
}

/// What the clauses of an interface from `i` on add. Unknown clauses add
/// nothing.
pub open spec fn interface_from(xs: Seq<SxView>, i: int, iface: InterfaceView) -> Result<
    InterfaceView,
    InterfaceErrorView,
>
    decreases xs.len() - i,
{
    if i < 0 || i + 1 >= xs.len() {
        Ok(iface)
    } else if xs[i].as_kw() == Some("doc"@) {
        interface_from(xs, i + 2, InterfaceView { doc: xs[i + 1].as_str(), ..iface })
    } else if xs[i].as_kw() == Some("inputs"@) {
        match xs[i + 1].as_list() {
            None => Err(InterfaceErrorView::BadField(":inputs not a list"@)),
            Some(forms) => match fields_from(forms, 0, iface.inputs) {
                Ok(inputs) => interface_from(xs, i + 2, InterfaceView { inputs, ..iface }),
                Err(e) => Err(e),
            },
        }
    } else if xs[i].as_kw() == Some("outputs"@) {
        match xs[i + 1].as_list() {
            None => Err(InterfaceErrorView::BadField(":outputs not a list"@)),
            Some(forms) => match fields_from(forms, 0, iface.outputs) {
                Ok(outputs) => interface_from(xs, i + 2, InterfaceView { outputs, ..iface }),
                Err(e) => Err(e),
            },
        }
    } else {
        interface_from(xs, i + 2, iface)
    }
}

/// The interface that a form declares.
pub open spec fn interface_of(xs: Seq<SxView>) -> Result<InterfaceView, InterfaceErrorView> {
    match nth_sym(xs, 1) {
        None => Err(InterfaceErrorView::NotInterfaceForm("missing name"@)),
        Some(name) => interface_from(xs, 2, plain_interface(name)),
    }
}

/// The interfaces that the forms from `i` on declare, behind those before.
/// Forms of another kind declare none.
pub open spec fn interfaces_from(forms: Seq<SxView>, i: int, acc: Seq<InterfaceView>) -> Result<
    Seq<InterfaceView>,
    InterfaceErrorView,
>
    decreases forms.len() - i,
{
    if i < 0 || i >= forms.len() {
        Ok(acc)
    } else if is_form(forms[i], "deflava-interface"@) {
        match interface_of(forms[i].as_list()->0) {
            Ok(iface) => interfaces_from(forms, i + 1, acc.push(iface)),
            Err(e) => Err(e),
        }
    } else {
        interfaces_from(forms, i + 1, acc)
    }
}

/// The interfaces that a source declares.
pub open spec fn source_interfaces(src: Seq<char>) -> Result<
    Seq<InterfaceView>,
    InterfaceErrorView,
> {
    match read_all(src, 0) {
        Err(e) => Err(InterfaceErrorView::Parse(e)),
        Ok(forms) => interfaces_from(forms, 0, Seq::empty()),
    }
}

/// The meanings of a run of interfaces.
pub open spec fn interface_views(is: Seq<Interface>) -> Seq<InterfaceView> {
    is.map_values(|i: Interface| i@)
}

/// Reads field forms into a map of fields.
fn read_fields(forms: &[Sx], fields: &mut IndexMap<String, Field>) -> (r: Result<
    (),
    InterfaceParseError,
>)
    ensures
        match r {
            Ok(_) => fields_from(sx_views(forms@), 0, field_entries(*old(fields))) == Ok::<
                Seq<(Seq<char>, FieldView)>,
                InterfaceErrorView,
            >(field_entries(*final(fields))),
            Err(e) => fields_from(sx_views(forms@), 0, field_entries(*old(fields))) == Err::<
                Seq<(Seq<char>, FieldView)>,
                InterfaceErrorView,
            >(e@),
        },
{
    let n: usize = forms.len();
    let mut i: usize = 0;
    while i < n
        invariant
            n == forms@.len(),
            i <= n,
            fields_from(sx_views(forms@), i as int, field_entries(*fields)) == fields_from(
                sx_views(forms@),
                0,
                field_entries(*old(fields)),
            ),
        decreases n - i,
    {
        match field_from_form(&forms[i]) {
            Ok((name, field)) => {
                field_map_insert(fields, name, field);
            },
            Err(e) => {
                return Err(e);
            },
        }
        i += 1;
    }
    Ok(())
}

/// Reads the interface that a form declares.
pub fn interface_from_form(xs: &[Sx]) -> (r: Result<Interface, InterfaceParseError>)
    ensures
        match r {
            Ok(iface) => interface_of(sx_views(xs@)) == Ok::<InterfaceView, InterfaceErrorView>(
                iface@,
            ),
            Err(e) => interface_of(sx_views(xs@)) == Err::<InterfaceView, InterfaceErrorView>(e@),
        },
{
    let name = match sym_at(xs, 1) {
        Some(name) => name,
        None => {
            return Err(InterfaceParseError::NotInterfaceForm("missing name".to_owned()));
        },
    };
    let mut iface = Interface::new(name);
    let n: usize = xs.len();
    let mut i: usize = 2;
    while i < n && n - i > 1
        invariant
            n == xs@.len(),
            interface_of(sx_views(xs@)) == interface_from(sx_views(xs@), i as int, iface@),
        decreases n - i,
    {
        let key = xs[i].as_kw();
        let val = &xs[i + 1];
        if is_some_text(key, "doc") {
            iface.doc = match val.as_str() {
                Some(s) => Some(s.to_owned()),
                None => None,
            };
        } else if is_some_text(key, "inputs") {
            let forms = match val.as_list() {
                Some(forms) => forms,
                None => {
                    return Err(InterfaceParseError::BadField(":inputs not a list".to_owned()));
                },
            };
            match read_fields(forms, &mut iface.inputs) {
                Ok(_) => {},
                Err(e) => {
                    return Err(e);
                },
            }
        } else if is_some_text(key, "outputs") {
            let forms = match val.as_list() {
                Some(forms) => forms,
                None => {
                    return Err(InterfaceParseError::BadField(":outputs not a list".to_owned()));
                },
            };
            match read_fields(forms, &mut iface.outputs) {
                Ok(_) => {},
                Err(e) => {
                    return Err(e);
                },
            }
        }
        i += 2;
    }
    Ok(iface)
}

/// Reads every `deflava-interface` form of a source, in order.
pub fn interfaces_in_source(src: &str) -> (r: Result<Vec<Interface>, InterfaceParseError>)
    ensures
        match r {
            Ok(is) => source_interfaces(src@) == Ok::<Seq<InterfaceView>, InterfaceErrorView>(
                interface_views(is@),
            ),
            Err(e) => source_interfaces(src@) == Err::<Seq<InterfaceView>, InterfaceErrorView>(e@),
        },
{
    let forms = match parse_all(src) {
        Ok(forms) => forms,
        Err(e) => {
            return Err(InterfaceParseError::from(e));
        },
    };
    let n: usize = forms.len();
    let mut out: Vec<Interface> = Vec::new();
    let mut i: usize = 0;
    assert(interface_views(out@) =~= Seq::empty());
    while i < n
        invariant
            n == forms@.len(),
            i <= n,
            source_interfaces(src@) == interfaces_from(
                sx_views(forms@),
                i as int,
                interface_views(out@),
            ),
        decreases n - i,
    {
        assert(sx_views(forms@)[i as int] == forms@[i as int]@);
        if let Some(xs) = forms[i].as_list() {
            if is_some_text(sym_at(xs, 0), "deflava-interface") {
                let ghost before = interface_views(out@);
                match interface_from_form(xs) {
                    Ok(iface) => {
                        let ghost v = iface@;
                        out.push(iface);
                        assert(interface_views(out@) =~= before.push(v));
                    },
                    Err(e) => {
                        return Err(e);
                    },
                }
            }
        }
        i += 1;
    }
    Ok(out)
}

// ---------------------------------------------------------------------
// Laws
// ---------------------------------------------------------------------

/// A sibling form of another kind, wherever it stands, changes nothing in the
/// interfaces.
pub proof fn law_siblings_change_no_interface(forms: Seq<SxView>, at: int, sibling: SxView)
    requires
        0 <= at <= forms.len(),
        !is_form(sibling, "deflava-interface"@),
    ensures
        interfaces_from(forms.insert(at, sibling), 0, Seq::empty()) == interfaces_from(
            forms,
            0,
            Seq::empty(),
        ),
{
    lemma_interfaces_before(forms, at, sibling, 0, Seq::empty());
}

proof fn lemma_interfaces_before(
    forms: Seq<SxView>,
    at: int,
    sibling: SxView,
    i: int,
    acc: Seq<InterfaceView>,
)
    requires
        0 <= i <= at <= forms.len(),
        !is_form(sibling, "deflava-interface"@),
    ensures
        interfaces_from(forms.insert(at, sibling), i, acc) == interfaces_from(forms, i, acc),
    decreases at - i,
{
    let more = forms.insert(at, sibling);
    if i < at {
        assert(more[i] == forms[i]);
        lemma_interfaces_before(forms, at, sibling, i + 1, acc);
        if is_form(forms[i], "deflava-interface"@) {
            if let Ok(iface) = interface_of(forms[i].as_list()->0) {
                lemma_interfaces_before(forms, at, sibling, i + 1, acc.push(iface));
            }
        }
    } else {
        assert(more[at] == sibling);
        lemma_interfaces_behind(forms, at, sibling, at, acc);
    }
}

proof fn lemma_interfaces_behind(
    forms: Seq<SxView>,
    at: int,
    sibling: SxView,
    i: int,
    acc: Seq<InterfaceView>,
)
    requires
        0 <= at <= i <= forms.len(),
    ensures
        interfaces_from(forms.insert(at, sibling), i + 1, acc) == interfaces_from(forms, i, acc),
    decreases forms.len() - i,
{
    let more = forms.insert(at, sibling);
    if i < forms.len() {
        assert(more[i + 1] == forms[i]);
        lemma_interfaces_behind(forms, at, sibling, i + 1, acc);
        if is_form(forms[i], "deflava-interface"@) {
            if let Ok(iface) = interface_of(forms[i].as_list()->0) {
                lemma_interfaces_behind(forms, at, sibling, i + 1, acc.push(iface));
            }
        }
    }
}

/// Whether a keyword names a clause of an interface.
pub open spec fn is_interface_clause(key: SxView) -> bool {
    key.as_kw() == Some("doc"@) || key.as_kw() == Some("inputs"@) || key.as_kw() == Some(
        "outputs"@,
    )
}

/// A clause of another name, wherever it stands among the clauses, changes
/// nothing in the interface.
pub proof fn law_unknown_interface_clauses_are_ignored(
    xs: Seq<SxView>,
    at: int,
    key: SxView,
    value: SxView,
)
    requires
        2 <= at <= xs.len(),
        at % 2 == 0,
        !is_interface_clause(key),
    ensures
        interface_of(with_clause(xs, at, key, value)) == interface_of(xs),
{
    assert(with_clause(xs, at, key, value)[1] == xs[1]);
    if let Some(name) = nth_sym(xs, 1) {
        lemma_interface_before(xs, 2, at, key, value, plain_interface(name));
    }
}

proof fn lemma_interface_before(
    xs: Seq<SxView>,
    i: int,
    at: int,
    key: SxView,
    value: SxView,
    iface: InterfaceView,
)
    requires
        0 <= i <= at <= xs.len(),
        (at - i) % 2 == 0,
        !is_interface_clause(key),
    ensures
        interface_from(with_clause(xs, at, key, value), i, iface) == interface_from(xs, i, iface),
    decreases at - i,
{
    let more = with_clause(xs, at, key, value);
    if i < at {
        assert(more[i] == xs[i] && more[i + 1] == xs[i + 1]);
        lemma_interface_before(xs, i + 2, at, key, value, iface);
        lemma_interface_before(
            xs,
            i + 2,
            at,
            key,
            value,
            InterfaceView { doc: xs[i + 1].as_str(), ..iface },
        );
        if let Some(forms) = xs[i + 1].as_list() {
            if let Ok(inputs) = fields_from(forms, 0, iface.inputs) {
                lemma_interface_before(
                    xs,
                    i + 2,
                    at,
                    key,
                    value,
                    InterfaceView { inputs, ..iface },
                );
            }
            if let Ok(outputs) = fields_from(forms, 0, iface.outputs) {
                lemma_interface_before(
                    xs,
                    i + 2,
                    at,
                    key,
                    value,
                    InterfaceView { outputs, ..iface },
                );
            }
        }
    } else {
        assert(more[at] == key && more[at + 1] == value);
        lemma_interface_behind(xs, at, at, key, value, iface);
    }
}

proof fn lemma_interface_behind(
    xs: Seq<SxView>,
    i: int,
    at: int,
    key: SxView,
    value: SxView,
    iface: InterfaceView,
)
    requires
        0 <= at <= i,
        at <= xs.len(),
    ensures
        interface_from(with_clause(xs, at, key, value), i + 2, iface) == interface_from(
            xs,
            i,
            iface,
        ),
    decreases xs.len() - i,
{
    let more = with_clause(xs, at, key, value);
    if i + 1 < xs.len() {
        assert(more[i + 2] == xs[i] && more[i + 3] == xs[i + 1]);
        lemma_interface_behind(xs, i + 2, at, key, value, iface);
        lemma_interface_behind(
            xs,
            i + 2,
            at,
            key,
            value,
            InterfaceView { doc: xs[i + 1].as_str(), ..iface },
        );
        if let Some(forms) = xs[i + 1].as_list() {
            if let Ok(inputs) = fields_from(forms, 0, iface.inputs) {
                lemma_interface_behind(
                    xs,
                    i + 2,
                    at,
                    key,
                    value,
                    InterfaceView { inputs, ..iface },
                );
            }
            if let Ok(outputs) = fields_from(forms, 0, iface.outputs) {
                lemma_interface_behind(
                    xs,
                    i + 2,
                    at,
                    key,
                    value,
                    InterfaceView { outputs, ..iface },
                );
            }
        }
    }
}

/// Whether a keyword names a clause of a field.
pub open spec fn is_field_clause(key: SxView) -> bool {
    ||| key.as_kw() == Some("type"@)
    ||| key.as_kw() == Some("required"@)
    ||| key.as_kw() == Some("default"@)
    ||| key.as_kw() == Some("doc"@)
    ||| key.as_kw() == Some("min-items"@)
    ||| key.as_kw() == Some("max-items"@)
}

/// A clause of another name, wherever it stands among the clauses, changes
/// nothing in the field.
pub proof fn law_unknown_field_clauses_are_ignored(
    xs: Seq<SxView>,
    at: int,
    key: SxView,
    value: SxView,
)
    requires
        1 <= at <= xs.len(),
        at % 2 == 1,
        !is_field_clause(key),
    ensures
        field_of(SxView::List(with_clause(xs, at, key, value))) == field_of(SxView::List(xs)),
{
    assert(with_clause(xs, at, key, value)[0] == xs[0]);
    lemma_type_before(xs, 1, at, key, value, None);
    law_other_clauses_are_ignored(xs, 1, at, key, value, "required"@);
    law_other_clauses_are_ignored(xs, 1, at, key, value, "default"@);
    law_other_clauses_are_ignored(xs, 1, at, key, value, "doc"@);
    law_other_clauses_are_ignored(xs, 1, at, key, value, "min-items"@);
    law_other_clauses_are_ignored(xs, 1, at, key, value, "max-items"@);
}

proof fn lemma_type_before(
    xs: Seq<SxView>,
    i: int,
    at: int,
    key: SxView,
    value: SxView,
    found: Option<TypeView>,
)
    requires
        0 <= i <= at <= xs.len(),
        (at - i) % 2 == 0,
        !is_field_clause(key),
    ensures
        type_clause(with_clause(xs, at, key, value), i, found) == type_clause(xs, i, found),
    decreases at - i,
{
    let more = with_clause(xs, at, key, value);
    if i < at {
        assert(more[i] == xs[i] && more[i + 1] == xs[i + 1]);
        lemma_type_before(xs, i + 2, at, key, value, found);
        if let Ok(t) = type_of(xs[i + 1]) {
            lemma_type_before(xs, i + 2, at, key, value, Some(t));
        }
    } else {
        assert(more[at] == key && more[at + 1] == value);
        lemma_type_behind(xs, at, at, key, value, found);
    }
}

proof fn lemma_type_behind(
    xs: Seq<SxView>,
    i: int,
    at: int,
    key: SxView,
    value: SxView,
    found: Option<TypeView>,
)
    requires
        0 <= at <= i,
        at <= xs.len(),
    ensures
        type_clause(with_clause(xs, at, key, value), i + 2, found) == type_clause(xs, i, found),
    decreases xs.len() - i,
{
    let more = with_clause(xs, at, key, value);
    if i + 1 < xs.len() {
        assert(more[i + 2] == xs[i] && more[i + 3] == xs[i + 1]);
        lemma_type_behind(xs, i + 2, at, key, value, found);
        if let Ok(t) = type_of(xs[i + 1]) {
            lemma_type_behind(xs, i + 2, at, key, value, Some(t));
        }
    }
}

/// A field is loose exactly where its type takes every value, and a field
/// without a type is.
pub proof fn law_loose_fields_take_every_value(form: SxView)
    ensures
        field_of(form) matches Ok((name, f)) ==> f.loose == f.ty.is_loose(),
        form matches SxView::List(xs) && type_clause(xs, 1, None) == Ok::<
            Option<TypeView>,
            InterfaceErrorView,
        >(None) && nth_kw(xs, 0) is Some ==> (field_of(form) matches Ok((name, f)) && f.ty is Any
            && f.loose),
{
}

/// No field of an interface stands twice.
pub proof fn law_field_names_are_distinct(xs: Seq<SxView>)
    ensures
        interface_of(xs) matches Ok(iface) ==> distinct_keys(iface.inputs) && distinct_keys(
            iface.outputs,
        ),
{
    if let Some(name) = nth_sym(xs, 1) {
        lemma_interface_distinct(xs, 2, plain_interface(name));
    }
}

proof fn lemma_interface_distinct(xs: Seq<SxView>, i: int, iface: InterfaceView)
    requires
        0 <= i,
        distinct_keys(iface.inputs),
        distinct_keys(iface.outputs),
    ensures
        interface_from(xs, i, iface) matches Ok(out) ==> distinct_keys(out.inputs)
            && distinct_keys(out.outputs),
    decreases xs.len() - i,
{
    if i + 1 < xs.len() {
        lemma_interface_distinct(xs, i + 2, iface);
        lemma_interface_distinct(
            xs,
            i + 2,
            InterfaceView { doc: xs[i + 1].as_str(), ..iface },
        );
        if let Some(forms) = xs[i + 1].as_list() {
            lemma_fields_distinct(forms, 0, iface.inputs);
            lemma_fields_distinct(forms, 0, iface.outputs);
            if let Ok(inputs) = fields_from(forms, 0, iface.inputs) {
                lemma_interface_distinct(xs, i + 2, InterfaceView { inputs, ..iface });
            }
            if let Ok(outputs) = fields_from(forms, 0, iface.outputs) {
                lemma_interface_distinct(xs, i + 2, InterfaceView { outputs, ..iface });
            }
        }
    }
}

proof fn lemma_fields_distinct(
    forms: Seq<SxView>,
    i: int,
    acc: Seq<(Seq<char>, FieldView)>,
)
    requires
        0 <= i,
        distinct_keys(acc),
    ensures
        fields_from(forms, i, acc) matches Ok(fs) ==> distinct_keys(fs),
    decreases forms.len() - i,
{
    if i < forms.len() {
        if let Ok((name, field)) = field_of(forms[i]) {
            law_insert_then_read(acc, name, field, name);
            lemma_fields_distinct(forms, i + 1, upsert(acc, name, field));
        }
    }
}

} // verus!
