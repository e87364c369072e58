//! Typed interfaces: fields, and the constraints on their values.
use crate::entries::{position, upsert};
use crate::text::{option_text, texts};
use indexmap::IndexMap;
use vstd::prelude::*;

verus! {

/// How a pattern is held against a value.
#[derive(Debug, Clone, Copy, PartialEq, Eq, Structural)]
pub enum MatchKind {
    /// The value holds the pattern.
    Contains,
    /// The value starts with the pattern.
    StartsWith,
    /// The value ends with the pattern.
    EndsWith,
}

/// A constraint on a value.
#[allow(inconsistent_fields)]
#[derive(Debug, PartialEq)]
pub enum Type {
    Any,
    Dynamic,
    String,
    Integer,
    Boolean,
    CidrBlock,
    Ipv4,
    Ipv6,
    Hostname,
    PortRange { lo: u16, hi: u16 },
    Enum { values: Vec<String> },
    IntRange { lo: i64, hi: i64 },
    Length { min: usize, max: usize },
    Pattern { source: String, match_kind: MatchKind },
    ListOf { inner: Box<Type>, min_items: Option<usize>, max_items: Option<usize> },
    AvailabilityZone,
    Email,
    Url,
}

/// What a [`Type`] stands for.
#[allow(inconsistent_fields)]
pub enum TypeView {
    Any,
    Dynamic,
    Text,
    Integer,
    Boolean,
    CidrBlock,
    Ipv4,
    Ipv6,
    Hostname,
    PortRange { lo: u16, hi: u16 },
    Enum { values: Seq<Seq<char>> },
    IntRange { lo: i64, hi: i64 },
    Length { min: usize, max: usize },
    Pattern { source: Seq<char>, match_kind: MatchKind },
    ListOf { inner: Box<TypeView>, min_items: Option<usize>, max_items: Option<usize> },
    AvailabilityZone,
    Email,
    Url,
}

/// The meaning of a type.
pub open spec fn type_view(t: Type) -> TypeView
    decreases t,
{
    match t {
        Type::Any => TypeView::Any,
        Type::Dynamic => TypeView::Dynamic,
        Type::String => TypeView::Text,
        Type::Integer => TypeView::Integer,
        Type::Boolean => TypeView::Boolean,
        Type::CidrBlock => TypeView::CidrBlock,
        Type::Ipv4 => TypeView::Ipv4,
        Type::Ipv6 => TypeView::Ipv6,
        Type::Hostname => TypeView::Hostname,
        Type::PortRange { lo, hi } => TypeView::PortRange { lo, hi },
        Type::Enum { values } => TypeView::Enum { values: texts(values@) },
        Type::IntRange { lo, hi } => TypeView::IntRange { lo, hi },
        Type::Length { min, max } => TypeView::Length { min, max },
        Type::Pattern { source, match_kind } => TypeView::Pattern { source: source@, match_kind },
        Type::ListOf { inner, min_items, max_items } => TypeView::ListOf {
            inner: Box::new(type_view(*inner)),
            min_items,
            max_items,
        },
        Type::AvailabilityZone => TypeView::AvailabilityZone,
        Type::Email => TypeView::Email,
        Type::Url => TypeView::Url,
    }
}

impl View for Type {
    type V = TypeView;

    open spec fn view(&self) -> TypeView {
        type_view(*self)
    }
}

impl TypeView {
    /// Whether the type takes every value.
    pub open spec fn is_loose(self) -> bool {
        self is Any || self is Dynamic
    }
}

impl Type {
    /// Whether the type takes every value.
    pub fn is_loose(&self) -> (r: bool)
        ensures
            r == self@.is_loose(),
    {
        match self {
            Type::Any => true,
            Type::Dynamic => true,
            _ => false,
        }
    }
}

/// One field of an interface.
#[derive(Debug, PartialEq)]
pub struct Field {
    pub ty: Type,
    pub required: bool,
    pub default: Option<String>,
    pub doc: Option<String>,
    /// Whether the field opens the interface for fields that it does not name.
    pub loose: bool,
}

/// What a [`Field`] stands for.
pub struct FieldView {
    pub ty: TypeView,
    pub required: bool,
    pub default: Option<Seq<char>>,
    pub doc: Option<Seq<char>>,
    pub loose: bool,
}

impl View for Field {
    type V = FieldView;

    open spec fn view(&self) -> FieldView {
        FieldView {
            ty: self.ty@,
            required: self.required,
            default: option_text(self.default),
            doc: option_text(self.doc),
            loose: self.loose,
        }
    }
}

impl Field {
    /// A required field.
    pub fn strict(ty: Type) -> (r: Field)
        ensures
            r@ == (FieldView {
                ty: ty@,
                required: true,
                default: None,
                doc: None,
                loose: ty@.is_loose(),
            }),
    {
        let loose = ty.is_loose();
        Field { ty, required: true, default: None, doc: None, loose }
    }

    /// A field that may be left out.
    pub fn optional(ty: Type) -> (r: Field)
        ensures
            r@ == (FieldView {
                ty: ty@,
                required: false,
                default: None,
                doc: None,
                loose: ty@.is_loose(),
            }),
    {
        let loose = ty.is_loose();
        Field { ty, required: false, default: None, doc: None, loose }
    }
}

/// What a map of fields holds, in order.
pub uninterp spec fn field_entries(m: IndexMap<String, Field>) -> Seq<(Seq<char>, FieldView)>;

/// `IndexMap::new` makes a map without entries.
#[verifier::external_body]
pub(crate) fn field_map_new() -> (r: IndexMap<String, Field>)
    ensures
        field_entries(r) == Seq::<(Seq<char>, FieldView)>::empty(),
{
    IndexMap::new()
}

/// `IndexMap::insert` puts a field under a key: in place where the key is
/// there already, else at the end.
#[verifier::external_body]
pub(crate) fn field_map_insert(m: &mut IndexMap<String, Field>, key: String, value: Field)
    ensures
        field_entries(*final(m)) == upsert(field_entries(*old(m)), key@, value@),
{
    m.insert(key, value);
}

/// `IndexMap::len` counts the entries.
#[verifier::external_body]
pub(crate) fn field_map_len(m: &IndexMap<String, Field>) -> (r: usize)
    ensures
        r == field_entries(*m).len(),
{
    m.len()
}

/// `IndexMap::get_index` gives the entry at a place in the order, and nothing
/// past the last one. A key stands at one place only.
#[verifier::external_body]
pub(crate) fn field_map_at(m: &IndexMap<String, Field>, at: usize) -> (r: Option<
    (&String, &Field),
>)
    ensures
        match r {
            Some((k, f)) => at < field_entries(*m).len() && field_entries(*m)[at as int] == (
                k@,
                f@,
            ) && position(field_entries(*m), k@) == Some(at as int),
            None => at >= field_entries(*m).len(),
        },
{
    m.get_index(at)
}

/// A typed interface.
#[derive(Debug, PartialEq)]
pub struct Interface {
    pub name: String,
    pub doc: Option<String>,
    pub inputs: IndexMap<String, Field>,
    pub outputs: IndexMap<String, Field>,
}

/// What an [`Interface`] stands for.
pub struct InterfaceView {
    pub name: Seq<char>,
    pub doc: Option<Seq<char>>,
    pub inputs: Seq<(Seq<char>, FieldView)>,
    pub outputs: Seq<(Seq<char>, FieldView)>,
}

impl View for Interface {
    type V = InterfaceView;

    open spec fn view(&self) -> InterfaceView {
        InterfaceView {
            name: self.name@,
            doc: option_text(self.doc),
            inputs: field_entries(self.inputs),
            outputs: field_entries(self.outputs),
        }
    }
}

/// An interface without fields.
pub open spec fn plain_interface(name: Seq<char>) -> InterfaceView {
    InterfaceView { name, doc: None, inputs: Seq::empty(), outputs: Seq::empty() }
}

impl Interface {
    /// An interface without fields.
    pub fn new(name: &str) -> (r: Interface)
        ensures
            r@ == plain_interface(name@),
    {
        Interface {
            name: name.to_owned(),
            doc: None,
            inputs: field_map_new(),
            outputs: field_map_new(),
        }
    }
}

} // verus!
