//! Validation of inputs against a typed interface.
use crate::arch::{Architecture, ArchitectureView};
use crate::entries::{
    distinct_keys, has_key, law_insert_then_read, lemma_position, lookup, position, upsert,
};
use crate::error::{EvalError, EvalErrorView};
use crate::eval::{eval_architecture, gives_arch, source_arch, InputBindings, InputsView};
use crate::fit::{cause_of, fit_of, law_fit_is_told};
use crate::json::{
    array_onto, bool_onto, comma_onto, int_onto, option_onto, push_array, push_bool, push_comma,
    push_int, push_option, push_size, push_string, size_onto, string_onto,
};
use crate::sortedmap::{has_order, lemma_as_map, lemma_sorted_distinct, ordered};
use crate::text::{glue3, join, joined, texts};
use crate::textmap::{text_entries, text_map_insert, text_map_new};
use crate::types::{
    field_entries, field_map_at, field_map_len, Field, FieldView, Interface, InterfaceView,
    MatchKind, Type, TypeView,
};
use indexmap::IndexMap;
use lava_schema::SchemaError as Violation;
use vstd::prelude::*;

verus! {

/// One violation of an interface.
#[derive(Debug)]
pub enum SchemaError {
    /// A required field without a default has no value.
    MissingRequired { kind: &'static str, name: String },
    /// A value has no field, and the interface has no loose one.
    UnknownField { kind: &'static str, name: String },
    /// A value does not fit the type of its field.
    TypeMismatch { kind: &'static str, name: String, cause: String },
}

/// What a [`SchemaError`] stands for.
pub enum SchemaErrorView {
    MissingRequired { kind: Seq<char>, name: Seq<char> },
    UnknownField { kind: Seq<char>, name: Seq<char> },
    TypeMismatch { kind: Seq<char>, name: Seq<char>, cause: Seq<char> },
}

impl View for SchemaError {
    type V = SchemaErrorView;

    open spec fn view(&self) -> SchemaErrorView {
        match self {
            SchemaError::MissingRequired { kind, name } => SchemaErrorView::MissingRequired {
                kind: kind@,
                name: name@,
            },
            SchemaError::UnknownField { kind, name } => SchemaErrorView::UnknownField {
                kind: kind@,
                name: name@,
            },
            SchemaError::TypeMismatch { kind, name, cause } => SchemaErrorView::TypeMismatch {
                kind: kind@,
                name: name@,
                cause: cause@,
            },
        }
    }
}

/// The meanings of a run of violations.
pub open spec fn schema_error_views(es: Seq<SchemaError>) -> Seq<SchemaErrorView> {
    es.map_values(|e: SchemaError| e@)
}

/// How a violation reads.
pub open spec fn schema_message(e: SchemaErrorView) -> Seq<char> {
    match e {
        SchemaErrorView::MissingRequired { kind, name } => "missing required "@ + kind + " `"@
            + name + "`"@,
        SchemaErrorView::UnknownField { kind, name } => "unknown "@ + kind + " `"@ + name
            + "` (no loose-fields slot declared)"@,
        SchemaErrorView::TypeMismatch { kind, name, cause } => "type error on "@ + kind + " `"@
            + name + "`: "@ + cause,
    }
}

impl SchemaError {
    /// How the violation reads.
    pub fn message(&self) -> (r: String)
        ensures
            r@ == schema_message(self@),
    {
        match self {
            SchemaError::MissingRequired { kind, name } => {
                let mut out = glue3("missing required ", kind, " `");
                out.append(name.as_str());
                out.append("`");
                out
            },
            SchemaError::UnknownField { kind, name } => {
                let mut out = glue3("unknown ", kind, " `");
                out.append(name.as_str());
                out.append("` (no loose-fields slot declared)");
                out
            },
            SchemaError::TypeMismatch { kind, name, cause } => {
                let mut out = glue3("type error on ", kind, " `");
                out.append(name.as_str());
                out.append("`: ");
                out.append(cause.as_str());
                out
            },
        }
    }
}

// ---------------------------------------------------------------------
// Interfaces as JSON
// ---------------------------------------------------------------------

/// The name of a way to match.
pub open spec fn match_kind_name(k: MatchKind) -> Seq<char> {
    match k {
        MatchKind::Contains => "contains"@,
        MatchKind::StartsWith => "starts-with"@,
        MatchKind::EndsWith => "ends-with"@,
    }
}

/// The JSON object of a type.
pub open spec fn type_onto(acc: Seq<char>, t: TypeView) -> Seq<char>
    decreases t,
{
    match t {
        TypeView::Any => acc + "{\"kind\":\"any\"}"@,
        TypeView::Dynamic => acc + "{\"kind\":\"dynamic\"}"@,
        TypeView::Text => acc + "{\"kind\":\"string\"}"@,
        TypeView::Integer => acc + "{\"kind\":\"integer\"}"@,
        TypeView::Boolean => acc + "{\"kind\":\"boolean\"}"@,
        TypeView::CidrBlock => acc + "{\"kind\":\"cidr-block\"}"@,
        TypeView::Ipv4 => acc + "{\"kind\":\"ipv4\"}"@,
        TypeView::Ipv6 => acc + "{\"kind\":\"ipv6\"}"@,
        TypeView::Hostname => acc + "{\"kind\":\"hostname\"}"@,
        TypeView::PortRange { lo, hi } => size_onto(
            size_onto(acc + "{\"kind\":\"port-range\",\"lo\":"@, Some(lo as usize))
                + ",\"hi\":"@,
            Some(hi as usize),
        ) + "}"@,
        TypeView::Enum { values } => array_onto(
            acc + "{\"kind\":\"enum\",\"values\":"@,
            values,
        ) + "}"@,
        TypeView::IntRange { lo, hi } => int_onto(
            int_onto(acc + "{\"kind\":\"int-range\",\"lo\":"@, Some(lo)) + ",\"hi\":"@,
            Some(hi),
        ) + "}"@,
        TypeView::Length { min, max } => size_onto(
            size_onto(acc + "{\"kind\":\"length\",\"min\":"@, Some(min)) + ",\"max\":"@,
            Some(max),
        ) + "}"@,
        TypeView::Pattern { source, match_kind } => string_onto(
            acc + "{\"kind\":\"pattern\",\"source\":"@,
            source,
        ) + ",\"match_kind\":\""@ + match_kind_name(match_kind) + "\"}"@,
        TypeView::ListOf { inner, min_items, max_items } => size_onto(
            size_onto(
                type_onto(acc + "{\"kind\":\"list-of\",\"inner\":"@, *inner)
                    + ",\"min_items\":"@,
                min_items,
            ) + ",\"max_items\":"@,
            max_items,
        ) + "}"@,
        TypeView::AvailabilityZone => acc + "{\"kind\":\"availability-zone\"}"@,
        TypeView::Email => acc + "{\"kind\":\"email\"}"@,
        TypeView::Url => acc + "{\"kind\":\"url\"}"@,
    }
}

/// The JSON object of a field.
pub open spec fn field_onto(acc: Seq<char>, f: FieldView) -> Seq<char> {
    bool_onto(
        option_onto(
            option_onto(
                bool_onto(type_onto(acc + "{\"type\":"@, f.ty) + ",\"required\":"@, f.required)
                    + ",\"default\":"@,
                f.default,
            ) + ",\"doc\":"@,
            f.doc,
        ) + ",\"loose\":"@,
        f.loose,
    ) + "}"@
}

/// The members of the JSON object of a map of fields, from `i` on.
pub open spec fn fields_onto(acc: Seq<char>, fs: Seq<(Seq<char>, FieldView)>, i: int) -> Seq<char>
    decreases fs.len() - i,
{
    if i < 0 || i >= fs.len() {
        acc
    } else {
        fields_onto(
            field_onto(string_onto(comma_onto(acc, i), fs[i].0) + ":"@, fs[i].1),
            fs,
            i + 1,
        )
    }
}

/// An interface as JSON text.
pub open spec fn interface_text(v: InterfaceView) -> Seq<char> {
    fields_onto(
        fields_onto(
            option_onto(string_onto("{\"name\":"@, v.name) + ",\"doc\":"@, v.doc)
                + ",\"inputs\":{"@,
            v.inputs,
            0,
        ) + "},\"outputs\":{"@,
        v.outputs,
        0,
    ) + "}}"@
}

/// Writes the JSON object of a type.
fn push_type(out: &mut String, t: &Type)
    ensures
        final(out)@ == type_onto(old(out)@, t@),
    decreases t,
{
    match t {
        Type::Any => out.append("{\"kind\":\"any\"}"),
        Type::Dynamic => out.append("{\"kind\":\"dynamic\"}"),
        Type::String => out.append("{\"kind\":\"string\"}"),
        Type::Integer => out.append("{\"kind\":\"integer\"}"),
        Type::Boolean => out.append("{\"kind\":\"boolean\"}"),
        Type::CidrBlock => out.append("{\"kind\":\"cidr-block\"}"),
        Type::Ipv4 => out.append("{\"kind\":\"ipv4\"}"),
        Type::Ipv6 => out.append("{\"kind\":\"ipv6\"}"),
        Type::Hostname => out.append("{\"kind\":\"hostname\"}"),
        Type::PortRange { lo, hi } => {
            out.append("{\"kind\":\"port-range\",\"lo\":");
            push_size(out, Some(*lo as usize));
            out.append(",\"hi\":");
            push_size(out, Some(*hi as usize));
            out.append("}");
        },
        Type::Enum { values } => {
            out.append("{\"kind\":\"enum\",\"values\":");
            push_array(out, values);
            out.append("}");
        },
        Type::IntRange { lo, hi } => {
            out.append("{\"kind\":\"int-range\",\"lo\":");
            push_int(out, Some(*lo));
            out.append(",\"hi\":");
            push_int(out, Some(*hi));
            out.append("}");
        },
        Type::Length { min, max } => {
            out.append("{\"kind\":\"length\",\"min\":");
            push_size(out, Some(*min));
            out.append(",\"max\":");
            push_size(out, Some(*max));
            out.append("}");
        },
        Type::Pattern { source, match_kind } => {
            out.append("{\"kind\":\"pattern\",\"source\":");
            push_string(out, source.as_str());
            out.append(",\"match_kind\":\"");
            match match_kind {
                MatchKind::Contains => out.append("contains"),
                MatchKind::StartsWith => out.append("starts-with"),
                MatchKind::EndsWith => out.append("ends-with"),
            }
            out.append("\"}");
        },
        Type::ListOf { inner, min_items, max_items } => {
            out.append("{\"kind\":\"list-of\",\"inner\":");
            push_type(out, inner);
            out.append(",\"min_items\":");
            push_size(out, *min_items);
            out.append(",\"max_items\":");
            push_size(out, *max_items);
            out.append("}");
        },
        Type::AvailabilityZone => out.append("{\"kind\":\"availability-zone\"}"),
        Type::Email => out.append("{\"kind\":\"email\"}"),
        Type::Url => out.append("{\"kind\":\"url\"}"),
    }
}

/// Writes the JSON object of a field.
fn push_field(out: &mut String, f: &Field)
    ensures
        final(out)@ == field_onto(old(out)@, f@),
{
    out.append("{\"type\":");
    push_type(out, &f.ty);
    out.append(",\"required\":");
    push_bool(out, f.required);
    out.append(",\"default\":");
    push_option(out, &f.default);
    out.append(",\"doc\":");
    push_option(out, &f.doc);
    out.append(",\"loose\":");
    push_bool(out, f.loose);
    out.append("}");
}

/// Writes the members of the JSON object of a map of fields.
fn push_fields(out: &mut String, fs: &IndexMap<String, Field>)
    ensures
        final(out)@ == fields_onto(old(out)@, field_entries(*fs), 0),
        distinct_keys(field_entries(*fs)),
{
    let ghost first = out@;
    let ghost entries = field_entries(*fs);
    let n: usize = field_map_len(fs);
    let mut i: usize = 0;
    while i < n
        invariant
            entries == field_entries(*fs),
            n == entries.len(),
            i <= n,
            forall|j: int|
                0 <= j < i ==> position(entries, (#[trigger] entries[j]).0) == Some(j),
            fields_onto(out@, entries, i as int) == fields_onto(first, entries, 0),
        decreases n - i,
    {
        if let Some((name, field)) = field_map_at(fs, i) {
            push_comma(out, i);
            push_string(out, name.as_str());
            out.append(":");
            push_field(out, field);
        }
        i += 1;
    }
    assert forall|a: int, b: int| 0 <= a < b < entries.len() implies #[trigger] entries[a].0
        != #[trigger] entries[b].0 by {
        assert(position(entries, entries[a].0) == Some(a));
        assert(position(entries, entries[b].0) == Some(b));
    }
}

/// Writes an interface as JSON text.
pub fn write_interface(iface: &Interface) -> (r: String)
    ensures
        r@ == interface_text(iface@),
        distinct_keys(iface@.inputs),
        distinct_keys(iface@.outputs),
{
    let mut out = "{\"name\":".to_owned();
    push_string(&mut out, iface.name.as_str());
    out.append(",\"doc\":");
    push_option(&mut out, &iface.doc);
    out.append(",\"inputs\":{");
    push_fields(&mut out, &iface.inputs);
    out.append("},\"outputs\":{");
    push_fields(&mut out, &iface.outputs);
    out.append("}}");
    out
}

// ---------------------------------------------------------------------
// Validation
// ---------------------------------------------------------------------

/// Whether a required input without a default has no value.
pub open spec fn is_missing(
    inputs: Seq<(Seq<char>, FieldView)>,
    bag: Seq<(Seq<char>, Seq<char>)>,
    name: Seq<char>,
) -> bool {
    lookup(inputs, name) matches Some(f) && f.required && f.default is None && !has_key(bag, name)
}

/// Whether an interface takes inputs that it does not name.
pub open spec fn is_open(inputs: Seq<(Seq<char>, FieldView)>) -> bool {
    exists|i: int| 0 <= i < inputs.len() && (#[trigger] inputs[i]).1.loose
}

/// Whether a value has no field, under an interface that takes only the fields
/// it names.
pub open spec fn is_unknown(
    inputs: Seq<(Seq<char>, FieldView)>,
    bag: Seq<(Seq<char>, Seq<char>)>,
    name: Seq<char>,
) -> bool {
    has_key(bag, name) && !has_key(inputs, name) && !is_open(inputs)
}

/// Whether an input is given that does not fit the type of its field.
pub open spec fn is_unfit(
    inputs: Seq<(Seq<char>, FieldView)>,
    bag: Seq<(Seq<char>, Seq<char>)>,
    name: Seq<char>,
) -> bool {
    match (lookup(inputs, name), lookup(bag, name)) {
        (Some(f), Some(v)) => fit_of(f.ty, v) == Some(false),
        _ => false,
    }
}

/// A violation without the wording of its cause.
pub enum Fault {
    Missing(Seq<char>),
    Unknown(Seq<char>),
    Mismatch(Seq<char>),
}

/// What a violation of an input says, but for the wording of its cause. One
/// that is not of an input says nothing.
pub open spec fn fault_of(e: SchemaErrorView) -> Option<Fault> {
    match e {
        SchemaErrorView::MissingRequired { kind, name } if kind == "input"@ => Some(
            Fault::Missing(name),
        ),
        SchemaErrorView::UnknownField { kind, name } if kind == "input"@ => Some(
            Fault::Unknown(name),
        ),
        SchemaErrorView::TypeMismatch { kind, name, cause } if kind == "input"@ => Some(
            Fault::Mismatch(name),
        ),
        _ => None,
    }
}

/// What violations say, one by one.
pub open spec fn faults(errors: Seq<SchemaErrorView>) -> Seq<Option<Fault>> {
    errors.map_values(|e: SchemaErrorView| fault_of(e))
}

/// Whether something is said of an input.
pub open spec fn says(errors: Seq<SchemaErrorView>, f: Fault) -> bool {
    faults(errors).contains(Some(f))
}

/// The missing inputs among the fields from `i` on, in their order.
pub open spec fn missing_from(
    inputs: Seq<(Seq<char>, FieldView)>,
    bag: Seq<(Seq<char>, Seq<char>)>,
    i: int,
) -> Seq<Option<Fault>>
    decreases inputs.len() - i,
{
    if i < 0 || i >= inputs.len() {
        Seq::empty()
    } else {
        let (name, f) = inputs[i];
        let rest = missing_from(inputs, bag, i + 1);
        if f.required && f.default is None && !has_key(bag, name) {
            seq![Some(Fault::Missing(name))] + rest
        } else {
            rest
        }
    }
}

/// What is wrong with one input that is given. Where it is not told whether the
/// value fits, `otherwise` says so.
pub open spec fn given_fault(
    inputs: Seq<(Seq<char>, FieldView)>,
    name: Seq<char>,
    value: Seq<char>,
    otherwise: bool,
) -> Option<Fault> {
    match lookup(inputs, name) {
        None => if is_open(inputs) {
            None
        } else {
            Some(Fault::Unknown(name))
        },
        Some(f) => match fit_of(f.ty, value) {
            Some(true) => None,
            Some(false) => Some(Fault::Mismatch(name)),
            None => if otherwise {
                Some(Fault::Mismatch(name))
            } else {
                None
            },
        },
    }
}

/// The unknown and unfit inputs among those given from `i` on, in their order.
pub open spec fn given_from(
    inputs: Seq<(Seq<char>, FieldView)>,
    bag: Seq<(Seq<char>, Seq<char>)>,
    i: int,
    errors: Seq<SchemaErrorView>,
) -> Seq<Option<Fault>>
    decreases bag.len() - i,
{
    if i < 0 || i >= bag.len() {
        Seq::empty()
    } else {
        let (name, value) = bag[i];
        let fault = given_fault(inputs, name, value, says(errors, Fault::Mismatch(name)));
        let rest = given_from(inputs, bag, i + 1, errors);
        if fault is Some {
            seq![fault] + rest
        } else {
            rest
        }
    }
}

/// Whether a violation gives the cause of a mismatch, as far as it is told.
pub open spec fn gives_cause(
    inputs: Seq<(Seq<char>, FieldView)>,
    bag: Seq<(Seq<char>, Seq<char>)>,
    e: SchemaErrorView,
) -> bool {
    match e {
        SchemaErrorView::TypeMismatch { kind, name, cause } => match (
            lookup(inputs, name),
            lookup(bag, name),
        ) {
            (Some(f), Some(v)) => cause_of(f.ty, v) matches Some(c) ==> cause == c,
            _ => false,
        },
        _ => true,
    }
}

/// Whether violations are those that a validation reports: first the missing
/// inputs in the order of their fields, then the unknown and the unfit ones in
/// the order in which they are given, each once and with its cause. Where it is
/// not told whether a value fits, either may be.
pub open spec fn reports(
    inputs: Seq<(Seq<char>, FieldView)>,
    bag: Seq<(Seq<char>, Seq<char>)>,
    errors: Seq<SchemaErrorView>,
) -> bool {
    &&& faults(errors) == missing_from(inputs, bag, 0) + given_from(inputs, bag, 0, errors)
    &&& forall|i: int| 0 <= i < errors.len() ==> gives_cause(inputs, bag, #[trigger] errors[i])
}

/// The violations that a validation of inputs reports, by the JSON text of the
/// interface and the inputs in order.
pub uninterp spec fn rejections(text: Seq<char>, bag: Seq<(Seq<char>, Seq<char>)>) -> Seq<
    SchemaErrorView,
>;

/// `lava_schema::Interface::validate_inputs`, on the interface that the JSON
/// text writes down in that crate's own serialized form.
///
/// The violations are a function of the text and of the inputs in their order.
/// Required fields without a default and without a value are reported, in the
/// order of the fields. Then come, in the order of the inputs, values without a
/// field where no field is loose, and values that do not fit the type of their
/// field, with the wording of the cause. Which values fit is told for every type
/// but IPv6 addresses, of which only that they hold a colon; so in a list of
/// IPv6 addresses it is not told which item the cause is about.
#[verifier::external_body]
fn validate_inputs(text: &str, bag: &IndexMap<String, String>) -> (r: Vec<SchemaError>)
    requires
        exists|v: InterfaceView| text@ == #[trigger] interface_text(v),
    ensures
        schema_error_views(r@) == rejections(text@, text_entries(*bag)),
        forall|v: InterfaceView|
            text@ == #[trigger] interface_text(v) && distinct_keys(v.inputs) ==> reports(
                v.inputs,
                text_entries(*bag),
                schema_error_views(r@),
            ),
{
    let mut de = serde_json::Deserializer::from_str(text);
    de.disable_recursion_limit();
    let iface = de.into_iter::<lava_schema::Interface>().next().unwrap().unwrap();
    let found = iface.validate_inputs(bag).err().unwrap_or_default();
    found.into_iter().map(|e| match e {
        Violation::MissingRequired { kind, name } => SchemaError::MissingRequired { kind, name },
        Violation::UnknownField { kind, name } => SchemaError::UnknownField { kind, name },
        Violation::TypeMismatch { kind, name, cause } => {
            SchemaError::TypeMismatch { kind, name, cause: cause.to_string() }
        },
    }).collect()
}

/// Adds strings from `i` on to a bag of inputs.
pub open spec fn scalars_onto(
    acc: Seq<(Seq<char>, Seq<char>)>,
    entries: Seq<(Seq<char>, Seq<char>)>,
    i: int,
) -> Seq<(Seq<char>, Seq<char>)>
    decreases entries.len() - i,
{
    if i < 0 || i >= entries.len() {
        acc
    } else {
        scalars_onto(upsert(acc, entries[i].0, entries[i].1), entries, i + 1)
    }
}

/// Adds lists from `i` on to a bag of inputs, each joined by commas.
pub open spec fn lists_onto(
    acc: Seq<(Seq<char>, Seq<char>)>,
    entries: Seq<(Seq<char>, Seq<Seq<char>>)>,
    i: int,
) -> Seq<(Seq<char>, Seq<char>)>
    decreases entries.len() - i,
{
    if i < 0 || i >= entries.len() {
        acc
    } else {
        lists_onto(upsert(acc, entries[i].0, joined(entries[i].1, ","@)), entries, i + 1)
    }
}

/// The inputs as strings under names: the strings in the order of their names,
/// and the lists, joined by commas, in the order of theirs.
pub open spec fn bag_of(b: InputsView) -> Seq<(Seq<char>, Seq<char>)> {
    lists_onto(scalars_onto(Seq::empty(), ordered(b.scalars), 0), ordered(b.lists), 0)
}

/// The inputs as strings under names.
pub fn input_bag(bindings: &InputBindings) -> (r: IndexMap<String, String>)
    ensures
        text_entries(r) == bag_of(bindings@),
        has_order(bindings@.scalars),
        has_order(bindings@.lists),
{
    let scalars = bindings.scalars();
    let lists = bindings.lists();
    let mut bag = text_map_new();
    let n: usize = scalars.len();
    let mut i: usize = 0;
    while i < n
        invariant
            n == scalars.entries().len(),
            i <= n,
            scalars_onto(text_entries(bag), scalars.entries(), i as int) == scalars_onto(
                Seq::empty(),
                scalars.entries(),
                0,
            ),
        decreases n - i,
    {
        let (k, v) = scalars.at(i);
        text_map_insert(&mut bag, k.clone(), v.clone());
        i += 1;
    }
    let ghost first = text_entries(bag);
    let m: usize = lists.len();
    let mut j: usize = 0;
    while j < m
        invariant
            m == lists.entries().len(),
            j <= m,
            lists_onto(text_entries(bag), lists.entries(), j as int) == lists_onto(
                first,
                lists.entries(),
                0,
            ),
        decreases m - j,
    {
        let (k, v) = lists.at(j);
        assert(v.deep_view() =~= texts(v@));
        text_map_insert(&mut bag, k.clone(), join(v, ","));
        j += 1;
    }
    bag
}

/// The architecture of a source whose inputs were validated: refused where
/// there are violations, before anything of the source is read.
pub open spec fn checked_arch(
    src: Seq<char>,
    b: InputsView,
    interface: Seq<char>,
    errors: Seq<SchemaErrorView>,
) -> Result<ArchitectureView, EvalErrorView> {
    if errors.len() > 0 {
        Err(
            EvalErrorView::Schema {
                interface,
                count: errors.len() as usize,
                first: schema_message(errors[0]),
                errors,
            },
        )
    } else {
        source_arch(src, b)
    }
}

/// Evaluates a source after its inputs were validated.
pub fn eval_checked(
    src: &str,
    bindings: &InputBindings,
    interface: &str,
    errors: Vec<SchemaError>,
) -> (r: Result<Architecture, EvalError>)
    ensures
        gives_arch(
            r,
            checked_arch(src@, bindings@, interface@, schema_error_views(errors@)),
        ),
{
    if errors.len() > 0 {
        let count: usize = errors.len();
        let first = errors[0].message();
        return Err(
            EvalError::Schema { interface: interface.to_owned(), count, first, errors },
        );
    }
    eval_architecture(src, bindings)
}

/// Validates the inputs against a typed interface, then reads and evaluates
/// the source. Missing and unknown inputs and values of the wrong type refuse
/// the evaluation before any resource is made.
pub fn eval_architecture_with_schema(
    src: &str,
    bindings: &InputBindings,
    iface: &Interface,
) -> (r: Result<Architecture, EvalError>)
    ensures
        gives_arch(
            r,
            checked_arch(
                src@,
                bindings@,
                iface@.name,
                rejections(interface_text(iface@), bag_of(bindings@)),
            ),
        ),
        reports(
            iface@.inputs,
            bag_of(bindings@),
            rejections(interface_text(iface@), bag_of(bindings@)),
        ),
        distinct_keys(iface@.inputs),
        distinct_keys(bag_of(bindings@)),
{
    let bag = input_bag(bindings);
    proof {
        law_the_bag_holds_every_input(bindings@, Seq::empty());
    }
    let text = write_interface(iface);
    let errors = validate_inputs(text.as_str(), &bag);
    eval_checked(src, bindings, iface.name.as_str(), errors)
}

// ---------------------------------------------------------------------
// Laws
// ---------------------------------------------------------------------

/// Violations refuse every source alike: nothing of it is evaluated.
pub proof fn law_violations_come_first(
    src: Seq<char>,
    other: Seq<char>,
    b: InputsView,
    interface: Seq<char>,
    errors: Seq<SchemaErrorView>,
)
    requires
        errors.len() > 0,
    ensures
        checked_arch(src, b, interface, errors) matches Err(e) && e is Schema && e->errors == errors
            && e->interface == interface,
        checked_arch(src, b, interface, errors) == checked_arch(other, b, interface, errors),
{
}

proof fn lemma_join_contains(a: Seq<Option<Fault>>, b: Seq<Option<Fault>>, x: Option<Fault>)
    ensures
        (a + b).contains(x) <==> a.contains(x) || b.contains(x),
{
    if a.contains(x) {
        let i = choose|i: int| 0 <= i < a.len() && a[i] == x;
        assert((a + b)[i] == x);
    }
    if b.contains(x) {
        let i = choose|i: int| 0 <= i < b.len() && b[i] == x;
        assert((a + b)[a.len() + i] == x);
    }
}

/// What is said of missing inputs is said of those that are missing.
proof fn lemma_missing(
    inputs: Seq<(Seq<char>, FieldView)>,
    bag: Seq<(Seq<char>, Seq<char>)>,
    i: int,
    name: Seq<char>,
)
    requires
        0 <= i <= inputs.len(),
    ensures
        missing_from(inputs, bag, i).contains(Some(Fault::Missing(name))) <==> exists|k: int|
            i <= k < inputs.len() && (#[trigger] inputs[k]).0 == name && inputs[k].1.required
                && inputs[k].1.default is None && !has_key(bag, name),
        !missing_from(inputs, bag, i).contains(Some(Fault::Unknown(name))),
        !missing_from(inputs, bag, i).contains(Some(Fault::Mismatch(name))),
        !missing_from(inputs, bag, i).contains(None),
    decreases inputs.len() - i,
{
    if i < inputs.len() {
        let (n, f) = inputs[i];
        let rest = missing_from(inputs, bag, i + 1);
        lemma_missing(inputs, bag, i + 1, name);
        if f.required && f.default is None && !has_key(bag, n) {
            let one = seq![Some(Fault::Missing(n))];
            assert(one[0] == Some(Fault::Missing(n)));
            assert(one.contains(Some(Fault::Missing(n))));
            lemma_join_contains(one, rest, Some(Fault::Missing(name)));
            lemma_join_contains(one, rest, Some(Fault::Unknown(name)));
            lemma_join_contains(one, rest, Some(Fault::Mismatch(name)));
            lemma_join_contains(one, rest, None);
        }
    }
}

/// What is said of the inputs that are given is said of those that are at
/// fault.
proof fn lemma_given(
    inputs: Seq<(Seq<char>, FieldView)>,
    bag: Seq<(Seq<char>, Seq<char>)>,
    i: int,
    errors: Seq<SchemaErrorView>,
    x: Fault,
)
    requires
        0 <= i <= bag.len(),
    ensures
        given_from(inputs, bag, i, errors).contains(Some(x)) <==> exists|k: int|
            i <= k < bag.len() && given_fault(
                inputs,
                (#[trigger] bag[k]).0,
                bag[k].1,
                says(errors, Fault::Mismatch(bag[k].0)),
            ) == Some(x),
        !given_from(inputs, bag, i, errors).contains(None),
    decreases bag.len() - i,
{
    if i < bag.len() {
        let (n, v) = bag[i];
        let fault = given_fault(inputs, n, v, says(errors, Fault::Mismatch(n)));
        let rest = given_from(inputs, bag, i + 1, errors);
        lemma_given(inputs, bag, i + 1, errors, x);
        assert(bag[i] == (n, v));
        if fault is Some {
            let one = seq![fault];
            assert(one[0] == fault);
            assert(one.contains(fault));
            lemma_join_contains(one, rest, Some(x));
            lemma_join_contains(one, rest, None);
        }
    }
}

/// Missing inputs are reported as such, and no others; so are unknown ones; a
/// mismatch is reported of every value that does not fit, and of none that
/// fits.
pub proof fn law_reports_are_about_the_inputs(
    inputs: Seq<(Seq<char>, FieldView)>,
    bag: Seq<(Seq<char>, Seq<char>)>,
    errors: Seq<SchemaErrorView>,
    name: Seq<char>,
)
    requires
        distinct_keys(inputs),
        distinct_keys(bag),
        reports(inputs, bag, errors),
    ensures
        says(errors, Fault::Missing(name)) <==> is_missing(inputs, bag, name),
        says(errors, Fault::Unknown(name)) <==> is_unknown(inputs, bag, name),
        is_unfit(inputs, bag, name) ==> says(errors, Fault::Mismatch(name)),
        says(errors, Fault::Mismatch(name)) ==> has_key(inputs, name) && has_key(bag, name)
            && fit_of(lookup(inputs, name)->0.ty, lookup(bag, name)->0) != Some(true),
        forall|i: int| 0 <= i < errors.len() ==> fault_of(#[trigger] errors[i]) is Some,
{
    let a = missing_from(inputs, bag, 0);
    let b = given_from(inputs, bag, 0, errors);
    lemma_position(inputs, name);
    lemma_position(bag, name);
    lemma_missing(inputs, bag, 0, name);
    lemma_given(inputs, bag, 0, errors, Fault::Missing(name));
    lemma_given(inputs, bag, 0, errors, Fault::Unknown(name));
    lemma_given(inputs, bag, 0, errors, Fault::Mismatch(name));
    lemma_join_contains(a, b, Some(Fault::Missing(name)));
    lemma_join_contains(a, b, Some(Fault::Unknown(name)));
    lemma_join_contains(a, b, Some(Fault::Mismatch(name)));
    lemma_join_contains(a, b, None);
    if let Some(i) = position(inputs, name) {
        assert forall|k: int| 0 <= k < inputs.len() && (#[trigger] inputs[k]).0 == name implies k
            == i by {
            if i < k {
                assert(inputs[i].0 != inputs[k].0);
            }
        }
        assert(inputs[i].0 == name);
    }
    if let Some(i) = position(bag, name) {
        assert forall|k: int| 0 <= k < bag.len() && (#[trigger] bag[k]).0 == name implies k
            == i by {
            if i < k {
                assert(bag[i].0 != bag[k].0);
            }
        }
        assert(bag[i].0 == name);
    }
    assert forall|i: int| 0 <= i < errors.len() implies fault_of(
        #[trigger] errors[i],
    ) is Some by {
        assert(faults(errors)[i] == fault_of(errors[i]));
        if fault_of(errors[i]) is None {
            assert(faults(errors).contains(None));
        }
    }
}

/// Whether an interface has no field for IPv6 addresses or lists of them.
pub open spec fn is_told(inputs: Seq<(Seq<char>, FieldView)>) -> bool {
    forall|i: int|
        0 <= i < inputs.len() ==> !((#[trigger] inputs[i]).1.ty is Ipv6) && !(
        inputs[i].1.ty matches TypeView::ListOf { inner, .. } && *inner is Ipv6)
}

proof fn lemma_given_told(
    inputs: Seq<(Seq<char>, FieldView)>,
    bag: Seq<(Seq<char>, Seq<char>)>,
    i: int,
    a: Seq<SchemaErrorView>,
    b: Seq<SchemaErrorView>,
)
    requires
        0 <= i <= bag.len(),
        is_told(inputs),
    ensures
        given_from(inputs, bag, i, a) == given_from(inputs, bag, i, b),
    decreases bag.len() - i,
{
    if i < bag.len() {
        lemma_given_told(inputs, bag, i + 1, a, b);
        let (name, value) = bag[i];
        lemma_position(inputs, name);
        if let Some(k) = position(inputs, name) {
            law_fit_is_told(inputs[k].1.ty, value);
        }
    }
}

/// Without IPv6 addresses, the interface and the inputs decide which violations
/// there are, in which order, and how each of them reads.
pub proof fn law_inputs_decide_the_violations(
    inputs: Seq<(Seq<char>, FieldView)>,
    bag: Seq<(Seq<char>, Seq<char>)>,
    a: Seq<SchemaErrorView>,
    b: Seq<SchemaErrorView>,
)
    requires
        distinct_keys(inputs),
        distinct_keys(bag),
        is_told(inputs),
        reports(inputs, bag, a),
        reports(inputs, bag, b),
    ensures
        a == b,
{
    lemma_given_told(inputs, bag, 0, a, b);
    assert(faults(a).len() == a.len() && faults(b).len() == b.len());
    assert forall|i: int| 0 <= i < a.len() implies a[i] == b[i] by {
        law_reports_are_about_the_inputs(inputs, bag, a, Seq::empty());
        law_reports_are_about_the_inputs(inputs, bag, b, Seq::empty());
        assert(faults(a)[i] == fault_of(a[i]));
        assert(faults(b)[i] == fault_of(b[i]));
        assert(fault_of(a[i]) is Some);
        assert(gives_cause(inputs, bag, a[i]));
        assert(gives_cause(inputs, bag, b[i]));
        if let SchemaErrorView::TypeMismatch { kind, name, cause } = a[i] {
            assert(says(a, Fault::Mismatch(name)));
            law_reports_are_about_the_inputs(inputs, bag, a, name);
            lemma_position(inputs, name);
            let k = position(inputs, name)->0;
            law_fit_is_told(inputs[k].1.ty, lookup(bag, name)->0);
        }
    }
    assert(a =~= b);
}

/// A missing input refuses the evaluation, so does an unknown one where the
/// interface takes only the fields that it names, and so does one that does not
/// fit its type. The refusal says so.
pub proof fn law_bad_inputs_are_refused(
    src: Seq<char>,
    b: InputsView,
    iface: InterfaceView,
    errors: Seq<SchemaErrorView>,
    name: Seq<char>,
)
    requires
        distinct_keys(iface.inputs),
        distinct_keys(bag_of(b)),
        reports(iface.inputs, bag_of(b), errors),
        is_missing(iface.inputs, bag_of(b), name) || is_unknown(iface.inputs, bag_of(b), name)
            || is_unfit(iface.inputs, bag_of(b), name),
    ensures
        checked_arch(src, b, iface.name, errors) matches Err(e) && e is Schema && e->errors
            == errors,
        is_missing(iface.inputs, bag_of(b), name) ==> says(errors, Fault::Missing(name)),
        is_unknown(iface.inputs, bag_of(b), name) ==> says(errors, Fault::Unknown(name)),
        is_unfit(iface.inputs, bag_of(b), name) ==> says(errors, Fault::Mismatch(name)),
{
    law_reports_are_about_the_inputs(iface.inputs, bag_of(b), errors, name);
    assert(faults(errors).len() > 0);
}

/// Where no input is missing and none unknown, and every value is told to fit,
/// nothing is refused.
pub proof fn law_what_fits_is_evaluated(
    src: Seq<char>,
    b: InputsView,
    iface: InterfaceView,
    errors: Seq<SchemaErrorView>,
)
    requires
        distinct_keys(iface.inputs),
        distinct_keys(bag_of(b)),
        reports(iface.inputs, bag_of(b), errors),
        forall|name: Seq<char>| !(#[trigger] is_missing(iface.inputs, bag_of(b), name)),
        forall|name: Seq<char>| !(#[trigger] is_unknown(iface.inputs, bag_of(b), name)),
        forall|name: Seq<char>|
            has_key(iface.inputs, name) && #[trigger] has_key(bag_of(b), name) ==> fit_of(
                lookup(iface.inputs, name)->0.ty,
                lookup(bag_of(b), name)->0,
            ) == Some(true),
    ensures
        errors.len() == 0,
        checked_arch(src, b, iface.name, errors) == source_arch(src, b),
{
    if errors.len() > 0 {
        let e = errors[0];
        let name = match e {
            SchemaErrorView::MissingRequired { kind, name } => name,
            SchemaErrorView::UnknownField { kind, name } => name,
            SchemaErrorView::TypeMismatch { kind, name, cause } => name,
        };
        law_reports_are_about_the_inputs(iface.inputs, bag_of(b), errors, name);
        assert(faults(errors)[0] == fault_of(e));
        assert(!is_missing(iface.inputs, bag_of(b), name));
        assert(!is_unknown(iface.inputs, bag_of(b), name));
    }
}

/// The bag holds every input: a list joined by commas, else a string, and
/// nothing under other names. No name stands twice.
pub proof fn law_the_bag_holds_every_input(b: InputsView, name: Seq<char>)
    requires
        has_order(b.scalars),
        has_order(b.lists),
    ensures
        lookup(bag_of(b), name) == if b.lists.dom().contains(name) {
            Some(joined(b.lists[name], ","@))
        } else if b.scalars.dom().contains(name) {
            Some(b.scalars[name])
        } else {
            None
        },
        distinct_keys(bag_of(b)),
{
    let ss = ordered(b.scalars);
    let ls = ordered(b.lists);
    lemma_sorted_distinct(ss);
    lemma_sorted_distinct(ls);
    let first = scalars_onto(Seq::empty(), ss, 0);
    lemma_scalars(Seq::empty(), ss, 0, name);
    lemma_lists(first, ls, 0, name);
    lemma_position(ss, name);
    lemma_position(ls, name);
    lemma_as_map(ss, name);
    lemma_as_map(ls, name);
}

proof fn lemma_scalars(
    acc: Seq<(Seq<char>, Seq<char>)>,
    entries: Seq<(Seq<char>, Seq<char>)>,
    i: int,
    name: Seq<char>,
)
    requires
        0 <= i <= entries.len(),
        distinct_keys(entries),
        distinct_keys(acc),
    ensures
        distinct_keys(scalars_onto(acc, entries, i)),
        forall|j: int|
            i <= j < entries.len() && (#[trigger] entries[j]).0 == name ==> lookup(
                scalars_onto(acc, entries, i),
                name,
            ) == Some(entries[j].1),
        (forall|j: int| i <= j < entries.len() ==> (#[trigger] entries[j]).0 != name) ==> lookup(
            scalars_onto(acc, entries, i),
            name,
        ) == lookup(acc, name),
    decreases entries.len() - i,
{
    if i < entries.len() {
        let (k, v) = entries[i];
        law_insert_then_read(acc, k, v, name);
        lemma_scalars(upsert(acc, k, v), entries, i + 1, name);
        if k == name {
            assert forall|j: int| i + 1 <= j < entries.len() implies (#[trigger] entries[j]).0
                != name by {
                assert(entries[i].0 != entries[j].0);
            }
        }
    }
}

proof fn lemma_lists(
    acc: Seq<(Seq<char>, Seq<char>)>,
    entries: Seq<(Seq<char>, Seq<Seq<char>>)>,
    i: int,
    name: Seq<char>,
)
    requires
        0 <= i <= entries.len(),
        distinct_keys(entries),
        distinct_keys(acc),
    ensures
        distinct_keys(lists_onto(acc, entries, i)),
        forall|j: int|
            i <= j < entries.len() && (#[trigger] entries[j]).0 == name ==> lookup(
                lists_onto(acc, entries, i),
                name,
            ) == Some(joined(entries[j].1, ","@)),
        (forall|j: int| i <= j < entries.len() ==> (#[trigger] entries[j]).0 != name) ==> lookup(
            lists_onto(acc, entries, i),
            name,
        ) == lookup(acc, name),
    decreases entries.len() - i,
{
    if i < entries.len() {
        let (k, v) = entries[i];
        let text = joined(v, ","@);
        law_insert_then_read(acc, k, text, name);
        lemma_lists(upsert(acc, k, text), entries, i + 1, name);
        if k == name {
            assert forall|j: int| i + 1 <= j < entries.len() implies (#[trigger] entries[j]).0
                != name by {
                assert(entries[i].0 != entries[j].0);
            }
        }
    }
}

/// A refusal says how many violations there are, in full, and how the first of
/// them reads, under the name of the interface. Without violations the source is
/// evaluated as it is.
pub proof fn law_a_refusal_holds_its_violations(
    src: Seq<char>,
    b: InputsView,
    interface: Seq<char>,
    errors: Seq<SchemaErrorView>,
)
    ensures
        0 < errors.len() <= usize::MAX ==> (checked_arch(src, b, interface, errors) matches Err(e)
            && e is Schema && e->interface == interface && e->count == errors.len() && e->first
            == schema_message(errors[0]) && e->errors == errors),
        errors.len() == 0 ==> checked_arch(src, b, interface, errors) == source_arch(src, b),
{
}

/// How violations read.
pub proof fn law_violations_read_as_sentences(
    kind: Seq<char>,
    name: Seq<char>,
    cause: Seq<char>,
)
    ensures
        schema_message(SchemaErrorView::MissingRequired { kind, name }) == "missing required "@
            + kind + " `"@ + name + "`"@,
        schema_message(SchemaErrorView::UnknownField { kind, name }) == "unknown "@ + kind + " `"@
            + name + "` (no loose-fields slot declared)"@,
        schema_message(SchemaErrorView::TypeMismatch { kind, name, cause }) == "type error on "@
            + kind + " `"@ + name + "`: "@ + cause,
{
}

/// Without the field of a name, an interface takes the value of that name exactly
/// where one of its fields is loose; and a field without a value is missing exactly
/// where it is required and has no default.
pub proof fn law_what_is_missing_and_what_is_unknown(
    inputs: Seq<(Seq<char>, FieldView)>,
    bag: Seq<(Seq<char>, Seq<char>)>,
    name: Seq<char>,
    i: int,
    j: int,
)
    requires
        distinct_keys(inputs),
    ensures
        0 <= i < inputs.len() && inputs[i].0 == name && !has_key(bag, name) ==> (is_missing(
            inputs,
            bag,
            name,
        ) <==> inputs[i].1.required && inputs[i].1.default is None),
        has_key(bag, name) ==> !is_missing(inputs, bag, name),
        0 <= i < inputs.len() && inputs[i].0 == name ==> !is_unknown(inputs, bag, name),
        0 <= j < inputs.len() && inputs[j].1.loose ==> !is_unknown(inputs, bag, name),
        has_key(bag, name) && (forall|k: int|
            0 <= k < inputs.len() ==> (#[trigger] inputs[k]).0 != name && !inputs[k].1.loose)
            ==> is_unknown(inputs, bag, name),
{
    lemma_position(inputs, name);
    if let Some(k) = position(inputs, name) {
        assert(inputs[k].0 == name);
        if 0 <= i < inputs.len() && inputs[i].0 == name {
            if k < i {
                assert(inputs[k].0 != inputs[i].0);
            }
        }
    }
}

/// The bag lists the strings in the order of their names, then the lists in the
/// order of theirs, where no name is bound as both.
pub proof fn law_the_bag_lists_strings_then_lists(b: InputsView, i: int)
    requires
        has_order(b.scalars),
        has_order(b.lists),
        forall|k: Seq<char>| !(#[trigger] b.scalars.dom().contains(k) && b.lists.dom().contains(k)),
    ensures
        bag_of(b).len() == ordered(b.scalars).len() + ordered(b.lists).len(),
        0 <= i < ordered(b.scalars).len() ==> bag_of(b)[i] == ordered(b.scalars)[i],
        0 <= i < ordered(b.lists).len() ==> bag_of(b)[ordered(b.scalars).len() + i] == (
            ordered(b.lists)[i].0,
            joined(ordered(b.lists)[i].1, ","@),
        ),
{
    let ss = ordered(b.scalars);
    let ls = ordered(b.lists);
    lemma_sorted_distinct(ss);
    lemma_sorted_distinct(ls);
    lemma_scalars_appended(Seq::empty(), ss, 0);
    assert(Seq::<(Seq<char>, Seq<char>)>::empty() + ss.skip(0) =~= ss);
    assert forall|m: int, n: int| 0 <= m < ss.len() && 0 <= n < ls.len() implies #[trigger] ss[m].0
        != #[trigger] ls[n].0 by {
        let k = ss[m].0;
        lemma_position(ss, k);
        lemma_position(ls, k);
        lemma_as_map(ss, k);
        lemma_as_map(ls, k);
        if ls[n].0 == k {
            assert(b.scalars.dom().contains(k) && b.lists.dom().contains(k));
        }
    }
    lemma_lists_appended(ss, ls, 0, ss.len() as int);
}

proof fn lemma_scalars_appended(
    acc: Seq<(Seq<char>, Seq<char>)>,
    entries: Seq<(Seq<char>, Seq<char>)>,
    i: int,
)
    requires
        0 <= i <= entries.len(),
        distinct_keys(entries),
        forall|m: int, n: int|
            0 <= m < acc.len() && i <= n < entries.len() ==> #[trigger] acc[m].0
                != #[trigger] entries[n].0,
    ensures
        scalars_onto(acc, entries, i) == acc + entries.skip(i),
    decreases entries.len() - i,
{
    if i < entries.len() {
        let (k, v) = entries[i];
        lemma_position(acc, k);
        if let Some(m) = position(acc, k) {
            assert(acc[m].0 != entries[i].0);
        }
        let next = acc.push((k, v));
        assert forall|m: int, n: int|
            0 <= m < next.len() && i + 1 <= n < entries.len() implies #[trigger] next[m].0
            != #[trigger] entries[n].0 by {
            if m < acc.len() {
                assert(acc[m].0 != entries[n].0);
            } else {
                assert(entries[i].0 != entries[n].0);
            }
        }
        lemma_scalars_appended(next, entries, i + 1);
        assert(next + entries.skip(i + 1) =~= acc + entries.skip(i));
    } else {
        assert(acc + entries.skip(i) =~= acc);
    }
}

proof fn lemma_lists_appended(
    acc: Seq<(Seq<char>, Seq<char>)>,
    entries: Seq<(Seq<char>, Seq<Seq<char>>)>,
    i: int,
    base: int,
)
    requires
        0 <= i <= entries.len(),
        0 <= base,
        acc.len() == base + i,
        distinct_keys(entries),
        forall|m: int, n: int|
            0 <= m < acc.len() && i <= n < entries.len() ==> #[trigger] acc[m].0
                != #[trigger] entries[n].0,
    ensures
        lists_onto(acc, entries, i).len() == base + entries.len(),
        forall|m: int|
            0 <= m < acc.len() ==> #[trigger] lists_onto(acc, entries, i)[m] == acc[m],
        forall|n: int|
            i <= n < entries.len() ==> lists_onto(acc, entries, i)[base + n] == (
                (#[trigger] entries[n]).0,
                joined(entries[n].1, ","@),
            ),
    decreases entries.len() - i,
{
    if i < entries.len() {
        let (k, v) = entries[i];
        let text = joined(v, ","@);
        lemma_position(acc, k);
        if let Some(m) = position(acc, k) {
            assert(acc[m].0 != entries[i].0);
        }
        let next = acc.push((k, text));
        assert forall|m: int, n: int|
            0 <= m < next.len() && i + 1 <= n < entries.len() implies #[trigger] next[m].0
            != #[trigger] entries[n].0 by {
            if m < acc.len() {
                assert(acc[m].0 != entries[n].0);
            } else {
                assert(entries[i].0 != entries[n].0);
            }
        }
        lemma_lists_appended(next, entries, i + 1, base);
        let out = lists_onto(next, entries, i + 1);
        assert(lists_onto(acc, entries, i) == out);
        assert(out[base + i] == next[base + i]);
        assert forall|m: int| 0 <= m < acc.len() implies #[trigger] out[m] == acc[m] by {
            assert(out[m] == next[m]);
        }
    }
}

} // verus!
