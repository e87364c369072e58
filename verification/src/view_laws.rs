//! What values stand for, part by part, and when a result is the one that is due.
use crate::arch::{
    provider_views, resource_views, Architecture, ArchitectureView, Multiplicity,
    MultiplicityView, ProviderRef, Resource, ResourceView,
};
use crate::board::{
    annotation_views, datasource_views, panel_views, query_views, row_views, variable_views,
    Annotation, Dashboard, Datasource, Panel, Query, Row, Variable,
};
use crate::datum::{Datum, DatumView, ResourceRef};
use crate::error::{EvalError, EvalErrorView};
use crate::eval::{adds, gives, gives_arch, gives_resource};
use crate::import::{import_views, Import};
use crate::interface::{gives_type, interface_views, InterfaceErrorView, InterfaceParseError};
use crate::render::gives_json;
use crate::sexpr::{sx_views, Atom, AtomView, Sx, SxView};
use crate::text::{option_text, texts};
use crate::textmap::text_entries;
use crate::types::{field_entries, Field, Interface, Type, TypeView};
use vstd::prelude::*;

verus! {

/// A form stands for the form with the same shape and texts.
pub proof fn law_forms_stand_for_themselves(s: String, b: bool, n: i64, xs: Vec<Sx>, i: int)
    ensures
        Sx::Atom(Atom::Sym(s))@ == SxView::Atom(AtomView::Sym(s@)),
        Sx::Atom(Atom::Kw(s))@ == SxView::Atom(AtomView::Kw(s@)),
        Sx::Atom(Atom::Str(s))@ == SxView::Atom(AtomView::Str(s@)),
        Sx::Atom(Atom::Bool(b))@ == SxView::Atom(AtomView::Bool(b)),
        Sx::Atom(Atom::Int(n))@ == SxView::Atom(AtomView::Int(n)),
        Sx::List(xs)@ == SxView::List(sx_views(xs@)),
        sx_views(xs@).len() == xs@.len(),
        0 <= i < xs@.len() ==> sx_views(xs@)[i] == xs@[i]@,
{
    crate::sexpr::lemma_list_view(xs);
}

/// A value stands for the value with the same shape and contents.
pub proof fn law_values_stand_for_themselves(
    s: String,
    b: bool,
    n: i64,
    r: ResourceRef,
    vs: Vec<Datum>,
    m: crate::datum::DatumMap,
)
    ensures
        Datum::Null@ == DatumView::Null,
        Datum::Bool(b)@ == DatumView::Bool(b),
        Datum::Int(n)@ == DatumView::Int(n),
        Datum::Str(s)@ == DatumView::Str(s@),
        Datum::Ref(r)@ == DatumView::Ref(r@),
        Datum::Object(m)@ == DatumView::Object(m@),
        Datum::List(vs)@ matches DatumView::List(xs) && xs.len() == vs@.len() && forall|i: int|
            0 <= i < xs.len() ==> #[trigger] xs[i] == vs@[i]@,
        r@.type_id == r.type_id@,
        r@.name == r.name@,
        r@.attribute == r.attribute@,
{
    crate::datum::lemma_value_list(vs);
}

/// Resources, providers and architectures stand for what their parts stand for.
pub proof fn law_architectures_stand_for_their_parts(
    a: Architecture,
    r: Resource,
    p: ProviderRef,
    n: i64,
    m: crate::datum::DatumMap,
    i: int,
)
    ensures
        r@.type_id == r.type_id@,
        r@.name == r.name@,
        r@.attributes == r.attributes@,
        r@.depends_on.len() == r.depends_on@.len(),
        r@.provider is Some <==> r.provider is Some,
        r@.multiplicity == match r.multiplicity {
            Some(Multiplicity::Count(k)) => Some(MultiplicityView::Count(k)),
            Some(Multiplicity::ForEach(es)) => Some(MultiplicityView::ForEach(es@)),
            None => None,
        },
        p@.source == p.source@,
        p@.name == p.name@,
        p@.alias == option_text(p.alias),
        p@.config == p.config@,
        a@.name == a.name@,
        a@.resources == resource_views(a.resources@),
        a@.data_sources == resource_views(a.data_sources@),
        a@.outputs == a.outputs@,
        a@.providers == provider_views(a.providers@),
        a@.locals == a.locals@,
        resource_views(a.resources@).len() == a.resources@.len(),
        0 <= i < a.resources@.len() ==> resource_views(a.resources@)[i] == a.resources@[i]@,
        provider_views(a.providers@).len() == a.providers@.len(),
        0 <= i < a.providers@.len() ==> provider_views(a.providers@)[i] == a.providers@[i]@,
{
}

/// Interfaces and imports stand for what their parts stand for.
pub proof fn law_interfaces_and_imports_stand_for_their_parts(
    f: Field,
    iface: Interface,
    is: Seq<Interface>,
    import: Import,
    imports: Seq<Import>,
    i: int,
)
    ensures
        f@.ty == f.ty@,
        f@.required == f.required,
        f@.default == option_text(f.default),
        f@.doc == option_text(f.doc),
        f@.loose == f.loose,
        iface@.name == iface.name@,
        iface@.doc == option_text(iface.doc),
        iface@.inputs == field_entries(iface.inputs),
        iface@.outputs == field_entries(iface.outputs),
        interface_views(is).len() == is.len(),
        0 <= i < is.len() ==> interface_views(is)[i] == is[i]@,
        import@.target == import.target@,
        import@.alias == option_text(import.alias),
        import@.bindings == text_entries(import.bindings),
        import_views(imports).len() == imports.len(),
        0 <= i < imports.len() ==> import_views(imports)[i] == imports[i]@,
{
}

/// Types stand for the types of the same kind and parameters.
pub proof fn law_types_stand_for_themselves(
    lo: i64,
    hi: i64,
    first: u16,
    last: u16,
    min: usize,
    max: usize,
    values: Vec<String>,
    inner: Type,
    least: Option<usize>,
    most: Option<usize>,
)
    ensures
        Type::Any@ == TypeView::Any,
        Type::Dynamic@ == TypeView::Dynamic,
        Type::String@ == TypeView::Text,
        Type::Integer@ == TypeView::Integer,
        Type::Boolean@ == TypeView::Boolean,
        Type::CidrBlock@ == TypeView::CidrBlock,
        Type::Ipv4@ == TypeView::Ipv4,
        Type::Ipv6@ == TypeView::Ipv6,
        Type::Hostname@ == TypeView::Hostname,
        Type::AvailabilityZone@ == TypeView::AvailabilityZone,
        Type::Email@ == TypeView::Email,
        Type::Url@ == TypeView::Url,
        (Type::PortRange { lo: first, hi: last })@ == (TypeView::PortRange { lo: first, hi: last }),
        (Type::IntRange { lo, hi })@ == (TypeView::IntRange { lo, hi }),
        (Type::Length { min, max })@ == (TypeView::Length { min, max }),
        (Type::Enum { values })@ == (TypeView::Enum { values: texts(values@) }),
        (Type::ListOf { inner: Box::new(inner), min_items: least, max_items: most })@ == (
        TypeView::ListOf { inner: Box::new(inner@), min_items: least, max_items: most }),
{
    reveal_with_fuel(crate::types::type_view, 2);
}

/// Boards stand for what their parts stand for.
pub proof fn law_boards_stand_for_their_parts(
    d: Dashboard,
    p: Panel,
    q: Query,
    r: Row,
    v: Variable,
    a: Annotation,
    ds: Datasource,
)
    ensures
        d@.uid == d.uid@ && d@.title == d.title@,
        d@.description == option_text(d.description) && d@.refresh == option_text(d.refresh),
        d@.tags == texts(d.tags@),
        d@.time_from == d.time.from@ && d@.time_to == d.time.to@,
        d@.timezone == d.timezone@ && d@.editable == d.editable,
        d@.variables == variable_views(d.variables@),
        d@.annotations == annotation_views(d.annotations@),
        d@.rows == row_views(d.rows@),
        d@.datasources == datasource_views(d.datasources.0@),
        p@.id == p.id@ && p@.kind == p.kind && p@.title == p.title@,
        p@.description == option_text(p.description) && p@.unit == option_text(p.unit),
        p@.min == p.min && p@.max == p.max && p@.decimals == p.decimals,
        p@.queries == query_views(p.queries@),
        p@.mode == p.thresholds.mode && p@.steps == p.thresholds.steps@,
        p@.width == p.width && p@.height == p.height,
        p@.display_mode == p.display_mode && p@.graph == p.graph,
        q@.reference == q.reference@ && q@.expr == q.expr@,
        q@.datasource_uid == q.datasource_uid@ && q@.legend == option_text(q.legend),
        q@.instant == q.instant && q@.hide == q.hide && q@.presence == q.presence,
        q@.alt_exprs == q.alt_exprs@,
        r@.title == r.title@ && r@.collapsed == r.collapsed && r@.panels == panel_views(r.panels@),
        v@.name == v.name@ && v@.kind == v.kind && v@.label == option_text(v.label),
        v@.datasource_uid == option_text(v.datasource_uid) && v@.query == option_text(v.query),
        v@.options == texts(v.options@) && v@.multi == v.multi && v@.include_all == v.include_all,
        a@.name == a.name@ && a@.datasource_uid == a.datasource_uid@ && a@.expr == a.expr@,
        a@.color == a.color && a@.enable == a.enable,
        ds@.uid == ds.uid@ && ds@.wire_type == ds.wire_type@ && ds@.query_lang == ds.query_lang,
{
}

/// Runs of parts stand for what each part stands for, in order.
pub proof fn law_runs_stand_for_their_items(
    qs: Seq<Query>,
    ps: Seq<Panel>,
    rs: Seq<Row>,
    vs: Seq<Variable>,
    anns: Seq<Annotation>,
    ds: Seq<Datasource>,
    ss: Seq<String>,
    s: Option<String>,
    i: int,
)
    ensures
        query_views(qs).len() == qs.len() && (0 <= i < qs.len() ==> query_views(qs)[i] == qs[i]@),
        panel_views(ps).len() == ps.len() && (0 <= i < ps.len() ==> panel_views(ps)[i] == ps[i]@),
        row_views(rs).len() == rs.len() && (0 <= i < rs.len() ==> row_views(rs)[i] == rs[i]@),
        variable_views(vs).len() == vs.len() && (0 <= i < vs.len() ==> variable_views(vs)[i]
            == vs[i]@),
        annotation_views(anns).len() == anns.len() && (0 <= i < anns.len() ==> annotation_views(
            anns,
        )[i] == anns[i]@),
        datasource_views(ds).len() == ds.len() && (0 <= i < ds.len() ==> datasource_views(ds)[i]
            == ds[i]@),
        texts(ss).len() == ss.len() && (0 <= i < ss.len() ==> texts(ss)[i] == ss[i]@),
        option_text(s) == match s {
            Some(t) => Some(t@),
            None => None,
        },
{
}

/// A result is the one that is due exactly where both succeed with one value or
/// both fail with one error.
pub proof fn law_results_are_those_that_are_due(
    v: Result<Datum, EvalError>,
    wv: Result<DatumView, EvalErrorView>,
    r: Result<Option<Resource>, EvalError>,
    wr: Result<Option<ResourceView>, EvalErrorView>,
    a: Result<Architecture, EvalError>,
    wa: Result<ArchitectureView, EvalErrorView>,
    t: Result<Type, InterfaceParseError>,
    wt: Result<TypeView, InterfaceErrorView>,
    j: Result<serde_json::Value, EvalError>,
    wj: Result<serde_json::Value, EvalErrorView>,
    u: Result<(), EvalError>,
    after: Seq<Resource>,
    wu: Result<Seq<ResourceView>, EvalErrorView>,
)
    ensures
        gives(v, wv) ==> (v is Ok <==> wv is Ok),
        gives(v, wv) && v is Ok ==> v->Ok_0@ == wv->Ok_0,
        gives(v, wv) && v is Err ==> v->Err_0@ == wv->Err_0,
        gives_resource(r, wr) ==> (r is Ok <==> wr is Ok),
        gives_resource(r, wr) && r is Ok ==> (r->Ok_0 is Some <==> wr->Ok_0 is Some),
        gives_resource(r, wr) && r is Ok && r->Ok_0 is Some ==> r->Ok_0->0@ == wr->Ok_0->0,
        gives_resource(r, wr) && r is Err ==> r->Err_0@ == wr->Err_0,
        gives_arch(a, wa) ==> (a is Ok <==> wa is Ok),
        gives_arch(a, wa) && a is Ok ==> a->Ok_0@ == wa->Ok_0,
        gives_arch(a, wa) && a is Err ==> a->Err_0@ == wa->Err_0,
        gives_type(t, wt) ==> (t is Ok <==> wt is Ok),
        gives_type(t, wt) && t is Ok ==> t->Ok_0@ == wt->Ok_0,
        gives_type(t, wt) && t is Err ==> t->Err_0@ == wt->Err_0,
        gives_json(j, wj) ==> (j is Ok <==> wj is Ok),
        gives_json(j, wj) && j is Ok ==> j->Ok_0 == wj->Ok_0,
        gives_json(j, wj) && j is Err ==> j->Err_0@ == wj->Err_0,
        adds(u, after, wu) ==> (u is Ok <==> wu is Ok),
        adds(u, after, wu) && u is Ok ==> resource_views(after) == wu->Ok_0,
        adds(u, after, wu) && u is Err ==> u->Err_0@ == wu->Err_0,
{
}

} // verus!
