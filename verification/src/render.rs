//! Rendering dashboards as Grafana JSON.
use crate::board::{
    datasource_at, Annotation, AnnotationView, Dashboard, DashboardView, Datasource, DatasourceView,
    DisplayMode, GraphMode, Panel, PanelKind, PanelView, Presence, Query, QueryLang, QueryView,
    Role, Row, RowView, Theme, Threshold, ThresholdMode, Variable, VariableKind, VariableView,
};
use crate::dashboard::{eval_dashboard, source_board};
use crate::error::{EvalError, EvalErrorView};
use crate::json::{
    array_onto, bool_onto, comma_onto, int_onto, option_onto, push_array, push_bool, push_comma,
    push_int, push_option, push_size, push_string, size_onto, string_onto,
};
use crate::language::shown_lang;
use crate::number::decimal;
use crate::sortedmap::{ordered, SortedMap};
use vstd::prelude::*;

verus! {

// ---------------------------------------------------------------------
// Names in JSON
// ---------------------------------------------------------------------

/// The name of a role.
pub open spec fn role_name(r: Role) -> Seq<char> {
    match r {
        Role::Neutral => "\"neutral\""@,
        Role::Primary => "\"primary\""@,
        Role::Info => "\"info\""@,
        Role::Success => "\"success\""@,
        Role::Warning => "\"warning\""@,
        Role::Danger => "\"danger\""@,
    }
}

/// The name of a query language.
pub open spec fn lang_name(l: QueryLang) -> Seq<char> {
    match l {
        QueryLang::PromQl => "\"prom_ql\""@,
        QueryLang::LogsQl => "\"logs_ql\""@,
        QueryLang::Sql => "\"sql\""@,
    }
}

/// The name of a panel kind.
pub open spec fn panel_kind_name(k: PanelKind) -> Seq<char> {
    match k {
        PanelKind::Stat => "\"stat\""@,
        PanelKind::TimeSeries => "\"time_series\""@,
        PanelKind::Gauge => "\"gauge\""@,
        PanelKind::Table => "\"table\""@,
        PanelKind::Heatmap => "\"heatmap\""@,
        PanelKind::Text => "\"text\""@,
        PanelKind::Pie => "\"pie\""@,
    }
}

/// The name of a presence.
pub open spec fn presence_name(p: Presence) -> Seq<char> {
    match p {
        Presence::Continuous => "\"continuous\""@,
        Presence::EventDriven => "\"event_driven\""@,
        Presence::Conditional => "\"conditional\""@,
    }
}

/// The name of a threshold mode.
pub open spec fn threshold_mode_name(m: ThresholdMode) -> Seq<char> {
    match m {
        ThresholdMode::Absolute => "\"absolute\""@,
        ThresholdMode::Percentage => "\"percentage\""@,
    }
}

/// The name of a display mode.
pub open spec fn display_name(d: DisplayMode) -> Seq<char> {
    match d {
        DisplayMode::Auto => "\"auto\""@,
        DisplayMode::Off => "\"none\""@,
        DisplayMode::OnValue => "\"value\""@,
        DisplayMode::Background => "\"background\""@,
    }
}

/// The name of a graph mode.
pub open spec fn graph_name(g: GraphMode) -> Seq<char> {
    match g {
        GraphMode::Auto => "\"auto\""@,
        GraphMode::Off => "\"none\""@,
        GraphMode::Area => "\"area\""@,
    }
}

/// The name of a variable kind.
pub open spec fn variable_kind_name(k: VariableKind) -> Seq<char> {
    match k {
        VariableKind::Query => "\"query\""@,
        VariableKind::Constant => "\"constant\""@,
        VariableKind::Custom => "\"custom\""@,
        VariableKind::Datasource => "\"datasource\""@,
        VariableKind::Textbox => "\"textbox\""@,
        VariableKind::Interval => "\"interval\""@,
    }
}

fn push_role(out: &mut String, r: Role)
    ensures
        final(out)@ == old(out)@ + role_name(r),
{
    match r {
        Role::Neutral => out.append("\"neutral\""),
        Role::Primary => out.append("\"primary\""),
        Role::Info => out.append("\"info\""),
        Role::Success => out.append("\"success\""),
        Role::Warning => out.append("\"warning\""),
        Role::Danger => out.append("\"danger\""),
    }
}

fn push_lang(out: &mut String, l: QueryLang)
    ensures
        final(out)@ == old(out)@ + lang_name(l),
{
    match l {
        QueryLang::PromQl => out.append("\"prom_ql\""),
        QueryLang::LogsQl => out.append("\"logs_ql\""),
        QueryLang::Sql => out.append("\"sql\""),
    }
}

fn push_panel_kind(out: &mut String, k: PanelKind)
    ensures
        final(out)@ == old(out)@ + panel_kind_name(k),
{
    match k {
        PanelKind::Stat => out.append("\"stat\""),
        PanelKind::TimeSeries => out.append("\"time_series\""),
        PanelKind::Gauge => out.append("\"gauge\""),
        PanelKind::Table => out.append("\"table\""),
        PanelKind::Heatmap => out.append("\"heatmap\""),
        PanelKind::Text => out.append("\"text\""),
        PanelKind::Pie => out.append("\"pie\""),
    }
}

fn push_presence(out: &mut String, p: Presence)
    ensures
        final(out)@ == old(out)@ + presence_name(p),
{
    match p {
        Presence::Continuous => out.append("\"continuous\""),
        Presence::EventDriven => out.append("\"event_driven\""),
        Presence::Conditional => out.append("\"conditional\""),
    }
}

fn push_threshold_mode(out: &mut String, m: ThresholdMode)
    ensures
        final(out)@ == old(out)@ + threshold_mode_name(m),
{
    match m {
        ThresholdMode::Absolute => out.append("\"absolute\""),
        ThresholdMode::Percentage => out.append("\"percentage\""),
    }
}

fn push_display(out: &mut String, d: DisplayMode)
    ensures
        final(out)@ == old(out)@ + display_name(d),
{
    match d {
        DisplayMode::Auto => out.append("\"auto\""),
        DisplayMode::Off => out.append("\"none\""),
        DisplayMode::OnValue => out.append("\"value\""),
        DisplayMode::Background => out.append("\"background\""),
    }
}

fn push_graph(out: &mut String, g: GraphMode)
    ensures
        final(out)@ == old(out)@ + graph_name(g),
{
    match g {
        GraphMode::Auto => out.append("\"auto\""),
        GraphMode::Off => out.append("\"none\""),
        GraphMode::Area => out.append("\"area\""),
    }
}

fn push_variable_kind(out: &mut String, k: VariableKind)
    ensures
        final(out)@ == old(out)@ + variable_kind_name(k),
{
    match k {
        VariableKind::Query => out.append("\"query\""),
        VariableKind::Constant => out.append("\"constant\""),
        VariableKind::Custom => out.append("\"custom\""),
        VariableKind::Datasource => out.append("\"datasource\""),
        VariableKind::Textbox => out.append("\"textbox\""),
        VariableKind::Interval => out.append("\"interval\""),
    }
}

// ---------------------------------------------------------------------
// Documents as JSON
// ---------------------------------------------------------------------

/// The members of the JSON object of the other expressions of a query.
pub open spec fn alts_onto(acc: Seq<char>, alts: Seq<(Seq<char>, Seq<char>)>, i: int) -> Seq<char>
    decreases alts.len() - i,
{
    if i < 0 || i >= alts.len() {
        acc
    } else {
        alts_onto(
            string_onto(string_onto(comma_onto(acc, i), alts[i].0) + ":"@, alts[i].1),
            alts,
            i + 1,
        )
    }
}

/// The JSON object of a query.
pub open spec fn query_onto(acc: Seq<char>, q: QueryView) -> Seq<char> {
    let a = string_onto(acc + "{\"reference\":"@, q.reference);
    let b = string_onto(a + ",\"expr\":"@, q.expr);
    let c = string_onto(b + ",\"datasource_uid\":"@, q.datasource_uid);
    let d = option_onto(c + ",\"legend\":"@, q.legend);
    let e = bool_onto(d + ",\"instant\":"@, q.instant);
    let f = bool_onto(e + ",\"hide\":"@, q.hide);
    let g = f + ",\"presence\":"@ + presence_name(q.presence);
    alts_onto(g + ",\"alt_exprs\":{"@, ordered(q.alt_exprs), 0) + "}}"@
}

/// The items of the JSON array of queries.
pub open spec fn queries_onto(acc: Seq<char>, qs: Seq<QueryView>, i: int) -> Seq<char>
    decreases qs.len() - i,
{
    if i < 0 || i >= qs.len() {
        acc
    } else {
        queries_onto(query_onto(comma_onto(acc, i), qs[i]), qs, i + 1)
    }
}

/// The items of the JSON array of thresholds.
pub open spec fn steps_onto(acc: Seq<char>, ts: Seq<Threshold>, i: int) -> Seq<char>
    decreases ts.len() - i,
{
    if i < 0 || i >= ts.len() {
        acc
    } else {
        steps_onto(
            int_onto(comma_onto(acc, i) + "{\"value\":"@, ts[i].value) + ",\"color\":"@
                + role_name(ts[i].color) + "}"@,
            ts,
            i + 1,
        )
    }
}

/// A number of decimals, or `null`.
pub open spec fn decimals_of(n: Option<u32>) -> Option<usize> {
    match n {
        Some(v) => Some(v as usize),
        None => None,
    }
}

/// The JSON object of a panel.
pub open spec fn panel_onto(acc: Seq<char>, p: PanelView) -> Seq<char> {
    let a = string_onto(acc + "{\"id\":"@, p.id) + ",\"kind\":"@ + panel_kind_name(p.kind);
    let b = string_onto(a + ",\"title\":"@, p.title);
    let c = option_onto(b + ",\"description\":"@, p.description);
    let d = option_onto(c + ",\"unit\":"@, p.unit);
    let e = int_onto(d + ",\"min\":"@, p.min);
    let f = int_onto(e + ",\"max\":"@, p.max);
    let g = size_onto(f + ",\"decimals\":"@, decimals_of(p.decimals));
    let h = queries_onto(g + ",\"queries\":["@, p.queries, 0);
    let i = h + "],\"thresholds\":{\"mode\":"@ + threshold_mode_name(p.mode);
    let j = steps_onto(i + ",\"steps\":["@, p.steps, 0);
    let k = size_onto(j + "]},\"width\":"@, Some(p.width as usize));
    let l = size_onto(k + ",\"height\":"@, Some(p.height as usize));
    let m = l + ",\"display_mode\":"@ + display_name(p.display_mode);
    m + ",\"graph\":"@ + graph_name(p.graph) + "}"@
}

/// The items of the JSON array of panels.
pub open spec fn panels_onto(acc: Seq<char>, ps: Seq<PanelView>, i: int) -> Seq<char>
    decreases ps.len() - i,
{
    if i < 0 || i >= ps.len() {
        acc
    } else {
        panels_onto(panel_onto(comma_onto(acc, i), ps[i]), ps, i + 1)
    }
}

/// The JSON object of a row.
pub open spec fn row_onto(acc: Seq<char>, r: RowView) -> Seq<char> {
    panels_onto(
        bool_onto(string_onto(acc + "{\"title\":"@, r.title) + ",\"collapsed\":"@, r.collapsed)
            + ",\"panels\":["@,
        r.panels,
        0,
    ) + "]}"@
}

/// The items of the JSON array of rows.
pub open spec fn rows_onto(acc: Seq<char>, rs: Seq<RowView>, i: int) -> Seq<char>
    decreases rs.len() - i,
{
    if i < 0 || i >= rs.len() {
        acc
    } else {
        rows_onto(row_onto(comma_onto(acc, i), rs[i]), rs, i + 1)
    }
}

/// The JSON object of a variable.
pub open spec fn variable_onto(acc: Seq<char>, v: VariableView) -> Seq<char> {
    let a = string_onto(acc + "{\"name\":"@, v.name) + ",\"kind\":"@ + variable_kind_name(v.kind);
    let b = option_onto(a + ",\"label\":"@, v.label);
    let c = option_onto(b + ",\"datasource_uid\":"@, v.datasource_uid);
    let d = option_onto(c + ",\"query\":"@, v.query);
    let e = array_onto(d + ",\"options\":"@, v.options);
    let f = bool_onto(e + ",\"multi\":"@, v.multi);
    bool_onto(f + ",\"include_all\":"@, v.include_all) + "}"@
}

/// The items of the JSON array of variables.
pub open spec fn variables_onto(acc: Seq<char>, vs: Seq<VariableView>, i: int) -> Seq<char>
    decreases vs.len() - i,
{
    if i < 0 || i >= vs.len() {
        acc
    } else {
        variables_onto(variable_onto(comma_onto(acc, i), vs[i]), vs, i + 1)
    }
}

/// The JSON object of an annotation.
pub open spec fn annotation_onto(acc: Seq<char>, a: AnnotationView) -> Seq<char> {
    let b = string_onto(acc + "{\"name\":"@, a.name);
    let c = string_onto(b + ",\"datasource_uid\":"@, a.datasource_uid);
    let d = string_onto(c + ",\"expr\":"@, a.expr) + ",\"color\":"@ + role_name(a.color);
    bool_onto(d + ",\"enable\":"@, a.enable) + "}"@
}

/// The items of the JSON array of annotations.
pub open spec fn annotations_onto(acc: Seq<char>, anns: Seq<AnnotationView>, i: int) -> Seq<char>
    decreases anns.len() - i,
{
    if i < 0 || i >= anns.len() {
        acc
    } else {
        annotations_onto(annotation_onto(comma_onto(acc, i), anns[i]), anns, i + 1)
    }
}

/// The items of the JSON array of datasources.
pub open spec fn datasources_onto(acc: Seq<char>, ds: Seq<DatasourceView>, i: int) -> Seq<char>
    decreases ds.len() - i,
{
    if i < 0 || i >= ds.len() {
        acc
    } else {
        datasources_onto(
            string_onto(
                string_onto(comma_onto(acc, i) + "{\"uid\":"@, ds[i].uid) + ",\"wire_type\":"@,
                ds[i].wire_type,
            ) + ",\"query_lang\":"@ + lang_name(ds[i].query_lang) + "}"@,
            ds,
            i + 1,
        )
    }
}

/// A dashboard as JSON text.
pub open spec fn board_text(d: DashboardView) -> Seq<char> {
    let a = string_onto("{\"uid\":"@, d.uid);
    let b = string_onto(a + ",\"title\":"@, d.title);
    let c = option_onto(b + ",\"description\":"@, d.description);
    let e = array_onto(c + ",\"tags\":"@, d.tags);
    let f = option_onto(e + ",\"refresh\":"@, d.refresh);
    let g = string_onto(f + ",\"time\":{\"from\":"@, d.time_from);
    let h = string_onto(g + ",\"to\":"@, d.time_to);
    let i = string_onto(h + "},\"timezone\":"@, d.timezone);
    let j = bool_onto(i + ",\"editable\":"@, d.editable);
    let k = variables_onto(j + ",\"variables\":["@, d.variables, 0);
    let l = annotations_onto(k + "],\"annotations\":["@, d.annotations, 0);
    let m = rows_onto(l + "],\"rows\":["@, d.rows, 0);
    datasources_onto(m + "],\"datasources\":["@, d.datasources, 0) + "]}"@
}

fn push_alts(out: &mut String, alts: &SortedMap<String>)
    ensures
        final(out)@ == alts_onto(old(out)@, ordered(alts@), 0),
{
    let ghost first = out@;
    let n: usize = alts.len();
    let mut i: usize = 0;
    while i < n
        invariant
            n == alts.entries().len(),
            i <= n,
            alts_onto(out@, alts.entries(), i as int) == alts_onto(first, alts.entries(), 0),
        decreases n - i,
    {
        let (k, v) = alts.at(i);
        push_comma(out, i);
        push_string(out, k.as_str());
        out.append(":");
        push_string(out, v.as_str());
        i += 1;
    }
}

fn push_query(out: &mut String, q: &Query)
    ensures
        final(out)@ == query_onto(old(out)@, q@),
{
    out.append("{\"reference\":");
    push_string(out, q.reference.as_str());
    out.append(",\"expr\":");
    push_string(out, q.expr.as_str());
    out.append(",\"datasource_uid\":");
    push_string(out, q.datasource_uid.as_str());
    out.append(",\"legend\":");
    push_option(out, &q.legend);
    out.append(",\"instant\":");
    push_bool(out, q.instant);
    out.append(",\"hide\":");
    push_bool(out, q.hide);
    out.append(",\"presence\":");
    push_presence(out, q.presence);
    out.append(",\"alt_exprs\":{");
    push_alts(out, &q.alt_exprs);
    out.append("}}");
}

fn push_queries(out: &mut String, qs: &Vec<Query>)
    ensures
        final(out)@ == queries_onto(old(out)@, crate::board::query_views(qs@), 0),
{
    let ghost first = out@;
    let ghost views = crate::board::query_views(qs@);
    let n: usize = qs.len();
    let mut i: usize = 0;
    while i < n
        invariant
            n == qs@.len(),
            views == crate::board::query_views(qs@),
            i <= n,
            queries_onto(out@, views, i as int) == queries_onto(first, views, 0),
        decreases n - i,
    {
        push_comma(out, i);
        push_query(out, &qs[i]);
        i += 1;
    }
}

fn push_steps(out: &mut String, ts: &Vec<Threshold>)
    ensures
        final(out)@ == steps_onto(old(out)@, ts@, 0),
{
    let ghost first = out@;
    let n: usize = ts.len();
    let mut i: usize = 0;
    while i < n
        invariant
            n == ts@.len(),
            i <= n,
            steps_onto(out@, ts@, i as int) == steps_onto(first, ts@, 0),
        decreases n - i,
    {
        push_comma(out, i);
        out.append("{\"value\":");
        push_int(out, ts[i].value);
        out.append(",\"color\":");
        push_role(out, ts[i].color);
        out.append("}");
        i += 1;
    }
}

fn push_panel(out: &mut String, p: &Panel)
    ensures
        final(out)@ == panel_onto(old(out)@, p@),
{
    out.append("{\"id\":");
    push_string(out, p.id.as_str());
    out.append(",\"kind\":");
    push_panel_kind(out, p.kind);
    out.append(",\"title\":");
    push_string(out, p.title.as_str());
    out.append(",\"description\":");
    push_option(out, &p.description);
    out.append(",\"unit\":");
    push_option(out, &p.unit);
    out.append(",\"min\":");
    push_int(out, p.min);
    out.append(",\"max\":");
    push_int(out, p.max);
    out.append(",\"decimals\":");
    let decimals: Option<usize> = match p.decimals {
        Some(v) => Some(v as usize),
        None => None,
    };
    push_size(out, decimals);
    out.append(",\"queries\":[");
    push_queries(out, &p.queries);
    out.append("],\"thresholds\":{\"mode\":");
    push_threshold_mode(out, p.thresholds.mode);
    out.append(",\"steps\":[");
    push_steps(out, &p.thresholds.steps);
    out.append("]},\"width\":");
    push_size(out, Some(p.width as usize));
    out.append(",\"height\":");
    push_size(out, Some(p.height as usize));
    out.append(",\"display_mode\":");
    push_display(out, p.display_mode);
    out.append(",\"graph\":");
    push_graph(out, p.graph);
    out.append("}");
}

fn push_panels(out: &mut String, ps: &Vec<Panel>)
    ensures
        final(out)@ == panels_onto(old(out)@, crate::board::panel_views(ps@), 0),
{
    let ghost first = out@;
    let ghost views = crate::board::panel_views(ps@);
    let n: usize = ps.len();
    let mut i: usize = 0;
    while i < n
        invariant
            n == ps@.len(),
            views == crate::board::panel_views(ps@),
            i <= n,
            panels_onto(out@, views, i as int) == panels_onto(first, views, 0),
        decreases n - i,
    {
        push_comma(out, i);
        push_panel(out, &ps[i]);
        i += 1;
    }
}

fn push_rows(out: &mut String, rs: &Vec<Row>)
    ensures
        final(out)@ == rows_onto(old(out)@, crate::board::row_views(rs@), 0),
{
    let ghost first = out@;
    let ghost views = crate::board::row_views(rs@);
    let n: usize = rs.len();
    let mut i: usize = 0;
    while i < n
        invariant
            n == rs@.len(),
            views == crate::board::row_views(rs@),
            i <= n,
            rows_onto(out@, views, i as int) == rows_onto(first, views, 0),
        decreases n - i,
    {
        push_comma(out, i);
        let r = &rs[i];
        out.append("{\"title\":");
        push_string(out, r.title.as_str());
        out.append(",\"collapsed\":");
        push_bool(out, r.collapsed);
        out.append(",\"panels\":[");
        push_panels(out, &r.panels);
        out.append("]}");
        i += 1;
    }
}

fn push_variables(out: &mut String, vs: &Vec<Variable>)
    ensures
        final(out)@ == variables_onto(old(out)@, crate::board::variable_views(vs@), 0),
{
    let ghost first = out@;
    let ghost views = crate::board::variable_views(vs@);
    let n: usize = vs.len();
    let mut i: usize = 0;
    while i < n
        invariant
            n == vs@.len(),
            views == crate::board::variable_views(vs@),
            i <= n,
            variables_onto(out@, views, i as int) == variables_onto(first, views, 0),
        decreases n - i,
    {
        push_comma(out, i);
        let v = &vs[i];
        out.append("{\"name\":");
        push_string(out, v.name.as_str());
        out.append(",\"kind\":");
        push_variable_kind(out, v.kind);
        out.append(",\"label\":");
        push_option(out, &v.label);
        out.append(",\"datasource_uid\":");
        push_option(out, &v.datasource_uid);
        out.append(",\"query\":");
        push_option(out, &v.query);
        out.append(",\"options\":");
        push_array(out, &v.options);
        out.append(",\"multi\":");
        push_bool(out, v.multi);
        out.append(",\"include_all\":");
        push_bool(out, v.include_all);
        out.append("}");
        i += 1;
    }
}

fn push_annotations(out: &mut String, anns: &Vec<Annotation>)
    ensures
        final(out)@ == annotations_onto(old(out)@, crate::board::annotation_views(anns@), 0),
{
    let ghost first = out@;
    let ghost views = crate::board::annotation_views(anns@);
    let n: usize = anns.len();
    let mut i: usize = 0;
    while i < n
        invariant
            n == anns@.len(),
            views == crate::board::annotation_views(anns@),
            i <= n,
            annotations_onto(out@, views, i as int) == annotations_onto(first, views, 0),
        decreases n - i,
    {
        push_comma(out, i);
        let a = &anns[i];
        out.append("{\"name\":");
        push_string(out, a.name.as_str());
        out.append(",\"datasource_uid\":");
        push_string(out, a.datasource_uid.as_str());
        out.append(",\"expr\":");
        push_string(out, a.expr.as_str());
        out.append(",\"color\":");
        push_role(out, a.color);
        out.append(",\"enable\":");
        push_bool(out, a.enable);
        out.append("}");
        i += 1;
    }
}

fn push_datasources(out: &mut String, ds: &Vec<Datasource>)
    ensures
        final(out)@ == datasources_onto(old(out)@, crate::board::datasource_views(ds@), 0),
{
    let ghost first = out@;
    let ghost views = crate::board::datasource_views(ds@);
    let n: usize = ds.len();
    let mut i: usize = 0;
    while i < n
        invariant
            n == ds@.len(),
            views == crate::board::datasource_views(ds@),
            i <= n,
            datasources_onto(out@, views, i as int) == datasources_onto(first, views, 0),
        decreases n - i,
    {
        push_comma(out, i);
        let d = &ds[i];
        out.append("{\"uid\":");
        push_string(out, d.uid.as_str());
        out.append(",\"wire_type\":");
        push_string(out, d.wire_type.as_str());
        out.append(",\"query_lang\":");
        push_lang(out, d.query_lang);
        out.append("}");
        i += 1;
    }
}

/// Writes a dashboard as JSON text.
pub fn write_board(d: &Dashboard) -> (r: String)
    ensures
        r@ == board_text(d@),
{
    let mut out = "{\"uid\":".to_owned();
    push_string(&mut out, d.uid.as_str());
    out.append(",\"title\":");
    push_string(&mut out, d.title.as_str());
    out.append(",\"description\":");
    push_option(&mut out, &d.description);
    out.append(",\"tags\":");
    push_array(&mut out, &d.tags);
    out.append(",\"refresh\":");
    push_option(&mut out, &d.refresh);
    out.append(",\"time\":{\"from\":");
    push_string(&mut out, d.time.from.as_str());
    out.append(",\"to\":");
    push_string(&mut out, d.time.to.as_str());
    out.append("},\"timezone\":");
    push_string(&mut out, d.timezone.as_str());
    out.append(",\"editable\":");
    push_bool(&mut out, d.editable);
    out.append(",\"variables\":[");
    push_variables(&mut out, &d.variables);
    out.append("],\"annotations\":[");
    push_annotations(&mut out, &d.annotations);
    out.append("],\"rows\":[");
    push_rows(&mut out, &d.rows);
    out.append("],\"datasources\":[");
    push_datasources(&mut out, &d.datasources.0);
    out.append("]}");
    out
}

// ---------------------------------------------------------------------
// Rendering
// ---------------------------------------------------------------------

/// Where the panels of a row from `j` on end, laid out from left to right on a
/// grid of 24 columns. The line in hand is filled up to column `x`, starts at
/// `y` and is `h` high; a panel that does not fit beside the others starts a
/// new line below it. There is no such place where a panel would end off the
/// grid.
pub open spec fn row_bottom(
    ps: Seq<PanelView>,
    j: int,
    x: int,
    y: int,
    h: int,
    bottom: int,
) -> Option<int>
    decreases ps.len() - j,
{
    if j < 0 || j >= ps.len() {
        Some(bottom)
    } else {
        let wraps = x + ps[j].width > 24;
        let x1 = if wraps {
            0
        } else {
            x
        };
        let y1 = if wraps {
            y + h
        } else {
            y
        };
        let h1 = if wraps {
            0
        } else {
            h
        };
        let end = y1 + ps[j].height;
        if end > u16::MAX {
            None
        } else {
            row_bottom(
                ps,
                j + 1,
                x1 + ps[j].width,
                y1,
                if h1 > ps[j].height {
                    h1
                } else {
                    ps[j].height as int
                },
                if bottom > end {
                    bottom
                } else {
                    end
                },
            )
        }
    }
}

/// Whether the rows from `i` on fit the grid, the first of them at `y`: each
/// takes a line for its title and the lines of its panels, which take no room
/// where it is collapsed.
pub open spec fn rows_fit(rs: Seq<RowView>, i: int, y: int) -> bool
    decreases rs.len() - i,
{
    if i < 0 || i >= rs.len() {
        true
    } else {
        y < u16::MAX && match row_bottom(rs[i].panels, 0, 0, y + 1, 0, y + 1) {
            None => false,
            Some(bottom) => rows_fit(
                rs,
                i + 1,
                if rs[i].collapsed {
                    y + 1
                } else {
                    bottom
                },
            ),
        }
    }
}

/// How many panels rows from `i` on hold.
pub open spec fn panel_count(rs: Seq<RowView>, i: int) -> int
    decreases rs.len() - i,
{
    if i < 0 || i >= rs.len() {
        0
    } else {
        rs[i].panels.len() + panel_count(rs, i + 1)
    }
}

/// Whether the positions and ids of a board fit the numbers of the grid.
pub open spec fn fits_grid(d: DashboardView) -> bool {
    &&& rows_fit(d.rows, 0, 0)
    &&& d.rows.len() + panel_count(d.rows, 0) < u32::MAX
}

/// Lays out the panels of a row that starts at `top`, and says where they end.
fn place_row(ps: &Vec<Panel>, top: u64) -> (r: Option<u64>)
    requires
        top <= u16::MAX,
    ensures
        ({
            let end = row_bottom(
                crate::board::panel_views(ps@),
                0,
                0,
                top as int,
                0,
                top as int,
            );
            match r {
                Some(bottom) => end == Some(bottom as int) && bottom <= u16::MAX,
                None => end is None,
            }
        }),
{
    let ghost views = crate::board::panel_views(ps@);
    let n: usize = ps.len();
    let mut x: u64 = 0;
    let mut y: u64 = top;
    let mut h: u64 = 0;
    let mut bottom: u64 = top;
    let mut j: usize = 0;
    while j < n
        invariant
            n == ps@.len(),
            views == crate::board::panel_views(ps@),
            j <= n,
            x <= u16::MAX,
            y + h <= u16::MAX,
            bottom <= u16::MAX,
            row_bottom(views, j as int, x as int, y as int, h as int, bottom as int) == row_bottom(
                views,
                0,
                0,
                top as int,
                0,
                top as int,
            ),
        decreases n - j,
    {
        assert(views[j as int] == ps@[j as int]@);
        let width: u64 = ps[j].width as u64;
        let height: u64 = ps[j].height as u64;
        if x + width > 24 {
            x = 0;
            y += h;
            h = 0;
        }
        let end: u64 = y + height;
        if end > 65535 {
            return None;
        }
        x += width;
        if height >= h {
            h = height;
        }
        if end >= bottom {
            bottom = end;
        }
        j += 1;
    }
    Some(bottom)
}

/// Whether the positions and ids of a board fit the numbers of the grid.
pub fn fits_on_grid(d: &Dashboard) -> (r: bool)
    ensures
        r == fits_grid(d@),
{
    let ghost rows = crate::board::row_views(d.rows@);
    let n: usize = d.rows.len();
    let mut y: u64 = 0;
    let mut panels: u64 = 0;
    let mut i: usize = 0;
    while i < n
        invariant
            n == d.rows@.len(),
            rows == crate::board::row_views(d.rows@),
            i <= n,
            y <= u16::MAX,
            panels <= u32::MAX,
            rows_fit(rows, i as int, y as int) == rows_fit(rows, 0, 0),
            panels + panel_count(rows, i as int) == panel_count(rows, 0),
        decreases n - i,
    {
        let row = &d.rows[i];
        assert(rows[i as int] == row@);
        proof {
            lemma_panel_count(rows, i + 1);
        }
        if y >= 65535 {
            return false;
        }
        let bottom: u64 = match place_row(&row.panels, y + 1) {
            Some(bottom) => bottom,
            None => {
                return false;
            },
        };
        y = if row.collapsed {
            y + 1
        } else {
            bottom
        };
        let m: usize = row.panels.len();
        if m as u64 > 4294967295 - panels {
            return false;
        }
        panels += m as u64;
        i += 1;
    }
    n as u64 <= 4294967295 && n as u64 + panels < 4294967295
}

/// A number of panels is not negative.
proof fn lemma_panel_count(rs: Seq<RowView>, i: int)
    requires
        0 <= i <= rs.len(),
    ensures
        panel_count(rs, i) >= 0,
    decreases rs.len() - i,
{
    if i < rs.len() {
        lemma_panel_count(rs, i + 1);
    }
}

/// Whether a query goes to a datasource that is not registered, or shows itself
/// to be in another language than its datasource speaks.
pub open spec fn query_refused(q: QueryView, ds: Seq<DatasourceView>) -> bool {
    match datasource_at(ds, q.datasource_uid, 0) {
        None => true,
        Some(i) => shown_lang(q.expr) matches Some(lang) && lang != ds[i].query_lang,
    }
}

/// Whether a panel would render as a broken one: without a title or a query,
/// with a query that its datasource cannot answer, or wider than the grid.
pub open spec fn panel_refused(p: PanelView, ds: Seq<DatasourceView>) -> bool {
    ||| p.title.len() == 0
    ||| p.queries.len() == 0
    ||| p.width == 0 || p.width > 24
    ||| exists|k: int| 0 <= k < p.queries.len() && query_refused(#[trigger] p.queries[k], ds)
}

/// Whether a board has no uid or no title, or holds a panel that would render
/// as a broken one.
pub open spec fn board_refused(d: DashboardView) -> bool {
    ||| d.uid.len() == 0
    ||| d.title.len() == 0
    ||| exists|i: int, j: int|
        0 <= i < d.rows.len() && 0 <= j < d.rows[i].panels.len() && panel_refused(
            #[trigger] d.rows[i].panels[j],
            d.datasources,
        )
}

/// The name of a query language in a refusal.
pub open spec fn lang_word(l: QueryLang) -> Seq<char> {
    match l {
        QueryLang::PromQl => "PromQl"@,
        QueryLang::LogsQl => "LogsQl"@,
        QueryLang::Sql => "Sql"@,
    }
}

/// Why a query of a panel is refused.
pub open spec fn query_fault(id: Seq<char>, q: QueryView, ds: Seq<DatasourceView>) -> Option<
    Seq<char>,
> {
    match datasource_at(ds, q.datasource_uid, 0) {
        None => Some(
            "panel "@ + id + " references unregistered datasource "@ + q.datasource_uid,
        ),
        Some(i) => match shown_lang(q.expr) {
            Some(lang) if lang != ds[i].query_lang => Some(
                "panel "@ + id + ": datasource "@ + ds[i].uid + " speaks "@ + lang_word(
                    ds[i].query_lang,
                ) + " but the query looks like "@ + lang_word(lang),
            ),
            _ => None,
        },
    }
}

/// Why the first query from `k` on that is refused is.
pub open spec fn queries_fault(
    id: Seq<char>,
    qs: Seq<QueryView>,
    k: int,
    ds: Seq<DatasourceView>,
) -> Option<Seq<char>>
    decreases qs.len() - k,
{
    if k < 0 || k >= qs.len() {
        None
    } else {
        match query_fault(id, qs[k], ds) {
            Some(why) => Some(why),
            None => queries_fault(id, qs, k + 1, ds),
        }
    }
}

/// Why a panel is refused.
pub open spec fn panel_fault(p: PanelView, ds: Seq<DatasourceView>) -> Option<Seq<char>> {
    if p.title.len() == 0 {
        Some("panel "@ + p.id + " has no title"@)
    } else if p.queries.len() == 0 {
        Some("panel "@ + p.id + " has no query — it would render as an empty box"@)
    } else {
        match queries_fault(p.id, p.queries, 0, ds) {
            Some(why) => Some(why),
            None => if p.width == 0 || p.width > 24 {
                Some(
                    "panel "@ + p.id + ": width "@ + decimal(p.width as nat)
                        + " is outside 1..=24"@,
                )
            } else {
                None
            },
        }
    }
}

/// Why the first panel from `j` on that is refused is.
pub open spec fn panels_fault(ps: Seq<PanelView>, j: int, ds: Seq<DatasourceView>) -> Option<
    Seq<char>,
>
    decreases ps.len() - j,
{
    if j < 0 || j >= ps.len() {
        None
    } else {
        match panel_fault(ps[j], ds) {
            Some(why) => Some(why),
            None => panels_fault(ps, j + 1, ds),
        }
    }
}

/// Why the first panel that is refused in the rows from `i` on is.
pub open spec fn rows_fault(rs: Seq<RowView>, i: int, ds: Seq<DatasourceView>) -> Option<Seq<char>>
    decreases rs.len() - i,
{
    if i < 0 || i >= rs.len() {
        None
    } else {
        match panels_fault(rs[i].panels, 0, ds) {
            Some(why) => Some(why),
            None => rows_fault(rs, i + 1, ds),
        }
    }
}

/// Why a board is refused: the first thing that is wrong with it.
pub open spec fn board_fault(d: DashboardView) -> Option<Seq<char>> {
    if d.uid.len() == 0 {
        Some("dashboard has no uid"@)
    } else if d.title.len() == 0 {
        Some("dashboard "@ + d.uid + " has no title"@)
    } else {
        rows_fault(d.rows, 0, d.datasources)
    }
}

/// `serde_json::Value`: a JSON value, carried as it is.
#[verifier::external_type_specification]
#[verifier::external_body]
pub struct ExJsonValue(serde_json::Value);

/// What rendering gives: the Grafana JSON, or why there is none.
pub uninterp spec fn grafana_json(text: Seq<char>, theme: Seq<char>) -> Result<
    serde_json::Value,
    Seq<char>,
>;

/// `lava_core::Dashboard::render_grafana_json`, on the dashboard that the JSON
/// text writes down in that crate's own serialized form, under the theme
/// `lava_core::Theme::tundra` with the given name.
///
/// The result is a function of the text and the name. A board is refused where
/// it has no uid or title, or holds a panel without a title or query, with a
/// query to an unknown datasource or in another language than that datasource
/// speaks, or of a width off the grid, with the wording of the first of these
/// faults; every other board is rendered. What the document looks like is not
/// spelled out.
#[verifier::external_body]
fn render_text(text: &str, theme: &str) -> (r: Result<serde_json::Value, String>)
    requires
        exists|d: DashboardView|
            text@ == #[trigger] board_text(d) && (board_refused(d) || fits_grid(d)),
    ensures
        match r {
            Ok(v) => grafana_json(text@, theme@) == Ok::<serde_json::Value, Seq<char>>(v),
            Err(e) => grafana_json(text@, theme@) == Err::<serde_json::Value, Seq<char>>(e@),
        },
        forall|d: DashboardView|
            text@ == #[trigger] board_text(d) ==> match board_fault(d) {
                Some(why) => r matches Err(e) && e@ == why,
                None => r is Ok,
            },
{
    let board: lava_core::Dashboard = serde_json::from_str(text).unwrap();
    let mut colors = lava_core::Theme::tundra();
    colors.name = theme.to_string();
    board.render_grafana_json(&colors).map_err(|e| e.to_string())
}

/// What rendering a dashboard gives.
pub open spec fn rendered(d: DashboardView, theme: Seq<char>) -> Result<
    serde_json::Value,
    EvalErrorView,
> {
    match grafana_json(board_text(d), theme) {
        Ok(v) => Ok(v),
        Err(e) => Err(EvalErrorView::Dashboard(e)),
    }
}

/// What rendering a source gives: the failure of its evaluation, else what
/// rendering its dashboard gives.
pub open spec fn source_rendered(src: Seq<char>, theme: Seq<char>) -> Result<
    serde_json::Value,
    EvalErrorView,
> {
    match source_board(src) {
        Err(e) => Err(e),
        Ok(d) => rendered(d, theme),
    }
}

/// Whether a rendering gave what it is to give.
pub open spec fn gives_json(
    r: Result<serde_json::Value, EvalError>,
    want: Result<serde_json::Value, EvalErrorView>,
) -> bool {
    match r {
        Ok(v) => want == Ok::<serde_json::Value, EvalErrorView>(v),
        Err(e) => want == Err::<serde_json::Value, EvalErrorView>(e@),
    }
}

/// Turns what the renderer gave into a result of the library.
pub fn rendering_result(r: Result<serde_json::Value, String>) -> (res: Result<
    serde_json::Value,
    EvalError,
>)
    ensures
        match r {
            Ok(v) => res == Ok::<serde_json::Value, EvalError>(v),
            Err(s) => res matches Err(e) && e@ == EvalErrorView::Dashboard(s@),
        },
{
    match r {
        Ok(v) => Ok(v),
        Err(s) => Err(EvalError::Dashboard(s)),
    }
}

/// Renders a dashboard as Grafana JSON.
pub fn render_board(d: &Dashboard, theme: &Theme) -> (r: Result<serde_json::Value, EvalError>)
    requires
        board_refused(d@) || fits_grid(d@),
    ensures
        gives_json(r, rendered(d@, theme.name@)),
        r is Ok <==> !board_refused(d@),
        board_fault(d@) matches Some(why) ==> (r matches Err(e) && e@ == EvalErrorView::Dashboard(
            why,
        )),
{
    proof {
        law_a_refused_board_has_a_fault(d@);
    }
    let text = write_board(d);
    rendering_result(render_text(text.as_str(), theme.name.as_str()))
}

/// Renders the dashboard of a source straight to Grafana JSON.
///
/// A document that has the right shape and is refused all the same, for a
/// panel without a query, an unknown datasource or a query in the wrong
/// language, is an [`EvalError::Dashboard`].
pub fn render_dashboard_grafana_json(src: &str, theme: &Theme) -> (r: Result<
    serde_json::Value,
    EvalError,
>)
    requires
        source_board(src@) matches Ok(d) ==> board_refused(d) || fits_grid(d),
    ensures
        gives_json(r, source_rendered(src@, theme.name@)),
        r is Ok <==> (source_board(src@) matches Ok(d) && !board_refused(d)),
        source_board(src@) matches Ok(d) ==> board_fault(d) matches Some(why) ==> (r matches Err(e)
            && e@ == EvalErrorView::Dashboard(why)),
{
    match eval_dashboard(src) {
        Ok(d) => render_board(&d, theme),
        Err(e) => Err(e),
    }
}

// ---------------------------------------------------------------------
// Laws
// ---------------------------------------------------------------------

proof fn lemma_queries_fault(
    id: Seq<char>,
    qs: Seq<QueryView>,
    k: int,
    ds: Seq<DatasourceView>,
)
    requires
        0 <= k <= qs.len(),
    ensures
        queries_fault(id, qs, k, ds) is Some <==> exists|m: int|
            k <= m < qs.len() && query_refused(#[trigger] qs[m], ds),
    decreases qs.len() - k,
{
    if k < qs.len() {
        lemma_queries_fault(id, qs, k + 1, ds);
        assert(query_fault(id, qs[k], ds) is Some <==> query_refused(qs[k], ds));
    }
}

proof fn lemma_panels_fault(ps: Seq<PanelView>, j: int, ds: Seq<DatasourceView>)
    requires
        0 <= j <= ps.len(),
    ensures
        panels_fault(ps, j, ds) is Some <==> exists|m: int|
            j <= m < ps.len() && panel_refused(#[trigger] ps[m], ds),
    decreases ps.len() - j,
{
    if j < ps.len() {
        lemma_panels_fault(ps, j + 1, ds);
        lemma_queries_fault(ps[j].id, ps[j].queries, 0, ds);
        assert(panel_fault(ps[j], ds) is Some <==> panel_refused(ps[j], ds));
    }
}

proof fn lemma_rows_fault(rs: Seq<RowView>, i: int, ds: Seq<DatasourceView>)
    requires
        0 <= i <= rs.len(),
    ensures
        rows_fault(rs, i, ds) is Some <==> exists|m: int, j: int|
            i <= m < rs.len() && 0 <= j < rs[m].panels.len() && panel_refused(
                #[trigger] rs[m].panels[j],
                ds,
            ),
    decreases rs.len() - i,
{
    if i < rs.len() {
        lemma_rows_fault(rs, i + 1, ds);
        lemma_panels_fault(rs[i].panels, 0, ds);
        if panels_fault(rs[i].panels, 0, ds) is Some {
            let j = choose|j: int|
                0 <= j < rs[i].panels.len() && panel_refused(#[trigger] rs[i].panels[j], ds);
            assert(panel_refused(rs[i].panels[j], ds));
        }
    }
}

/// A board has a fault to name exactly where it is refused.
pub proof fn law_a_refused_board_has_a_fault(d: DashboardView)
    ensures
        board_fault(d) is Some <==> board_refused(d),
{
    lemma_rows_fault(d.rows, 0, d.datasources);
}

/// Rendering one source twice under one theme gives one result.
pub proof fn law_rendering_is_repeatable(
    src: Seq<char>,
    theme: Seq<char>,
    a: Result<serde_json::Value, EvalError>,
    b: Result<serde_json::Value, EvalError>,
)
    requires
        gives_json(a, source_rendered(src, theme)),
        gives_json(b, source_rendered(src, theme)),
    ensures
        a is Ok <==> b is Ok,
        a is Ok ==> a->Ok_0 == b->Ok_0,
        a is Err ==> a->Err_0@ == b->Err_0@,
{
}

/// Two panels of a row stand side by side where they fit the grid together, and
/// the row ends with the higher of them; else the second stands below the first.
/// A row without panels ends where it starts.
pub proof fn law_panels_stand_side_by_side_where_they_fit(
    p: PanelView,
    q: PanelView,
    top: int,
)
    requires
        0 <= top,
        p.width <= 24,
        q.width <= 24,
    ensures
        row_bottom(Seq::empty(), 0, 0, top, 0, top) == Some(top),
        row_bottom(seq![p], 0, 0, top, 0, top) == if top + p.height <= u16::MAX {
            Some(top + p.height)
        } else {
            None
        },
        p.width + q.width <= 24 && top + p.height <= u16::MAX && top + q.height <= u16::MAX
            ==> row_bottom(seq![p, q], 0, 0, top, 0, top) == Some(
            if p.height > q.height {
                top + p.height
            } else {
                top + q.height
            },
        ),
        p.width + q.width > 24 && top + p.height + q.height <= u16::MAX ==> row_bottom(
            seq![p, q],
            0,
            0,
            top,
            0,
            top,
        ) == Some(top + p.height + q.height),
        p.width + q.width > 24 && top + p.height + q.height > u16::MAX ==> row_bottom(
            seq![p, q],
            0,
            0,
            top,
            0,
            top,
        ) is None,
{
    reveal_with_fuel(row_bottom, 4);
    assert(seq![p, q][0] == p && seq![p, q][1] == q && seq![p][0] == p);
}

/// The heights of panels, added up.
pub open spec fn stacked(ps: Seq<PanelView>) -> int
    decreases ps.len(),
{
    if ps.len() == 0 {
        0
    } else {
        stacked(ps.drop_last()) + ps.last().height
    }
}

proof fn lemma_stacked(ps: Seq<PanelView>, j: int, top: int)
    requires
        0 <= j <= ps.len(),
        0 <= top,
        top + stacked(ps) <= u16::MAX,
        forall|k: int| 0 <= k < ps.len() ==> 12 < (#[trigger] ps[k]).width <= 24,
    ensures
        stacked(ps.take(j)) <= stacked(ps),
        0 < j ==> row_bottom(
            ps,
            j,
            ps[j - 1].width as int,
            top + stacked(ps.take(j - 1)),
            ps[j - 1].height as int,
            top + stacked(ps.take(j)),
        ) == Some(top + stacked(ps)),
        j == 0 ==> row_bottom(ps, 0, 0, top, 0, top) == Some(top + stacked(ps)),
    decreases ps.len() - j,
{
    if j < ps.len() {
        lemma_stacked(ps, j + 1, top);
        assert(ps.take(j + 1).drop_last() =~= ps.take(j));
        assert(ps.take(j + 1).last() == ps[j]);
        if j > 0 {
            assert(ps.take(j).drop_last() =~= ps.take(j - 1));
            assert(ps.take(j).last() == ps[j - 1]);
            assert(ps[j - 1].width > 12 && ps[j].width > 12);
        } else {
            assert(ps.take(0) =~= Seq::empty());
            assert(stacked(ps.take(0)) == 0);
            assert(ps[0].width <= 24);
        }
    } else {
        assert(ps.take(j) =~= ps);
    }
}

/// Panels that are wider than half the grid stand one below the other: the row is
/// as high as all of them together.
pub proof fn law_wide_panels_stand_below_each_other(ps: Seq<PanelView>, top: int)
    requires
        0 <= top,
        top + stacked(ps) <= u16::MAX,
        forall|k: int| 0 <= k < ps.len() ==> 12 < (#[trigger] ps[k]).width <= 24,
    ensures
        row_bottom(ps, 0, 0, top, 0, top) == Some(top + stacked(ps)),
{
    lemma_stacked(ps, 0, top);
}

proof fn lemma_rows_shifted(r: RowView, rs: Seq<RowView>, i: int, y: int)
    requires
        0 <= i <= rs.len(),
    ensures
        rows_fit(seq![r] + rs, i + 1, y) == rows_fit(rs, i, y),
    decreases rs.len() - i,
{
    if i < rs.len() {
        assert((seq![r] + rs)[i + 1] == rs[i]);
        if let Some(bottom) = row_bottom(rs[i].panels, 0, 0, y + 1, 0, y + 1) {
            lemma_rows_shifted(r, rs, i + 1, bottom);
        }
        lemma_rows_shifted(r, rs, i + 1, y + 1);
    }
}

/// A row takes a line for its title, and its panels start below it; the next row
/// starts where they end, or right below the title where the row is collapsed.
pub proof fn law_rows_stand_below_each_other(r: RowView, rs: Seq<RowView>, y: int)
    ensures
        rows_fit(Seq::empty(), 0, y),
        rows_fit(seq![r] + rs, 0, y) == (y + 1 <= u16::MAX && match row_bottom(
            r.panels,
            0,
            0,
            y + 1,
            0,
            y + 1,
        ) {
            None => false,
            Some(bottom) => if r.collapsed {
                rows_fit(rs, 0, y + 1)
            } else {
                rows_fit(rs, 0, bottom)
            },
        }),
{
    assert((seq![r] + rs)[0] == r);
    lemma_rows_shifted(r, rs, 0, y + 1);
    if let Some(bottom) = row_bottom(r.panels, 0, 0, y + 1, 0, y + 1) {
        lemma_rows_shifted(r, rs, 0, bottom);
    }
}

} // verus!
