//! Evaluator for `deflava-dashboard` forms.
//!
//! The body of the form is ordinary nested data: it is evaluated like every
//! other clause, and the values are then converted into a typed [`Dashboard`].
use crate::board::{
    annotation_views, datasource_views, distinct_uids, law_registering_replaces, panel_views,
    plain_panel, query_views, registered, row_views, variable_views, Annotation, AnnotationView,
    Dashboard, DashboardView, Datasource, DatasourceView, Datasources, DisplayMode, GraphMode,
    Panel, PanelKind, PanelView, Presence, Query, QueryLang, QueryView, Role, Row, RowView,
    Threshold, ThresholdConfig, ThresholdMode, TimeRange, Variable, VariableKind, VariableView,
};
use crate::datum::{lemma_value_list, option_value, value_views, Datum, DatumMap, DatumView};
use crate::entries::{lemma_position, lemma_position_is, lookup};
use crate::error::{EvalError, EvalErrorView};
use crate::eval::{eval_value, or_text, value_of};
use crate::forms::{find_form, form_from, is_some_text, nth_sym, sym_at};
use crate::sexpr::{parse_all, read_all, same_text, sx_views, Sx, SxView};
use crate::sortedmap::SortedMap;
use crate::template::{Env, EnvView};
use crate::text::{glue3, option_text, quoted, replace, replaced, same, text_debug, texts};
use vstd::prelude::*;

verus! {

// ---------------------------------------------------------------------
// Reading values
// ---------------------------------------------------------------------

/// The string of a value.
pub open spec fn str_of(v: Option<DatumView>) -> Option<Seq<char>> {
    match v {
        Some(DatumView::Str(s)) => Some(s),
        _ => None,
    }
}

/// The integer of a value.
pub open spec fn int_of(v: Option<DatumView>) -> Option<i64> {
    match v {
        Some(DatumView::Int(n)) => Some(n),
        _ => None,
    }
}

/// The items of a value. A single value is a list of itself.
pub open spec fn items_of(v: Option<DatumView>) -> Seq<DatumView> {
    match v {
        None => Seq::empty(),
        Some(DatumView::List(items)) => items,
        Some(DatumView::Null) => Seq::empty(),
        Some(single) => seq![single],
    }
}

/// The strings among values from `i` on, behind those before.
pub open spec fn strings_among(items: Seq<DatumView>, i: int, acc: Seq<Seq<char>>) -> Seq<Seq<char>>
    decreases items.len() - i,
{
    if i < 0 || i >= items.len() {
        acc
    } else {
        match items[i] {
            DatumView::Str(s) => strings_among(items, i + 1, acc.push(s)),
            _ => strings_among(items, i + 1, acc),
        }
    }
}

/// The strings of a value.
pub open spec fn strings_of(v: Option<DatumView>) -> Seq<Seq<char>> {
    strings_among(items_of(v), 0, Seq::empty())
}

/// What references to values stand for.
pub open spec fn ref_views(vs: Seq<&Datum>) -> Seq<DatumView> {
    vs.map_values(|v: &Datum| v@)
}

/// The string of a value.
pub fn as_str(v: Option<&Datum>) -> (r: Option<&str>)
    ensures
        same_text(r, str_of(option_value(v))),
{
    match v {
        Some(Datum::Str(s)) => Some(s.as_str()),
        _ => None,
    }
}

/// The string of a value, owned.
fn as_text(v: Option<&Datum>) -> (r: Option<String>)
    ensures
        option_text(r) == str_of(option_value(v)),
{
    match as_str(v) {
        Some(s) => Some(s.to_owned()),
        None => None,
    }
}

/// The integer of a value.
pub fn as_i64(v: Option<&Datum>) -> (r: Option<i64>)
    ensures
        r == int_of(option_value(v)),
{
    match v {
        Some(Datum::Int(n)) => Some(*n),
        _ => None,
    }
}

/// Whether a value is the given boolean.
fn is_bool(v: Option<&Datum>, want: bool) -> (r: bool)
    ensures
        r == (option_value(v) == Some(DatumView::Bool(want))),
{
    match v {
        Some(Datum::Bool(b)) => *b == want,
        _ => false,
    }
}

/// The items of a value. A single value is a list of itself, so that one row or
/// one query needs no wrapping.
pub fn as_list(v: Option<&Datum>) -> (r: Vec<&Datum>)
    ensures
        ref_views(r@) == items_of(option_value(v)),
{
    let mut out: Vec<&Datum> = Vec::new();
    assert(ref_views(out@) =~= Seq::empty());
    match v {
        None => {},
        Some(Datum::Null) => {},
        Some(Datum::List(items)) => {
            proof {
                lemma_value_list(*items);
            }
            let n: usize = items.len();
            let mut i: usize = 0;
            while i < n
                invariant
                    n == items@.len(),
                    i <= n,
                    ref_views(out@) == value_views(items@).take(i as int),
                decreases n - i,
            {
                let ghost before = ref_views(out@);
                out.push(&items[i]);
                i += 1;
                assert(ref_views(out@) =~= before.push(value_views(items@)[i - 1]));
            }
            assert(ref_views(out@) =~= value_views(items@));
        },
        Some(single) => {
            out.push(single);
            assert(ref_views(out@) =~= seq![single@]);
        },
    }
    out
}

/// The strings of a value.
fn as_strings(v: Option<&Datum>) -> (r: Vec<String>)
    ensures
        texts(r@) == strings_of(option_value(v)),
{
    let items = as_list(v);
    let n: usize = items.len();
    let mut out: Vec<String> = Vec::new();
    let mut i: usize = 0;
    assert(texts(out@) =~= Seq::empty());
    while i < n
        invariant
            n == items@.len(),
            i <= n,
            strings_among(ref_views(items@), i as int, texts(out@)) == strings_among(
                ref_views(items@),
                0,
                Seq::empty(),
            ),
        decreases n - i,
    {
        let ghost before = texts(out@);
        assert(ref_views(items@)[i as int] == items@[i as int]@);
        if let Datum::Str(s) = items[i] {
            out.push(s.clone());
            assert(texts(out@) =~= before.push(s@));
        }
        i += 1;
    }
    out
}

// ---------------------------------------------------------------------
// Names
// ---------------------------------------------------------------------

/// The role that a name stands for. A colour is no role.
pub open spec fn role_of(s: Seq<char>) -> Result<Role, EvalErrorView> {
    if s == "neutral"@ {
        Ok(Role::Neutral)
    } else if s == "primary"@ {
        Ok(Role::Primary)
    } else if s == "info"@ {
        Ok(Role::Info)
    } else if s == "success"@ {
        Ok(Role::Success)
    } else if s == "warning"@ {
        Ok(Role::Warning)
    } else if s == "danger"@ {
        Ok(Role::Danger)
    } else {
        Err(
            EvalErrorView::Dashboard(
                "unknown colour role "@ + quoted(s)
                    + " — expected one of neutral, primary, info, success, warning, danger. Roles are semantic; a hex value is not accepted here by design."@,
            ),
        )
    }
}

/// Reads a role.
pub fn role(s: &str) -> (r: Result<Role, EvalError>)
    ensures
        match r {
            Ok(x) => role_of(s@) == Ok::<Role, EvalErrorView>(x),
            Err(e) => role_of(s@) == Err::<Role, EvalErrorView>(e@),
        },
{
    if same(s, "neutral") {
        Ok(Role::Neutral)
    } else if same(s, "primary") {
        Ok(Role::Primary)
    } else if same(s, "info") {
        Ok(Role::Info)
    } else if same(s, "success") {
        Ok(Role::Success)
    } else if same(s, "warning") {
        Ok(Role::Warning)
    } else if same(s, "danger") {
        Ok(Role::Danger)
    } else {
        Err(
            EvalError::Dashboard(
                glue3(
                    "unknown colour role ",
                    text_debug(s).as_str(),
                    " — expected one of neutral, primary, info, success, warning, danger. Roles are semantic; a hex value is not accepted here by design.",
                ),
            ),
        )
    }
}

/// The panel kind that a name stands for, in the panel with an id.
pub open spec fn panel_kind_of(s: Seq<char>, id: Seq<char>) -> Result<PanelKind, EvalErrorView> {
    if s == "stat"@ {
        Ok(PanelKind::Stat)
    } else if s == "timeseries"@ {
        Ok(PanelKind::TimeSeries)
    } else if s == "gauge"@ {
        Ok(PanelKind::Gauge)
    } else if s == "table"@ {
        Ok(PanelKind::Table)
    } else if s == "heatmap"@ {
        Ok(PanelKind::Heatmap)
    } else if s == "text"@ {
        Ok(PanelKind::Text)
    } else if s == "pie"@ {
        Ok(PanelKind::Pie)
    } else {
        Err(
            EvalErrorView::Dashboard(
                "panel "@ + id + ": unknown :kind "@ + quoted(s)
                    + " — expected one of stat, timeseries, gauge, table, heatmap, text, pie"@,
            ),
        )
    }
}

/// Reads a panel kind.
fn panel_kind(s: &str, id: &str) -> (r: Result<PanelKind, EvalError>)
    ensures
        match r {
            Ok(x) => panel_kind_of(s@, id@) == Ok::<PanelKind, EvalErrorView>(x),
            Err(e) => panel_kind_of(s@, id@) == Err::<PanelKind, EvalErrorView>(e@),
        },
{
    if same(s, "stat") {
        Ok(PanelKind::Stat)
    } else if same(s, "timeseries") {
        Ok(PanelKind::TimeSeries)
    } else if same(s, "gauge") {
        Ok(PanelKind::Gauge)
    } else if same(s, "table") {
        Ok(PanelKind::Table)
    } else if same(s, "heatmap") {
        Ok(PanelKind::Heatmap)
    } else if same(s, "text") {
        Ok(PanelKind::Text)
    } else if same(s, "pie") {
        Ok(PanelKind::Pie)
    } else {
        let mut out = glue3("panel ", id, ": unknown :kind ");
        out.append(text_debug(s).as_str());
        out.append(" — expected one of stat, timeseries, gauge, table, heatmap, text, pie");
        Err(EvalError::Dashboard(out))
    }
}

/// The display mode that a name stands for.
pub open spec fn display_of(s: Option<Seq<char>>) -> DisplayMode {
    if s == Some("none"@) {
        DisplayMode::Off
    } else if s == Some("value"@) {
        DisplayMode::OnValue
    } else if s == Some("background"@) {
        DisplayMode::Background
    } else {
        DisplayMode::Auto
    }
}

/// The graph mode that a name stands for.
pub open spec fn graph_of(s: Option<Seq<char>>) -> GraphMode {
    if s == Some("none"@) {
        GraphMode::Off
    } else if s == Some("area"@) {
        GraphMode::Area
    } else {
        GraphMode::Auto
    }
}

/// The presence that a name stands for.
pub open spec fn presence_of(s: Option<Seq<char>>) -> Presence {
    if s == Some("event-driven"@) {
        Presence::EventDriven
    } else if s == Some("conditional"@) {
        Presence::Conditional
    } else {
        Presence::Continuous
    }
}

/// Reads a display mode.
fn display(s: Option<&str>) -> (r: DisplayMode)
    ensures
        forall|t: Option<Seq<char>>| same_text(s, t) ==> r == #[trigger] display_of(t),
{
    if is_some_text(s, "none") {
        DisplayMode::Off
    } else if is_some_text(s, "value") {
        DisplayMode::OnValue
    } else if is_some_text(s, "background") {
        DisplayMode::Background
    } else {
        DisplayMode::Auto
    }
}

/// Reads a graph mode.
fn graph(s: Option<&str>) -> (r: GraphMode)
    ensures
        forall|t: Option<Seq<char>>| same_text(s, t) ==> r == #[trigger] graph_of(t),
{
    if is_some_text(s, "none") {
        GraphMode::Off
    } else if is_some_text(s, "area") {
        GraphMode::Area
    } else {
        GraphMode::Auto
    }
}

/// Reads a presence.
fn presence(s: Option<&str>) -> (r: Presence)
    ensures
        forall|t: Option<Seq<char>>| same_text(s, t) ==> r == #[trigger] presence_of(t),
{
    if is_some_text(s, "event-driven") {
        Presence::EventDriven
    } else if is_some_text(s, "conditional") {
        Presence::Conditional
    } else {
        Presence::Continuous
    }
}

// ---------------------------------------------------------------------
// Panels
// ---------------------------------------------------------------------

/// The reference of a query that names none: A, B, C and so on by its place.
pub open spec fn default_reference(idx: int) -> Seq<char> {
    seq![((65 + idx % 26) as u8) as char]
}

/// Adds the other expressions of a query from `i` on to a map. What is no
/// string adds nothing.
pub open spec fn alts_from(
    alts: Seq<(Seq<char>, DatumView)>,
    i: int,
    acc: Map<Seq<char>, Seq<char>>,
) -> Map<Seq<char>, Seq<char>>
    decreases alts.len() - i,
{
    if i < 0 || i >= alts.len() {
        acc
    } else {
        match alts[i].1 {
            DatumView::Str(s) => alts_from(alts, i + 1, acc.insert(alts[i].0, s)),
            _ => alts_from(alts, i + 1, acc),
        }
    }
}

/// The query of a value, at a place among the queries of its panel.
pub open spec fn query_of(q: DatumView, idx: int) -> Result<QueryView, EvalErrorView> {
    match q {
        DatumView::Object(m) => match (
            str_of(lookup(m, "expr"@)),
            str_of(lookup(m, "datasource"@)),
        ) {
            (None, _) => Err(EvalErrorView::Type("query :expr"@)),
            (_, None) => Err(EvalErrorView::Type("query :datasource"@)),
            (Some(expr), Some(datasource_uid)) => Ok(
                QueryView {
                    reference: or_text(str_of(lookup(m, "ref"@)), default_reference(idx)),
                    expr,
                    datasource_uid,
                    legend: str_of(lookup(m, "legend"@)),
                    instant: lookup(m, "instant"@) == Some(DatumView::Bool(true)),
                    hide: lookup(m, "hide"@) == Some(DatumView::Bool(true)),
                    presence: presence_of(str_of(lookup(m, "presence"@))),
                    alt_exprs: match lookup(m, "alt-exprs"@) {
                        Some(DatumView::Object(alts)) => alts_from(alts, 0, Map::empty()),
                        _ => Map::empty(),
                    },
                },
            ),
        },
        _ => Err(EvalErrorView::Type("query must be a keyword map"@)),
    }
}

/// What the queries from `i` on add.
pub open spec fn queries_from(items: Seq<DatumView>, i: int, acc: Seq<QueryView>) -> Result<
    Seq<QueryView>,
    EvalErrorView,
>
    decreases items.len() - i,
{
    if i < 0 || i >= items.len() {
        Ok(acc)
    } else {
        match query_of(items[i], i) {
            Ok(q) => queries_from(items, i + 1, acc.push(q)),
            Err(e) => Err(e),
        }
    }
}

/// The threshold of a value.
pub open spec fn threshold_of(t: DatumView) -> Result<Threshold, EvalErrorView> {
    match t {
        DatumView::Object(m) => match role_of(or_text(str_of(lookup(m, "color"@)), "neutral"@)) {
            Ok(color) => Ok(Threshold { value: int_of(lookup(m, "value"@)), color }),
            Err(e) => Err(e),
        },
        _ => Err(EvalErrorView::Type("threshold must be a keyword map"@)),
    }
}

/// What the thresholds from `i` on add.
pub open spec fn thresholds_from(items: Seq<DatumView>, i: int, acc: Seq<Threshold>) -> Result<
    Seq<Threshold>,
    EvalErrorView,
>
    decreases items.len() - i,
{
    if i < 0 || i >= items.len() {
        Ok(acc)
    } else {
        match threshold_of(items[i]) {
            Ok(t) => thresholds_from(items, i + 1, acc.push(t)),
            Err(e) => Err(e),
        }
    }
}

/// A size that a value gives, or another where it gives none that fits.
pub open spec fn extent_of(v: Option<DatumView>, other: u16) -> u16 {
    match int_of(v) {
        Some(n) if 0 <= n <= u16::MAX => n as u16,
        _ => other,
    }
}

/// The panel of a map, without its queries and thresholds.
pub open spec fn panel_frame(
    m: Seq<(Seq<char>, DatumView)>,
    id: Seq<char>,
    kind: PanelKind,
    title: Seq<char>,
) -> PanelView {
    let plain = plain_panel(id, kind, title);
    PanelView {
        description: str_of(lookup(m, "description"@)),
        unit: str_of(lookup(m, "unit"@)),
        min: int_of(lookup(m, "min"@)),
        max: int_of(lookup(m, "max"@)),
        width: extent_of(lookup(m, "width"@), plain.width),
        height: extent_of(lookup(m, "height"@), plain.height),
        display_mode: display_of(str_of(lookup(m, "display"@))),
        graph: graph_of(str_of(lookup(m, "graph"@))),
        ..plain
    }
}

/// The panel of a value.
pub open spec fn panel_of(p: DatumView) -> Result<PanelView, EvalErrorView> {
    match p {
        DatumView::Object(m) => match str_of(lookup(m, "id"@)) {
            None => Err(EvalErrorView::Type("panel :id"@)),
            Some(id) => match panel_kind_of(
                or_text(str_of(lookup(m, "kind"@)), "timeseries"@),
                id,
            ) {
                Err(e) => Err(e),
                Ok(kind) => match str_of(lookup(m, "title"@)) {
                    None => Err(EvalErrorView::Type("panel :title"@)),
                    Some(title) => match queries_from(
                        items_of(lookup(m, "queries"@)),
                        0,
                        Seq::empty(),
                    ) {
                        Err(e) => Err(e),
                        Ok(queries) => match thresholds_from(
                            items_of(lookup(m, "thresholds"@)),
                            0,
                            Seq::empty(),
                        ) {
                            Err(e) => Err(e),
                            Ok(steps) => Ok(
                                PanelView { queries, steps, ..panel_frame(m, id, kind, title) },
                            ),
                        },
                    },
                },
            },
        },
        _ => Err(EvalErrorView::Type("panel must be a keyword map"@)),
    }
}

/// Reads the other expressions of a query.
fn read_alts(alts: &DatumMap) -> (r: SortedMap<String>)
    ensures
        r@ == alts_from(alts@, 0, Map::empty()),
{
    let n: usize = alts.len();
    let mut out: SortedMap<String> = SortedMap::new();
    let mut i: usize = 0;
    while i < n
        invariant
            n == alts@.len(),
            i <= n,
            alts_from(alts@, i as int, out@) == alts_from(alts@, 0, Map::empty()),
        decreases n - i,
    {
        if let Some((k, v)) = alts.at(i) {
            if let Datum::Str(s) = v {
                out.insert(k.clone(), s.clone());
            }
        }
        i += 1;
    }
    out
}

/// Reads a query.
fn query_from(q: &Datum, idx: usize) -> (r: Result<Query, EvalError>)
    ensures
        match r {
            Ok(x) => query_of(q@, idx as int) == Ok::<QueryView, EvalErrorView>(x@),
            Err(e) => query_of(q@, idx as int) == Err::<QueryView, EvalErrorView>(e@),
        },
{
    let m = match q {
        Datum::Object(m) => m,
        _ => {
            return Err(EvalError::Type("query must be a keyword map"));
        },
    };
    let expr = match as_text(m.get("expr")) {
        Some(expr) => expr,
        None => {
            return Err(EvalError::Type("query :expr"));
        },
    };
    let datasource_uid = match as_text(m.get("datasource")) {
        Some(uid) => uid,
        None => {
            return Err(EvalError::Type("query :datasource"));
        },
    };
    let reference = match as_text(m.get("ref")) {
        Some(s) => s,
        None => {
            let mut s = String::new();
            let place: usize = idx % 26;
            s.push((65u8 + place as u8) as char);
            assert(s@ =~= default_reference(idx as int));
            s
        },
    };
    let alt_exprs = match m.get("alt-exprs") {
        Some(Datum::Object(alts)) => read_alts(alts),
        _ => SortedMap::new(),
    };
    Ok(
        Query {
            reference,
            expr,
            datasource_uid,
            legend: as_text(m.get("legend")),
            instant: is_bool(m.get("instant"), true),
            hide: is_bool(m.get("hide"), true),
            presence: presence(as_str(m.get("presence"))),
            alt_exprs,
        },
    )
}

/// Reads the queries of a panel.
fn read_queries(v: Option<&Datum>) -> (r: Result<Vec<Query>, EvalError>)
    ensures
        match r {
            Ok(qs) => queries_from(items_of(option_value(v)), 0, Seq::empty()) == Ok::<
                Seq<QueryView>,
                EvalErrorView,
            >(query_views(qs@)),
            Err(e) => queries_from(items_of(option_value(v)), 0, Seq::empty()) == Err::<
                Seq<QueryView>,
                EvalErrorView,
            >(e@),
        },
{
    let items = as_list(v);
    let n: usize = items.len();
    let mut out: Vec<Query> = Vec::new();
    let mut i: usize = 0;
    assert(query_views(out@) =~= Seq::empty());
    while i < n
        invariant
            n == items@.len(),
            i <= n,
            ref_views(items@) == items_of(option_value(v)),
            queries_from(ref_views(items@), i as int, query_views(out@)) == queries_from(
                ref_views(items@),
                0,
                Seq::empty(),
            ),
        decreases n - i,
    {
        let ghost before = query_views(out@);
        assert(ref_views(items@)[i as int] == items@[i as int]@);
        match query_from(items[i], i) {
            Ok(q) => {
                let ghost w = q@;
                out.push(q);
                assert(query_views(out@) =~= before.push(w));
            },
            Err(e) => {
                return Err(e);
            },
        }
        i += 1;
    }
    Ok(out)
}

/// Reads the thresholds of a panel.
fn read_thresholds(v: Option<&Datum>) -> (r: Result<Vec<Threshold>, EvalError>)
    ensures
        match r {
            Ok(ts) => thresholds_from(items_of(option_value(v)), 0, Seq::empty()) == Ok::<
                Seq<Threshold>,
                EvalErrorView,
            >(ts@),
            Err(e) => thresholds_from(items_of(option_value(v)), 0, Seq::empty()) == Err::<
                Seq<Threshold>,
                EvalErrorView,
            >(e@),
        },
{
    let items = as_list(v);
    let n: usize = items.len();
    let mut out: Vec<Threshold> = Vec::new();
    let mut i: usize = 0;
    assert(out@ =~= Seq::empty());
    while i < n
        invariant
            n == items@.len(),
            i <= n,
            ref_views(items@) == items_of(option_value(v)),
            thresholds_from(ref_views(items@), i as int, out@) == thresholds_from(
                ref_views(items@),
                0,
                Seq::empty(),
            ),
        decreases n - i,
    {
        assert(ref_views(items@)[i as int] == items@[i as int]@);
        let m = match items[i] {
            Datum::Object(m) => m,
            _ => {
                return Err(EvalError::Type("threshold must be a keyword map"));
            },
        };
        let name = match as_str(m.get("color")) {
            Some(s) => s,
            None => "neutral",
        };
        match role(name) {
            Ok(color) => {
                out.push(Threshold { value: as_i64(m.get("value")), color });
            },
            Err(e) => {
                return Err(e);
            },
        }
        i += 1;
    }
    Ok(out)
}

/// A size that a value gives, or another where it gives none that fits.
fn extent(v: Option<&Datum>, other: u16) -> (r: u16)
    ensures
        r == extent_of(option_value(v), other),
{
    match as_i64(v) {
        Some(n) => if 0 <= n && n <= 65535 {
            n as u16
        } else {
            other
        },
        None => other,
    }
}

/// Reads a panel.
pub fn panel_from(p: &Datum) -> (r: Result<Panel, EvalError>)
    ensures
        match r {
            Ok(x) => panel_of(p@) == Ok::<PanelView, EvalErrorView>(x@),
            Err(e) => panel_of(p@) == Err::<PanelView, EvalErrorView>(e@),
        },
{
    let m = match p {
        Datum::Object(m) => m,
        _ => {
            return Err(EvalError::Type("panel must be a keyword map"));
        },
    };
    let id = match as_str(m.get("id")) {
        Some(id) => id,
        None => {
            return Err(EvalError::Type("panel :id"));
        },
    };
    let kind_name = match as_str(m.get("kind")) {
        Some(s) => s,
        None => "timeseries",
    };
    let kind = match panel_kind(kind_name, id) {
        Ok(kind) => kind,
        Err(e) => {
            return Err(e);
        },
    };
    let title = match as_str(m.get("title")) {
        Some(title) => title,
        None => {
            return Err(EvalError::Type("panel :title"));
        },
    };
    let queries = match read_queries(m.get("queries")) {
        Ok(queries) => queries,
        Err(e) => {
            return Err(e);
        },
    };
    let steps = match read_thresholds(m.get("thresholds")) {
        Ok(steps) => steps,
        Err(e) => {
            return Err(e);
        },
    };
    let plain = Panel::new(id, kind, title);
    let out = Panel {
        description: as_text(m.get("description")),
        unit: as_text(m.get("unit")),
        min: as_i64(m.get("min")),
        max: as_i64(m.get("max")),
        width: extent(m.get("width"), plain.width),
        height: extent(m.get("height"), plain.height),
        display_mode: display(as_str(m.get("display"))),
        graph: graph(as_str(m.get("graph"))),
        queries,
        thresholds: ThresholdConfig { mode: ThresholdMode::Absolute, steps },
        id: plain.id,
        kind,
        title: plain.title,
        decimals: None,
    };
    Ok(out)
}

// ---------------------------------------------------------------------
// Sections
// ---------------------------------------------------------------------

/// The query language that a name stands for.
pub open spec fn lang_of(s: Seq<char>) -> Option<QueryLang> {
    if s == "promql"@ {
        Some(QueryLang::PromQl)
    } else if s == "logsql"@ {
        Some(QueryLang::LogsQl)
    } else if s == "sql"@ {
        Some(QueryLang::Sql)
    } else {
        None
    }
}

/// The datasource of a value.
pub open spec fn datasource_of(d: DatumView) -> Result<DatasourceView, EvalErrorView> {
    match d {
        DatumView::Object(m) => match str_of(lookup(m, "uid"@)) {
            None => Err(EvalErrorView::Type("datasource :uid"@)),
            Some(uid) => match lang_of(or_text(str_of(lookup(m, "lang"@)), "promql"@)) {
                None => Err(
                    EvalErrorView::Type("datasource :lang must be promql|logsql|sql"@),
                ),
                Some(query_lang) => Ok(
                    DatasourceView {
                        uid,
                        wire_type: or_text(str_of(lookup(m, "type"@)), "prometheus"@),
                        query_lang,
                    },
                ),
            },
        },
        _ => Err(EvalErrorView::Type("datasource must be a keyword map"@)),
    }
}

/// What the datasources from `i` on add.
pub open spec fn datasources_from(items: Seq<DatumView>, i: int, acc: Seq<DatasourceView>) -> Result<
    Seq<DatasourceView>,
    EvalErrorView,
>
    decreases items.len() - i,
{
    if i < 0 || i >= items.len() {
        Ok(acc)
    } else {
        match datasource_of(items[i]) {
            Ok(d) => datasources_from(items, i + 1, registered(acc, d)),
            Err(e) => Err(e),
        }
    }
}

/// The variable kind that a name stands for.
pub open spec fn variable_kind_of(s: Seq<char>) -> Option<VariableKind> {
    if s == "query"@ {
        Some(VariableKind::Query)
    } else if s == "constant"@ {
        Some(VariableKind::Constant)
    } else if s == "custom"@ {
        Some(VariableKind::Custom)
    } else if s == "datasource"@ {
        Some(VariableKind::Datasource)
    } else if s == "textbox"@ {
        Some(VariableKind::Textbox)
    } else if s == "interval"@ {
        Some(VariableKind::Interval)
    } else {
        None
    }
}

/// The variable of a value.
pub open spec fn variable_of(v: DatumView) -> Result<VariableView, EvalErrorView> {
    match v {
        DatumView::Object(m) => match str_of(lookup(m, "name"@)) {
            None => Err(EvalErrorView::Type("variable :name"@)),
            Some(name) => match variable_kind_of(or_text(str_of(lookup(m, "kind"@)), "query"@)) {
                None => Err(EvalErrorView::Type("variable :kind"@)),
                Some(kind) => Ok(
                    VariableView {
                        name,
                        kind,
                        label: str_of(lookup(m, "label"@)),
                        datasource_uid: str_of(lookup(m, "datasource"@)),
                        query: str_of(lookup(m, "query"@)),
                        options: strings_of(lookup(m, "options"@)),
                        multi: lookup(m, "multi"@) == Some(DatumView::Bool(true)),
                        include_all: lookup(m, "include-all"@) == Some(DatumView::Bool(true)),
                    },
                ),
            },
        },
        _ => Err(EvalErrorView::Type("variable must be a keyword map"@)),
    }
}

/// What the variables from `i` on add.
pub open spec fn variables_from(items: Seq<DatumView>, i: int, acc: Seq<VariableView>) -> Result<
    Seq<VariableView>,
    EvalErrorView,
>
    decreases items.len() - i,
{
    if i < 0 || i >= items.len() {
        Ok(acc)
    } else {
        match variable_of(items[i]) {
            Ok(v) => variables_from(items, i + 1, acc.push(v)),
            Err(e) => Err(e),
        }
    }
}

/// The annotation of a value.
pub open spec fn annotation_of(a: DatumView) -> Result<AnnotationView, EvalErrorView> {
    match a {
        DatumView::Object(m) => match (
            str_of(lookup(m, "name"@)),
            str_of(lookup(m, "datasource"@)),
            str_of(lookup(m, "expr"@)),
        ) {
            (None, _, _) => Err(EvalErrorView::Type("annotation :name"@)),
            (_, None, _) => Err(EvalErrorView::Type("annotation :datasource"@)),
            (_, _, None) => Err(EvalErrorView::Type("annotation :expr"@)),
            (Some(name), Some(datasource_uid), Some(expr)) => match role_of(
                or_text(str_of(lookup(m, "color"@)), "info"@),
            ) {
                Err(e) => Err(e),
                Ok(color) => Ok(
                    AnnotationView {
                        name,
                        datasource_uid,
                        expr,
                        color,
                        enable: lookup(m, "enable"@) != Some(DatumView::Bool(false)),
                    },
                ),
            },
        },
        _ => Err(EvalErrorView::Type("annotation must be a keyword map"@)),
    }
}

/// What the annotations from `i` on add.
pub open spec fn annotations_from(items: Seq<DatumView>, i: int, acc: Seq<AnnotationView>) -> Result<
    Seq<AnnotationView>,
    EvalErrorView,
>
    decreases items.len() - i,
{
    if i < 0 || i >= items.len() {
        Ok(acc)
    } else {
        match annotation_of(items[i]) {
            Ok(a) => annotations_from(items, i + 1, acc.push(a)),
            Err(e) => Err(e),
        }
    }
}

/// What the panels from `i` on add.
pub open spec fn panels_from(items: Seq<DatumView>, i: int, acc: Seq<PanelView>) -> Result<
    Seq<PanelView>,
    EvalErrorView,
>
    decreases items.len() - i,
{
    if i < 0 || i >= items.len() {
        Ok(acc)
    } else {
        match panel_of(items[i]) {
            Ok(p) => panels_from(items, i + 1, acc.push(p)),
            Err(e) => Err(e),
        }
    }
}

/// The row of a value.
pub open spec fn row_of(r: DatumView) -> Result<RowView, EvalErrorView> {
    match r {
        DatumView::Object(m) => match str_of(lookup(m, "title"@)) {
            None => Err(EvalErrorView::Type("row :title"@)),
            Some(title) => match panels_from(items_of(lookup(m, "panels"@)), 0, Seq::empty()) {
                Err(e) => Err(e),
                Ok(panels) => Ok(
                    RowView {
                        title,
                        collapsed: lookup(m, "collapsed"@) == Some(DatumView::Bool(true)),
                        panels,
                    },
                ),
            },
        },
        _ => Err(EvalErrorView::Type("row must be a keyword map"@)),
    }
}

/// What the rows from `i` on add.
pub open spec fn rows_from(items: Seq<DatumView>, i: int, acc: Seq<RowView>) -> Result<
    Seq<RowView>,
    EvalErrorView,
>
    decreases items.len() - i,
{
    if i < 0 || i >= items.len() {
        Ok(acc)
    } else {
        match row_of(items[i]) {
            Ok(r) => rows_from(items, i + 1, acc.push(r)),
            Err(e) => Err(e),
        }
    }
}

/// Reads the datasources of a board.
fn read_datasources(v: Option<&Datum>) -> (r: Result<Datasources, EvalError>)
    ensures
        match r {
            Ok(ds) => datasources_from(items_of(option_value(v)), 0, Seq::empty()) == Ok::<
                Seq<DatasourceView>,
                EvalErrorView,
            >(datasource_views(ds.0@)),
            Err(e) => datasources_from(items_of(option_value(v)), 0, Seq::empty()) == Err::<
                Seq<DatasourceView>,
                EvalErrorView,
            >(e@),
        },
{
    let items = as_list(v);
    let n: usize = items.len();
    let mut out = Datasources(Vec::new());
    let mut i: usize = 0;
    assert(datasource_views(out.0@) =~= Seq::empty());
    while i < n
        invariant
            n == items@.len(),
            i <= n,
            ref_views(items@) == items_of(option_value(v)),
            datasources_from(ref_views(items@), i as int, datasource_views(out.0@))
                == datasources_from(ref_views(items@), 0, Seq::empty()),
        decreases n - i,
    {
        assert(ref_views(items@)[i as int] == items@[i as int]@);
        let m = match items[i] {
            Datum::Object(m) => m,
            _ => {
                return Err(EvalError::Type("datasource must be a keyword map"));
            },
        };
        let uid = match as_text(m.get("uid")) {
            Some(uid) => uid,
            None => {
                return Err(EvalError::Type("datasource :uid"));
            },
        };
        let wire_type = match as_text(m.get("type")) {
            Some(s) => s,
            None => "prometheus".to_owned(),
        };
        let lang = match as_str(m.get("lang")) {
            Some(s) => s,
            None => "promql",
        };
        let query_lang = if same(lang, "promql") {
            QueryLang::PromQl
        } else if same(lang, "logsql") {
            QueryLang::LogsQl
        } else if same(lang, "sql") {
            QueryLang::Sql
        } else {
            return Err(EvalError::Type("datasource :lang must be promql|logsql|sql"));
        };
        out.register(Datasource { uid, wire_type, query_lang });
        i += 1;
    }
    Ok(out)
}

/// Reads a variable kind.
fn variable_kind(s: &str) -> (r: Option<VariableKind>)
    ensures
        r == variable_kind_of(s@),
{
    if same(s, "query") {
        Some(VariableKind::Query)
    } else if same(s, "constant") {
        Some(VariableKind::Constant)
    } else if same(s, "custom") {
        Some(VariableKind::Custom)
    } else if same(s, "datasource") {
        Some(VariableKind::Datasource)
    } else if same(s, "textbox") {
        Some(VariableKind::Textbox)
    } else if same(s, "interval") {
        Some(VariableKind::Interval)
    } else {
        None
    }
}

/// Reads a variable.
fn variable_from(v: &Datum) -> (r: Result<Variable, EvalError>)
    ensures
        match r {
            Ok(x) => variable_of(v@) == Ok::<VariableView, EvalErrorView>(x@),
            Err(e) => variable_of(v@) == Err::<VariableView, EvalErrorView>(e@),
        },
{
    let m = match v {
        Datum::Object(m) => m,
        _ => {
            return Err(EvalError::Type("variable must be a keyword map"));
        },
    };
    let name = match as_text(m.get("name")) {
        Some(name) => name,
        None => {
            return Err(EvalError::Type("variable :name"));
        },
    };
    let kind_name = match as_str(m.get("kind")) {
        Some(s) => s,
        None => "query",
    };
    let kind = match variable_kind(kind_name) {
        Some(kind) => kind,
        None => {
            return Err(EvalError::Type("variable :kind"));
        },
    };
    Ok(
        Variable {
            name,
            kind,
            label: as_text(m.get("label")),
            datasource_uid: as_text(m.get("datasource")),
            query: as_text(m.get("query")),
            options: as_strings(m.get("options")),
            multi: is_bool(m.get("multi"), true),
            include_all: is_bool(m.get("include-all"), true),
        },
    )
}

/// Reads the variables of a board.
fn read_variables(v: Option<&Datum>) -> (r: Result<Vec<Variable>, EvalError>)
    ensures
        match r {
            Ok(vs) => variables_from(items_of(option_value(v)), 0, Seq::empty()) == Ok::<
                Seq<VariableView>,
                EvalErrorView,
            >(variable_views(vs@)),
            Err(e) => variables_from(items_of(option_value(v)), 0, Seq::empty()) == Err::<
                Seq<VariableView>,
                EvalErrorView,
            >(e@),
        },
{
    let items = as_list(v);
    let n: usize = items.len();
    let mut out: Vec<Variable> = Vec::new();
    let mut i: usize = 0;
    assert(variable_views(out@) =~= Seq::empty());
    while i < n
        invariant
            n == items@.len(),
            i <= n,
            ref_views(items@) == items_of(option_value(v)),
            variables_from(ref_views(items@), i as int, variable_views(out@)) == variables_from(
                ref_views(items@),
                0,
                Seq::empty(),
            ),
        decreases n - i,
    {
        let ghost before = variable_views(out@);
        assert(ref_views(items@)[i as int] == items@[i as int]@);
        match variable_from(items[i]) {
            Ok(x) => {
                let ghost w = x@;
                out.push(x);
                assert(variable_views(out@) =~= before.push(w));
            },
            Err(e) => {
                return Err(e);
            },
        }
        i += 1;
    }
    Ok(out)
}

/// Reads an annotation.
fn annotation_from(a: &Datum) -> (r: Result<Annotation, EvalError>)
    ensures
        match r {
            Ok(x) => annotation_of(a@) == Ok::<AnnotationView, EvalErrorView>(x@),
            Err(e) => annotation_of(a@) == Err::<AnnotationView, EvalErrorView>(e@),
        },
{
    let m = match a {
        Datum::Object(m) => m,
        _ => {
            return Err(EvalError::Type("annotation must be a keyword map"));
        },
    };
    let name = match as_text(m.get("name")) {
        Some(name) => name,
        None => {
            return Err(EvalError::Type("annotation :name"));
        },
    };
    let datasource_uid = match as_text(m.get("datasource")) {
        Some(uid) => uid,
        None => {
            return Err(EvalError::Type("annotation :datasource"));
        },
    };
    let expr = match as_text(m.get("expr")) {
        Some(expr) => expr,
        None => {
            return Err(EvalError::Type("annotation :expr"));
        },
    };
    let color_name = match as_str(m.get("color")) {
        Some(s) => s,
        None => "info",
    };
    match role(color_name) {
        Ok(color) => Ok(
            Annotation {
                name,
                datasource_uid,
                expr,
                color,
                enable: !is_bool(m.get("enable"), false),
            },
        ),
        Err(e) => Err(e),
    }
}

/// Reads the annotations of a board.
fn read_annotations(v: Option<&Datum>) -> (r: Result<Vec<Annotation>, EvalError>)
    ensures
        match r {
            Ok(anns) => annotations_from(items_of(option_value(v)), 0, Seq::empty()) == Ok::<
                Seq<AnnotationView>,
                EvalErrorView,
            >(annotation_views(anns@)),
            Err(e) => annotations_from(items_of(option_value(v)), 0, Seq::empty()) == Err::<
                Seq<AnnotationView>,
                EvalErrorView,
            >(e@),
        },
{
    let items = as_list(v);
    let n: usize = items.len();
    let mut out: Vec<Annotation> = Vec::new();
    let mut i: usize = 0;
    assert(annotation_views(out@) =~= Seq::empty());
    while i < n
        invariant
            n == items@.len(),
            i <= n,
            ref_views(items@) == items_of(option_value(v)),
            annotations_from(ref_views(items@), i as int, annotation_views(out@))
                == annotations_from(ref_views(items@), 0, Seq::empty()),
        decreases n - i,
    {
        let ghost before = annotation_views(out@);
        assert(ref_views(items@)[i as int] == items@[i as int]@);
        match annotation_from(items[i]) {
            Ok(x) => {
                let ghost w = x@;
                out.push(x);
                assert(annotation_views(out@) =~= before.push(w));
            },
            Err(e) => {
                return Err(e);
            },
        }
        i += 1;
    }
    Ok(out)
}

/// Reads the panels of a row.
fn read_panels(v: Option<&Datum>) -> (r: Result<Vec<Panel>, EvalError>)
    ensures
        match r {
            Ok(ps) => panels_from(items_of(option_value(v)), 0, Seq::empty()) == Ok::<
                Seq<PanelView>,
                EvalErrorView,
            >(panel_views(ps@)),
            Err(e) => panels_from(items_of(option_value(v)), 0, Seq::empty()) == Err::<
                Seq<PanelView>,
                EvalErrorView,
            >(e@),
        },
{
    let items = as_list(v);
    let n: usize = items.len();
    let mut out: Vec<Panel> = Vec::new();
    let mut i: usize = 0;
    assert(panel_views(out@) =~= Seq::empty());
    while i < n
        invariant
            n == items@.len(),
            i <= n,
            ref_views(items@) == items_of(option_value(v)),
            panels_from(ref_views(items@), i as int, panel_views(out@)) == panels_from(
                ref_views(items@),
                0,
                Seq::empty(),
            ),
        decreases n - i,
    {
        let ghost before = panel_views(out@);
        assert(ref_views(items@)[i as int] == items@[i as int]@);
        match panel_from(items[i]) {
            Ok(x) => {
                let ghost w = x@;
                out.push(x);
                assert(panel_views(out@) =~= before.push(w));
            },
            Err(e) => {
                return Err(e);
            },
        }
        i += 1;
    }
    Ok(out)
}

/// Reads the rows of a board.
fn read_rows(v: Option<&Datum>) -> (r: Result<Vec<Row>, EvalError>)
    ensures
        match r {
            Ok(rs) => rows_from(items_of(option_value(v)), 0, Seq::empty()) == Ok::<
                Seq<RowView>,
                EvalErrorView,
            >(row_views(rs@)),
            Err(e) => rows_from(items_of(option_value(v)), 0, Seq::empty()) == Err::<
                Seq<RowView>,
                EvalErrorView,
            >(e@),
        },
{
    let items = as_list(v);
    let n: usize = items.len();
    let mut out: Vec<Row> = Vec::new();
    let mut i: usize = 0;
    assert(row_views(out@) =~= Seq::empty());
    while i < n
        invariant
            n == items@.len(),
            i <= n,
            ref_views(items@) == items_of(option_value(v)),
            rows_from(ref_views(items@), i as int, row_views(out@)) == rows_from(
                ref_views(items@),
                0,
                Seq::empty(),
            ),
        decreases n - i,
    {
        let ghost before = row_views(out@);
        assert(ref_views(items@)[i as int] == items@[i as int]@);
        let m = match items[i] {
            Datum::Object(m) => m,
            _ => {
                return Err(EvalError::Type("row must be a keyword map"));
            },
        };
        let title = match as_text(m.get("title")) {
            Some(title) => title,
            None => {
                return Err(EvalError::Type("row :title"));
            },
        };
        let panels = match read_panels(m.get("panels")) {
            Ok(panels) => panels,
            Err(e) => {
                return Err(e);
            },
        };
        let row = Row { title, collapsed: is_bool(m.get("collapsed"), true), panels };
        let ghost w = row@;
        out.push(row);
        assert(row_views(out@) =~= before.push(w));
        i += 1;
    }
    Ok(out)
}

// ---------------------------------------------------------------------
// Dashboards
// ---------------------------------------------------------------------

/// The fields of a form from `i` on, behind those before. A pair whose key is
/// no keyword adds nothing.
pub open spec fn board_fields(xs: Seq<SxView>, i: int, acc: Seq<(Seq<char>, DatumView)>) -> Result<
    Seq<(Seq<char>, DatumView)>,
    EvalErrorView,
>
    decreases xs.len() - i,
{
    if i < 0 || i + 1 >= xs.len() {
        Ok(acc)
    } else {
        match xs[i].as_kw() {
            None => board_fields(xs, i + 2, acc),
            Some(k) => match value_of(xs[i + 1], EnvView::empty()) {
                Ok(v) => board_fields(xs, i + 2, acc.push((k, v))),
                Err(e) => Err(e),
            },
        }
    }
}

/// Where a board starts in time, or ends, by the map that gives it.
pub open spec fn time_of(time: Option<DatumView>, key: Seq<char>, other: Seq<char>) -> Seq<char> {
    match time {
        Some(DatumView::Object(m)) => or_text(str_of(lookup(m, key)), other),
        _ => other,
    }
}

/// The dashboard of a name and fields. Of fields with one name the first
/// counts.
pub open spec fn board_of(name: Seq<char>, fields: Seq<(Seq<char>, DatumView)>) -> Result<
    DashboardView,
    EvalErrorView,
> {
    match datasources_from(items_of(lookup(fields, "datasources"@)), 0, Seq::empty()) {
        Err(e) => Err(e),
        Ok(datasources) => match variables_from(
            items_of(lookup(fields, "variables"@)),
            0,
            Seq::empty(),
        ) {
            Err(e) => Err(e),
            Ok(variables) => match annotations_from(
                items_of(lookup(fields, "annotations"@)),
                0,
                Seq::empty(),
            ) {
                Err(e) => Err(e),
                Ok(annotations) => match rows_from(
                    items_of(lookup(fields, "rows"@)),
                    0,
                    Seq::empty(),
                ) {
                    Err(e) => Err(e),
                    Ok(rows) => Ok(
                        DashboardView {
                            uid: or_text(
                                str_of(lookup(fields, "uid"@)),
                                replaced(name, '_', '-'),
                            ),
                            title: or_text(
                                str_of(lookup(fields, "title"@)),
                                replaced(replaced(name, '-', ' '), '_', ' '),
                            ),
                            description: str_of(lookup(fields, "description"@)),
                            tags: strings_of(lookup(fields, "tags"@)),
                            refresh: match lookup(fields, "refresh"@) {
                                Some(v) => str_of(Some(v)),
                                None => Some("30s"@),
                            },
                            time_from: time_of(lookup(fields, "time"@), "from"@, "now-1h"@),
                            time_to: time_of(lookup(fields, "time"@), "to"@, "now"@),
                            timezone: or_text(str_of(lookup(fields, "timezone"@)), "utc"@),
                            editable: lookup(fields, "editable"@) != Some(DatumView::Bool(false)),
                            variables,
                            annotations,
                            rows,
                            datasources,
                        },
                    ),
                },
            },
        },
    }
}

/// The dashboard of a form `(deflava-dashboard name :field value …)`.
pub open spec fn form_board(xs: Seq<SxView>) -> Result<DashboardView, EvalErrorView> {
    match board_fields(xs, 2, Seq::empty()) {
        Err(e) => Err(e),
        Ok(fields) => board_of(or_text(nth_sym(xs, 1), "anonymous"@), fields),
    }
}

/// The dashboard that a source declares: that of its first `deflava-dashboard`
/// form.
pub open spec fn source_board(src: Seq<char>) -> Result<DashboardView, EvalErrorView> {
    match read_all(src, 0) {
        Err(e) => Err(EvalErrorView::Parse(e)),
        Ok(forms) => match form_from(forms, "deflava-dashboard"@, 0) {
            None => Err(EvalErrorView::NotArchForm("no deflava-dashboard form"@)),
            Some(xs) => form_board(xs),
        },
    }
}

/// The fields of a board as what they stand for.
pub open spec fn field_views(fields: Seq<(String, Datum)>) -> Seq<(Seq<char>, DatumView)> {
    fields.map_values(|f: (String, Datum)| (f.0@, f.1@))
}

/// The first field with a name.
fn field<'a>(fields: &'a Vec<(String, Datum)>, key: &str) -> (r: Option<&'a Datum>)
    ensures
        option_value(r) == lookup(field_views(fields@), key@),
{
    let ghost views = field_views(fields@);
    let n: usize = fields.len();
    let mut i: usize = 0;
    while i < n
        invariant
            n == fields@.len(),
            views == field_views(fields@),
            i <= n,
            forall|j: int| 0 <= j < i ==> (#[trigger] views[j]).0 != key@,
        decreases n - i,
    {
        let f = &fields[i];
        assert(views[i as int] == (f.0@, f.1@));
        if same(f.0.as_str(), key) {
            proof {
                lemma_position_is(views, key@, i as int);
            }
            return Some(&f.1);
        }
        i += 1;
    }
    proof {
        lemma_position(views, key@);
    }
    None
}

/// Evaluates the fields of a form.
fn read_fields(xs: &[Sx]) -> (r: Result<Vec<(String, Datum)>, EvalError>)
    ensures
        match r {
            Ok(fs) => board_fields(sx_views(xs@), 2, Seq::empty()) == Ok::<
                Seq<(Seq<char>, DatumView)>,
                EvalErrorView,
            >(field_views(fs@)),
            Err(e) => board_fields(sx_views(xs@), 2, Seq::empty()) == Err::<
                Seq<(Seq<char>, DatumView)>,
                EvalErrorView,
            >(e@),
        },
{
    let env = Env::new();
    let n: usize = xs.len();
    let mut out: Vec<(String, Datum)> = Vec::new();
    let mut i: usize = 2;
    assert(field_views(out@) =~= Seq::empty());
    while i < n && n - i > 1
        invariant
            n == xs@.len(),
            env@ == EnvView::empty(),
            board_fields(sx_views(xs@), i as int, field_views(out@)) == board_fields(
                sx_views(xs@),
                2,
                Seq::empty(),
            ),
        decreases n - i,
    {
        let ghost before = field_views(out@);
        if let Some(k) = xs[i].as_kw() {
            match eval_value(&xs[i + 1], &env) {
                Ok(v) => {
                    let ghost w = (k@, v@);
                    out.push((k.to_owned(), v));
                    assert(field_views(out@) =~= before.push(w));
                },
                Err(e) => {
                    return Err(e);
                },
            }
        }
        i += 2;
    }
    Ok(out)
}

/// Converts fields into a dashboard.
fn board_from(name: &str, fields: &Vec<(String, Datum)>) -> (r: Result<Dashboard, EvalError>)
    ensures
        match r {
            Ok(d) => board_of(name@, field_views(fields@)) == Ok::<DashboardView, EvalErrorView>(
                d@,
            ),
            Err(e) => board_of(name@, field_views(fields@)) == Err::<DashboardView, EvalErrorView>(
                e@,
            ),
        },
{
    let datasources = match read_datasources(field(fields, "datasources")) {
        Ok(datasources) => datasources,
        Err(e) => {
            return Err(e);
        },
    };
    let variables = match read_variables(field(fields, "variables")) {
        Ok(variables) => variables,
        Err(e) => {
            return Err(e);
        },
    };
    let annotations = match read_annotations(field(fields, "annotations")) {
        Ok(annotations) => annotations,
        Err(e) => {
            return Err(e);
        },
    };
    let rows = match read_rows(field(fields, "rows")) {
        Ok(rows) => rows,
        Err(e) => {
            return Err(e);
        },
    };
    let uid = match as_text(field(fields, "uid")) {
        Some(s) => s,
        None => replace(name, '_', '-'),
    };
    let title = match as_text(field(fields, "title")) {
        Some(s) => s,
        None => replace(replace(name, '-', ' ').as_str(), '_', ' '),
    };
    let refresh = match field(fields, "refresh") {
        Some(v) => as_text(Some(v)),
        None => Some("30s".to_owned()),
    };
    let time = match field(fields, "time") {
        Some(Datum::Object(m)) => TimeRange {
            from: match as_text(m.get("from")) {
                Some(s) => s,
                None => "now-1h".to_owned(),
            },
            to: match as_text(m.get("to")) {
                Some(s) => s,
                None => "now".to_owned(),
            },
        },
        _ => TimeRange { from: "now-1h".to_owned(), to: "now".to_owned() },
    };
    let timezone = match as_text(field(fields, "timezone")) {
        Some(s) => s,
        None => "utc".to_owned(),
    };
    Ok(
        Dashboard {
            uid,
            title,
            description: as_text(field(fields, "description")),
            tags: as_strings(field(fields, "tags")),
            refresh,
            time,
            timezone,
            editable: !is_bool(field(fields, "editable"), false),
            variables,
            annotations,
            rows,
            datasources,
        },
    )
}

/// Reads a source and evaluates its dashboard form into a typed document.
pub fn eval_dashboard(src: &str) -> (r: Result<Dashboard, EvalError>)
    ensures
        match r {
            Ok(d) => source_board(src@) == Ok::<DashboardView, EvalErrorView>(d@),
            Err(e) => source_board(src@) == Err::<DashboardView, EvalErrorView>(e@),
        },
{
    let forms = match parse_all(src) {
        Ok(forms) => forms,
        Err(e) => {
            return Err(EvalError::from(e));
        },
    };
    let xs = match find_form(&forms, "deflava-dashboard") {
        Some(xs) => xs,
        None => {
            return Err(EvalError::NotArchForm("no deflava-dashboard form".to_owned()));
        },
    };
    let name = match sym_at(xs, 1) {
        Some(name) => name,
        None => "anonymous",
    };
    match read_fields(xs) {
        Ok(fields) => board_from(name, &fields),
        Err(e) => Err(e),
    }
}

// ---------------------------------------------------------------------
// Laws
// ---------------------------------------------------------------------

/// A single map counts as the list of itself.
pub proof fn law_a_single_map_is_a_list_of_one(m: Seq<(Seq<char>, DatumView)>)
    ensures
        items_of(Some(DatumView::Object(m))) == items_of(
            Some(DatumView::List(seq![DatumView::Object(m)])),
        ),
{
}

/// No two datasources of a board have one uid.
pub proof fn law_datasource_uids_are_distinct(items: Seq<DatumView>)
    ensures
        datasources_from(items, 0, Seq::empty()) matches Ok(ds) ==> distinct_uids(ds),
{
    lemma_uids_distinct(items, 0, Seq::empty());
}

proof fn lemma_uids_distinct(items: Seq<DatumView>, i: int, acc: Seq<DatasourceView>)
    requires
        0 <= i,
        distinct_uids(acc),
    ensures
        datasources_from(items, i, acc) matches Ok(ds) ==> distinct_uids(ds),
    decreases items.len() - i,
{
    if i < items.len() {
        if let Ok(d) = datasource_of(items[i]) {
            law_registering_replaces(acc, d);
            lemma_uids_distinct(items, i + 1, registered(acc, d));
        }
    }
}

/// A colour in hexadecimal is no role.
pub proof fn law_a_hex_colour_is_no_role(s: Seq<char>)
    requires
        s.len() > 0,
        s[0] == '#',
    ensures
        role_of(s) matches Err(e) && e is Dashboard,
{
    reveal_strlit("neutral");
    reveal_strlit("primary");
    reveal_strlit("info");
    reveal_strlit("success");
    reveal_strlit("warning");
    reveal_strlit("danger");
    assert("neutral"@[0] == 'n' && "primary"@[0] == 'p' && "info"@[0] == 'i' && "success"@[0]
        == 's' && "warning"@[0] == 'w' && "danger"@[0] == 'd');
}

/// Queries that name no reference get the letters from A on, different ones for
/// any twenty-six in a row.
pub proof fn law_default_references_differ(i: int, j: int)
    requires
        0 <= i < j < i + 26,
    ensures
        default_reference(i) != default_reference(j),
        default_reference(0) == seq!['A'],
{
    assert(default_reference(i)[0] == ((65 + i % 26) as u8) as char);
    assert(default_reference(j)[0] == ((65 + j % 26) as u8) as char);
    assert(i % 26 != j % 26) by {
        if i % 26 == j % 26 {
            vstd::arithmetic::div_mod::lemma_fundamental_div_mod(i, 26);
            vstd::arithmetic::div_mod::lemma_fundamental_div_mod(j, 26);
        }
    }
    assert(default_reference(0) =~= seq!['A']);
}

/// The queries, thresholds, panels and rows of a board are as many as the items
/// that declare them, and each is what its item declares.
pub proof fn law_rows_and_panels_are_read_one_by_one(items: Seq<DatumView>, i: int)
    requires
        0 <= i < items.len(),
    ensures
        rows_from(items, 0, Seq::empty()) matches Ok(rows) ==> rows.len() == items.len() && row_of(
            items[i],
        ) == Ok::<RowView, EvalErrorView>(rows[i]),
        panels_from(items, 0, Seq::empty()) matches Ok(panels) ==> panels.len() == items.len()
            && panel_of(items[i]) == Ok::<PanelView, EvalErrorView>(panels[i]),
        queries_from(items, 0, Seq::empty()) matches Ok(queries) ==> queries.len() == items.len()
            && query_of(items[i], i) == Ok::<QueryView, EvalErrorView>(queries[i]),
        thresholds_from(items, 0, Seq::empty()) matches Ok(steps) ==> steps.len() == items.len()
            && threshold_of(items[i]) == Ok::<Threshold, EvalErrorView>(steps[i]),
{
    lemma_rows(items, 0, Seq::empty());
    lemma_panels(items, 0, Seq::empty());
    lemma_queries(items, 0, Seq::empty());
    lemma_thresholds(items, 0, Seq::empty());
}

proof fn lemma_rows(items: Seq<DatumView>, i: int, acc: Seq<RowView>)
    requires
        0 <= i <= items.len(),
        acc.len() == i,
    ensures
        rows_from(items, i, acc) matches Ok(out) ==> out.len() == items.len() && out.take(i) == acc
            && (forall|j: int|
            i <= j < items.len() ==> row_of(#[trigger] items[j]) == Ok::<RowView, EvalErrorView>(
                out[j],
            )),
    decreases items.len() - i,
{
    if i < items.len() {
        if let Ok(x) = row_of(items[i]) {
            lemma_rows(items, i + 1, acc.push(x));
            if let Ok(out) = rows_from(items, i + 1, acc.push(x)) {
                assert(out.take(i + 1)[i] == x);
                assert(out.take(i) =~= out.take(i + 1).take(i));
                assert(acc.push(x).take(i) =~= acc);
            }
        }
    } else {
        assert(acc.take(i) =~= acc);
    }
}

proof fn lemma_panels(items: Seq<DatumView>, i: int, acc: Seq<PanelView>)
    requires
        0 <= i <= items.len(),
        acc.len() == i,
    ensures
        panels_from(items, i, acc) matches Ok(out) ==> out.len() == items.len() && out.take(i)
            == acc && (forall|j: int|
            i <= j < items.len() ==> panel_of(#[trigger] items[j]) == Ok::<
                PanelView,
                EvalErrorView,
            >(out[j])),
    decreases items.len() - i,
{
    if i < items.len() {
        if let Ok(x) = panel_of(items[i]) {
            lemma_panels(items, i + 1, acc.push(x));
            if let Ok(out) = panels_from(items, i + 1, acc.push(x)) {
                assert(out.take(i + 1)[i] == x);
                assert(out.take(i) =~= out.take(i + 1).take(i));
                assert(acc.push(x).take(i) =~= acc);
            }
        }
    } else {
        assert(acc.take(i) =~= acc);
    }
}

proof fn lemma_queries(items: Seq<DatumView>, i: int, acc: Seq<QueryView>)
    requires
        0 <= i <= items.len(),
        acc.len() == i,
    ensures
        queries_from(items, i, acc) matches Ok(out) ==> out.len() == items.len() && out.take(i)
            == acc && (forall|j: int|
            i <= j < items.len() ==> query_of(#[trigger] items[j], j) == Ok::<
                QueryView,
                EvalErrorView,
            >(out[j])),
    decreases items.len() - i,
{
    if i < items.len() {
        if let Ok(x) = query_of(items[i], i) {
            lemma_queries(items, i + 1, acc.push(x));
            if let Ok(out) = queries_from(items, i + 1, acc.push(x)) {
                assert(out.take(i + 1)[i] == x);
                assert(out.take(i) =~= out.take(i + 1).take(i));
                assert(acc.push(x).take(i) =~= acc);
            }
        }
    } else {
        assert(acc.take(i) =~= acc);
    }
}

proof fn lemma_thresholds(items: Seq<DatumView>, i: int, acc: Seq<Threshold>)
    requires
        0 <= i <= items.len(),
        acc.len() == i,
    ensures
        thresholds_from(items, i, acc) matches Ok(out) ==> out.len() == items.len() && out.take(i)
            == acc && (forall|j: int|
            i <= j < items.len() ==> threshold_of(#[trigger] items[j]) == Ok::<
                Threshold,
                EvalErrorView,
            >(out[j])),
    decreases items.len() - i,
{
    if i < items.len() {
        if let Ok(x) = threshold_of(items[i]) {
            lemma_thresholds(items, i + 1, acc.push(x));
            if let Ok(out) = thresholds_from(items, i + 1, acc.push(x)) {
                assert(out.take(i + 1)[i] == x);
                assert(out.take(i) =~= out.take(i + 1).take(i));
                assert(acc.push(x).take(i) =~= acc);
            }
        }
    } else {
        assert(acc.take(i) =~= acc);
    }
}

} // verus!
