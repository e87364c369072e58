//! What dashboards are, name by name and field by field.
use crate::board::{
    kind_height, kind_width, registered, AnnotationView, DashboardView,
    DatasourceView, DisplayMode, GraphMode, PanelKind, PanelView, Presence, QueryLang, QueryView,
    Role, RowView, Threshold, ThresholdMode, VariableKind, VariableView,
};
use crate::dashboard::{
    alts_from, annotation_of, annotations_from, board_fields, board_of, datasource_of,
    datasources_from, default_reference, display_of, graph_of, items_of, lang_of,
    panel_kind_of, panel_of, panels_from, presence_of, queries_from, query_of, role_of, row_of,
    rows_from, source_board, strings_among, strings_of, threshold_of, thresholds_from,
    variable_kind_of, variable_of, variables_from,
};
use crate::datum::DatumView;
use crate::entries::lookup;
use crate::error::EvalErrorView;
use crate::eval::value_of;
use crate::forms::form_from;
use crate::render::{
    display_name, graph_name, lang_name, panel_kind_name, presence_name, role_name,
    threshold_mode_name, variable_kind_name,
};
use crate::sexpr::{read_all, AtomView, SxView};
use crate::template::EnvView;
use crate::text::{quoted, replaced};
use vstd::prelude::*;

verus! {

// ---------------------------------------------------------------------
// Names
// ---------------------------------------------------------------------

proof fn lemma_role_texts()
    ensures
        "neutral"@ == seq!['n', 'e', 'u', 't', 'r', 'a', 'l'],
        "primary"@ == seq!['p', 'r', 'i', 'm', 'a', 'r', 'y'],
        "info"@ == seq!['i', 'n', 'f', 'o'],
        "success"@ == seq!['s', 'u', 'c', 'c', 'e', 's', 's'],
        "warning"@ == seq!['w', 'a', 'r', 'n', 'i', 'n', 'g'],
        "danger"@ == seq!['d', 'a', 'n', 'g', 'e', 'r'],
{
    reveal_strlit("neutral");
    reveal_strlit("primary");
    reveal_strlit("info");
    reveal_strlit("success");
    reveal_strlit("warning");
    reveal_strlit("danger");
    assert("neutral"@ =~= seq!['n', 'e', 'u', 't', 'r', 'a', 'l']);
    assert("primary"@ =~= seq!['p', 'r', 'i', 'm', 'a', 'r', 'y']);
    assert("info"@ =~= seq!['i', 'n', 'f', 'o']);
    assert("success"@ =~= seq!['s', 'u', 'c', 'c', 'e', 's', 's']);
    assert("warning"@ =~= seq!['w', 'a', 'r', 'n', 'i', 'n', 'g']);
    assert("danger"@ =~= seq!['d', 'a', 'n', 'g', 'e', 'r']);
}

/// Each role is read from its own name, and no other name is a role.
pub proof fn law_roles_are_read_from_their_names(s: Seq<char>)
    ensures
        role_of("neutral"@) == Ok::<Role, EvalErrorView>(Role::Neutral),
        role_of("primary"@) == Ok::<Role, EvalErrorView>(Role::Primary),
        role_of("info"@) == Ok::<Role, EvalErrorView>(Role::Info),
        role_of("success"@) == Ok::<Role, EvalErrorView>(Role::Success),
        role_of("warning"@) == Ok::<Role, EvalErrorView>(Role::Warning),
        role_of("danger"@) == Ok::<Role, EvalErrorView>(Role::Danger),
        s != "neutral"@ && s != "primary"@ && s != "info"@ && s != "success"@ && s != "warning"@ && s
            != "danger"@ ==> role_of(s) == Err::<Role, EvalErrorView>(
            EvalErrorView::Dashboard(
                "unknown colour role "@ + quoted(s)
                    + " — expected one of neutral, primary, info, success, warning, danger. Roles are semantic; a hex value is not accepted here by design."@,
            ),
        ),
{
    lemma_role_texts();
}

/// The name that a role is written under, read again, gives the role.
pub proof fn law_a_written_role_reads_back(s: Seq<char>, r: Role)
    requires
        role_name(r) == seq!['"'] + s + seq!['"'],
    ensures
        role_of(s) == Ok::<Role, EvalErrorView>(r),
{
    lemma_role_texts();
    reveal_strlit("\"neutral\"");
    reveal_strlit("\"primary\"");
    reveal_strlit("\"info\"");
    reveal_strlit("\"success\"");
    reveal_strlit("\"warning\"");
    reveal_strlit("\"danger\"");
    let t = role_name(r);
    assert(s =~= t.subrange(1, t.len() - 1));
    match r {
        Role::Neutral => {
            assert(t.subrange(1, t.len() - 1) =~= "neutral"@);
        },
        Role::Primary => {
            assert(t.subrange(1, t.len() - 1) =~= "primary"@);
        },
        Role::Info => {
            assert(t.subrange(1, t.len() - 1) =~= "info"@);
        },
        Role::Success => {
            assert(t.subrange(1, t.len() - 1) =~= "success"@);
        },
        Role::Warning => {
            assert(t.subrange(1, t.len() - 1) =~= "warning"@);
        },
        Role::Danger => {
            assert(t.subrange(1, t.len() - 1) =~= "danger"@);
        },
    }
}

/// The names under which a document is written are those of its format.
pub proof fn law_names_are_those_of_the_format()
    ensures
        role_name(Role::Neutral) == "\"neutral\""@,
        role_name(Role::Primary) == "\"primary\""@,
        role_name(Role::Info) == "\"info\""@,
        role_name(Role::Success) == "\"success\""@,
        role_name(Role::Warning) == "\"warning\""@,
        role_name(Role::Danger) == "\"danger\""@,
        lang_name(QueryLang::PromQl) == "\"prom_ql\""@,
        lang_name(QueryLang::LogsQl) == "\"logs_ql\""@,
        lang_name(QueryLang::Sql) == "\"sql\""@,
        panel_kind_name(PanelKind::Stat) == "\"stat\""@,
        panel_kind_name(PanelKind::TimeSeries) == "\"time_series\""@,
        panel_kind_name(PanelKind::Gauge) == "\"gauge\""@,
        panel_kind_name(PanelKind::Table) == "\"table\""@,
        panel_kind_name(PanelKind::Heatmap) == "\"heatmap\""@,
        panel_kind_name(PanelKind::Text) == "\"text\""@,
        panel_kind_name(PanelKind::Pie) == "\"pie\""@,
        presence_name(Presence::Continuous) == "\"continuous\""@,
        presence_name(Presence::EventDriven) == "\"event_driven\""@,
        presence_name(Presence::Conditional) == "\"conditional\""@,
        threshold_mode_name(ThresholdMode::Absolute) == "\"absolute\""@,
        threshold_mode_name(ThresholdMode::Percentage) == "\"percentage\""@,
        display_name(DisplayMode::Auto) == "\"auto\""@,
        display_name(DisplayMode::Off) == "\"none\""@,
        display_name(DisplayMode::OnValue) == "\"value\""@,
        display_name(DisplayMode::Background) == "\"background\""@,
        graph_name(GraphMode::Auto) == "\"auto\""@,
        graph_name(GraphMode::Off) == "\"none\""@,
        graph_name(GraphMode::Area) == "\"area\""@,
        variable_kind_name(VariableKind::Query) == "\"query\""@,
        variable_kind_name(VariableKind::Constant) == "\"constant\""@,
        variable_kind_name(VariableKind::Custom) == "\"custom\""@,
        variable_kind_name(VariableKind::Datasource) == "\"datasource\""@,
        variable_kind_name(VariableKind::Textbox) == "\"textbox\""@,
        variable_kind_name(VariableKind::Interval) == "\"interval\""@,
{
}

/// Each panel kind is read from its own name, and any other name is a fault that
/// holds the panel and the name.
pub proof fn law_panel_kinds_are_read_from_their_names(s: Seq<char>, id: Seq<char>)
    ensures
        panel_kind_of("stat"@, id) == Ok::<PanelKind, EvalErrorView>(PanelKind::Stat),
        panel_kind_of("timeseries"@, id) == Ok::<PanelKind, EvalErrorView>(PanelKind::TimeSeries),
        panel_kind_of("gauge"@, id) == Ok::<PanelKind, EvalErrorView>(PanelKind::Gauge),
        panel_kind_of("table"@, id) == Ok::<PanelKind, EvalErrorView>(PanelKind::Table),
        panel_kind_of("heatmap"@, id) == Ok::<PanelKind, EvalErrorView>(PanelKind::Heatmap),
        panel_kind_of("text"@, id) == Ok::<PanelKind, EvalErrorView>(PanelKind::Text),
        panel_kind_of("pie"@, id) == Ok::<PanelKind, EvalErrorView>(PanelKind::Pie),
        s != "stat"@ && s != "timeseries"@ && s != "gauge"@ && s != "table"@ && s != "heatmap"@ && s
            != "text"@ && s != "pie"@ ==> panel_kind_of(s, id) == Err::<PanelKind, EvalErrorView>(
            EvalErrorView::Dashboard(
                "panel "@ + id + ": unknown :kind "@ + quoted(s)
                    + " — expected one of stat, timeseries, gauge, table, heatmap, text, pie"@,
            ),
        ),
{
    reveal_strlit("stat");
    reveal_strlit("timeseries");
    reveal_strlit("gauge");
    reveal_strlit("table");
    reveal_strlit("heatmap");
    reveal_strlit("text");
    reveal_strlit("pie");
    assert("stat"@.len() == 4 && "timeseries"@.len() == 10 && "gauge"@.len() == 5 && "table"@.len()
        == 5 && "heatmap"@.len() == 7 && "text"@.len() == 4 && "pie"@.len() == 3);
    assert("stat"@[0] == 's' && "text"@[0] == 't' && "gauge"@[0] == 'g' && "table"@[0] == 't');
}

/// Display modes, graph modes and presences are read from their names; any other
/// name, or none, is the one by default.
pub proof fn law_modes_are_read_from_their_names(s: Option<Seq<char>>)
    ensures
        display_of(s) == DisplayMode::Off <==> s == Some("none"@),
        display_of(s) == DisplayMode::OnValue <==> s == Some("value"@),
        display_of(s) == DisplayMode::Background <==> s == Some("background"@),
        graph_of(s) == GraphMode::Off <==> s == Some("none"@),
        graph_of(s) == GraphMode::Area <==> s == Some("area"@),
        presence_of(s) == Presence::EventDriven <==> s == Some("event-driven"@),
        presence_of(s) == Presence::Conditional <==> s == Some("conditional"@),
{
    reveal_strlit("none");
    reveal_strlit("value");
    reveal_strlit("background");
    reveal_strlit("area");
    reveal_strlit("event-driven");
    reveal_strlit("conditional");
    assert("none"@.len() == 4 && "value"@.len() == 5 && "background"@.len() == 10 && "area"@.len()
        == 4 && "event-driven"@.len() == 12 && "conditional"@.len() == 11);
    assert("none"@[0] == 'n' && "area"@[0] == 'a');
}

/// Query languages and variable kinds are read from their names, and other names
/// are none.
pub proof fn law_languages_and_variable_kinds_are_read_from_their_names(s: Seq<char>)
    ensures
        lang_of(s) == Some(QueryLang::PromQl) <==> s == "promql"@,
        lang_of(s) == Some(QueryLang::LogsQl) <==> s == "logsql"@,
        lang_of(s) == Some(QueryLang::Sql) <==> s == "sql"@,
        variable_kind_of(s) == Some(VariableKind::Query) <==> s == "query"@,
        variable_kind_of(s) == Some(VariableKind::Constant) <==> s == "constant"@,
        variable_kind_of(s) == Some(VariableKind::Custom) <==> s == "custom"@,
        variable_kind_of(s) == Some(VariableKind::Datasource) <==> s == "datasource"@,
        variable_kind_of(s) == Some(VariableKind::Textbox) <==> s == "textbox"@,
        variable_kind_of(s) == Some(VariableKind::Interval) <==> s == "interval"@,
{
    reveal_strlit("promql");
    reveal_strlit("logsql");
    reveal_strlit("sql");
    reveal_strlit("query");
    reveal_strlit("constant");
    reveal_strlit("custom");
    reveal_strlit("datasource");
    reveal_strlit("textbox");
    reveal_strlit("interval");
    assert("promql"@[0] == 'p' && "logsql"@[0] == 'l' && "sql"@[0] == 's');
    assert("query"@.len() == 5 && "constant"@.len() == 8 && "custom"@.len() == 6
        && "datasource"@.len() == 10 && "textbox"@.len() == 7 && "interval"@.len() == 8);
    assert("constant"@[0] == 'c' && "interval"@[0] == 'i');
}

/// The size of a panel by its kind, where it gives none.
pub proof fn law_panel_kinds_have_their_sizes()
    ensures
        kind_width(PanelKind::Stat) == 6 && kind_height(PanelKind::Stat) == 4,
        kind_width(PanelKind::Gauge) == 6 && kind_height(PanelKind::Gauge) == 4,
        kind_width(PanelKind::Table) == 24 && kind_height(PanelKind::Table) == 9,
        kind_width(PanelKind::Heatmap) == 24 && kind_height(PanelKind::Heatmap) == 9,
        kind_width(PanelKind::Text) == 8 && kind_height(PanelKind::Text) == 3,
        kind_width(PanelKind::TimeSeries) == 12 && kind_height(PanelKind::TimeSeries) == 8,
        kind_width(PanelKind::Pie) == 12 && kind_height(PanelKind::Pie) == 8,
{
}

// ---------------------------------------------------------------------
// Values
// ---------------------------------------------------------------------

/// The string under a key, if there is one.
pub open spec fn text_at(m: Seq<(Seq<char>, DatumView)>, key: Seq<char>) -> Option<Seq<char>> {
    match lookup(m, key) {
        Some(DatumView::Str(s)) => Some(s),
        _ => None,
    }
}

/// The integer under a key, if there is one.
pub open spec fn int_at(m: Seq<(Seq<char>, DatumView)>, key: Seq<char>) -> Option<i64> {
    match lookup(m, key) {
        Some(DatumView::Int(n)) => Some(n),
        _ => None,
    }
}

/// The string under a key, or another text.
pub open spec fn text_or(
    m: Seq<(Seq<char>, DatumView)>,
    key: Seq<char>,
    other: Seq<char>,
) -> Seq<char> {
    match text_at(m, key) {
        Some(s) => s,
        None => other,
    }
}

/// Whether there is a certain boolean under a key.
pub open spec fn is_at(m: Seq<(Seq<char>, DatumView)>, key: Seq<char>, b: bool) -> bool {
    lookup(m, key) == Some(DatumView::Bool(b))
}

/// A value counts as a list: a list as it is, nothing and null as none, and any
/// other value as the list of itself.
pub proof fn law_values_count_as_lists(v: DatumView, items: Seq<DatumView>)
    ensures
        items_of(None).len() == 0,
        items_of(Some(DatumView::Null)).len() == 0,
        items_of(Some(DatumView::List(items))) == items,
        !(v is List) && !(v is Null) ==> items_of(Some(v)) == seq![v],
{
}

/// The strings of a value are those among its items, in order.
pub proof fn law_strings_are_picked_in_order(items: Seq<DatumView>, v: DatumView)
    ensures
        strings_of(None).len() == 0,
        strings_of(Some(DatumView::List(Seq::empty()))).len() == 0,
        strings_of(Some(DatumView::List(items.push(v)))) == match v {
            DatumView::Str(s) => strings_of(Some(DatumView::List(items))).push(s),
            _ => strings_of(Some(DatumView::List(items))),
        },
        v is Str ==> strings_of(Some(v)) == seq![v->Str_0],
{
    lemma_string_added(items, v, 0, Seq::empty());
    let none = Seq::<DatumView>::empty();
    lemma_string_added(none, v, 0, Seq::empty());
    assert(none.push(v) =~= seq![v]);
    if v is Str {
        assert(strings_among(none, 0, Seq::empty()) =~= Seq::empty());
        assert(Seq::<Seq<char>>::empty().push(v->Str_0) =~= seq![v->Str_0]);
    }
}

proof fn lemma_string_added(
    items: Seq<DatumView>,
    v: DatumView,
    i: int,
    acc: Seq<Seq<char>>,
)
    requires
        0 <= i <= items.len(),
    ensures
        strings_among(items.push(v), i, acc) == match v {
            DatumView::Str(s) => strings_among(items, i, acc).push(s),
            _ => strings_among(items, i, acc),
        },
    decreases items.len() - i,
{
    let more = items.push(v);
    if i < items.len() {
        assert(more[i] == items[i]);
        lemma_string_added(items, v, i + 1, acc);
        if let DatumView::Str(s) = items[i] {
            lemma_string_added(items, v, i + 1, acc.push(s));
        }
    } else {
        assert(more[i] == v);
        reveal_with_fuel(strings_among, 3);
    }
}

// ---------------------------------------------------------------------
// Panels
// ---------------------------------------------------------------------

/// A query that names no reference gets a capital letter by its place, from A on.
pub proof fn law_default_references_are_letters(idx: int)
    requires
        0 <= idx,
    ensures
        default_reference(idx).len() == 1,
        default_reference(idx)[0] as int == 'A' as int + idx % 26,
{
}

/// A query is what its map says under `:expr`, `:datasource`, `:ref`, `:legend`,
/// `:instant`, `:hide`, `:presence` and `:alt-exprs`. It must have an expression
/// and a datasource.
pub proof fn law_a_query_is_its_map(
    m: Seq<(Seq<char>, DatumView)>,
    idx: int,
    v: DatumView,
)
    ensures
        !(v is Object) ==> query_of(v, idx) == Err::<QueryView, EvalErrorView>(
            EvalErrorView::Type("query must be a keyword map"@),
        ),
        text_at(m, "expr"@) is None ==> query_of(DatumView::Object(m), idx) == Err::<
            QueryView,
            EvalErrorView,
        >(EvalErrorView::Type("query :expr"@)),
        text_at(m, "expr"@) is Some && text_at(m, "datasource"@) is None ==> query_of(
            DatumView::Object(m),
            idx,
        ) == Err::<QueryView, EvalErrorView>(EvalErrorView::Type("query :datasource"@)),
        text_at(m, "expr"@) is Some && text_at(m, "datasource"@) is Some ==> (query_of(
            DatumView::Object(m),
            idx,
        ) matches Ok(q) && {
            &&& text_at(m, "expr"@) == Some(q.expr)
            &&& text_at(m, "datasource"@) == Some(q.datasource_uid)
            &&& q.reference == text_or(m, "ref"@, default_reference(idx))
            &&& q.legend == text_at(m, "legend"@)
            &&& q.instant == is_at(m, "instant"@, true)
            &&& q.hide == is_at(m, "hide"@, true)
            &&& q.presence == presence_of(text_at(m, "presence"@))
            &&& q.alt_exprs == match lookup(m, "alt-exprs"@) {
                Some(DatumView::Object(alts)) => alts_from(alts, 0, Map::empty()),
                _ => Map::empty(),
            }
        }),
{
}

/// The other expressions of a query are the strings of their map: one more entry
/// sets that of its name, if it is a string.
pub proof fn law_other_expressions_are_strings(
    alts: Seq<(Seq<char>, DatumView)>,
    k: Seq<char>,
    v: DatumView,
)
    ensures
        alts_from(Seq::empty(), 0, Map::empty()) == Map::<Seq<char>, Seq<char>>::empty(),
        alts_from(alts.push((k, v)), 0, Map::empty()) == match v {
            DatumView::Str(s) => alts_from(alts, 0, Map::empty()).insert(k, s),
            _ => alts_from(alts, 0, Map::empty()),
        },
{
    lemma_alt_added(alts, k, v, 0, Map::empty());
}

proof fn lemma_alt_added(
    alts: Seq<(Seq<char>, DatumView)>,
    k: Seq<char>,
    v: DatumView,
    i: int,
    acc: Map<Seq<char>, Seq<char>>,
)
    requires
        0 <= i <= alts.len(),
    ensures
        alts_from(alts.push((k, v)), i, acc) == match v {
            DatumView::Str(s) => alts_from(alts, i, acc).insert(k, s),
            _ => alts_from(alts, i, acc),
        },
    decreases alts.len() - i,
{
    let more = alts.push((k, v));
    if i < alts.len() {
        assert(more[i] == alts[i]);
        lemma_alt_added(alts, k, v, i + 1, acc);
        if let DatumView::Str(s) = alts[i].1 {
            lemma_alt_added(alts, k, v, i + 1, acc.insert(alts[i].0, s));
        }
    } else {
        assert(more[i] == (k, v));
        reveal_with_fuel(alts_from, 3);
    }
}

/// A threshold has the integer of its `:value`, if it has one, and the role of
/// its `:color`, neutral by default.
pub proof fn law_a_threshold_is_its_map(m: Seq<(Seq<char>, DatumView)>, v: DatumView)
    ensures
        !(v is Object) ==> threshold_of(v) == Err::<Threshold, EvalErrorView>(
            EvalErrorView::Type("threshold must be a keyword map"@),
        ),
        threshold_of(DatumView::Object(m)) == match role_of(text_or(m, "color"@, "neutral"@)) {
            Ok(color) => Ok::<Threshold, EvalErrorView>(
                Threshold { value: int_at(m, "value"@), color },
            ),
            Err(e) => Err(e),
        },
{
}

/// The size under a key, where it fits.
pub open spec fn extent_at(
    m: Seq<(Seq<char>, DatumView)>,
    key: Seq<char>,
    other: u16,
) -> u16 {
    match int_at(m, key) {
        Some(n) if 0 <= n <= 65535 => n as u16,
        _ => other,
    }
}

/// A panel is what its map says under each of its keys, with the size of its kind
/// where it gives none that fits. It must have an id, a known kind and a title;
/// the faults come in that order, then those of its queries and thresholds.
pub proof fn law_a_panel_is_its_map(m: Seq<(Seq<char>, DatumView)>, v: DatumView)
    ensures
        !(v is Object) ==> panel_of(v) == Err::<PanelView, EvalErrorView>(
            EvalErrorView::Type("panel must be a keyword map"@),
        ),
        text_at(m, "id"@) is None ==> panel_of(DatumView::Object(m)) == Err::<
            PanelView,
            EvalErrorView,
        >(EvalErrorView::Type("panel :id"@)),
        text_at(m, "id"@) matches Some(id) ==> match panel_kind_of(
            text_or(m, "kind"@, "timeseries"@),
            id,
        ) {
            Err(e) => panel_of(DatumView::Object(m)) == Err::<PanelView, EvalErrorView>(e),
            Ok(kind) => {
                &&& text_at(m, "title"@) is None ==> panel_of(DatumView::Object(m)) == Err::<
                    PanelView,
                    EvalErrorView,
                >(EvalErrorView::Type("panel :title"@))
                &&& text_at(m, "title"@) is Some ==> match (
                    queries_from(items_of(lookup(m, "queries"@)), 0, Seq::empty()),
                    thresholds_from(items_of(lookup(m, "thresholds"@)), 0, Seq::empty()),
                ) {
                    (Err(e), _) => panel_of(DatumView::Object(m)) == Err::<
                        PanelView,
                        EvalErrorView,
                    >(e),
                    (_, Err(e)) => panel_of(DatumView::Object(m)) == Err::<
                        PanelView,
                        EvalErrorView,
                    >(e),
                    (Ok(queries), Ok(steps)) => panel_of(DatumView::Object(m)) matches Ok(p) && {
                        &&& p.id == id
                        &&& p.kind == kind
                        &&& text_at(m, "title"@) == Some(p.title)
                        &&& p.description == text_at(m, "description"@)
                        &&& p.unit == text_at(m, "unit"@)
                        &&& p.min == int_at(m, "min"@)
                        &&& p.max == int_at(m, "max"@)
                        &&& p.decimals is None
                        &&& p.queries == queries
                        &&& p.mode == ThresholdMode::Absolute
                        &&& p.steps == steps
                        &&& p.width == extent_at(m, "width"@, kind_width(kind))
                        &&& p.height == extent_at(m, "height"@, kind_height(kind))
                        &&& p.display_mode == display_of(text_at(m, "display"@))
                        &&& p.graph == graph_of(text_at(m, "graph"@))
                    },
                }
            },
        },
{
}

/// Queries, thresholds and panels are read one by one: one more comes behind the
/// others, a query with the letter of its place, and the first that fails is the
/// failure of the whole.
pub proof fn law_queries_thresholds_and_panels_come_in_order(
    items: Seq<DatumView>,
    v: DatumView,
)
    ensures
        queries_from(Seq::empty(), 0, Seq::empty()) == Ok::<Seq<QueryView>, EvalErrorView>(
            Seq::empty(),
        ),
        queries_from(items.push(v), 0, Seq::empty()) == match queries_from(
            items,
            0,
            Seq::empty(),
        ) {
            Err(e) => Err::<Seq<QueryView>, EvalErrorView>(e),
            Ok(qs) => match query_of(v, items.len() as int) {
                Ok(q) => Ok(qs.push(q)),
                Err(e) => Err(e),
            },
        },
        thresholds_from(Seq::empty(), 0, Seq::empty()) == Ok::<Seq<Threshold>, EvalErrorView>(
            Seq::empty(),
        ),
        thresholds_from(items.push(v), 0, Seq::empty()) == match thresholds_from(
            items,
            0,
            Seq::empty(),
        ) {
            Err(e) => Err::<Seq<Threshold>, EvalErrorView>(e),
            Ok(ts) => match threshold_of(v) {
                Ok(t) => Ok(ts.push(t)),
                Err(e) => Err(e),
            },
        },
        panels_from(Seq::empty(), 0, Seq::empty()) == Ok::<Seq<PanelView>, EvalErrorView>(
            Seq::empty(),
        ),
        panels_from(items.push(v), 0, Seq::empty()) == match panels_from(items, 0, Seq::empty()) {
            Err(e) => Err::<Seq<PanelView>, EvalErrorView>(e),
            Ok(ps) => match panel_of(v) {
                Ok(p) => Ok(ps.push(p)),
                Err(e) => Err(e),
            },
        },
{
    lemma_query_added(items, v, 0, Seq::empty());
    lemma_threshold_added(items, v, 0, Seq::empty());
    lemma_panel_added(items, v, 0, Seq::empty());
}

proof fn lemma_query_added(items: Seq<DatumView>, v: DatumView, i: int, acc: Seq<QueryView>)
    requires
        0 <= i <= items.len(),
    ensures
        queries_from(items.push(v), i, acc) == match queries_from(items, i, acc) {
            Err(e) => Err::<Seq<QueryView>, EvalErrorView>(e),
            Ok(qs) => match query_of(v, items.len() as int) {
                Ok(q) => Ok(qs.push(q)),
                Err(e) => Err(e),
            },
        },
    decreases items.len() - i,
{
    let more = items.push(v);
    if i < items.len() {
        assert(more[i] == items[i]);
        if let Ok(x) = query_of(items[i], i) {
            lemma_query_added(items, v, i + 1, acc.push(x));
        }
    } else {
        assert(more[i] == v);
        reveal_with_fuel(queries_from, 3);
    }
}

proof fn lemma_threshold_added(items: Seq<DatumView>, v: DatumView, i: int, acc: Seq<Threshold>)
    requires
        0 <= i <= items.len(),
    ensures
        thresholds_from(items.push(v), i, acc) == match thresholds_from(items, i, acc) {
            Err(e) => Err::<Seq<Threshold>, EvalErrorView>(e),
            Ok(ts) => match threshold_of(v) {
                Ok(t) => Ok(ts.push(t)),
                Err(e) => Err(e),
            },
        },
    decreases items.len() - i,
{
    let more = items.push(v);
    if i < items.len() {
        assert(more[i] == items[i]);
        if let Ok(x) = threshold_of(items[i]) {
            lemma_threshold_added(items, v, i + 1, acc.push(x));
        }
    } else {
        assert(more[i] == v);
        reveal_with_fuel(thresholds_from, 3);
    }
}

proof fn lemma_panel_added(items: Seq<DatumView>, v: DatumView, i: int, acc: Seq<PanelView>)
    requires
        0 <= i <= items.len(),
    ensures
        panels_from(items.push(v), i, acc) == match panels_from(items, i, acc) {
            Err(e) => Err::<Seq<PanelView>, EvalErrorView>(e),
            Ok(ps) => match panel_of(v) {
                Ok(p) => Ok(ps.push(p)),
                Err(e) => Err(e),
            },
        },
    decreases items.len() - i,
{
    let more = items.push(v);
    if i < items.len() {
        assert(more[i] == items[i]);
        if let Ok(x) = panel_of(items[i]) {
            lemma_panel_added(items, v, i + 1, acc.push(x));
        }
    } else {
        assert(more[i] == v);
        reveal_with_fuel(panels_from, 3);
    }
}

// ---------------------------------------------------------------------
// Sections
// ---------------------------------------------------------------------

/// A row is what its map says: it must have a title, is collapsed where it says
/// so, and holds its panels.
pub proof fn law_a_row_is_its_map(m: Seq<(Seq<char>, DatumView)>, v: DatumView)
    ensures
        !(v is Object) ==> row_of(v) == Err::<RowView, EvalErrorView>(
            EvalErrorView::Type("row must be a keyword map"@),
        ),
        row_of(DatumView::Object(m)) == match text_at(m, "title"@) {
            None => Err::<RowView, EvalErrorView>(EvalErrorView::Type("row :title"@)),
            Some(title) => match panels_from(items_of(lookup(m, "panels"@)), 0, Seq::empty()) {
                Ok(panels) => Ok(
                    RowView { title, collapsed: is_at(m, "collapsed"@, true), panels },
                ),
                Err(e) => Err(e),
            },
        },
{
}

/// A datasource is what its map says: it must have a uid, is one of Prometheus by
/// default, and speaks the language that it names, PromQL by default.
pub proof fn law_a_datasource_is_its_map(m: Seq<(Seq<char>, DatumView)>, v: DatumView)
    ensures
        !(v is Object) ==> datasource_of(v) == Err::<DatasourceView, EvalErrorView>(
            EvalErrorView::Type("datasource must be a keyword map"@),
        ),
        datasource_of(DatumView::Object(m)) == match (
            text_at(m, "uid"@),
            lang_of(text_or(m, "lang"@, "promql"@)),
        ) {
            (None, _) => Err::<DatasourceView, EvalErrorView>(
                EvalErrorView::Type("datasource :uid"@),
            ),
            (_, None) => Err(EvalErrorView::Type("datasource :lang must be promql|logsql|sql"@)),
            (Some(uid), Some(query_lang)) => Ok(
                DatasourceView {
                    uid,
                    wire_type: text_or(m, "type"@, "prometheus"@),
                    query_lang,
                },
            ),
        },
{
}

/// A variable is what its map says under each of its keys: it must have a name and
/// a known kind, a query by default.
pub proof fn law_a_variable_is_its_map(m: Seq<(Seq<char>, DatumView)>, v: DatumView)
    ensures
        !(v is Object) ==> variable_of(v) == Err::<VariableView, EvalErrorView>(
            EvalErrorView::Type("variable must be a keyword map"@),
        ),
        match (text_at(m, "name"@), variable_kind_of(text_or(m, "kind"@, "query"@))) {
            (None, _) => variable_of(DatumView::Object(m)) == Err::<VariableView, EvalErrorView>(
                EvalErrorView::Type("variable :name"@),
            ),
            (_, None) => variable_of(DatumView::Object(m)) == Err::<VariableView, EvalErrorView>(
                EvalErrorView::Type("variable :kind"@),
            ),
            (Some(name), Some(kind)) => variable_of(DatumView::Object(m)) matches Ok(x) && {
                &&& x.name == name
                &&& x.kind == kind
                &&& x.label == text_at(m, "label"@)
                &&& x.datasource_uid == text_at(m, "datasource"@)
                &&& x.query == text_at(m, "query"@)
                &&& x.options == strings_of(lookup(m, "options"@))
                &&& x.multi == is_at(m, "multi"@, true)
                &&& x.include_all == is_at(m, "include-all"@, true)
            },
        },
{
}

/// An annotation is what its map says under each of its keys: it must have a name,
/// a datasource and an expression, is coloured as information by default, and
/// enabled unless it says otherwise.
pub proof fn law_an_annotation_is_its_map(m: Seq<(Seq<char>, DatumView)>, v: DatumView)
    ensures
        !(v is Object) ==> annotation_of(v) == Err::<AnnotationView, EvalErrorView>(
            EvalErrorView::Type("annotation must be a keyword map"@),
        ),
        annotation_of(DatumView::Object(m)) == match (
            text_at(m, "name"@),
            text_at(m, "datasource"@),
            text_at(m, "expr"@),
        ) {
            (None, _, _) => Err::<AnnotationView, EvalErrorView>(
                EvalErrorView::Type("annotation :name"@),
            ),
            (_, None, _) => Err(EvalErrorView::Type("annotation :datasource"@)),
            (_, _, None) => Err(EvalErrorView::Type("annotation :expr"@)),
            (Some(name), Some(datasource_uid), Some(expr)) => match role_of(
                text_or(m, "color"@, "info"@),
            ) {
                Ok(color) => Ok(
                    AnnotationView {
                        name,
                        datasource_uid,
                        expr,
                        color,
                        enable: !is_at(m, "enable"@, false),
                    },
                ),
                Err(e) => Err(e),
            },
        },
{
}

/// Rows, variables and annotations are read one by one: one more comes behind the
/// others. A datasource takes the place of one with its uid. The first that fails
/// is the failure of the whole.
pub proof fn law_sections_come_in_order(items: Seq<DatumView>, v: DatumView)
    ensures
        rows_from(Seq::empty(), 0, Seq::empty()) == Ok::<Seq<RowView>, EvalErrorView>(
            Seq::empty(),
        ),
        rows_from(items.push(v), 0, Seq::empty()) == match rows_from(items, 0, Seq::empty()) {
            Err(e) => Err::<Seq<RowView>, EvalErrorView>(e),
            Ok(xs) => match row_of(v) {
                Ok(x) => Ok(xs.push(x)),
                Err(e) => Err(e),
            },
        },
        variables_from(Seq::empty(), 0, Seq::empty()) == Ok::<Seq<VariableView>, EvalErrorView>(
            Seq::empty(),
        ),
        variables_from(items.push(v), 0, Seq::empty()) == match variables_from(
            items,
            0,
            Seq::empty(),
        ) {
            Err(e) => Err::<Seq<VariableView>, EvalErrorView>(e),
            Ok(xs) => match variable_of(v) {
                Ok(x) => Ok(xs.push(x)),
                Err(e) => Err(e),
            },
        },
        annotations_from(Seq::empty(), 0, Seq::empty()) == Ok::<
            Seq<AnnotationView>,
            EvalErrorView,
        >(Seq::empty()),
        annotations_from(items.push(v), 0, Seq::empty()) == match annotations_from(
            items,
            0,
            Seq::empty(),
        ) {
            Err(e) => Err::<Seq<AnnotationView>, EvalErrorView>(e),
            Ok(xs) => match annotation_of(v) {
                Ok(x) => Ok(xs.push(x)),
                Err(e) => Err(e),
            },
        },
        datasources_from(Seq::empty(), 0, Seq::empty()) == Ok::<
            Seq<DatasourceView>,
            EvalErrorView,
        >(Seq::empty()),
        datasources_from(items.push(v), 0, Seq::empty()) == match datasources_from(
            items,
            0,
            Seq::empty(),
        ) {
            Err(e) => Err::<Seq<DatasourceView>, EvalErrorView>(e),
            Ok(xs) => match datasource_of(v) {
                Ok(x) => Ok(registered(xs, x)),
                Err(e) => Err(e),
            },
        },
{
    lemma_row_added(items, v, 0, Seq::empty());
    lemma_variable_added(items, v, 0, Seq::empty());
    lemma_annotation_added(items, v, 0, Seq::empty());
    lemma_datasource_added(items, v, 0, Seq::empty());
}

proof fn lemma_row_added(items: Seq<DatumView>, v: DatumView, i: int, acc: Seq<RowView>)
    requires
        0 <= i <= items.len(),
    ensures
        rows_from(items.push(v), i, acc) == match rows_from(items, i, acc) {
            Err(e) => Err::<Seq<RowView>, EvalErrorView>(e),
            Ok(xs) => match row_of(v) {
                Ok(x) => Ok(xs.push(x)),
                Err(e) => Err(e),
            },
        },
    decreases items.len() - i,
{
    let more = items.push(v);
    if i < items.len() {
        assert(more[i] == items[i]);
        if let Ok(x) = row_of(items[i]) {
            lemma_row_added(items, v, i + 1, acc.push(x));
        }
    } else {
        assert(more[i] == v);
        reveal_with_fuel(rows_from, 3);
    }
}

proof fn lemma_variable_added(
    items: Seq<DatumView>,
    v: DatumView,
    i: int,
    acc: Seq<VariableView>,
)
    requires
        0 <= i <= items.len(),
    ensures
        variables_from(items.push(v), i, acc) == match variables_from(items, i, acc) {
            Err(e) => Err::<Seq<VariableView>, EvalErrorView>(e),
            Ok(xs) => match variable_of(v) {
                Ok(x) => Ok(xs.push(x)),
                Err(e) => Err(e),
            },
        },
    decreases items.len() - i,
{
    let more = items.push(v);
    if i < items.len() {
        assert(more[i] == items[i]);
        if let Ok(x) = variable_of(items[i]) {
            lemma_variable_added(items, v, i + 1, acc.push(x));
        }
    } else {
        assert(more[i] == v);
        reveal_with_fuel(variables_from, 3);
    }
}

proof fn lemma_annotation_added(
    items: Seq<DatumView>,
    v: DatumView,
    i: int,
    acc: Seq<AnnotationView>,
)
    requires
        0 <= i <= items.len(),
    ensures
        annotations_from(items.push(v), i, acc) == match annotations_from(items, i, acc) {
            Err(e) => Err::<Seq<AnnotationView>, EvalErrorView>(e),
            Ok(xs) => match annotation_of(v) {
                Ok(x) => Ok(xs.push(x)),
                Err(e) => Err(e),
            },
        },
    decreases items.len() - i,
{
    let more = items.push(v);
    if i < items.len() {
        assert(more[i] == items[i]);
        if let Ok(x) = annotation_of(items[i]) {
            lemma_annotation_added(items, v, i + 1, acc.push(x));
        }
    } else {
        assert(more[i] == v);
        reveal_with_fuel(annotations_from, 3);
    }
}

proof fn lemma_datasource_added(
    items: Seq<DatumView>,
    v: DatumView,
    i: int,
    acc: Seq<DatasourceView>,
)
    requires
        0 <= i <= items.len(),
    ensures
        datasources_from(items.push(v), i, acc) == match datasources_from(items, i, acc) {
            Err(e) => Err::<Seq<DatasourceView>, EvalErrorView>(e),
            Ok(xs) => match datasource_of(v) {
                Ok(x) => Ok(registered(xs, x)),
                Err(e) => Err(e),
            },
        },
    decreases items.len() - i,
{
    let more = items.push(v);
    if i < items.len() {
        assert(more[i] == items[i]);
        if let Ok(x) = datasource_of(items[i]) {
            lemma_datasource_added(items, v, i + 1, registered(acc, x));
        }
    } else {
        assert(more[i] == v);
        reveal_with_fuel(datasources_from, 3);
    }
}

/// Registering a datasource touches one place: that of the first with its uid
/// where there is one, else a new one at the end.
pub proof fn law_registering_touches_one_place(
    ds: Seq<DatasourceView>,
    d: DatasourceView,
    i: int,
)
    ensures
        (forall|j: int| 0 <= j < ds.len() ==> (#[trigger] ds[j]).uid != d.uid) ==> registered(ds, d)
            == ds.push(d),
        0 <= i < ds.len() && ds[i].uid == d.uid && (forall|j: int|
            0 <= j < i ==> (#[trigger] ds[j]).uid != d.uid) ==> registered(ds, d) == ds.update(
            i,
            d,
        ),
{
    crate::board::lemma_datasource_at(ds, d.uid, 0);
    if let Some(k) = crate::board::datasource_at(ds, d.uid, 0) {
        assert(ds[k].uid == d.uid);
    }
}

// ---------------------------------------------------------------------
// Boards
// ---------------------------------------------------------------------

/// The fields of a board are the values of its keywords, in order and evaluated
/// without bindings: one more pair adds one behind the others. A pair whose key is
/// no keyword adds none, and neither does a keyword without a value.
pub proof fn law_board_fields_are_pairs(xs: Seq<SxView>, k: SxView, v: SxView)
    requires
        xs.len() >= 2,
        xs.len() % 2 == 0,
    ensures
        xs.len() == 2 ==> board_fields(xs, 2, Seq::empty()) == Ok::<
            Seq<(Seq<char>, DatumView)>,
            EvalErrorView,
        >(Seq::empty()),
        board_fields(xs.push(k), 2, Seq::empty()) == board_fields(xs, 2, Seq::empty()),
        board_fields(xs.push(k).push(v), 2, Seq::empty()) == match board_fields(
            xs,
            2,
            Seq::empty(),
        ) {
            Err(e) => Err::<Seq<(Seq<char>, DatumView)>, EvalErrorView>(e),
            Ok(fs) => match k {
                SxView::Atom(AtomView::Kw(name)) => match value_of(
                    v,
                    (EnvView {
                        scalars: Map::empty(),
                        lists: Map::empty(),
                        loop_scalars: Map::empty(),
                    }),
                ) {
                    Ok(x) => Ok(fs.push((name, x))),
                    Err(e) => Err(e),
                },
                _ => Ok(fs),
            },
        },
{
    lemma_board_field_added(xs, k, v, 2, Seq::empty());
}

proof fn lemma_board_field_added(
    xs: Seq<SxView>,
    k: SxView,
    v: SxView,
    i: int,
    acc: Seq<(Seq<char>, DatumView)>,
)
    requires
        0 <= i <= xs.len(),
        (xs.len() - i) % 2 == 0,
    ensures
        board_fields(xs.push(k), i, acc) == board_fields(xs, i, acc),
        board_fields(xs.push(k).push(v), i, acc) == match board_fields(xs, i, acc) {
            Err(e) => Err::<Seq<(Seq<char>, DatumView)>, EvalErrorView>(e),
            Ok(fs) => match k {
                SxView::Atom(AtomView::Kw(name)) => match value_of(v, EnvView::empty()) {
                    Ok(x) => Ok(fs.push((name, x))),
                    Err(e) => Err(e),
                },
                _ => Ok(fs),
            },
        },
    decreases xs.len() - i,
{
    let more = xs.push(k).push(v);
    let lone = xs.push(k);
    if i < xs.len() {
        assert(more[i] == xs[i] && more[i + 1] == xs[i + 1]);
        assert(lone[i] == xs[i] && lone[i + 1] == xs[i + 1]);
        lemma_board_field_added(xs, k, v, i + 2, acc);
        if let Some(name) = xs[i].as_kw() {
            if let Ok(x) = value_of(xs[i + 1], EnvView::empty()) {
                lemma_board_field_added(xs, k, v, i + 2, acc.push((name, x)));
            }
        }
    } else {
        assert(more[i] == k && more[i + 1] == v);
        reveal_with_fuel(board_fields, 3);
    }
}

/// The string under a key of the map of a time range, or another text.
pub open spec fn time_at(
    fields: Seq<(Seq<char>, DatumView)>,
    key: Seq<char>,
    other: Seq<char>,
) -> Seq<char> {
    match lookup(fields, "time"@) {
        Some(DatumView::Object(m)) => text_or(m, key, other),
        _ => other,
    }
}

/// A board is what its fields say, each under its own name, and what a board is by
/// default where they say nothing: its uid is its name with dashes for underscores,
/// its title the name with spaces for both.
pub proof fn law_a_board_is_its_fields(
    name: Seq<char>,
    fields: Seq<(Seq<char>, DatumView)>,
)
    ensures
        board_of(name, fields) matches Ok(d) ==> {
            &&& d.uid == text_or(fields, "uid"@, replaced(name, '_', '-'))
            &&& d.title == text_or(
                fields,
                "title"@,
                replaced(replaced(name, '-', ' '), '_', ' '),
            )
            &&& d.description == text_at(fields, "description"@)
            &&& d.tags == strings_of(lookup(fields, "tags"@))
            &&& d.refresh == (if lookup(fields, "refresh"@) is None {
                Some("30s"@)
            } else {
                text_at(fields, "refresh"@)
            })
            &&& d.time_from == time_at(fields, "from"@, "now-1h"@)
            &&& d.time_to == time_at(fields, "to"@, "now"@)
            &&& d.timezone == text_or(fields, "timezone"@, "utc"@)
            &&& d.editable == !is_at(fields, "editable"@, false)
            &&& datasources_from(items_of(lookup(fields, "datasources"@)), 0, Seq::empty()) == Ok::<
                Seq<DatasourceView>,
                EvalErrorView,
            >(d.datasources)
            &&& variables_from(items_of(lookup(fields, "variables"@)), 0, Seq::empty()) == Ok::<
                Seq<VariableView>,
                EvalErrorView,
            >(d.variables)
            &&& annotations_from(items_of(lookup(fields, "annotations"@)), 0, Seq::empty()) == Ok::<
                Seq<AnnotationView>,
                EvalErrorView,
            >(d.annotations)
            &&& rows_from(items_of(lookup(fields, "rows"@)), 0, Seq::empty()) == Ok::<
                Seq<RowView>,
                EvalErrorView,
            >(d.rows)
        },
{
}

/// A board fails only for one of its sections, and for the first of them in the
/// order datasources, variables, annotations, rows.
pub proof fn law_a_board_fails_for_its_sections_only(
    name: Seq<char>,
    fields: Seq<(Seq<char>, DatumView)>,
)
    ensures
        ({
            let ds = datasources_from(items_of(lookup(fields, "datasources"@)), 0, Seq::empty());
            let vs = variables_from(items_of(lookup(fields, "variables"@)), 0, Seq::empty());
            let anns = annotations_from(items_of(lookup(fields, "annotations"@)), 0, Seq::empty());
            let rs = rows_from(items_of(lookup(fields, "rows"@)), 0, Seq::empty());
            match board_of(name, fields) {
                Ok(_) => ds is Ok && vs is Ok && anns is Ok && rs is Ok,
                Err(e) => if ds is Err {
                    ds->Err_0 == e
                } else if vs is Err {
                    vs->Err_0 == e
                } else if anns is Err {
                    anns->Err_0 == e
                } else {
                    rs == Err::<Seq<RowView>, EvalErrorView>(e)
                },
            }
        }),
{
}

/// A source is its first dashboard form, which has the name behind its head, or
/// else `anonymous`. A source that does not read fails as reading it does, and one
/// without such a form is a fault.
pub proof fn law_a_source_is_its_first_dashboard(src: Seq<char>)
    ensures
        source_board(src) == match read_all(src, 0) {
            Err(e) => Err::<DashboardView, EvalErrorView>(EvalErrorView::Parse(e)),
            Ok(forms) => match form_from(forms, "deflava-dashboard"@, 0) {
                None => Err(EvalErrorView::NotArchForm("no deflava-dashboard form"@)),
                Some(xs) => match board_fields(xs, 2, Seq::empty()) {
                    Err(e) => Err(e),
                    Ok(fields) => board_of(
                        if xs.len() > 1 && xs[1] is Atom && xs[1]->Atom_0 is Sym {
                            xs[1]->Atom_0->Sym_0
                        } else {
                            "anonymous"@
                        },
                        fields,
                    ),
                },
            },
        },
{
}

} // verus!
