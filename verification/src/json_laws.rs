//! How documents and interfaces are written as JSON, member by member.
use crate::board::{
    AnnotationView, DashboardView, DatasourceView, PanelView, QueryView, RowView, Threshold,
    VariableView,
};
use crate::json::{
    array_onto, bool_onto, chars_onto, comma_onto, hex_digit, int_onto, json_char, option_onto,
    size_onto, string_onto, strings_onto,
};
use crate::number::{decimal, int_text};
use crate::render::{
    alts_onto, annotation_onto, annotations_onto, board_text, datasources_onto, display_name,
    graph_name, lang_name, panel_kind_name, panel_onto, panels_onto, presence_name, queries_onto,
    query_onto, role_name, row_onto, rows_onto, steps_onto, threshold_mode_name,
    variable_kind_name, variable_onto, variables_onto,
};
use crate::schema::{field_onto, fields_onto, interface_text, type_onto};
use crate::sortedmap::ordered;
use crate::types::{FieldView, InterfaceView, MatchKind, TypeView};
use vstd::prelude::*;

verus! {

// ---------------------------------------------------------------------
// Strings and numbers
// ---------------------------------------------------------------------

proof fn lemma_chars_lifted(acc: Seq<char>, s: Seq<char>, i: int)
    requires
        0 <= i <= s.len(),
    ensures
        chars_onto(acc, s, i) == acc + chars_onto(Seq::empty(), s, i),
    decreases s.len() - i,
{
    let none = Seq::<char>::empty();
    if i < s.len() {
        lemma_chars_lifted(acc + json_char(s[i]), s, i + 1);
        lemma_chars_lifted(none + json_char(s[i]), s, i + 1);
        assert(acc + json_char(s[i]) + chars_onto(none, s, i + 1) =~= acc + (none + json_char(
            s[i],
        ) + chars_onto(none, s, i + 1)));
    } else {
        assert(acc + none =~= acc);
    }
}

proof fn lemma_char_added(acc: Seq<char>, s: Seq<char>, c: char, i: int)
    requires
        0 <= i <= s.len(),
    ensures
        chars_onto(acc, s.push(c), i) == chars_onto(acc, s, i) + json_char(c),
    decreases s.len() - i,
{
    let more = s.push(c);
    if i < s.len() {
        assert(more[i] == s[i]);
        lemma_char_added(acc + json_char(s[i]), s, c, i + 1);
    } else {
        assert(more[i] == c);
        reveal_with_fuel(chars_onto, 3);
    }
}

/// The text between the quotes of a JSON string.
pub open spec fn json_body(s: Seq<char>) -> Seq<char> {
    chars_onto(Seq::empty(), s, 0)
}

/// A JSON string stands in quotes and holds its characters in order, each in its
/// own form.
pub proof fn law_json_strings_hold_their_characters(acc: Seq<char>, s: Seq<char>, c: char)
    ensures
        string_onto(acc, s) == acc + (seq!['"'] + json_body(s) + seq!['"']),
        json_body(Seq::empty()).len() == 0,
        json_body(s.push(c)) == json_body(s) + json_char(c),
{
    lemma_chars_lifted(acc.push('"'), s, 0);
    assert(string_onto(acc, s) =~= acc + (seq!['"'] + json_body(s) + seq!['"']));
    lemma_char_added(Seq::empty(), s, c, 0);
}

/// Quotes and backslashes have a backslash in front, control characters are
/// written by their number in four hexadecimal digits, and every other character
/// stands for itself.
pub proof fn law_json_characters_are_escaped(c: char)
    ensures
        c == '"' ==> json_char(c) == seq!['\\', '"'],
        c == '\\' ==> json_char(c) == seq!['\\', '\\'],
        c >= ' ' && c != '"' && c != '\\' ==> json_char(c) == seq![c],
        ' ' > c ==> json_char(c) == seq![
            '\\',
            'u',
            '0',
            '0',
            if '\u{10}' > c {
                '0'
            } else {
                '1'
            },
            hex_digit((c as int) % 16),
        ],
        forall|d: int|
            0 <= d < 16 ==> (#[trigger] hex_digit(d)) as int == if d < 10 {
                '0' as int + d
            } else {
                'a' as int + d - 10
            },
{
    if ' ' > c {
        assert(hex_digit((c as int) / 16) == if '\u{10}' > c {
            '0'
        } else {
            '1'
        });
    }
}

/// Booleans, numbers, optional values and arrays as JSON.
pub proof fn law_json_of_plain_values(
    acc: Seq<char>,
    b: bool,
    n: i64,
    k: usize,
    s: Seq<char>,
    items: Seq<Seq<char>>,
)
    ensures
        bool_onto(acc, true) == acc + "true"@,
        bool_onto(acc, false) == acc + "false"@,
        int_onto(acc, Some(n)) == acc + int_text(n as int),
        int_onto(acc, None) == acc + "null"@,
        size_onto(acc, Some(k)) == acc + decimal(k as nat),
        size_onto(acc, None) == acc + "null"@,
        option_onto(acc, Some(s)) == string_onto(acc, s),
        option_onto(acc, None) == acc + "null"@,
        array_onto(acc, items) == strings_onto(acc + "["@, items, 0) + "]"@,
{
}

// ---------------------------------------------------------------------
// Lists
// ---------------------------------------------------------------------

/// A text with a comma behind it where an item is not the first.
pub open spec fn with_comma(acc: Seq<char>, i: int) -> Seq<char> {
    if i > 0 {
        acc + ","@
    } else {
        acc
    }
}

/// A threshold as JSON.
pub open spec fn step_onto(acc: Seq<char>, t: Threshold) -> Seq<char> {
    int_onto(acc + "{\"value\":"@, t.value) + ",\"color\":"@ + role_name(t.color) + "}"@
}

/// A datasource as JSON.
pub open spec fn datasource_onto(acc: Seq<char>, d: DatasourceView) -> Seq<char> {
    string_onto(string_onto(acc + "{\"uid\":"@, d.uid) + ",\"wire_type\":"@, d.wire_type)
        + ",\"query_lang\":"@ + lang_name(d.query_lang) + "}"@
}

/// One of the other expressions of a query as a JSON member.
pub open spec fn alt_onto(acc: Seq<char>, e: (Seq<char>, Seq<char>)) -> Seq<char> {
    string_onto(string_onto(acc, e.0) + ":"@, e.1)
}

/// A field as a JSON member under its name.
pub open spec fn member_onto(acc: Seq<char>, e: (Seq<char>, FieldView)) -> Seq<char> {
    field_onto(string_onto(acc, e.0) + ":"@, e.1)
}

proof fn lemma_query_added(acc: Seq<char>, xs: Seq<QueryView>, x: QueryView, i: int)
    requires
        0 <= i <= xs.len(),
    ensures
        queries_onto(acc, xs.push(x), i) == query_onto(with_comma(queries_onto(acc, xs, i), xs.len() as int), x),
    decreases xs.len() - i,
{
    let more = xs.push(x);
    if i < xs.len() {
        assert(more[i] == xs[i]);
        let next = query_onto(comma_onto(acc, i), xs[i]);
        lemma_query_added(next, xs, x, i + 1);
    } else {
        assert(more[i] == x);
        reveal_with_fuel(queries_onto, 3);
    }
}

proof fn lemma_panel_added(acc: Seq<char>, xs: Seq<PanelView>, x: PanelView, i: int)
    requires
        0 <= i <= xs.len(),
    ensures
        panels_onto(acc, xs.push(x), i) == panel_onto(with_comma(panels_onto(acc, xs, i), xs.len() as int), x),
    decreases xs.len() - i,
{
    let more = xs.push(x);
    if i < xs.len() {
        assert(more[i] == xs[i]);
        let next = panel_onto(comma_onto(acc, i), xs[i]);
        lemma_panel_added(next, xs, x, i + 1);
    } else {
        assert(more[i] == x);
        reveal_with_fuel(panels_onto, 3);
    }
}

proof fn lemma_row_added(acc: Seq<char>, xs: Seq<RowView>, x: RowView, i: int)
    requires
        0 <= i <= xs.len(),
    ensures
        rows_onto(acc, xs.push(x), i) == row_onto(with_comma(rows_onto(acc, xs, i), xs.len() as int), x),
    decreases xs.len() - i,
{
    let more = xs.push(x);
    if i < xs.len() {
        assert(more[i] == xs[i]);
        let next = row_onto(comma_onto(acc, i), xs[i]);
        lemma_row_added(next, xs, x, i + 1);
    } else {
        assert(more[i] == x);
        reveal_with_fuel(rows_onto, 3);
    }
}

proof fn lemma_variable_added(acc: Seq<char>, xs: Seq<VariableView>, x: VariableView, i: int)
    requires
        0 <= i <= xs.len(),
    ensures
        variables_onto(acc, xs.push(x), i) == variable_onto(with_comma(variables_onto(acc, xs, i), xs.len() as int), x),
    decreases xs.len() - i,
{
    let more = xs.push(x);
    if i < xs.len() {
        assert(more[i] == xs[i]);
        let next = variable_onto(comma_onto(acc, i), xs[i]);
        lemma_variable_added(next, xs, x, i + 1);
    } else {
        assert(more[i] == x);
        reveal_with_fuel(variables_onto, 3);
    }
}

proof fn lemma_annotation_added(acc: Seq<char>, xs: Seq<AnnotationView>, x: AnnotationView, i: int)
    requires
        0 <= i <= xs.len(),
    ensures
        annotations_onto(acc, xs.push(x), i) == annotation_onto(with_comma(annotations_onto(acc, xs, i), xs.len() as int), x),
    decreases xs.len() - i,
{
    let more = xs.push(x);
    if i < xs.len() {
        assert(more[i] == xs[i]);
        let next = annotation_onto(comma_onto(acc, i), xs[i]);
        lemma_annotation_added(next, xs, x, i + 1);
    } else {
        assert(more[i] == x);
        reveal_with_fuel(annotations_onto, 3);
    }
}

proof fn lemma_string_added(acc: Seq<char>, xs: Seq<Seq<char>>, x: Seq<char>, i: int)
    requires
        0 <= i <= xs.len(),
    ensures
        strings_onto(acc, xs.push(x), i) == string_onto(with_comma(strings_onto(acc, xs, i), xs.len() as int), x),
    decreases xs.len() - i,
{
    let more = xs.push(x);
    if i < xs.len() {
        assert(more[i] == xs[i]);
        let next = string_onto(comma_onto(acc, i), xs[i]);
        lemma_string_added(next, xs, x, i + 1);
    } else {
        assert(more[i] == x);
        reveal_with_fuel(strings_onto, 3);
    }
}

proof fn lemma_step_added(acc: Seq<char>, xs: Seq<Threshold>, x: Threshold, i: int)
    requires
        0 <= i <= xs.len(),
    ensures
        steps_onto(acc, xs.push(x), i) == step_onto(with_comma(steps_onto(acc, xs, i), xs.len() as int), x),
    decreases xs.len() - i,
{
    let more = xs.push(x);
    if i < xs.len() {
        assert(more[i] == xs[i]);
        let next = step_onto(comma_onto(acc, i), xs[i]);
        lemma_step_added(next, xs, x, i + 1);
    } else {
        assert(more[i] == x);
        reveal_with_fuel(steps_onto, 3);
    }
}

proof fn lemma_datasource_added(acc: Seq<char>, xs: Seq<DatasourceView>, x: DatasourceView, i: int)
    requires
        0 <= i <= xs.len(),
    ensures
        datasources_onto(acc, xs.push(x), i) == datasource_onto(with_comma(datasources_onto(acc, xs, i), xs.len() as int), x),
    decreases xs.len() - i,
{
    let more = xs.push(x);
    if i < xs.len() {
        assert(more[i] == xs[i]);
        let next = datasource_onto(comma_onto(acc, i), xs[i]);
        lemma_datasource_added(next, xs, x, i + 1);
    } else {
        assert(more[i] == x);
        reveal_with_fuel(datasources_onto, 3);
    }
}

proof fn lemma_alt_added(acc: Seq<char>, xs: Seq<(Seq<char>, Seq<char>)>, x: (Seq<char>, Seq<char>), i: int)
    requires
        0 <= i <= xs.len(),
    ensures
        alts_onto(acc, xs.push(x), i) == alt_onto(with_comma(alts_onto(acc, xs, i), xs.len() as int), x),
    decreases xs.len() - i,
{
    let more = xs.push(x);
    if i < xs.len() {
        assert(more[i] == xs[i]);
        let next = alt_onto(comma_onto(acc, i), xs[i]);
        lemma_alt_added(next, xs, x, i + 1);
    } else {
        assert(more[i] == x);
        reveal_with_fuel(alts_onto, 3);
    }
}

proof fn lemma_field_added(acc: Seq<char>, xs: Seq<(Seq<char>, FieldView)>, x: (Seq<char>, FieldView), i: int)
    requires
        0 <= i <= xs.len(),
    ensures
        fields_onto(acc, xs.push(x), i) == member_onto(with_comma(fields_onto(acc, xs, i), xs.len() as int), x),
    decreases xs.len() - i,
{
    let more = xs.push(x);
    if i < xs.len() {
        assert(more[i] == xs[i]);
        let next = member_onto(comma_onto(acc, i), xs[i]);
        lemma_field_added(next, xs, x, i + 1);
    } else {
        assert(more[i] == x);
        reveal_with_fuel(fields_onto, 3);
    }
}

/// Lists are written item by item, with commas between neighbours: one more item
/// comes behind the others, and nothing else changes.
pub proof fn law_json_lists_hold_their_items(
    acc: Seq<char>,
    querys: Seq<QueryView>,
    query: QueryView,
    panels: Seq<PanelView>,
    panel: PanelView,
    rows: Seq<RowView>,
    row: RowView,
    variables: Seq<VariableView>,
    variable: VariableView,
    annotations: Seq<AnnotationView>,
    annotation: AnnotationView,
    strings: Seq<Seq<char>>,
    string: Seq<char>,
    steps: Seq<Threshold>,
    step: Threshold,
    datasources: Seq<DatasourceView>,
    datasource: DatasourceView,
    alts: Seq<(Seq<char>, Seq<char>)>,
    alt: (Seq<char>, Seq<char>),
    fields: Seq<(Seq<char>, FieldView)>,
    field: (Seq<char>, FieldView),
)
    ensures
        queries_onto(acc, Seq::empty(), 0) == acc,
        queries_onto(acc, querys.push(query), 0) == query_onto(with_comma(queries_onto(acc, querys, 0), querys.len() as int), query),
        panels_onto(acc, Seq::empty(), 0) == acc,
        panels_onto(acc, panels.push(panel), 0) == panel_onto(with_comma(panels_onto(acc, panels, 0), panels.len() as int), panel),
        rows_onto(acc, Seq::empty(), 0) == acc,
        rows_onto(acc, rows.push(row), 0) == row_onto(with_comma(rows_onto(acc, rows, 0), rows.len() as int), row),
        variables_onto(acc, Seq::empty(), 0) == acc,
        variables_onto(acc, variables.push(variable), 0) == variable_onto(with_comma(variables_onto(acc, variables, 0), variables.len() as int), variable),
        annotations_onto(acc, Seq::empty(), 0) == acc,
        annotations_onto(acc, annotations.push(annotation), 0) == annotation_onto(with_comma(annotations_onto(acc, annotations, 0), annotations.len() as int), annotation),
        strings_onto(acc, Seq::empty(), 0) == acc,
        strings_onto(acc, strings.push(string), 0) == string_onto(with_comma(strings_onto(acc, strings, 0), strings.len() as int), string),
        steps_onto(acc, Seq::empty(), 0) == acc,
        steps_onto(acc, steps.push(step), 0) == step_onto(with_comma(steps_onto(acc, steps, 0), steps.len() as int), step),
        datasources_onto(acc, Seq::empty(), 0) == acc,
        datasources_onto(acc, datasources.push(datasource), 0) == datasource_onto(with_comma(datasources_onto(acc, datasources, 0), datasources.len() as int), datasource),
        alts_onto(acc, Seq::empty(), 0) == acc,
        alts_onto(acc, alts.push(alt), 0) == alt_onto(with_comma(alts_onto(acc, alts, 0), alts.len() as int), alt),
        fields_onto(acc, Seq::empty(), 0) == acc,
        fields_onto(acc, fields.push(field), 0) == member_onto(with_comma(fields_onto(acc, fields, 0), fields.len() as int), field),
{
    lemma_query_added(acc, querys, query, 0);
    lemma_panel_added(acc, panels, panel, 0);
    lemma_row_added(acc, rows, row, 0);
    lemma_variable_added(acc, variables, variable, 0);
    lemma_annotation_added(acc, annotations, annotation, 0);
    lemma_string_added(acc, strings, string, 0);
    lemma_step_added(acc, steps, step, 0);
    lemma_datasource_added(acc, datasources, datasource, 0);
    lemma_alt_added(acc, alts, alt, 0);
    lemma_field_added(acc, fields, field, 0);
}

// ---------------------------------------------------------------------
// Documents
// ---------------------------------------------------------------------

/// A JSON string on its own.
pub open spec fn js(s: Seq<char>) -> Seq<char> {
    seq!['"'] + json_body(s) + seq!['"']
}

/// An optional JSON string on its own.
pub open spec fn js_option(s: Option<Seq<char>>) -> Seq<char> {
    match s {
        Some(t) => js(t),
        None => "null"@,
    }
}

/// A boolean on its own.
pub open spec fn js_bool(b: bool) -> Seq<char> {
    if b {
        "true"@
    } else {
        "false"@
    }
}

/// An optional integer on its own.
pub open spec fn js_int(n: Option<i64>) -> Seq<char> {
    match n {
        Some(v) => int_text(v as int),
        None => "null"@,
    }
}

proof fn lemma_js(acc: Seq<char>, s: Seq<char>)
    ensures
        string_onto(acc, s) == acc + js(s),
        option_onto(acc, Some(s)) == acc + js(s),
{
    law_json_strings_hold_their_characters(acc, s, ' ');
}

proof fn lemma_js_option(acc: Seq<char>, s: Option<Seq<char>>)
    ensures
        option_onto(acc, s) == acc + js_option(s),
{
    if let Some(t) = s {
        lemma_js(acc, t);
    }
}

/// A query as JSON, with each of its parts under its own name.
pub proof fn law_json_of_a_query(acc: Seq<char>, q: QueryView)
    ensures
        query_onto(acc, q) == alts_onto(acc + "{\"reference\":"@ + js(q.reference) + ",\"expr\":"@ + js(q.expr) + ",\"datasource_uid\":"@ + js(q.datasource_uid) + ",\"legend\":"@ + js_option(q.legend) + ",\"instant\":"@ + js_bool(q.instant) + ",\"hide\":"@ + js_bool(q.hide) + ",\"presence\":"@ + presence_name(q.presence) + ",\"alt_exprs\":{"@, ordered(q.alt_exprs), 0) + "}}"@,
{
    lemma_js(acc + "{\"reference\":"@, q.reference);
    lemma_js(acc + "{\"reference\":"@ + js(q.reference) + ",\"expr\":"@, q.expr);
    lemma_js(acc + "{\"reference\":"@ + js(q.reference) + ",\"expr\":"@ + js(q.expr) + ",\"datasource_uid\":"@, q.datasource_uid);
    lemma_js_option(acc + "{\"reference\":"@ + js(q.reference) + ",\"expr\":"@ + js(q.expr) + ",\"datasource_uid\":"@ + js(q.datasource_uid) + ",\"legend\":"@, q.legend);
}

/// A panel as JSON, with each of its parts under its own name.
pub proof fn law_json_of_a_panel(acc: Seq<char>, p: PanelView)
    ensures
        panel_onto(acc, p) == steps_onto(queries_onto(acc + "{\"id\":"@ + js(p.id) + ",\"kind\":"@ + panel_kind_name(p.kind) + ",\"title\":"@ + js(p.title) + ",\"description\":"@ + js_option(p.description) + ",\"unit\":"@ + js_option(p.unit) + ",\"min\":"@ + js_int(p.min) + ",\"max\":"@ + js_int(p.max) + ",\"decimals\":"@ + (if p.decimals is Some { decimal(p.decimals->0 as nat) } else { "null"@ }) + ",\"queries\":["@, p.queries, 0) + "],\"thresholds\":{\"mode\":"@ + threshold_mode_name(p.mode) + ",\"steps\":["@, p.steps, 0) + "]},\"width\":"@ + decimal(p.width as nat) + ",\"height\":"@ + decimal(p.height as nat) + ",\"display_mode\":"@ + display_name(p.display_mode) + ",\"graph\":"@ + graph_name(p.graph) + "}"@,
{
    lemma_js(acc + "{\"id\":"@, p.id);
    lemma_js(acc + "{\"id\":"@ + js(p.id) + ",\"kind\":"@ + panel_kind_name(p.kind) + ",\"title\":"@, p.title);
    lemma_js_option(acc + "{\"id\":"@ + js(p.id) + ",\"kind\":"@ + panel_kind_name(p.kind) + ",\"title\":"@ + js(p.title) + ",\"description\":"@, p.description);
    lemma_js_option(acc + "{\"id\":"@ + js(p.id) + ",\"kind\":"@ + panel_kind_name(p.kind) + ",\"title\":"@ + js(p.title) + ",\"description\":"@ + js_option(p.description) + ",\"unit\":"@, p.unit);
}

/// A row as JSON, with each of its parts under its own name.
pub proof fn law_json_of_a_row(acc: Seq<char>, r: RowView)
    ensures
        row_onto(acc, r) == panels_onto(acc + "{\"title\":"@ + js(r.title) + ",\"collapsed\":"@ + js_bool(r.collapsed) + ",\"panels\":["@, r.panels, 0) + "]}"@,
{
    lemma_js(acc + "{\"title\":"@, r.title);
}

/// A variable as JSON, with each of its parts under its own name.
pub proof fn law_json_of_a_variable(acc: Seq<char>, v: VariableView)
    ensures
        variable_onto(acc, v) == array_onto(acc + "{\"name\":"@ + js(v.name) + ",\"kind\":"@ + variable_kind_name(v.kind) + ",\"label\":"@ + js_option(v.label) + ",\"datasource_uid\":"@ + js_option(v.datasource_uid) + ",\"query\":"@ + js_option(v.query) + ",\"options\":"@, v.options) + ",\"multi\":"@ + js_bool(v.multi) + ",\"include_all\":"@ + js_bool(v.include_all) + "}"@,
{
    lemma_js(acc + "{\"name\":"@, v.name);
    lemma_js_option(acc + "{\"name\":"@ + js(v.name) + ",\"kind\":"@ + variable_kind_name(v.kind) + ",\"label\":"@, v.label);
    lemma_js_option(acc + "{\"name\":"@ + js(v.name) + ",\"kind\":"@ + variable_kind_name(v.kind) + ",\"label\":"@ + js_option(v.label) + ",\"datasource_uid\":"@, v.datasource_uid);
    lemma_js_option(acc + "{\"name\":"@ + js(v.name) + ",\"kind\":"@ + variable_kind_name(v.kind) + ",\"label\":"@ + js_option(v.label) + ",\"datasource_uid\":"@ + js_option(v.datasource_uid) + ",\"query\":"@, v.query);
}

/// An annotation as JSON, with each of its parts under its own name.
pub proof fn law_json_of_an_annotation(acc: Seq<char>, a: AnnotationView)
    ensures
        annotation_onto(acc, a) == acc + "{\"name\":"@ + js(a.name) + ",\"datasource_uid\":"@ + js(a.datasource_uid) + ",\"expr\":"@ + js(a.expr) + ",\"color\":"@ + role_name(a.color) + ",\"enable\":"@ + js_bool(a.enable) + "}"@,
{
    lemma_js(acc + "{\"name\":"@, a.name);
    lemma_js(acc + "{\"name\":"@ + js(a.name) + ",\"datasource_uid\":"@, a.datasource_uid);
    lemma_js(acc + "{\"name\":"@ + js(a.name) + ",\"datasource_uid\":"@ + js(a.datasource_uid) + ",\"expr\":"@, a.expr);
}

/// A board as JSON, with each of its parts under its own name.
pub proof fn law_json_of_a_board(d: DashboardView)
    ensures
        board_text(d) == datasources_onto(rows_onto(annotations_onto(variables_onto(array_onto("{\"uid\":"@ + js(d.uid) + ",\"title\":"@ + js(d.title) + ",\"description\":"@ + js_option(d.description) + ",\"tags\":"@, d.tags) + ",\"refresh\":"@ + js_option(d.refresh) + ",\"time\":{\"from\":"@ + js(d.time_from) + ",\"to\":"@ + js(d.time_to) + "},\"timezone\":"@ + js(d.timezone) + ",\"editable\":"@ + js_bool(d.editable) + ",\"variables\":["@, d.variables, 0) + "],\"annotations\":["@, d.annotations, 0) + "],\"rows\":["@, d.rows, 0) + "],\"datasources\":["@, d.datasources, 0) + "]}"@,
{
    lemma_js("{\"uid\":"@, d.uid);
    lemma_js("{\"uid\":"@ + js(d.uid) + ",\"title\":"@, d.title);
    lemma_js_option("{\"uid\":"@ + js(d.uid) + ",\"title\":"@ + js(d.title) + ",\"description\":"@, d.description);
    lemma_js_option(array_onto("{\"uid\":"@ + js(d.uid) + ",\"title\":"@ + js(d.title) + ",\"description\":"@ + js_option(d.description) + ",\"tags\":"@, d.tags) + ",\"refresh\":"@, d.refresh);
    lemma_js(array_onto("{\"uid\":"@ + js(d.uid) + ",\"title\":"@ + js(d.title) + ",\"description\":"@ + js_option(d.description) + ",\"tags\":"@, d.tags) + ",\"refresh\":"@ + js_option(d.refresh) + ",\"time\":{\"from\":"@, d.time_from);
    lemma_js(array_onto("{\"uid\":"@ + js(d.uid) + ",\"title\":"@ + js(d.title) + ",\"description\":"@ + js_option(d.description) + ",\"tags\":"@, d.tags) + ",\"refresh\":"@ + js_option(d.refresh) + ",\"time\":{\"from\":"@ + js(d.time_from) + ",\"to\":"@, d.time_to);
    lemma_js(array_onto("{\"uid\":"@ + js(d.uid) + ",\"title\":"@ + js(d.title) + ",\"description\":"@ + js_option(d.description) + ",\"tags\":"@, d.tags) + ",\"refresh\":"@ + js_option(d.refresh) + ",\"time\":{\"from\":"@ + js(d.time_from) + ",\"to\":"@ + js(d.time_to) + "},\"timezone\":"@, d.timezone);
}

/// A field as JSON, with each of its parts under its own name.
pub proof fn law_json_of_a_field(acc: Seq<char>, f: FieldView)
    ensures
        field_onto(acc, f) == type_onto(acc + "{\"type\":"@, f.ty) + ",\"required\":"@ + js_bool(f.required) + ",\"default\":"@ + js_option(f.default) + ",\"doc\":"@ + js_option(f.doc) + ",\"loose\":"@ + js_bool(f.loose) + "}"@,
{
    lemma_js_option(type_onto(acc + "{\"type\":"@, f.ty) + ",\"required\":"@ + js_bool(f.required) + ",\"default\":"@, f.default);
    lemma_js_option(type_onto(acc + "{\"type\":"@, f.ty) + ",\"required\":"@ + js_bool(f.required) + ",\"default\":"@ + js_option(f.default) + ",\"doc\":"@, f.doc);
}

/// An interface as JSON, with each of its parts under its own name.
pub proof fn law_json_of_an_interface(v: InterfaceView)
    ensures
        interface_text(v) == fields_onto(fields_onto("{\"name\":"@ + js(v.name) + ",\"doc\":"@ + js_option(v.doc) + ",\"inputs\":{"@, v.inputs, 0) + "},\"outputs\":{"@, v.outputs, 0) + "}}"@,
{
    lemma_js("{\"name\":"@, v.name);
    lemma_js_option("{\"name\":"@ + js(v.name) + ",\"doc\":"@, v.doc);
}

/// A type as JSON: its kind under its own name, and its parameters under theirs.
pub proof fn law_json_of_types(
    acc: Seq<char>,
    lo: i64,
    hi: i64,
    first: u16,
    last: u16,
    min: usize,
    max: usize,
    source: Seq<char>,
    values: Seq<Seq<char>>,
    inner: TypeView,
    least: Option<usize>,
    most: Option<usize>,
)
    ensures
        type_onto(acc, TypeView::Any) == acc + "{\"kind\":\"any\"}"@,
        type_onto(acc, TypeView::Dynamic) == acc + "{\"kind\":\"dynamic\"}"@,
        type_onto(acc, TypeView::Text) == acc + "{\"kind\":\"string\"}"@,
        type_onto(acc, TypeView::Integer) == acc + "{\"kind\":\"integer\"}"@,
        type_onto(acc, TypeView::Boolean) == acc + "{\"kind\":\"boolean\"}"@,
        type_onto(acc, TypeView::CidrBlock) == acc + "{\"kind\":\"cidr-block\"}"@,
        type_onto(acc, TypeView::Ipv4) == acc + "{\"kind\":\"ipv4\"}"@,
        type_onto(acc, TypeView::Ipv6) == acc + "{\"kind\":\"ipv6\"}"@,
        type_onto(acc, TypeView::Hostname) == acc + "{\"kind\":\"hostname\"}"@,
        type_onto(acc, TypeView::AvailabilityZone) == acc + "{\"kind\":\"availability-zone\"}"@,
        type_onto(acc, TypeView::Email) == acc + "{\"kind\":\"email\"}"@,
        type_onto(acc, TypeView::Url) == acc + "{\"kind\":\"url\"}"@,
        type_onto(acc, TypeView::PortRange { lo: first, hi: last }) == acc
            + "{\"kind\":\"port-range\",\"lo\":"@ + decimal(first as nat) + ",\"hi\":"@ + decimal(
            last as nat,
        ) + "}"@,
        type_onto(acc, TypeView::Enum { values }) == array_onto(
            acc + "{\"kind\":\"enum\",\"values\":"@,
            values,
        ) + "}"@,
        type_onto(acc, TypeView::IntRange { lo, hi }) == acc
            + "{\"kind\":\"int-range\",\"lo\":"@ + int_text(lo as int) + ",\"hi\":"@ + int_text(
            hi as int,
        ) + "}"@,
        type_onto(acc, TypeView::Length { min, max }) == acc
            + "{\"kind\":\"length\",\"min\":"@ + decimal(min as nat) + ",\"max\":"@ + decimal(
            max as nat,
        ) + "}"@,
        type_onto(acc, TypeView::Pattern { source, match_kind: MatchKind::Contains }) == acc
            + "{\"kind\":\"pattern\",\"source\":"@ + js(source) + ",\"match_kind\":\""@
            + "contains"@ + "\"}"@,
        type_onto(acc, TypeView::Pattern { source, match_kind: MatchKind::StartsWith }) == acc
            + "{\"kind\":\"pattern\",\"source\":"@ + js(source) + ",\"match_kind\":\""@
            + "starts-with"@ + "\"}"@,
        type_onto(acc, TypeView::Pattern { source, match_kind: MatchKind::EndsWith }) == acc
            + "{\"kind\":\"pattern\",\"source\":"@ + js(source) + ",\"match_kind\":\""@
            + "ends-with"@ + "\"}"@,
        type_onto(
            acc,
            TypeView::ListOf { inner: Box::new(inner), min_items: least, max_items: most },
        ) == size_onto(
            size_onto(
                type_onto(acc + "{\"kind\":\"list-of\",\"inner\":"@, inner)
                    + ",\"min_items\":"@,
                least,
            ) + ",\"max_items\":"@,
            most,
        ) + "}"@,
{
    lemma_js(acc + "{\"kind\":\"pattern\",\"source\":"@, source);
    reveal_with_fuel(type_onto, 2);
}

} // verus!
