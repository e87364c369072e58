use lava_eval::board::{
    DisplayMode, GraphMode, PanelKind, Presence, QueryLang, Role, Theme, VariableKind,
};
use lava_eval::dashboard::eval_dashboard;
use lava_eval::error::EvalError;
use lava_eval::render::{
    fits_on_grid, render_board, render_dashboard_grafana_json, rendering_result,
};

const SRC: &str = r#"
(deflava-dashboard fedramp-audit
  :uid "fedramp-audit"
  :title "FedRAMP · audit pipeline"
  :description "AU-5a / AU-9b / AU-12 coverage"
  :tags ("fedramp" "audit")
  :refresh "1m"
  :timezone "utc"
  :time (:from "now-6h" :to "now")
  :datasources ((:uid "mimir" :type "prometheus" :lang "promql")
                (:uid "clickhouse" :type "grafana-clickhouse-datasource" :lang "sql"))
  :rows ((:title "audit sink"
          :panels ((:id "sink_errors"
                    :kind "stat"
                    :title "Sink errors /5m"
                    :unit "short"
                    :description "AU-5a — a failing sink means audit records are being dropped."
                    :queries ((:ref "A"
                               :expr "sum(increase(vector_component_errors_total{component_kind=\"sink\"}[5m]))"
                               :datasource "mimir"
                               :presence "conditional"))
                    :thresholds ((:color "success") (:value 1 :color "danger")))
                   (:id "audit_rows"
                    :kind "table"
                    :title "Audit rows"
                    :queries ((:expr "SELECT count() FROM audit" :datasource "clickhouse")))))
         (:title "storage"
          :collapsed #t
          :panels ((:id "pvc_used"
                    :kind "gauge"
                    :title "Audit PVC used %"
                    :unit "percent"
                    :queries ((:expr "kubelet_volume_stats_used_bytes" :datasource "mimir"))))))
)
"#;

#[test]
fn a_dashboard_form_evaluates_to_a_typed_document() {
    let d = eval_dashboard(SRC).unwrap();
    assert_eq!(d.uid, "fedramp-audit");
    assert_eq!(d.title, "FedRAMP · audit pipeline");
    assert_eq!(d.tags, vec!["fedramp", "audit"]);
    assert_eq!(d.refresh.as_deref(), Some("1m"));
    assert_eq!(d.time.from, "now-6h");
    assert_eq!(d.datasources.0.len(), 2);
    assert_eq!(d.rows.len(), 2);
    assert_eq!(d.rows[0].panels.len(), 2);
    assert!(d.rows[1].collapsed);
    // refId defaults positionally so an author only names it when
    // something references it.
    assert_eq!(d.rows[0].panels[1].queries[0].reference, "A");
    assert_eq!(
        d.rows[0].panels[0].queries[0].presence,
        Presence::Conditional
    );
}

#[test]
fn this_form_is_only_expressible_because_eval_value_nests() {
    // The document is maps inside arrays inside maps, four deep:
    //   :rows → [ {:panels → [ {:queries → [ {…} ]} ]} ]
    let d = eval_dashboard(SRC).unwrap();
    let q = &d.rows[0].panels[0].queries[0];
    assert!(q.expr.contains("vector_component_errors_total"));
    assert_eq!(d.rows[0].panels[0].thresholds.steps.len(), 2);
}

#[test]
fn it_renders_end_to_end_to_grafana_json() {
    let j = render_dashboard_grafana_json(SRC, &Theme::tundra()).unwrap();
    assert_eq!(j["schemaVersion"], 39);
    assert_eq!(j["uid"], "fedramp-audit");
    assert_eq!(j["refresh"], "1m");
    // 2 rows: row header + 2 panels expanded, then a collapsed row
    // whose child rides inside it.
    let panels = j["panels"].as_array().unwrap();
    assert_eq!(panels.len(), 4, "row + 2 panels + collapsed row");
    assert_eq!(panels[3]["type"], "row");
    assert_eq!(panels[3]["collapsed"], true);
    assert_eq!(panels[3]["panels"].as_array().unwrap().len(), 1);
    // The SQL datasource took the rawSql arm.
    assert_eq!(panels[2]["targets"][0]["rawSql"], "SELECT count() FROM audit");
}

#[test]
fn an_unknown_panel_kind_names_the_alternatives() {
    let src = r#"(deflava-dashboard d :uid "d" :title "d"
        :datasources ((:uid "m" :type "prometheus" :lang "promql"))
        :rows ((:title "r" :panels ((:id "p" :kind "sparkline" :title "P"
                 :queries ((:expr "up" :datasource "m")))))))"#;
    let e = eval_dashboard(src).unwrap_err();
    let msg = e.message();
    assert!(msg.contains("sparkline"), "{msg}");
    assert!(msg.contains("timeseries"), "must name the valid set: {msg}");
}

#[test]
fn a_hex_colour_is_refused_because_roles_are_semantic() {
    // r##"…"## — a bare r#"…"# terminates on the `"#` inside the hex
    // literal this very test is about.
    let src = r##"(deflava-dashboard d :uid "d" :title "d"
        :datasources ((:uid "m" :type "prometheus" :lang "promql"))
        :rows ((:title "r" :panels ((:id "p" :kind "stat" :title "P"
                 :queries ((:expr "up" :datasource "m"))
                 :thresholds ((:color "#FF0000")))))))"##;
    let msg = eval_dashboard(src).unwrap_err().message();
    assert!(msg.contains("#FF0000"), "{msg}");
    assert!(msg.contains("semantic"), "must say why: {msg}");
}

#[test]
fn a_document_level_rejection_surfaces_through_the_renderer() {
    // Structurally fine, semantically wrong: a logs query pointed at
    // the metrics datasource.
    let src = r#"(deflava-dashboard d :uid "d" :title "d"
        :datasources ((:uid "m" :type "prometheus" :lang "promql"))
        :rows ((:title "r" :panels ((:id "p" :kind "table" :title "P"
                 :queries ((:expr "{job=\"x\"} | json" :datasource "m")))))))"#;
    assert!(eval_dashboard(src).is_ok(), "the form itself is well-shaped");
    let msg = render_dashboard_grafana_json(src, &Theme::tundra())
        .unwrap_err()
        .message();
    assert!(msg.contains("dashboard:"), "{msg}");
    assert!(msg.contains("PromQl") || msg.contains("LogsQl"), "{msg}");
}

#[test]
fn rendering_the_same_source_twice_is_byte_identical() {
    let a = serde_json::to_string(
        &render_dashboard_grafana_json(SRC, &Theme::tundra()).unwrap(),
    )
    .unwrap();
    for _ in 0..8 {
        let b = serde_json::to_string(
            &render_dashboard_grafana_json(SRC, &Theme::tundra()).unwrap(),
        )
        .unwrap();
        assert_eq!(a, b);
    }
}

const FULL: &str = r#"
(deflava-dashboard my_board-x
  :tags "single"
  :refresh #f
  :editable #f
  :time (:to "now-1m")
  :datasources ((:uid "m") (:uid "l" :type "loki" :lang "logsql")
                (:uid "m" :type "prom2" :lang "sql"))
  :variables ((:name "v" :kind "custom" :label "L" :datasource "m" :query "q"
               :options ("a" 5 "b") :multi #t :include-all #t)
              (:name "w"))
  :annotations ((:name "deploys" :datasource "m" :expr "e" :color "warning" :enable #f)
                (:name "d2" :datasource "m" :expr "e2"))
  :rows (:title "only"
         :panels (:id "p" :title "P" :min -1 :max 10 :width 8 :height 70000
                  :display "background" :graph "none"
                  :queries ((:expr "SELECT a FROM b" :datasource "m" :legend "lg" :instant #t
                             :hide #t :presence "event-driven"
                             :alt-exprs (:z "zz" :a "aa" :skip 5))
                            (:expr "x" :datasource "m" :ref "own")
                            (:expr "y" :datasource "m"))
                  :thresholds ((:value 2) (:value 5 :color "primary")))))
"#;

#[test]
fn every_field_of_a_board_is_read() {
    let d = eval_dashboard(FULL).unwrap();
    assert_eq!(d.uid, "my-board-x");
    assert_eq!(d.title, "my board x");
    assert_eq!(d.description, None);
    assert_eq!(d.tags, vec!["single"]);
    assert_eq!(d.refresh, None);
    assert!(!d.editable);
    assert_eq!(d.time.from, "now-1h");
    assert_eq!(d.time.to, "now-1m");
    assert_eq!(d.timezone, "utc");
    // A second registration takes the place of the first.
    assert_eq!(d.datasources.0.len(), 2);
    assert_eq!(d.datasources.0[0].uid, "m");
    assert_eq!(d.datasources.0[0].wire_type, "prom2");
    assert_eq!(d.datasources.0[0].query_lang, QueryLang::Sql);
    assert_eq!(d.datasources.0[1].query_lang, QueryLang::LogsQl);
    let v = &d.variables[0];
    assert_eq!(v.kind, VariableKind::Custom);
    assert_eq!(v.label.as_deref(), Some("L"));
    assert_eq!(v.datasource_uid.as_deref(), Some("m"));
    assert_eq!(v.query.as_deref(), Some("q"));
    assert_eq!(v.options, vec!["a", "b"]);
    assert!(v.multi && v.include_all);
    assert_eq!(d.variables[1].kind, VariableKind::Query);
    assert!(!d.variables[1].multi);
    assert_eq!(d.annotations[0].color, Role::Warning);
    assert!(!d.annotations[0].enable);
    assert_eq!(d.annotations[1].color, Role::Info);
    assert!(d.annotations[1].enable);
    // One row and one panel need no wrapping.
    assert_eq!(d.rows.len(), 1);
    assert!(!d.rows[0].collapsed);
    let p = &d.rows[0].panels[0];
    assert_eq!(p.kind, PanelKind::TimeSeries);
    assert_eq!((p.min, p.max), (Some(-1), Some(10)));
    assert_eq!((p.width, p.height), (8, 8));
    assert_eq!(p.display_mode, DisplayMode::Background);
    assert_eq!(p.graph, GraphMode::Off);
    let refs: Vec<&str> = p.queries.iter().map(|q| q.reference.as_str()).collect();
    assert_eq!(refs, vec!["A", "own", "C"]);
    let q = &p.queries[0];
    assert_eq!(q.legend.as_deref(), Some("lg"));
    assert!(q.instant && q.hide);
    assert_eq!(q.presence, Presence::EventDriven);
    assert_eq!(q.alt_exprs.len(), 2);
    assert_eq!(q.alt_exprs.get("a").map(|s| s.as_str()), Some("aa"));
    assert_eq!(q.alt_exprs.at(0).0, "a");
    assert_eq!(p.thresholds.steps[0].value, Some(2));
    assert_eq!(p.thresholds.steps[0].color, Role::Neutral);
    assert_eq!(p.thresholds.steps[1].color, Role::Primary);
}

#[test]
fn every_field_of_a_board_reaches_the_renderer() {
    let d = eval_dashboard(FULL).unwrap();
    assert!(fits_on_grid(&d));
    let j = render_board(&d, &Theme::tundra()).unwrap();
    assert_eq!(j["editable"], false);
    assert_eq!(j["title"], "my board x");
    assert_eq!(j["tags"][0], "single");
    assert!(j["refresh"].is_null());
    assert_eq!(j["time"]["to"], "now-1m");
    let var = &j["templating"]["list"][0];
    assert_eq!(var["name"], "v");
    assert_eq!(var["type"], "custom");
    assert_eq!(var["multi"], true);
    assert_eq!(var["options"].as_array().unwrap().len(), 2);
    assert_eq!(j["annotations"]["list"][0]["enable"], false);
    assert_eq!(j["annotations"]["list"][0]["iconColor"], "#EBCB8B");
    let p = &j["panels"][1];
    assert_eq!(p["title"], "P");
    assert_eq!(p["type"], "timeseries");
    assert_eq!(p["gridPos"]["w"], 8);
    assert_eq!(p["gridPos"]["h"], 8);
    assert_eq!(p["fieldConfig"]["defaults"]["min"], -1.0);
    assert_eq!(p["fieldConfig"]["defaults"]["max"], 10.0);
    assert_eq!(p["fieldConfig"]["defaults"]["thresholds"]["steps"][1]["value"], 5.0);
    assert_eq!(p["fieldConfig"]["defaults"]["thresholds"]["steps"][1]["color"], "#88C0D0");
    assert_eq!(p["targets"][0]["rawSql"], "SELECT a FROM b");
    assert_eq!(p["targets"][0]["hide"], true);
    assert_eq!(p["targets"][2]["refId"], "C");
    assert_eq!(p["targets"][0]["datasource"]["type"], "prom2");
}

fn board(fields: &str) -> EvalError {
    eval_dashboard(&format!("(deflava-dashboard d {fields})")).unwrap_err()
}

fn panel(fields: &str) -> EvalError {
    board(&format!(":rows (:title \"r\" :panels ({fields}))"))
}

#[test]
fn board_faults_are_typed() {
    assert!(matches!(eval_dashboard("(x)").unwrap_err(), EvalError::NotArchForm(s) if s == "no deflava-dashboard form"));
    assert!(matches!(eval_dashboard(")").unwrap_err(), EvalError::Parse(_)));
    assert!(matches!(board(":title gone"), EvalError::UnknownVar(_)));
    assert!(matches!(board(":datasources (1)"), EvalError::Type("datasource must be a keyword map")));
    assert!(matches!(board(":datasources (:type \"x\")"), EvalError::Type("datasource :uid")));
    assert!(matches!(
        board(":datasources (:uid \"x\" :lang \"cobol\")"),
        EvalError::Type("datasource :lang must be promql|logsql|sql")
    ));
    assert!(matches!(board(":variables 5"), EvalError::Type("variable must be a keyword map")));
    assert!(matches!(board(":variables (:kind \"query\")"), EvalError::Type("variable :name")));
    assert!(matches!(board(":variables (:name \"n\" :kind \"x\")"), EvalError::Type("variable :kind")));
    assert!(matches!(board(":annotations \"x\""), EvalError::Type("annotation must be a keyword map")));
    assert!(matches!(board(":annotations (:x 1)"), EvalError::Type("annotation :name")));
    assert!(matches!(board(":annotations (:name \"n\")"), EvalError::Type("annotation :datasource")));
    assert!(matches!(
        board(":annotations (:name \"n\" :datasource \"d\")"),
        EvalError::Type("annotation :expr")
    ));
    assert!(matches!(
        board(":annotations (:name \"n\" :datasource \"d\" :expr \"e\" :color \"red\")"),
        EvalError::Dashboard(_)
    ));
    assert!(matches!(board(":rows 5"), EvalError::Type("row must be a keyword map")));
    assert!(matches!(board(":rows (:panels 1)"), EvalError::Type("row :title")));
    assert!(matches!(panel("1 2"), EvalError::Type("panel must be a keyword map")));
    assert!(matches!(panel(":title \"t\""), EvalError::Type("panel :id")));
    assert!(matches!(panel(":id \"i\""), EvalError::Type("panel :title")));
    assert!(matches!(
        panel(":id \"i\" :title \"t\" :queries 5"),
        EvalError::Type("query must be a keyword map")
    ));
    assert!(matches!(
        panel(":id \"i\" :title \"t\" :queries (:datasource \"d\")"),
        EvalError::Type("query :expr")
    ));
    assert!(matches!(
        panel(":id \"i\" :title \"t\" :queries (:expr \"d\")"),
        EvalError::Type("query :datasource")
    ));
    assert!(matches!(
        panel(":id \"i\" :title \"t\" :thresholds 5"),
        EvalError::Type("threshold must be a keyword map")
    ));
    assert_eq!(
        panel(":id \"i\" :kind \"a\\\"b\"").message(),
        "dashboard: panel i: unknown :kind \"a\\\"b\" — expected one of stat, timeseries, gauge, table, heatmap, text, pie"
    );
}

#[test]
fn panel_kinds_have_their_own_sizes() {
    for (name, kind, w, h) in [
        ("stat", PanelKind::Stat, 6, 4),
        ("timeseries", PanelKind::TimeSeries, 12, 8),
        ("gauge", PanelKind::Gauge, 6, 4),
        ("table", PanelKind::Table, 24, 9),
        ("heatmap", PanelKind::Heatmap, 24, 9),
        ("text", PanelKind::Text, 8, 3),
        ("pie", PanelKind::Pie, 12, 8),
    ] {
        let src = format!(
            "(deflava-dashboard d :datasources (:uid \"m\") :rows (:title \"r\" :panels (:id \"i\" :title \"t\" :kind \"{name}\" :queries (:expr \"up\" :datasource \"m\"))))"
        );
        let d = eval_dashboard(&src).unwrap();
        let p = &d.rows[0].panels[0];
        assert_eq!(p.kind, kind);
        assert_eq!((p.width, p.height), (w, h));
        assert!(render_board(&d, &Theme::tundra()).is_ok());
    }
}

#[test]
fn the_twenty_seventh_query_is_an_a_again() {
    let queries = "(:expr \"x\" :datasource \"m\") ".repeat(28);
    let src = format!(
        "(deflava-dashboard d :rows (:title \"r\" :panels (:id \"i\" :title \"t\" :queries ({queries}))))"
    );
    let d = eval_dashboard(&src).unwrap();
    let qs = &d.rows[0].panels[0].queries;
    assert_eq!(qs[25].reference, "Z");
    assert_eq!(qs[26].reference, "A");
    assert_eq!(qs[27].reference, "B");
}

#[test]
fn boards_that_are_too_high_do_not_fit_the_grid() {
    let row = "(:title \"r\" :panels (:id \"i\" :title \"t\" :height 40000)) ";
    let src = |n: usize| format!("(deflava-dashboard d :rows ({}))", row.repeat(n));
    assert!(fits_on_grid(&eval_dashboard(&src(1)).unwrap()));
    assert!(!fits_on_grid(&eval_dashboard(&src(2)).unwrap()));
    assert!(fits_on_grid(&eval_dashboard("(deflava-dashboard d)").unwrap()));
}

#[test]
fn what_the_renderer_gave_is_passed_on() {
    assert_eq!(rendering_result(Ok(serde_json::Value::Null)).unwrap(), serde_json::Value::Null);
    assert_eq!(rendering_result(Err("why".to_string())).unwrap_err().message(), "dashboard: why");
    let refused = render_dashboard_grafana_json(
        "(deflava-dashboard d :rows (:title \"r\" :panels (:id \"i\" :title \"t\")))",
        &Theme::tundra(),
    );
    assert_eq!(
        refused.unwrap_err().message(),
        "dashboard: panel i has no query — it would render as an empty box"
    );
}

fn refusal(uid: &str, panel: &str) -> String {
    let src = format!(
        "(deflava-dashboard d :uid \"{uid}\" :datasources (:uid \"m\") :rows (:title \"r\" :panels (:id \"i\" {panel})))"
    );
    let d = eval_dashboard(&src).unwrap();
    let theme = Theme { name: "other".to_string() };
    match render_board(&d, &theme) {
        Err(EvalError::Dashboard(s)) => s,
        other => panic!("expected a refusal, got {other:?}"),
    }
}

#[test]
fn broken_boards_are_refused() {
    let query = ":queries (:expr \"up\" :datasource \"m\")";
    assert!(refusal("", &format!(":title \"t\" {query}")).contains("no uid"));
    assert!(refusal("u", &format!(":title \"\" {query}")).contains("no title"));
    assert!(refusal("u", ":title \"t\"").contains("no query"));
    assert!(refusal("u", ":title \"t\" :queries (:expr \"up\" :datasource \"x\")").contains("unregistered"));
    assert!(refusal("u", &format!(":title \"t\" :width 25 {query}")).contains("25"));
    assert!(refusal("u", &format!(":title \"t\" :width 0 {query}")).contains("0"));
}

fn side_by_side(width: usize, heights: &[usize], query: &str) -> String {
    let panels: String = heights
        .iter()
        .map(|h| {
            format!("(:id \"i\" :title \"t\" :width {width} :height {h} :queries ((:expr \"{query}\" :datasource \"m\"))) ")
        })
        .collect();
    format!(
        "(deflava-dashboard d :uid \"u\" :title \"t\" :datasources ((:uid \"m\" :type \"p\" :lang \"promql\")) :rows ((:title \"r\" :panels ({panels})) (:title \"below\")))"
    )
}

#[test]
fn a_line_of_panels_is_as_high_as_its_highest() {
    let beside = side_by_side(12, &[40000, 30000], "up");
    assert!(fits_on_grid(&eval_dashboard(&beside).unwrap()));
    let json = render_dashboard_grafana_json(&beside, &Theme::tundra()).unwrap();
    assert_eq!(json["panels"][1]["gridPos"]["x"], 0);
    assert_eq!(json["panels"][2]["gridPos"]["x"], 12);
    assert_eq!(json["panels"][2]["gridPos"]["y"], 1);
    assert_eq!(json["panels"][3]["title"], "below");
    assert_eq!(json["panels"][3]["gridPos"]["y"], 40001);
    assert!(!fits_on_grid(&eval_dashboard(&side_by_side(13, &[40000, 30000], "up")).unwrap()));
    assert!(fits_on_grid(&eval_dashboard(&side_by_side(13, &[40000, 25533], "up")).unwrap()));
    assert!(!fits_on_grid(&eval_dashboard(&side_by_side(13, &[40000, 25534], "up")).unwrap()));
    let edge = side_by_side(13, &[40000, 25533], "up");
    let json = render_dashboard_grafana_json(&edge, &Theme::tundra()).unwrap();
    assert_eq!(json["panels"][3]["gridPos"]["y"], 65534);
}

#[test]
fn a_collapsed_row_takes_one_line() {
    let row = "(:title \"r\" :collapsed #t :panels (:id \"i\" :title \"t\" :height 40000)) ";
    let src = format!("(deflava-dashboard d :rows ({}))", row.repeat(3));
    assert!(fits_on_grid(&eval_dashboard(&src).unwrap()));
}

#[test]
fn a_refused_board_need_not_fit_the_grid() {
    let src = side_by_side(25, &[65535, 65535], "up");
    let d = eval_dashboard(&src).unwrap();
    assert!(!fits_on_grid(&d));
    let e = render_dashboard_grafana_json(&src, &Theme::tundra()).unwrap_err();
    assert_eq!(e.message(), "dashboard: panel i: width 25 is outside 1..=24");
}

#[test]
fn queries_are_held_to_the_language_of_their_datasource() {
    let renders = |query: &str| {
        render_dashboard_grafana_json(&side_by_side(6, &[4], query), &Theme::tundra()).is_ok()
    };
    assert!(renders("up"));
    assert!(renders("RATE(x[5m]) | y"));
    assert!(renders("x{a=~\\\"p|q\\\"}"));
    assert!(renders("\\\"select a from b\\\""));
    assert!(!renders("x | y"));
    assert!(!renders("\\\"a\\\" | \\\"b\\\""));
    assert!(!renders("Select rate( From t"));
    assert!(renders("select rate(x) from"));
    assert!(!renders("select a from b"));
}

#[test]
fn refused_names_are_quoted_in_the_message() {
    let src = |kind: &str| {
        format!("(deflava-dashboard d :rows ((:title \"r\" :panels ((:id \"p\" :kind \"{kind}\" :title \"P\")))))")
    };
    assert_eq!(
        eval_dashboard(&src("spark line~")).unwrap_err().message(),
        "dashboard: panel p: unknown :kind \"spark line~\" — expected one of stat, timeseries, gauge, table, heatmap, text, pie"
    );
    assert!(eval_dashboard(&src("a\\\"b")).unwrap_err().message().contains("\"a\\\"b\""));
}

#[test]
fn a_refusal_names_the_first_fault() {
    let query = ":queries (:expr \"up\" :datasource \"m\")";
    assert_eq!(refusal("", ":title \"\""), "dashboard has no uid");
    assert_eq!(refusal("u", ":title \"\""), "panel i has no title");
    assert_eq!(
        refusal("u", ":title \"t\" :width 0"),
        "panel i has no query — it would render as an empty box"
    );
    assert_eq!(
        refusal("u", ":title \"t\" :width 0 :queries ((:expr \"up\" :datasource \"m\") (:expr \"a\" :datasource \"x\"))"),
        "panel i references unregistered datasource x"
    );
    assert_eq!(
        refusal("u", ":title \"t\" :width 0 :queries (:expr \"a | b\" :datasource \"m\")"),
        "panel i: datasource m speaks PromQl but the query looks like LogsQl"
    );
    assert_eq!(
        refusal("u", ":title \"t\" :queries (:expr \"select a from b\" :datasource \"m\")"),
        "panel i: datasource m speaks PromQl but the query looks like Sql"
    );
    assert_eq!(
        refusal("u", &format!(":title \"t\" :width 25 {query}")),
        "panel i: width 25 is outside 1..=24"
    );
    let untitled = "(deflava-dashboard d :uid \"u\" :title \"\")";
    assert_eq!(
        render_dashboard_grafana_json(untitled, &Theme::tundra()).unwrap_err().message(),
        "dashboard: dashboard u has no title"
    );
}
