//! The dashboard document.
use crate::sortedmap::SortedMap;
use crate::text::{option_text, same, texts};
use vstd::prelude::*;

verus! {

/// The meaning of a colour; the theme decides how it looks.
#[derive(Debug, Clone, Copy, PartialEq, Eq, Structural)]
pub enum Role {
    Neutral,
    Primary,
    Info,
    Success,
    Warning,
    Danger,
}

/// The colours of a board.
#[derive(Debug)]
pub struct Theme {
    pub name: String,
}

impl Theme {
    /// The default colours.
    pub fn tundra() -> (r: Theme)
        ensures
            r.name@ == "tundra"@,
    {
        Theme { name: "tundra".to_owned() }
    }
}

/// The language that a datasource speaks.
#[derive(Debug, Clone, Copy, PartialEq, Eq, Structural)]
pub enum QueryLang {
    PromQl,
    LogsQl,
    Sql,
}

/// A registered datasource.
#[derive(Debug)]
pub struct Datasource {
    pub uid: String,
    pub wire_type: String,
    pub query_lang: QueryLang,
}

/// What a [`Datasource`] stands for.
pub struct DatasourceView {
    pub uid: Seq<char>,
    pub wire_type: Seq<char>,
    pub query_lang: QueryLang,
}

impl View for Datasource {
    type V = DatasourceView;

    open spec fn view(&self) -> DatasourceView {
        DatasourceView {
            uid: self.uid@,
            wire_type: self.wire_type@,
            query_lang: self.query_lang,
        }
    }
}

/// The meanings of a run of datasources.
pub open spec fn datasource_views(ds: Seq<Datasource>) -> Seq<DatasourceView> {
    ds.map_values(|d: Datasource| d@)
}

/// The datasources of a board, in order.
#[derive(Debug)]
pub struct Datasources(pub Vec<Datasource>);

/// Where a datasource stands, at or after `i`.
pub open spec fn datasource_at(ds: Seq<DatasourceView>, uid: Seq<char>, i: int) -> Option<int>
    decreases ds.len() - i,
{
    if i < 0 || i >= ds.len() {
        None
    } else if ds[i].uid == uid {
        Some(i)
    } else {
        datasource_at(ds, uid, i + 1)
    }
}

/// The datasources with one more: it takes the place of one with its uid, or
/// goes to the end.
pub open spec fn registered(ds: Seq<DatasourceView>, d: DatasourceView) -> Seq<DatasourceView> {
    match datasource_at(ds, d.uid, 0) {
        Some(i) => ds.update(i, d),
        None => ds.push(d),
    }
}

impl Datasources {
    /// Registers a datasource.
    pub fn register(&mut self, d: Datasource)
        ensures
            datasource_views(final(self).0@) == registered(datasource_views(old(self).0@), d@),
    {
        let ghost before = datasource_views(self.0@);
        let ghost v = d@;
        let n: usize = self.0.len();
        let mut i: usize = 0;
        while i < n
            invariant
                n == self.0@.len(),
                i <= n,
                before == datasource_views(self.0@),
                before == datasource_views(old(self).0@),
                v == d@,
                datasource_at(before, v.uid, i as int) == datasource_at(before, v.uid, 0),
            decreases n - i,
        {
            assert(before[i as int] == self.0@[i as int]@);
            if same(self.0[i].uid.as_str(), d.uid.as_str()) {
                self.0.set(i, d);
                assert(datasource_views(self.0@) =~= before.update(i as int, v));
                return;
            }
            i += 1;
        }
        self.0.push(d);
        assert(datasource_views(self.0@) =~= before.push(v));
    }
}

/// What a panel looks like.
#[derive(Debug, Clone, Copy, PartialEq, Eq, Structural)]
pub enum PanelKind {
    Stat,
    TimeSeries,
    Gauge,
    Table,
    Heatmap,
    Text,
    Pie,
}

/// How wide a panel of a kind is.
pub open spec fn kind_width(k: PanelKind) -> u16 {
    match k {
        PanelKind::Stat | PanelKind::Gauge => 6,
        PanelKind::Table | PanelKind::Heatmap => 24,
        PanelKind::Text => 8,
        PanelKind::TimeSeries | PanelKind::Pie => 12,
    }
}

/// How high a panel of a kind is.
pub open spec fn kind_height(k: PanelKind) -> u16 {
    match k {
        PanelKind::Stat | PanelKind::Gauge => 4,
        PanelKind::Table | PanelKind::Heatmap => 9,
        PanelKind::Text => 3,
        PanelKind::TimeSeries | PanelKind::Pie => 8,
    }
}

impl PanelKind {
    /// How wide a panel of this kind is.
    pub fn default_width(self) -> (r: u16)
        ensures
            r == kind_width(self),
    {
        match self {
            PanelKind::Stat | PanelKind::Gauge => 6,
            PanelKind::Table | PanelKind::Heatmap => 24,
            PanelKind::Text => 8,
            PanelKind::TimeSeries | PanelKind::Pie => 12,
        }
    }

    /// How high a panel of this kind is.
    pub fn default_height(self) -> (r: u16)
        ensures
            r == kind_height(self),
    {
        match self {
            PanelKind::Stat | PanelKind::Gauge => 4,
            PanelKind::Table | PanelKind::Heatmap => 9,
            PanelKind::Text => 3,
            PanelKind::TimeSeries | PanelKind::Pie => 8,
        }
    }
}

/// Whether a series is always there.
#[derive(Debug, Clone, Copy, PartialEq, Eq, Structural)]
pub enum Presence {
    Continuous,
    EventDriven,
    Conditional,
}

/// One band of a threshold ramp. The base band has no value.
#[derive(Debug)]
pub struct Threshold {
    pub value: Option<i64>,
    pub color: Role,
}

/// How threshold values are read.
#[derive(Debug, Clone, Copy, PartialEq, Eq, Structural)]
pub enum ThresholdMode {
    Absolute,
    Percentage,
}

/// A threshold ramp.
#[derive(Debug)]
pub struct ThresholdConfig {
    pub mode: ThresholdMode,
    pub steps: Vec<Threshold>,
}

/// A query of a panel.
#[derive(Debug)]
pub struct Query {
    pub reference: String,
    pub expr: String,
    pub datasource_uid: String,
    pub legend: Option<String>,
    pub instant: bool,
    pub hide: bool,
    pub presence: Presence,
    /// The expression for another target, under its name.
    pub alt_exprs: SortedMap<String>,
}

/// What a [`Query`] stands for.
#[verifier::ext_equal]
pub struct QueryView {
    pub reference: Seq<char>,
    pub expr: Seq<char>,
    pub datasource_uid: Seq<char>,
    pub legend: Option<Seq<char>>,
    pub instant: bool,
    pub hide: bool,
    pub presence: Presence,
    pub alt_exprs: Map<Seq<char>, Seq<char>>,
}

impl View for Query {
    type V = QueryView;

    open spec fn view(&self) -> QueryView {
        QueryView {
            reference: self.reference@,
            expr: self.expr@,
            datasource_uid: self.datasource_uid@,
            legend: option_text(self.legend),
            instant: self.instant,
            hide: self.hide,
            presence: self.presence,
            alt_exprs: self.alt_exprs@,
        }
    }
}

/// The meanings of a run of queries.
pub open spec fn query_views(qs: Seq<Query>) -> Seq<QueryView> {
    qs.map_values(|q: Query| q@)
}

/// How a value is shown.
#[derive(Debug, Clone, Copy, PartialEq, Eq, Structural)]
pub enum DisplayMode {
    Auto,
    Off,
    OnValue,
    Background,
}

/// Whether a value comes with a graph.
#[derive(Debug, Clone, Copy, PartialEq, Eq, Structural)]
pub enum GraphMode {
    Auto,
    Off,
    Area,
}

/// A panel.
#[derive(Debug)]
pub struct Panel {
    pub id: String,
    pub kind: PanelKind,
    pub title: String,
    pub description: Option<String>,
    pub unit: Option<String>,
    pub min: Option<i64>,
    pub max: Option<i64>,
    pub decimals: Option<u32>,
    pub queries: Vec<Query>,
    pub thresholds: ThresholdConfig,
    pub width: u16,
    pub height: u16,
    pub display_mode: DisplayMode,
    pub graph: GraphMode,
}

/// What a [`Panel`] stands for.
#[verifier::ext_equal]
pub struct PanelView {
    pub id: Seq<char>,
    pub kind: PanelKind,
    pub title: Seq<char>,
    pub description: Option<Seq<char>>,
    pub unit: Option<Seq<char>>,
    pub min: Option<i64>,
    pub max: Option<i64>,
    pub decimals: Option<u32>,
    pub queries: Seq<QueryView>,
    pub mode: ThresholdMode,
    pub steps: Seq<Threshold>,
    pub width: u16,
    pub height: u16,
    pub display_mode: DisplayMode,
    pub graph: GraphMode,
}

impl View for Panel {
    type V = PanelView;

    open spec fn view(&self) -> PanelView {
        PanelView {
            id: self.id@,
            kind: self.kind,
            title: self.title@,
            description: option_text(self.description),
            unit: option_text(self.unit),
            min: self.min,
            max: self.max,
            decimals: self.decimals,
            queries: query_views(self.queries@),
            mode: self.thresholds.mode,
            steps: self.thresholds.steps@,
            width: self.width,
            height: self.height,
            display_mode: self.display_mode,
            graph: self.graph,
        }
    }
}

/// The meanings of a run of panels.
pub open spec fn panel_views(ps: Seq<Panel>) -> Seq<PanelView> {
    ps.map_values(|p: Panel| p@)
}

/// A panel with what its kind gives it, and nothing else.
pub open spec fn plain_panel(id: Seq<char>, kind: PanelKind, title: Seq<char>) -> PanelView {
    PanelView {
        id,
        kind,
        title,
        description: None,
        unit: None,
        min: None,
        max: None,
        decimals: None,
        queries: Seq::empty(),
        mode: ThresholdMode::Absolute,
        steps: Seq::empty(),
        width: kind_width(kind),
        height: kind_height(kind),
        display_mode: DisplayMode::Auto,
        graph: GraphMode::Auto,
    }
}

impl Panel {
    /// A panel with what its kind gives it, and nothing else.
    pub fn new(id: &str, kind: PanelKind, title: &str) -> (r: Panel)
        ensures
            r@ == plain_panel(id@, kind, title@),
    {
        let r = Panel {
            id: id.to_owned(),
            kind,
            title: title.to_owned(),
            description: None,
            unit: None,
            min: None,
            max: None,
            decimals: None,
            queries: Vec::new(),
            thresholds: ThresholdConfig { mode: ThresholdMode::Absolute, steps: Vec::new() },
            width: kind.default_width(),
            height: kind.default_height(),
            display_mode: DisplayMode::Auto,
            graph: GraphMode::Auto,
        };
        assert(r@ =~= plain_panel(id@, kind, title@));
        r
    }
}

/// A row of panels.
#[derive(Debug)]
pub struct Row {
    pub title: String,
    pub collapsed: bool,
    pub panels: Vec<Panel>,
}

/// What a [`Row`] stands for.
pub struct RowView {
    pub title: Seq<char>,
    pub collapsed: bool,
    pub panels: Seq<PanelView>,
}

impl View for Row {
    type V = RowView;

    open spec fn view(&self) -> RowView {
        RowView {
            title: self.title@,
            collapsed: self.collapsed,
            panels: panel_views(self.panels@),
        }
    }
}

/// The meanings of a run of rows.
pub open spec fn row_views(rs: Seq<Row>) -> Seq<RowView> {
    rs.map_values(|r: Row| r@)
}

/// The span of time that a board shows.
#[derive(Debug)]
pub struct TimeRange {
    pub from: String,
    pub to: String,
}

/// Where the values of a variable come from.
#[derive(Debug, Clone, Copy, PartialEq, Eq, Structural)]
pub enum VariableKind {
    Query,
    Constant,
    Custom,
    Datasource,
    Textbox,
    Interval,
}

/// A variable of a board.
#[derive(Debug)]
pub struct Variable {
    pub name: String,
    pub kind: VariableKind,
    pub label: Option<String>,
    pub datasource_uid: Option<String>,
    pub query: Option<String>,
    pub options: Vec<String>,
    pub multi: bool,
    pub include_all: bool,
}

/// What a [`Variable`] stands for.
pub struct VariableView {
    pub name: Seq<char>,
    pub kind: VariableKind,
    pub label: Option<Seq<char>>,
    pub datasource_uid: Option<Seq<char>>,
    pub query: Option<Seq<char>>,
    pub options: Seq<Seq<char>>,
    pub multi: bool,
    pub include_all: bool,
}

impl View for Variable {
    type V = VariableView;

    open spec fn view(&self) -> VariableView {
        VariableView {
            name: self.name@,
            kind: self.kind,
            label: option_text(self.label),
            datasource_uid: option_text(self.datasource_uid),
            query: option_text(self.query),
            options: texts(self.options@),
            multi: self.multi,
            include_all: self.include_all,
        }
    }
}

/// The meanings of a run of variables.
pub open spec fn variable_views(vs: Seq<Variable>) -> Seq<VariableView> {
    vs.map_values(|v: Variable| v@)
}

/// Marks on the graphs of a board.
#[derive(Debug)]
pub struct Annotation {
    pub name: String,
    pub datasource_uid: String,
    pub expr: String,
    pub color: Role,
    pub enable: bool,
}

/// What an [`Annotation`] stands for.
pub struct AnnotationView {
    pub name: Seq<char>,
    pub datasource_uid: Seq<char>,
    pub expr: Seq<char>,
    pub color: Role,
    pub enable: bool,
}

impl View for Annotation {
    type V = AnnotationView;

    open spec fn view(&self) -> AnnotationView {
        AnnotationView {
            name: self.name@,
            datasource_uid: self.datasource_uid@,
            expr: self.expr@,
            color: self.color,
            enable: self.enable,
        }
    }
}

/// The meanings of a run of annotations.
pub open spec fn annotation_views(anns: Seq<Annotation>) -> Seq<AnnotationView> {
    anns.map_values(|a: Annotation| a@)
}

/// A dashboard document.
#[derive(Debug)]
pub struct Dashboard {
    pub uid: String,
    pub title: String,
    pub description: Option<String>,
    pub tags: Vec<String>,
    pub refresh: Option<String>,
    pub time: TimeRange,
    pub timezone: String,
    pub editable: bool,
    pub variables: Vec<Variable>,
    pub annotations: Vec<Annotation>,
    pub rows: Vec<Row>,
    pub datasources: Datasources,
}

/// What a [`Dashboard`] stands for.
#[verifier::ext_equal]
pub struct DashboardView {
    pub uid: Seq<char>,
    pub title: Seq<char>,
    pub description: Option<Seq<char>>,
    pub tags: Seq<Seq<char>>,
    pub refresh: Option<Seq<char>>,
    pub time_from: Seq<char>,
    pub time_to: Seq<char>,
    pub timezone: Seq<char>,
    pub editable: bool,
    pub variables: Seq<VariableView>,
    pub annotations: Seq<AnnotationView>,
    pub rows: Seq<RowView>,
    pub datasources: Seq<DatasourceView>,
}

impl View for Dashboard {
    type V = DashboardView;

    open spec fn view(&self) -> DashboardView {
        DashboardView {
            uid: self.uid@,
            title: self.title@,
            description: option_text(self.description),
            tags: texts(self.tags@),
            refresh: option_text(self.refresh),
            time_from: self.time.from@,
            time_to: self.time.to@,
            timezone: self.timezone@,
            editable: self.editable,
            variables: variable_views(self.variables@),
            annotations: annotation_views(self.annotations@),
            rows: row_views(self.rows@),
            datasources: datasource_views(self.datasources.0@),
        }
    }
}

// ---------------------------------------------------------------------
// Laws
// ---------------------------------------------------------------------

/// Whether no two datasources have one uid.
pub open spec fn distinct_uids(ds: Seq<DatasourceView>) -> bool {
    forall|i: int, j: int|
        0 <= i < j < ds.len() ==> (#[trigger] ds[i]).uid != (#[trigger] ds[j]).uid
}

/// What is found is the first place of a uid.
pub proof fn lemma_datasource_at(ds: Seq<DatasourceView>, uid: Seq<char>, i: int)
    requires
        0 <= i,
    ensures
        match datasource_at(ds, uid, i) {
            Some(j) => i <= j < ds.len() && ds[j].uid == uid && (forall|k: int|
                i <= k < j ==> (#[trigger] ds[k]).uid != uid),
            None => forall|k: int| i <= k < ds.len() ==> (#[trigger] ds[k]).uid != uid,
        },
    decreases ds.len() - i,
{
    if i < ds.len() && ds[i].uid != uid {
        lemma_datasource_at(ds, uid, i + 1);
    }
}

/// A datasource that is registered is the one with its uid, every other one
/// stays as it was, and no uid stands twice.
pub proof fn law_registering_replaces(ds: Seq<DatasourceView>, d: DatasourceView)
    requires
        distinct_uids(ds),
    ensures
        distinct_uids(registered(ds, d)),
        registered(ds, d).contains(d),
        forall|i: int|
            0 <= i < ds.len() && (#[trigger] ds[i]).uid != d.uid ==> registered(ds, d)[i] == ds[i],
{
    lemma_datasource_at(ds, d.uid, 0);
    match datasource_at(ds, d.uid, 0) {
        Some(i) => {
            assert(registered(ds, d)[i] == d);
        },
        None => {
            assert(registered(ds, d)[ds.len() as int] == d);
        },
    }
}

} // verus!
