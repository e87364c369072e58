//! What an architecture evaluates to.
use crate::datum::{DatumMap, DatumView, ResourceRef, ResourceRefView};
use crate::text::option_text;
use vstd::prelude::*;

verus! {

/// How many times a resource stands.
#[derive(Debug)]
pub enum Multiplicity {
    /// So many times.
    Count(i64),
    /// Once for each entry.
    ForEach(DatumMap),
}

/// What a [`Multiplicity`] stands for.
pub enum MultiplicityView {
    Count(i64),
    ForEach(Seq<(Seq<char>, DatumView)>),
}

impl View for Multiplicity {
    type V = MultiplicityView;

    open spec fn view(&self) -> MultiplicityView {
        match self {
            Multiplicity::Count(n) => MultiplicityView::Count(*n),
            Multiplicity::ForEach(m) => MultiplicityView::ForEach(m@),
        }
    }
}

/// A provider with its configuration.
#[derive(Debug)]
pub struct ProviderRef {
    pub source: String,
    pub name: String,
    pub alias: Option<String>,
    pub config: DatumMap,
}

/// What a [`ProviderRef`] stands for.
pub struct ProviderRefView {
    pub source: Seq<char>,
    pub name: Seq<char>,
    pub alias: Option<Seq<char>>,
    pub config: Seq<(Seq<char>, DatumView)>,
}

impl View for ProviderRef {
    type V = ProviderRefView;

    open spec fn view(&self) -> ProviderRefView {
        ProviderRefView {
            source: self.source@,
            name: self.name@,
            alias: option_text(self.alias),
            config: self.config@,
        }
    }
}

/// A typed resource.
#[derive(Debug)]
pub struct Resource {
    pub type_id: String,
    pub name: String,
    pub attributes: DatumMap,
    pub depends_on: Vec<ResourceRef>,
    pub provider: Option<ProviderRef>,
    pub multiplicity: Option<Multiplicity>,
}

/// What a [`Resource`] stands for.
pub struct ResourceView {
    pub type_id: Seq<char>,
    pub name: Seq<char>,
    pub attributes: Seq<(Seq<char>, DatumView)>,
    pub depends_on: Seq<ResourceRefView>,
    pub provider: Option<ProviderRefView>,
    pub multiplicity: Option<MultiplicityView>,
}

/// An optional multiplicity as what it stands for.
pub open spec fn multiplicity_view(m: Option<Multiplicity>) -> Option<MultiplicityView> {
    match m {
        Some(x) => Some(x@),
        None => None,
    }
}

impl View for Resource {
    type V = ResourceView;

    open spec fn view(&self) -> ResourceView {
        ResourceView {
            type_id: self.type_id@,
            name: self.name@,
            attributes: self.attributes@,
            depends_on: self.depends_on@.map_values(|r: ResourceRef| r@),
            provider: match self.provider {
                Some(p) => Some(p@),
                None => None,
            },
            multiplicity: multiplicity_view(self.multiplicity),
        }
    }
}

/// The meanings of a run of resources.
pub open spec fn resource_views(rs: Seq<Resource>) -> Seq<ResourceView> {
    rs.map_values(|r: Resource| r@)
}

/// The meanings of a run of providers.
pub open spec fn provider_views(ps: Seq<ProviderRef>) -> Seq<ProviderRefView> {
    ps.map_values(|p: ProviderRef| p@)
}

/// An evaluated architecture.
#[derive(Debug)]
pub struct Architecture {
    pub name: String,
    pub resources: Vec<Resource>,
    pub data_sources: Vec<Resource>,
    pub outputs: DatumMap,
    pub providers: Vec<ProviderRef>,
    pub locals: DatumMap,
}

/// What an [`Architecture`] stands for.
pub struct ArchitectureView {
    pub name: Seq<char>,
    pub resources: Seq<ResourceView>,
    pub data_sources: Seq<ResourceView>,
    pub outputs: Seq<(Seq<char>, DatumView)>,
    pub providers: Seq<ProviderRefView>,
    pub locals: Seq<(Seq<char>, DatumView)>,
}

impl View for Architecture {
    type V = ArchitectureView;

    open spec fn view(&self) -> ArchitectureView {
        ArchitectureView {
            name: self.name@,
            resources: resource_views(self.resources@),
            data_sources: resource_views(self.data_sources@),
            outputs: self.outputs@,
            providers: provider_views(self.providers@),
            locals: self.locals@,
        }
    }
}

} // verus!
