//! How the profile shows the engine's markers: the data of a marker, and
//! the schema that tells a viewer where and how to show it.

use crate::sink::TextMarker;
use vstd::prelude::*;

verus! {

/// Where a viewer shows markers of a type.
#[derive(Debug, Clone, Copy, PartialEq, Eq, Structural)]
pub enum MarkerLocation {
    MarkerChart,
    MarkerTable,
    TimelineOverview,
}

/// One field of a marker's data whose value is a string of the marker's
/// own.
#[derive(Debug, Clone, Copy, PartialEq, Eq)]
pub struct MarkerDynamicField {
    pub key: &'static str,
    pub label: &'static str,
    pub searchable: bool,
}

/// The schema of a type of markers. A label is a template in which
/// `{marker.data.<key>}` stands for a field of the marker's data and
/// `{marker.name}` for its name.
#[derive(Debug, Clone, PartialEq, Eq)]
pub struct MarkerSchema {
    pub marker_type: &'static str,
    pub locations: Vec<MarkerLocation>,
    pub chart_label: Option<&'static str>,
    pub tooltip_label: Option<&'static str>,
    pub table_label: Option<&'static str>,
    pub fields: Vec<MarkerDynamicField>,
}

/// One member of a marker's data: a key and a string.
#[derive(Debug, Clone, PartialEq, Eq)]
pub struct MarkerDataMember {
    pub key: &'static str,
    pub value: String,
}

/// The text of an optional label.
pub open spec fn label_view(label: Option<&'static str>) -> Option<Seq<char>> {
    match label {
        Some(text) => Some(text@),
        None => None,
    }
}

/// The type name of text markers.
pub open spec fn text_marker_type() -> Seq<char> {
    "Text"@
}

/// The type name of the markers of vertical syncs.
pub open spec fn vsync_marker_type() -> Seq<char> {
    "Vsync"@
}

impl TextMarker {
    /// The data of the marker: its type and, under `name`, its text.
    pub fn json_marker_data(&self) -> (data: Vec<MarkerDataMember>)
        ensures
            data@.len() == 2,
            data@[0].key@ == "type"@,
            data@[0].value@ == text_marker_type(),
            data@[1].key@ == "name"@,
            data@[1].value@ == self.0@,
    {
        let mut data: Vec<MarkerDataMember> = Vec::new();
        data.push(MarkerDataMember { key: "type", value: "Text".to_owned() });
        data.push(MarkerDataMember { key: "name", value: self.0.clone() });
        data
    }

    /// The schema of text markers: they are shown in the marker chart and
    /// in the marker table, with their text as the label.
    pub fn schema() -> (schema: MarkerSchema)
        ensures
            schema.marker_type@ == text_marker_type(),
            schema.locations@ == seq![MarkerLocation::MarkerChart, MarkerLocation::MarkerTable],
            label_view(schema.chart_label) == Some("{marker.data.name}"@),
            label_view(schema.tooltip_label) == Some("{marker.data.name}"@),
            label_view(schema.table_label) == Some("{marker.name} - {marker.data.name}"@),
            schema.fields@.len() == 1,
            schema.fields@[0].key@ == "name"@,
            schema.fields@[0].label@ == "Name"@,
            schema.fields@[0].searchable,
    {
        let mut locations: Vec<MarkerLocation> = Vec::new();
        locations.push(MarkerLocation::MarkerChart);
        locations.push(MarkerLocation::MarkerTable);
        let mut fields: Vec<MarkerDynamicField> = Vec::new();
        fields.push(MarkerDynamicField { key: "name", label: "Name", searchable: true });
        assert(locations@ =~= seq![MarkerLocation::MarkerChart, MarkerLocation::MarkerTable]);
        MarkerSchema {
            marker_type: "Text",
            locations,
            chart_label: Some("{marker.data.name}"),
            tooltip_label: Some("{marker.data.name}"),
            table_label: Some("{marker.name} - {marker.data.name}"),
            fields,
        }
    }
}

/// The data of the marker of a vertical sync: its type and an empty
/// name.
pub fn vsync_marker_data() -> (data: Vec<MarkerDataMember>)
    ensures
        data@.len() == 2,
        data@[0].key@ == "type"@,
        data@[0].value@ == vsync_marker_type(),
        data@[1].key@ == "name"@,
        data@[1].value@ == Seq::<char>::empty(),
{
    let mut data: Vec<MarkerDataMember> = Vec::new();
    data.push(MarkerDataMember { key: "type", value: "Vsync".to_owned() });
    data.push(MarkerDataMember { key: "name", value: String::new() });
    data
}

/// The schema of the markers of vertical syncs: they are also shown in
/// the overview of the timeline, and have no tooltip of their own.
pub fn vsync_marker_schema() -> (schema: MarkerSchema)
    ensures
        schema.marker_type@ == vsync_marker_type(),
        schema.locations@ == seq![
            MarkerLocation::MarkerChart,
            MarkerLocation::MarkerTable,
            MarkerLocation::TimelineOverview,
        ],
        label_view(schema.chart_label) == Some("{marker.data.name}"@),
        schema.tooltip_label is None,
        label_view(schema.table_label) == Some("{marker.name} - {marker.data.name}"@),
        schema.fields@.len() == 1,
        schema.fields@[0].key@ == "name"@,
        schema.fields@[0].label@ == "Details"@,
        !schema.fields@[0].searchable,
{
    let mut locations: Vec<MarkerLocation> = Vec::new();
    locations.push(MarkerLocation::MarkerChart);
    locations.push(MarkerLocation::MarkerTable);
    locations.push(MarkerLocation::TimelineOverview);
    let mut fields: Vec<MarkerDynamicField> = Vec::new();
    fields.push(MarkerDynamicField { key: "name", label: "Details", searchable: false });
    assert(locations@ =~= seq![
        MarkerLocation::MarkerChart,
        MarkerLocation::MarkerTable,
        MarkerLocation::TimelineOverview,
    ]);
    MarkerSchema {
        marker_type: "Vsync",
        locations,
        chart_label: Some("{marker.data.name}"),
        tooltip_label: None,
        table_label: Some("{marker.name} - {marker.data.name}"),
        fields,
    }
}

} // verus!
