//! Paint properties that can switch a style layer off, and their values.

use crate::json::{Json, JsonNumber};
use vstd::prelude::*;

verus! {

/// How many paint properties are recognized.
pub const PAINT_PROPERTY_COUNT: usize = 13;

/// The paint properties that decide whether a layer is drawn: where one of
/// them is zero at a zoom, the layer draws nothing there. No other paint
/// property is looked at.
#[derive(Debug, Clone, Copy, PartialEq, Eq, Structural)]
pub enum PaintProperty {
    FillOpacity,
    FillOutlineColor,
    LineOpacity,
    LineWidth,
    IconSize,
    TextSize,
    TextMaxWidth,
    TextOpacity,
    RasterOpacity,
    CircleRadius,
    CircleOpacity,
    FillExtrusionOpacity,
    HeatmapOpacity,
}

impl PaintProperty {
    /// The name of the property in a style document.
    pub open spec fn key(self) -> Seq<char> {
        match self {
            PaintProperty::FillOpacity => "fill-opacity"@,
            PaintProperty::FillOutlineColor => "fill-outline-color"@,
            PaintProperty::LineOpacity => "line-opacity"@,
            PaintProperty::LineWidth => "line-width"@,
            PaintProperty::IconSize => "icon-size"@,
            PaintProperty::TextSize => "text-size"@,
            PaintProperty::TextMaxWidth => "text-max-width"@,
            PaintProperty::TextOpacity => "text-opacity"@,
            PaintProperty::RasterOpacity => "raster-opacity"@,
            PaintProperty::CircleRadius => "circle-radius"@,
            PaintProperty::CircleOpacity => "circle-opacity"@,
            PaintProperty::FillExtrusionOpacity => "fill-extrusion-opacity"@,
            PaintProperty::HeatmapOpacity => "heatmap-opacity"@,
        }
    }

    /// The place of the property among the recognized ones, from 0.
    pub open spec fn ordinal(self) -> int {
        match self {
            PaintProperty::FillOpacity => 0,
            PaintProperty::FillOutlineColor => 1,
            PaintProperty::LineOpacity => 2,
            PaintProperty::LineWidth => 3,
            PaintProperty::IconSize => 4,
            PaintProperty::TextSize => 5,
            PaintProperty::TextMaxWidth => 6,
            PaintProperty::TextOpacity => 7,
            PaintProperty::RasterOpacity => 8,
            PaintProperty::CircleRadius => 9,
            PaintProperty::CircleOpacity => 10,
            PaintProperty::FillExtrusionOpacity => 11,
            PaintProperty::HeatmapOpacity => 12,
        }
    }

    /// The property at place `ordinal`.
    pub open spec fn at(ordinal: int) -> PaintProperty {
        if ordinal == 0 {
            PaintProperty::FillOpacity
        } else if ordinal == 1 {
            PaintProperty::FillOutlineColor
        } else if ordinal == 2 {
            PaintProperty::LineOpacity
        } else if ordinal == 3 {
            PaintProperty::LineWidth
        } else if ordinal == 4 {
            PaintProperty::IconSize
        } else if ordinal == 5 {
            PaintProperty::TextSize
        } else if ordinal == 6 {
            PaintProperty::TextMaxWidth
        } else if ordinal == 7 {
            PaintProperty::TextOpacity
        } else if ordinal == 8 {
            PaintProperty::RasterOpacity
        } else if ordinal == 9 {
            PaintProperty::CircleRadius
        } else if ordinal == 10 {
            PaintProperty::CircleOpacity
        } else if ordinal == 11 {
            PaintProperty::FillExtrusionOpacity
        } else {
            PaintProperty::HeatmapOpacity
        }
    }

    /// The places 0 to 12 and the properties stand one for one.
    pub proof fn lemma_ordinals(self)
        ensures
            0 <= self.ordinal() < PAINT_PROPERTY_COUNT,
            PaintProperty::at(self.ordinal()) == self,
    {
    }

    /// The name of the property in a style document.
    pub fn name(self) -> (name: &'static str)
        ensures
            name@ == self.key(),
    {
        match self {
            PaintProperty::FillOpacity => "fill-opacity",
            PaintProperty::FillOutlineColor => "fill-outline-color",
            PaintProperty::LineOpacity => "line-opacity",
            PaintProperty::LineWidth => "line-width",
            PaintProperty::IconSize => "icon-size",
            PaintProperty::TextSize => "text-size",
            PaintProperty::TextMaxWidth => "text-max-width",
            PaintProperty::TextOpacity => "text-opacity",
            PaintProperty::RasterOpacity => "raster-opacity",
            PaintProperty::CircleRadius => "circle-radius",
            PaintProperty::CircleOpacity => "circle-opacity",
            PaintProperty::FillExtrusionOpacity => "fill-extrusion-opacity",
            PaintProperty::HeatmapOpacity => "heatmap-opacity",
        }
    }

    /// The place of the property among the recognized ones, from 0.
    pub fn index(self) -> (ordinal: usize)
        ensures
            ordinal == self.ordinal(),
    {
        match self {
            PaintProperty::FillOpacity => 0,
            PaintProperty::FillOutlineColor => 1,
            PaintProperty::LineOpacity => 2,
            PaintProperty::LineWidth => 3,
            PaintProperty::IconSize => 4,
            PaintProperty::TextSize => 5,
            PaintProperty::TextMaxWidth => 6,
            PaintProperty::TextOpacity => 7,
            PaintProperty::RasterOpacity => 8,
            PaintProperty::CircleRadius => 9,
            PaintProperty::CircleOpacity => 10,
            PaintProperty::FillExtrusionOpacity => 11,
            PaintProperty::HeatmapOpacity => 12,
        }
    }

    /// The property at place `ordinal`.
    pub fn nth(ordinal: usize) -> (property: PaintProperty)
        requires
            ordinal < PAINT_PROPERTY_COUNT,
        ensures
            property == PaintProperty::at(ordinal as int),
            property.ordinal() == ordinal,
    {
        if ordinal == 0 {
            PaintProperty::FillOpacity
        } else if ordinal == 1 {
            PaintProperty::FillOutlineColor
        } else if ordinal == 2 {
            PaintProperty::LineOpacity
        } else if ordinal == 3 {
            PaintProperty::LineWidth
        } else if ordinal == 4 {
            PaintProperty::IconSize
        } else if ordinal == 5 {
            PaintProperty::TextSize
        } else if ordinal == 6 {
            PaintProperty::TextMaxWidth
        } else if ordinal == 7 {
            PaintProperty::TextOpacity
        } else if ordinal == 8 {
            PaintProperty::RasterOpacity
        } else if ordinal == 9 {
            PaintProperty::CircleRadius
        } else if ordinal == 10 {
            PaintProperty::CircleOpacity
        } else if ordinal == 11 {
            PaintProperty::FillExtrusionOpacity
        } else {
            PaintProperty::HeatmapOpacity
        }
    }
}

/// One step of a stepped paint value: at zoom `zoom` the value is `value`.
#[derive(Debug, Clone, Copy, PartialEq, Eq, Structural)]
pub struct Stop {
    pub zoom: u8,
    pub value: JsonNumber,
}

/// The value of a paint property: one number for all zooms, or steps.
#[derive(Debug, Clone)]
pub enum PaintValue {
    Number(JsonNumber),
    Stops(Vec<Stop>),
}

/// A paint value as a mathematical value.
pub enum PaintModel {
    Number(JsonNumber),
    Stops(Seq<Stop>),
}

impl View for PaintValue {
    type V = PaintModel;

    open spec fn view(&self) -> PaintModel {
        match self {
            PaintValue::Number(number) => PaintModel::Number(*number),
            PaintValue::Stops(stops) => PaintModel::Stops(stops@),
        }
    }
}

/// The first of `stops` that is for `zoom`.
pub open spec fn first_stop_at(stops: Seq<Stop>, zoom: u8) -> Option<Stop>
    decreases stops.len(),
{
    if stops.len() == 0 {
        None
    } else if stops[0].zoom == zoom {
        Some(stops[0])
    } else {
        first_stop_at(stops.drop_first(), zoom)
    }
}

impl PaintModel {
    /// The value at `zoom` is not zero. A stepped value is looked up at
    /// exactly `zoom`: the first step for that zoom decides, and where no step
    /// is for that zoom the value counts as not zero, whatever the steps
    /// around it say.
    pub open spec fn nonzero_at(self, zoom: u8) -> bool {
        match self {
            PaintModel::Number(number) => !number.spec_is_zero(),
            PaintModel::Stops(stops) => match first_stop_at(stops, zoom) {
                Some(stop) => !stop.value.spec_is_zero(),
                None => true,
            },
        }
    }
}

/// The step that an entry of a `stops` list stands for. The entry is an array
/// that begins with two numbers, the zoom and the value, and the zoom lies in
/// [0, 255]; a zoom between two whole numbers counts as the lower one. Any
/// other entry stands for no step.
pub open spec fn stop_of(entry: Json) -> Option<Stop> {
    match entry.items() {
        Some(parts) => if parts.len() >= 2 {
            match (parts[0].number(), parts[1].number()) {
                (Some(zoom), Some(value)) => if zoom.spec_at_least(0) && zoom.spec_at_most(255) {
                    Some(Stop { zoom: zoom.floor as u8, value })
                } else {
                    None
                },
                _ => None,
            }
        } else {
            None
        },
        None => None,
    }
}

/// The steps that the entries of a `stops` list stand for, in their order;
/// entries that stand for no step are left out.
pub open spec fn stops_of(entries: Seq<Json>) -> Seq<Stop>
    decreases entries.len(),
{
    if entries.len() == 0 {
        Seq::empty()
    } else {
        match stop_of(entries.last()) {
            Some(stop) => stops_of(entries.drop_last()).push(stop),
            None => stops_of(entries.drop_last()),
        }
    }
}

/// The paint value that a value of a document stands for: a number stands for
/// itself, an object with a list under `stops` for the steps of that list,
/// provided there is at least one. Anything else stands for no value, and
/// the property is then as good as absent.
pub open spec fn paint_of(value: Json) -> Option<PaintModel> {
    match value.number() {
        Some(number) => Some(PaintModel::Number(number)),
        None => match value.member("stops"@) {
            Some(list) => match list.items() {
                Some(entries) => if stops_of(entries).len() > 0 {
                    Some(PaintModel::Stops(stops_of(entries)))
                } else {
                    None
                },
                None => None,
            },
            None => None,
        },
    }
}

impl PaintValue {
    /// Whether the value at `zoom` is not zero.
    pub fn is_nonzero_at_zoom(&self, zoom: u8) -> (nonzero: bool)
        ensures
            nonzero == self@.nonzero_at(zoom),
    {
        match self {
            PaintValue::Number(number) => !number.is_zero(),
            PaintValue::Stops(stops) => {
                let mut i: usize = 0;
                assert(stops@.skip(0) =~= stops@);
                while i < stops.len()
                    invariant
                        i <= stops.len(),
                        self@ == PaintModel::Stops(stops@),
                        first_stop_at(stops@, zoom) == first_stop_at(stops@.skip(i as int), zoom),
                    decreases stops.len() - i,
                {
                    let ghost rest = stops@.skip(i as int);
                    assert(rest[0] == stops@[i as int]);
                    assert(rest.drop_first() =~= stops@.skip(i + 1));
                    if stops[i].zoom == zoom {
                        assert(first_stop_at(rest, zoom) == Some(stops@[i as int]));
                        return !stops[i].value.is_zero();
                    }
                    i += 1;
                }
                assert(stops@.skip(i as int).len() == 0);
                true
            },
        }
    }
}

/// Reads one entry of a `stops` list.
pub fn parse_stop(entry: &Json) -> (stop: Option<Stop>)
    ensures
        stop == stop_of(*entry),
{
    match entry.as_array() {
        Some(parts) => {
            if parts.len() < 2 {
                return None;
            }
            match (parts[0].as_number(), parts[1].as_number()) {
                (Some(zoom), Some(value)) => {
                    if zoom.at_least(0) && zoom.at_most(255) {
                        Some(Stop { zoom: zoom.floor as u8, value })
                    } else {
                        None
                    }
                },
                _ => None,
            }
        },
        None => None,
    }
}

/// Reads the value of a paint property.
pub fn parse_paint_value(value: &Json) -> (paint: Option<PaintValue>)
    ensures
        match paint {
            Some(parsed) => paint_of(*value) == Some(parsed@),
            None => paint_of(*value) is None,
        },
{
    if let Some(number) = value.as_number() {
        return Some(PaintValue::Number(number));
    }
    let entries = match value.get("stops") {
        Some(list) => match list.as_array() {
            Some(entries) => entries,
            None => {
                return None;
            },
        },
        None => {
            return None;
        },
    };
    let mut parsed: Vec<Stop> = Vec::new();
    let mut i: usize = 0;
    assert(entries@.take(0) =~= Seq::<Json>::empty());
    while i < entries.len()
        invariant
            i <= entries.len(),
            parsed@ == stops_of(entries@.take(i as int)),
        decreases entries.len() - i,
    {
        assert(entries@.take(i + 1).drop_last() =~= entries@.take(i as int));
        match parse_stop(&entries[i]) {
            Some(stop) => {
                parsed.push(stop);
            },
            None => {},
        }
        i += 1;
    }
    assert(entries@.take(i as int) =~= entries@);
    if parsed.len() == 0 {
        None
    } else {
        Some(PaintValue::Stops(parsed))
    }
}

} // verus!
