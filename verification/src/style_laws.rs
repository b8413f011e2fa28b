//! What holds of every style: hidden layers never show, unknown source layers
//! never show, zoom ranges are half open, and a source layer shows exactly
//! where one of the entries that draw it shows.

use crate::json::{Json, JsonNumber};
use crate::paint::{first_stop_at, PaintModel, Stop};
use crate::style::{
    draws_nothing, hidden_by_layout, index_of, layer_of, layers_named, names_layer,
    source_layer_of, style_of, visible_in, LayerModel, StyleModel, StyleParseError, Visibility,
};
use vstd::prelude::*;

verus! {

/// A hidden layer shows at no zoom, whatever its zoom range and its paint
/// properties are.
pub proof fn lemma_hidden_layer_never_shows(layer: LayerModel, zoom: u8)
    requires
        layer.visibility == Visibility::Hidden,
    ensures
        !layer.shows_at(zoom),
{
}

/// An entry whose layout sets `visibility` to `none` shows at no zoom,
/// whatever else the entry holds.
pub proof fn lemma_hidden_entry_never_shows(entry: Json, zoom: u8)
    requires
        hidden_by_layout(entry),
    ensures
        !layer_of(entry).shows_at(zoom),
{
}

/// A source layer that the style does not draw shows at no zoom.
pub proof fn lemma_unknown_source_layer_never_shows(style: StyleModel, name: Seq<char>, zoom: u8)
    requires
        !style.contains_key(name),
    ensures
        !visible_in(style, name, zoom),
{
}

/// A layer that is not hidden, with whole numbers as bounds, admits exactly
/// the zooms from its lower bound up to, but not including, its upper bound.
pub proof fn lemma_zoom_range_is_half_open(layer: LayerModel, lowest: i64, end: i64, zoom: u8)
    requires
        layer.visibility == Visibility::Visible,
        layer.minzoom == Some(JsonNumber { floor: lowest, fractional: false }),
        layer.maxzoom == Some(JsonNumber { floor: end, fractional: false }),
    ensures
        layer.admits(zoom) <==> lowest <= zoom < end,
{
}

/// A layer without bounds that is not hidden admits every zoom.
pub proof fn lemma_unbounded_layer_admits_all(layer: LayerModel, zoom: u8)
    requires
        layer.visibility == Visibility::Visible,
        layer.minzoom is None,
        layer.maxzoom is None,
    ensures
        layer.admits(zoom),
{
}

/// The first step for a zoom: none exists exactly if no step is for that
/// zoom, and otherwise it is a step for that zoom before which no step is.
pub proof fn lemma_first_stop_at(stops: Seq<Stop>, zoom: u8)
    ensures
        first_stop_at(stops, zoom) is None <==> forall|i: int|
            0 <= i < stops.len() ==> (#[trigger] stops[i]).zoom != zoom,
        first_stop_at(stops, zoom) is Some ==> exists|i: int|
            0 <= i < stops.len() && #[trigger] stops[i] == first_stop_at(stops, zoom).unwrap()
                && stops[i].zoom == zoom && forall|j: int|
                0 <= j < i ==> (#[trigger] stops[j]).zoom != zoom,
    decreases stops.len(),
{
    if stops.len() > 0 {
        let rest = stops.drop_first();
        lemma_first_stop_at(rest, zoom);
        assert forall|i: int| 0 <= i < rest.len() implies #[trigger] rest[i] == stops[i + 1] by {}
        if stops[0].zoom == zoom {
            assert(stops[0] == first_stop_at(stops, zoom).unwrap());
        } else {
            if first_stop_at(rest, zoom) is None {
                assert forall|i: int| 0 <= i < stops.len() implies (#[trigger] stops[i]).zoom
                    != zoom by {
                    if i > 0 {
                        assert(rest[i - 1] == stops[i]);
                    }
                }
            } else {
                let found = first_stop_at(rest, zoom).unwrap();
                let i = choose|i: int|
                    0 <= i < rest.len() && #[trigger] rest[i] == found && rest[i].zoom == zoom
                        && forall|j: int| 0 <= j < i ==> (#[trigger] rest[j]).zoom != zoom;
                assert(stops[i + 1] == found);
                assert forall|j: int| 0 <= j < i + 1 implies (#[trigger] stops[j]).zoom
                    != zoom by {
                    if j > 0 {
                        assert(rest[j - 1] == stops[j]);
                    }
                }
            }
        }
    }
}

/// A stepped value without a step for a zoom counts as not zero there.
pub proof fn lemma_missing_stop_counts_as_nonzero(stops: Seq<Stop>, zoom: u8)
    requires
        forall|i: int| 0 <= i < stops.len() ==> (#[trigger] stops[i]).zoom != zoom,
    ensures
        PaintModel::Stops(stops).nonzero_at(zoom),
{
    lemma_first_stop_at(stops, zoom);
}

/// A document that holds an array under `layers` of which no entry has a text
/// under `source-layer` is refused, as drawing no source layer.
pub proof fn lemma_style_without_source_layers(document: Json, entries: Seq<Json>)
    requires
        document.member("layers"@) is Some,
        document.member("layers"@).unwrap().items() == Some(entries),
        forall|i: int|
            0 <= i < entries.len() ==> match (#[trigger] entries[i]).member("source-layer"@) {
                Some(value) => value.text() is None,
                None => true,
            },
    ensures
        style_of(document) == Err::<StyleModel, StyleParseError>(StyleParseError::NoSourceLayers),
{
    assert forall|i: int| 0 <= i < entries.len() implies source_layer_of(#[trigger] entries[i])
        is None by {
        let entry = entries[i];
        assert(match entry.member("source-layer"@) {
            Some(value) => value.text() is None,
            None => true,
        });
    }
    assert(draws_nothing(entries));
}

/// One of `layers` shows at `zoom`.
pub open spec fn some_layer_shows(layers: Seq<LayerModel>, zoom: u8) -> bool {
    exists|k: int| 0 <= k < layers.len() && (#[trigger] layers[k]).shows_at(zoom)
}

/// One of the entries that draw `name` shows at `zoom`.
pub open spec fn some_entry_shows(entries: Seq<Json>, name: Seq<char>, zoom: u8) -> bool {
    exists|i: int|
        0 <= i < entries.len() && source_layer_of(#[trigger] entries[i]) == Some(name) && layer_of(
            entries[i],
        ).shows_at(zoom)
}

proof fn lemma_some_layer_shows_push(layers: Seq<LayerModel>, layer: LayerModel, zoom: u8)
    ensures
        some_layer_shows(layers.push(layer), zoom) == (some_layer_shows(layers, zoom)
            || layer.shows_at(zoom)),
{
    let longer = layers.push(layer);
    if some_layer_shows(layers, zoom) {
        let k = choose|k: int| 0 <= k < layers.len() && (#[trigger] layers[k]).shows_at(zoom);
        assert(longer[k] == layers[k]);
    }
    if layer.shows_at(zoom) {
        assert(longer[layers.len() as int] == layer);
    }
    if some_layer_shows(longer, zoom) {
        let k = choose|k: int| 0 <= k < longer.len() && (#[trigger] longer[k]).shows_at(zoom);
        if k < layers.len() {
            assert(longer[k] == layers[k]);
        }
    }
}

proof fn lemma_some_entry_shows_last(entries: Seq<Json>, name: Seq<char>, zoom: u8)
    requires
        entries.len() > 0,
    ensures
        some_entry_shows(entries, name, zoom) == (some_entry_shows(entries.drop_last(), name, zoom)
            || (source_layer_of(entries.last()) == Some(name) && layer_of(entries.last()).shows_at(
            zoom,
        ))),
{
    let head = entries.drop_last();
    if some_entry_shows(head, name, zoom) {
        let i = choose|i: int|
            0 <= i < head.len() && source_layer_of(#[trigger] head[i]) == Some(name) && layer_of(
                head[i],
            ).shows_at(zoom);
        assert(entries[i] == head[i]);
    }
    if source_layer_of(entries.last()) == Some(name) && layer_of(entries.last()).shows_at(zoom) {
        assert(entries[entries.len() - 1] == entries.last());
    }
    if some_entry_shows(entries, name, zoom) {
        let i = choose|i: int|
            0 <= i < entries.len() && source_layer_of(#[trigger] entries[i]) == Some(name)
                && layer_of(entries[i]).shows_at(zoom);
        if i < head.len() {
            assert(entries[i] == head[i]);
        }
    }
}

proof fn lemma_named_layer_shows(entries: Seq<Json>, name: Seq<char>, zoom: u8)
    ensures
        some_layer_shows(layers_named(entries, name), zoom) == some_entry_shows(
            entries,
            name,
            zoom,
        ),
    decreases entries.len(),
{
    if entries.len() > 0 {
        lemma_named_layer_shows(entries.drop_last(), name, zoom);
        lemma_some_entry_shows_last(entries, name, zoom);
        if source_layer_of(entries.last()) == Some(name) {
            lemma_some_layer_shows_push(
                layers_named(entries.drop_last(), name),
                layer_of(entries.last()),
                zoom,
            );
        }
    }
}

/// All entries that draw a source layer count, and one is enough: the source
/// layer shows at a zoom exactly if some entry that draws it shows there.
pub proof fn lemma_visible_iff_some_entry_shows(entries: Seq<Json>, name: Seq<char>, zoom: u8)
    ensures
        visible_in(index_of(entries), name, zoom) == some_entry_shows(entries, name, zoom),
{
    let style = index_of(entries);
    let named = layers_named(entries, name);
    lemma_named_layer_shows(entries, name, zoom);
    if visible_in(style, name, zoom) {
        let k = choose|k: int|
            0 <= k < style[name].len() && (#[trigger] style[name][k]).shows_at(zoom);
        assert(named[k].shows_at(zoom));
    }
    if some_entry_shows(entries, name, zoom) {
        let i = choose|i: int|
            0 <= i < entries.len() && source_layer_of(#[trigger] entries[i]) == Some(name)
                && layer_of(entries[i]).shows_at(zoom);
        assert(names_layer(entries, name));
        let k = choose|k: int| 0 <= k < named.len() && (#[trigger] named[k]).shows_at(zoom);
        assert(style[name][k].shows_at(zoom));
    }
}

} // verus!
