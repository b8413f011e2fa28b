//! Style layers indexed by the source layer they draw, and the question that
//! the index answers: does a source layer show at a zoom?

use crate::json::{Json, JsonNumber};
use crate::paint::{
    paint_of, parse_paint_value, PaintModel, PaintProperty, PaintValue, PAINT_PROPERTY_COUNT,
};
use vstd::prelude::*;

verus! {

/// What the layout of a style layer says of its visibility. Only the text
/// `none` hides a layer; any other value, and no value, leave it visible.
#[derive(Debug, Clone, Copy, PartialEq, Eq, Structural)]
pub enum Visibility {
    Visible,
    Hidden,
}

/// Why a document is no style.
#[derive(Debug, Clone, Copy, PartialEq, Eq, Structural)]
pub enum StyleParseError {
    /// The document holds no array under `layers`.
    MissingLayers,
    /// No entry of `layers` names both a source and a source layer.
    NoSourceLayers,
}

/// One style layer as a mathematical value.
pub struct LayerModel {
    /// The lowest zoom at which the layer is drawn, if it has one.
    pub minzoom: Option<JsonNumber>,
    /// The zoom from which on the layer is no longer drawn, if it has one.
    pub maxzoom: Option<JsonNumber>,
    pub visibility: Visibility,
    /// The recognized paint properties that the layer sets, with their values.
    pub paint: Map<PaintProperty, PaintModel>,
}

/// A style as a mathematical value: for each source layer that the style
/// draws, the style layers that draw it, in the order of the document.
pub type StyleModel = Map<Seq<char>, Seq<LayerModel>>;

impl LayerModel {
    /// The layer is not hidden and `zoom` lies in its zoom range. The lower
    /// bound belongs to the range, the upper bound does not.
    pub open spec fn admits(self, zoom: u8) -> bool {
        &&& self.visibility != Visibility::Hidden
        &&& match self.minzoom {
            Some(lowest) => lowest.spec_at_most(zoom as int),
            None => true,
        }
        &&& match self.maxzoom {
            Some(end) => !end.spec_at_most(zoom as int),
            None => true,
        }
    }

    /// None of the recognized paint properties that the layer sets is zero at
    /// `zoom`.
    pub open spec fn rendered_at(self, zoom: u8) -> bool {
        forall|property: PaintProperty| #[trigger]
            self.paint.contains_key(property) ==> self.paint[property].nonzero_at(zoom)
    }

    /// The layer draws something at `zoom`.
    pub open spec fn shows_at(self, zoom: u8) -> bool {
        self.admits(zoom) && self.rendered_at(zoom)
    }
}

/// Whether the source layer `name` shows at `zoom`: the style draws it, and
/// at least one of its style layers draws something at that zoom.
pub open spec fn visible_in(style: StyleModel, name: Seq<char>, zoom: u8) -> bool {
    style.contains_key(name) && exists|i: int|
        0 <= i < style[name].len() && (#[trigger] style[name][i]).shows_at(zoom)
}

/// The number that the entry holds under `key`, if it holds one.
pub open spec fn number_under(entry: Json, key: Seq<char>) -> Option<JsonNumber> {
    match entry.member(key) {
        Some(value) => value.number(),
        None => None,
    }
}

/// The entry's layout sets `visibility` to the text `none`.
pub open spec fn hidden_by_layout(entry: Json) -> bool {
    match entry.member("layout"@) {
        Some(layout) => match layout.member("visibility"@) {
            Some(value) => value.text() == Some("none"@),
            None => false,
        },
        None => false,
    }
}

/// The value that the entry's paint object gives to `property`, if it gives
/// one that can be read.
pub open spec fn paint_under(entry: Json, property: PaintProperty) -> Option<PaintModel> {
    match entry.member("paint"@) {
        Some(paint) => match paint.member(property.key()) {
            Some(value) => paint_of(value),
            None => None,
        },
        None => None,
    }
}

/// The style layer that an entry of `layers` stands for.
pub open spec fn layer_of(entry: Json) -> LayerModel {
    LayerModel {
        minzoom: number_under(entry, "minzoom"@),
        maxzoom: number_under(entry, "maxzoom"@),
        visibility: if hidden_by_layout(entry) {
            Visibility::Hidden
        } else {
            Visibility::Visible
        },
        paint: Map::new(
            |property: PaintProperty| paint_under(entry, property) is Some,
            |property: PaintProperty| paint_under(entry, property).unwrap(),
        ),
    }
}

/// The source layer that an entry of `layers` draws: the text under
/// `source-layer`, provided the entry has something under `source` too.
/// An entry without either is no part of the style.
pub open spec fn source_layer_of(entry: Json) -> Option<Seq<char>> {
    if entry.member("source"@) is Some {
        match entry.member("source-layer"@) {
            Some(value) => value.text(),
            None => None,
        }
    } else {
        None
    }
}

/// Some entry draws the source layer `name`.
pub open spec fn names_layer(entries: Seq<Json>, name: Seq<char>) -> bool {
    exists|i: int| 0 <= i < entries.len() && source_layer_of(#[trigger] entries[i]) == Some(name)
}

/// The style layers of the entries that draw the source layer `name`, in the
/// order of the entries.
pub open spec fn layers_named(entries: Seq<Json>, name: Seq<char>) -> Seq<LayerModel>
    decreases entries.len(),
{
    if entries.len() == 0 {
        Seq::empty()
    } else if source_layer_of(entries.last()) == Some(name) {
        layers_named(entries.drop_last(), name).push(layer_of(entries.last()))
    } else {
        layers_named(entries.drop_last(), name)
    }
}

/// The index of the entries of `layers`.
pub open spec fn index_of(entries: Seq<Json>) -> StyleModel {
    Map::new(
        |name: Seq<char>| names_layer(entries, name),
        |name: Seq<char>| layers_named(entries, name),
    )
}

/// No entry draws a source layer.
pub open spec fn draws_nothing(entries: Seq<Json>) -> bool {
    forall|i: int| 0 <= i < entries.len() ==> source_layer_of(#[trigger] entries[i]) is None
}

/// The style that a document stands for, or why it stands for none.
pub open spec fn style_of(document: Json) -> Result<StyleModel, StyleParseError> {
    match document.member("layers"@) {
        Some(list) => match list.items() {
            Some(entries) => if draws_nothing(entries) {
                Err(StyleParseError::NoSourceLayers)
            } else {
                Ok(index_of(entries))
            },
            None => Err(StyleParseError::MissingLayers),
        },
        None => Err(StyleParseError::MissingLayers),
    }
}

/// `names` lists the source layers that `style` draws, each once.
pub open spec fn lists_source_layers(names: Seq<String>, style: StyleModel) -> bool {
    &&& forall|name: Seq<char>|
        style.contains_key(name) <==> exists|i: int|
            0 <= i < names.len() && (#[trigger] names[i])@ == name
    &&& forall|i: int, j: int|
        0 <= i < j < names.len() ==> (#[trigger] names[i])@ != (#[trigger] names[j])@
}

/// One style layer.
#[derive(Debug)]
pub struct MapboxStyleLayer {
    minzoom: Option<JsonNumber>,
    maxzoom: Option<JsonNumber>,
    visibility: Visibility,
    paint: Vec<Option<PaintValue>>,
}

/// The view of what a layer keeps for one property.
pub open spec fn setting_view(setting: Option<PaintValue>) -> Option<PaintModel> {
    match setting {
        Some(value) => Some(value@),
        None => None,
    }
}

impl View for MapboxStyleLayer {
    type V = LayerModel;

    closed spec fn view(&self) -> LayerModel {
        LayerModel {
            minzoom: self.minzoom,
            maxzoom: self.maxzoom,
            visibility: self.visibility,
            paint: Map::new(
                |property: PaintProperty| self.paint@[property.ordinal()] is Some,
                |property: PaintProperty| self.paint@[property.ordinal()].unwrap()@,
            ),
        }
    }
}

impl MapboxStyleLayer {
    #[verifier::type_invariant]
    spec fn has_every_slot(self) -> bool {
        self.paint@.len() == PAINT_PROPERTY_COUNT
    }

    /// Reads an entry of `layers`.
    pub fn parse(entry: &Json) -> (layer: MapboxStyleLayer)
        ensures
            layer@ == layer_of(*entry),
    {
        let minzoom = match entry.get("minzoom") {
            Some(value) => value.as_number(),
            None => None,
        };
        let maxzoom = match entry.get("maxzoom") {
            Some(value) => value.as_number(),
            None => None,
        };
        let mut visibility = Visibility::Visible;
        if let Some(layout) = entry.get("layout") {
            if let Some(value) = layout.get("visibility") {
                if let Some(text) = value.as_text() {
                    let none: String = "none".to_owned();
                    if *text == none {
                        visibility = Visibility::Hidden;
                    }
                }
            }
        }
        let settings = entry.get("paint");
        let mut paint: Vec<Option<PaintValue>> = Vec::new();
        let mut i: usize = 0;
        while i < PAINT_PROPERTY_COUNT
            invariant
                i <= PAINT_PROPERTY_COUNT,
                paint@.len() == i,
                match settings {
                    Some(object) => entry.member("paint"@) == Some(*object),
                    None => entry.member("paint"@) is None,
                },
                forall|j: int|
                    0 <= j < i ==> setting_view(#[trigger] paint@[j]) == paint_under(
                        *entry,
                        PaintProperty::at(j),
                    ),
            decreases PAINT_PROPERTY_COUNT - i,
        {
            let property = PaintProperty::nth(i);
            let setting = match settings {
                Some(object) => match object.get(property.name()) {
                    Some(value) => parse_paint_value(value),
                    None => None,
                },
                None => None,
            };
            paint.push(setting);
            i += 1;
        }
        let layer = MapboxStyleLayer { minzoom, maxzoom, visibility, paint };
        proof {
            let wanted = layer_of(*entry);
            assert forall|property: PaintProperty|
                layer@.paint.contains_key(property) == wanted.paint.contains_key(property) && (
                layer@.paint.contains_key(property) ==> layer@.paint[property]
                    == wanted.paint[property]) by {
                property.lemma_ordinals();
                assert(setting_view(layer.paint@[property.ordinal()]) == paint_under(
                    *entry,
                    property,
                ));
            }
            assert(layer@.paint =~= wanted.paint);
        }
        layer
    }

    fn check_layout_visibility(&self) -> (visible: bool)
        ensures
            visible == (self@.visibility != Visibility::Hidden),
    {
        match self.visibility {
            Visibility::Hidden => false,
            Visibility::Visible => true,
        }
    }

    fn check_zoom_underflow(&self, zoom: u8) -> (reached: bool)
        ensures
            reached == match self@.minzoom {
                Some(lowest) => lowest.spec_at_most(zoom as int),
                None => true,
            },
    {
        match self.minzoom {
            Some(lowest) => lowest.at_most(zoom as i64),
            None => true,
        }
    }

    fn check_zoom_overflow(&self, zoom: u8) -> (below: bool)
        ensures
            below == match self@.maxzoom {
                Some(end) => !end.spec_at_most(zoom as int),
                None => true,
            },
    {
        match self.maxzoom {
            Some(end) => !end.at_most(zoom as i64),
            None => true,
        }
    }

    /// Whether the layer is not hidden and `zoom` lies in its zoom range.
    pub fn is_visible_on_zoom(&self, zoom: u8) -> (admitted: bool)
        ensures
            admitted == self@.admits(zoom),
    {
        self.check_layout_visibility() && self.check_zoom_underflow(zoom)
            && self.check_zoom_overflow(zoom)
    }

    fn check_paint_property_not_zero(&self, property: PaintProperty, zoom: u8) -> (nonzero: bool)
        ensures
            nonzero == (self@.paint.contains_key(property) ==> self@.paint[property].nonzero_at(
                zoom,
            )),
    {
        proof {
            use_type_invariant(self);
            property.lemma_ordinals();
        }
        match &self.paint[property.index()] {
            Some(value) => value.is_nonzero_at_zoom(zoom),
            None => true,
        }
    }

    /// Whether none of the recognized paint properties is zero at `zoom`.
    pub fn is_rendered(&self, zoom: u8) -> (rendered: bool)
        ensures
            rendered == self@.rendered_at(zoom),
    {
        let mut i: usize = 0;
        while i < PAINT_PROPERTY_COUNT
            invariant
                i <= PAINT_PROPERTY_COUNT,
                forall|j: int|
                    0 <= j < i ==> (#[trigger] self@.paint.contains_key(PaintProperty::at(j))
                        ==> self@.paint[PaintProperty::at(j)].nonzero_at(zoom)),
            decreases PAINT_PROPERTY_COUNT - i,
        {
            if !self.check_paint_property_not_zero(PaintProperty::nth(i), zoom) {
                assert(self@.paint.contains_key(PaintProperty::at(i as int)));
                return false;
            }
            i += 1;
        }
        proof {
            assert forall|property: PaintProperty| #[trigger]
                self@.paint.contains_key(property) implies self@.paint[property].nonzero_at(
                zoom,
            ) by {
                property.lemma_ordinals();
                assert(self@.paint.contains_key(PaintProperty::at(property.ordinal())));
            }
        }
        true
    }
}

/// The style layers that draw one source layer.
#[derive(Debug)]
pub struct SourceLayer {
    name: String,
    layers: Vec<MapboxStyleLayer>,
}

/// The views of the layers, in order.
pub open spec fn layers_view(layers: Seq<MapboxStyleLayer>) -> Seq<LayerModel> {
    Seq::new(layers.len(), |i: int| layers[i]@)
}

/// Some group is for the source layer `name`.
spec fn has_group(groups: Seq<SourceLayer>, name: Seq<char>) -> bool {
    exists|g: int| 0 <= g < groups.len() && (#[trigger] groups[g]).name@ == name
}

/// The place of a group for the source layer `name`.
spec fn group_at(groups: Seq<SourceLayer>, name: Seq<char>) -> int {
    choose|g: int| 0 <= g < groups.len() && (#[trigger] groups[g]).name@ == name
}

/// No two groups are for the same source layer.
spec fn distinct_names(groups: Seq<SourceLayer>) -> bool {
    forall|a: int, b: int|
        0 <= a < b < groups.len() ==> (#[trigger] groups[a]).name@ != (#[trigger] groups[b]).name@
}

/// The style that the groups make up.
spec fn groups_model(groups: Seq<SourceLayer>) -> StyleModel {
    Map::new(
        |name: Seq<char>| has_group(groups, name),
        |name: Seq<char>| layers_view(groups[group_at(groups, name)].layers@),
    )
}

/// The groups are the index of the entries: one group for each source layer
/// that an entry draws, holding the layers of those entries in their order.
spec fn indexes(groups: Seq<SourceLayer>, entries: Seq<Json>) -> bool {
    &&& distinct_names(groups)
    &&& forall|g: int|
        0 <= g < groups.len() ==> names_layer(entries, (#[trigger] groups[g]).name@)
            && layers_view(groups[g].layers@) == layers_named(entries, groups[g].name@)
    &&& forall|i: int|
        0 <= i < entries.len() ==> (source_layer_of(#[trigger] entries[i]) matches Some(name)
            ==> has_group(groups, name))
}

proof fn lemma_groups_model(groups: Seq<SourceLayer>, entries: Seq<Json>)
    requires
        indexes(groups, entries),
    ensures
        groups_model(groups) == index_of(entries),
{
    let built = groups_model(groups);
    let wanted = index_of(entries);
    assert forall|name: Seq<char>| built.contains_key(name) == wanted.contains_key(name) by {
        if names_layer(entries, name) {
            let i = choose|i: int|
                0 <= i < entries.len() && source_layer_of(#[trigger] entries[i]) == Some(name);
            assert(has_group(groups, name));
        }
        if has_group(groups, name) {
            let g = group_at(groups, name);
            assert(names_layer(entries, groups[g].name@));
        }
    }
    assert forall|name: Seq<char>| built.contains_key(name) implies built[name]
        == wanted[name] by {
        let g = group_at(groups, name);
        assert(layers_view(groups[g].layers@) == layers_named(entries, groups[g].name@));
    }
    assert(built =~= wanted);
}

/// Where no entry draws `name`, no layer is named by it.
proof fn lemma_layers_named_none(entries: Seq<Json>, name: Seq<char>)
    requires
        !names_layer(entries, name),
    ensures
        layers_named(entries, name) == Seq::<LayerModel>::empty(),
    decreases entries.len(),
{
    if entries.len() > 0 {
        assert(source_layer_of(entries[entries.len() - 1]) != Some(name));
        assert(!names_layer(entries.drop_last(), name)) by {
            if names_layer(entries.drop_last(), name) {
                let i = choose|i: int|
                    0 <= i < entries.drop_last().len() && source_layer_of(
                        #[trigger] entries.drop_last()[i],
                    ) == Some(name);
                assert(entries[i] == entries.drop_last()[i]);
            }
        }
        lemma_layers_named_none(entries.drop_last(), name);
    }
}

/// What one more entry does to the question whether a name is drawn.
proof fn lemma_names_layer_push(entries: Seq<Json>, entry: Json, name: Seq<char>)
    ensures
        names_layer(entries.push(entry), name) == (names_layer(entries, name) || source_layer_of(
            entry,
        ) == Some(name)),
{
    let longer = entries.push(entry);
    if names_layer(entries, name) {
        let i = choose|i: int|
            0 <= i < entries.len() && source_layer_of(#[trigger] entries[i]) == Some(name);
        assert(longer[i] == entries[i]);
    }
    if source_layer_of(entry) == Some(name) {
        assert(longer[entries.len() as int] == entry);
    }
    if names_layer(longer, name) {
        let i = choose|i: int|
            0 <= i < longer.len() && source_layer_of(#[trigger] longer[i]) == Some(name);
        if i < entries.len() {
            assert(longer[i] == entries[i]);
        }
    }
}

/// A style: which style layers draw which source layer.
#[derive(Debug)]
pub struct MapboxStyle {
    groups: Vec<SourceLayer>,
}

impl View for MapboxStyle {
    type V = StyleModel;

    closed spec fn view(&self) -> StyleModel {
        groups_model(self.groups@)
    }
}

impl MapboxStyle {
    #[verifier::type_invariant]
    spec fn one_group_per_name(self) -> bool {
        distinct_names(self.groups@)
    }

    /// The names of the source layers that the style draws, each once.
    pub fn source_layers(&self) -> (names: Vec<String>)
        ensures
            lists_source_layers(names@, self@),
    {
        proof {
            use_type_invariant(self);
        }
        let mut names: Vec<String> = Vec::new();
        let mut g: usize = 0;
        while g < self.groups.len()
            invariant
                g <= self.groups.len(),
                names@.len() == g,
                forall|i: int| 0 <= i < g ==> (#[trigger] names@[i])@ == self.groups@[i].name@,
            decreases self.groups.len() - g,
        {
            names.push(self.groups[g].name.clone());
            g += 1;
        }
        proof {
            assert forall|name: Seq<char>|
                self@.contains_key(name) <==> exists|i: int|
                    0 <= i < names@.len() && (#[trigger] names@[i])@ == name by {
                if has_group(self.groups@, name) {
                    let at = group_at(self.groups@, name);
                    assert(names@[at]@ == name);
                }
                if exists|i: int| 0 <= i < names@.len() && (#[trigger] names@[i])@ == name {
                    let i = choose|i: int| 0 <= i < names@.len() && (#[trigger] names@[i])@ == name;
                    assert(self.groups@[i].name@ == name);
                }
            }
        }
        names
    }

    /// Whether the source layer `layer_name` shows at `zoom`. A name that the
    /// style does not draw shows at no zoom.
    pub fn is_layer_visible_on_zoom(&self, layer_name: &str, zoom: u8) -> (visible: bool)
        ensures
            visible == visible_in(self@, layer_name@, zoom),
            !self@.contains_key(layer_name@) ==> !visible,
    {
        proof {
            use_type_invariant(self);
        }
        let wanted: String = layer_name.to_owned();
        let mut g: usize = 0;
        while g < self.groups.len()
            invariant
                g <= self.groups.len(),
                wanted@ == layer_name@,
                distinct_names(self.groups@),
                forall|k: int| 0 <= k < g ==> (#[trigger] self.groups@[k]).name@ != layer_name@,
            decreases self.groups.len() - g,
        {
            if self.groups[g].name == wanted {
                let layers = &self.groups[g].layers;
                proof {
                    assert(has_group(self.groups@, layer_name@));
                    assert(group_at(self.groups@, layer_name@) == g);
                    assert(self@[layer_name@] == layers_view(layers@));
                }
                let mut i: usize = 0;
                while i < layers.len()
                    invariant
                        i <= layers.len(),
                        self@.contains_key(layer_name@),
                        self@[layer_name@] == layers_view(layers@),
                        forall|k: int|
                            0 <= k < i ==> !(#[trigger] layers_view(layers@)[k]).shows_at(zoom),
                    decreases layers.len() - i,
                {
                    assert(layers_view(layers@)[i as int] == layers@[i as int]@);
                    if layers[i].is_visible_on_zoom(zoom) && layers[i].is_rendered(zoom) {
                        assert(self@[layer_name@][i as int].shows_at(zoom));
                        return true;
                    }
                    i += 1;
                }
                return false;
            }
            g += 1;
        }
        proof {
            if has_group(self.groups@, layer_name@) {
                let at = group_at(self.groups@, layer_name@);
                assert(self.groups@[at].name@ == layer_name@);
            }
        }
        false
    }
}

/// Builds the style of a document.
///
/// The document must hold an array under `layers`. Each entry of it that has
/// something under `source` and a text under `source-layer` becomes a style
/// layer of that source layer; every other entry is passed over. A document
/// none of whose entries is kept is refused.
pub fn read_style(document: &Json) -> (outcome: Result<MapboxStyle, StyleParseError>)
    ensures
        match outcome {
            Ok(style) => style_of(*document) == Ok::<StyleModel, StyleParseError>(style@),
            Err(error) => style_of(*document) == Err::<StyleModel, StyleParseError>(error),
        },
{
    let entries = match document.get("layers") {
        Some(list) => match list.as_array() {
            Some(entries) => entries,
            None => {
                return Err(StyleParseError::MissingLayers);
            },
        },
        None => {
            return Err(StyleParseError::MissingLayers);
        },
    };
    let mut groups: Vec<SourceLayer> = Vec::new();
    let mut i: usize = 0;
    assert(entries@.take(0) =~= Seq::<Json>::empty());
    while i < entries.len()
        invariant
            i <= entries.len(),
            indexes(groups@, entries@.take(i as int)),
        decreases entries.len() - i,
    {
        let entry = &entries[i];
        let ghost seen = entries@.take(i as int);
        let ghost longer = entries@.take(i + 1);
        let ghost old_groups = groups@;
        proof {
            assert(longer =~= seen.push(*entry));
            assert(longer.drop_last() =~= seen);
            assert forall|name: Seq<char>| #[trigger]
                names_layer(longer, name) == (names_layer(seen, name) || source_layer_of(*entry)
                    == Some(name)) by {
                lemma_names_layer_push(seen, *entry, name);
            }
        }
        let name: Option<&String> = if entry.get("source").is_some() {
            match entry.get("source-layer") {
                Some(value) => value.as_text(),
                None => None,
            }
        } else {
            None
        };
        match name {
            Some(name) => {
                assert(source_layer_of(*entry) == Some(name@));
                let layer = MapboxStyleLayer::parse(entry);
                let mut g: usize = 0;
                while g < groups.len() && !(groups[g].name == *name)
                    invariant
                        g <= groups.len(),
                        forall|k: int| 0 <= k < g ==> (#[trigger] groups@[k]).name@ != name@,
                    decreases groups.len() - g,
                {
                    g += 1;
                }
                if g < groups.len() {
                    let mut group = groups.remove(g);
                    let ghost old_layers = group.layers@;
                    group.layers.push(layer);
                    assert(layers_view(group.layers@) =~= layers_view(old_layers).push(layer@));
                    groups.insert(g, group);
                    proof {
                        assert(groups@.len() == old_groups.len());
                        assert forall|k: int| 0 <= k < groups@.len() && k != g implies groups@[k]
                            == old_groups[k] by {}
                        assert(groups@[g as int].name@ == name@);
                        assert forall|k: int| 0 <= k < groups@.len() implies names_layer(
                            longer,
                            (#[trigger] groups@[k]).name@,
                        ) && layers_view(groups@[k].layers@) == layers_named(
                            longer,
                            groups@[k].name@,
                        ) by {
                            assert(names_layer(seen, old_groups[k].name@));
                            assert(names_layer(longer, old_groups[k].name@));
                            if k != g {
                                assert(old_groups[k].name@ != old_groups[g as int].name@);
                            }
                        }
                        assert forall|j: int| 0 <= j < longer.len() implies (source_layer_of(
                            #[trigger] longer[j],
                        ) matches Some(n) ==> has_group(groups@, n)) by {
                            if source_layer_of(longer[j]) is Some {
                                let n = source_layer_of(longer[j]).unwrap();
                                if j < seen.len() {
                                    assert(seen[j] == longer[j]);
                                    assert(has_group(old_groups, n));
                                    let at = group_at(old_groups, n);
                                    assert(groups@[at].name@ == n);
                                } else {
                                    assert(groups@[g as int].name@ == n);
                                }
                            }
                        }
                        assert(distinct_names(groups@)) by {
                            assert forall|a: int, b: int| 0 <= a < b < groups@.len() implies (
                            #[trigger] groups@[a]).name@ != (#[trigger] groups@[b]).name@ by {
                                assert(old_groups[a].name@ != old_groups[b].name@);
                            }
                        }
                    }
                } else {
                    let mut layers: Vec<MapboxStyleLayer> = Vec::new();
                    layers.push(layer);
                    assert(layers_view(layers@) =~= Seq::<LayerModel>::empty().push(layer@));
                    groups.push(SourceLayer { name: name.clone(), layers });
                    proof {
                        assert(!names_layer(seen, name@)) by {
                            if names_layer(seen, name@) {
                                let j = choose|j: int|
                                    0 <= j < seen.len() && source_layer_of(#[trigger] seen[j])
                                        == Some(name@);
                                assert(has_group(old_groups, name@));
                                let at = group_at(old_groups, name@);
                                assert(old_groups[at].name@ == name@);
                            }
                        }
                        lemma_layers_named_none(seen, name@);
                        let last = old_groups.len() as int;
                        assert forall|k: int| 0 <= k < groups@.len() implies names_layer(
                            longer,
                            (#[trigger] groups@[k]).name@,
                        ) && layers_view(groups@[k].layers@) == layers_named(
                            longer,
                            groups@[k].name@,
                        ) by {
                            if k < last {
                                assert(groups@[k] == old_groups[k]);
                                assert(names_layer(seen, old_groups[k].name@));
                                assert(names_layer(longer, old_groups[k].name@));
                            }
                        }
                        assert forall|j: int| 0 <= j < longer.len() implies (source_layer_of(
                            #[trigger] longer[j],
                        ) matches Some(n) ==> has_group(groups@, n)) by {
                            if source_layer_of(longer[j]) is Some {
                                let n = source_layer_of(longer[j]).unwrap();
                                if j < seen.len() {
                                    assert(seen[j] == longer[j]);
                                    assert(has_group(old_groups, n));
                                    let at = group_at(old_groups, n);
                                    assert(groups@[at].name@ == n);
                                } else {
                                    assert(groups@[last].name@ == n);
                                }
                            }
                        }
                        assert(distinct_names(groups@)) by {
                            assert forall|a: int, b: int| 0 <= a < b < groups@.len() implies (
                            #[trigger] groups@[a]).name@ != (#[trigger] groups@[b]).name@ by {
                                if b < last {
                                    assert(old_groups[a].name@ != old_groups[b].name@);
                                } else {
                                    assert(groups@[a] == old_groups[a]);
                                }
                            }
                        }
                    }
                }
            },
            None => {
                proof {
                    assert(source_layer_of(*entry) is None);
                    assert forall|k: int| 0 <= k < groups@.len() implies names_layer(
                        longer,
                        (#[trigger] groups@[k]).name@,
                    ) && layers_view(groups@[k].layers@) == layers_named(
                        longer,
                        groups@[k].name@,
                    ) by {
                        assert(names_layer(seen, groups@[k].name@));
                        assert(names_layer(longer, groups@[k].name@));
                    }
                    assert forall|j: int| 0 <= j < longer.len() implies (source_layer_of(
                        #[trigger] longer[j],
                    ) matches Some(n) ==> has_group(groups@, n)) by {
                        if j < seen.len() {
                            assert(seen[j] == longer[j]);
                        }
                    }
                }
            },
        }
        i += 1;
    }
    proof {
        assert(entries@.take(i as int) =~= entries@);
        lemma_groups_model(groups@, entries@);
    }
    if groups.len() == 0 {
        proof {
            assert forall|j: int| 0 <= j < entries@.len() implies source_layer_of(
                #[trigger] entries@[j],
            ) is None by {
                if source_layer_of(entries@[j]) is Some {
                    assert(has_group(groups@, source_layer_of(entries@[j]).unwrap()));
                }
            }
        }
        return Err(StyleParseError::NoSourceLayers);
    }
    let style = MapboxStyle { groups };
    proof {
        assert(names_layer(entries@, style.groups@[0].name@));
        assert(document.member("layers"@).unwrap().items() == Some(entries@));
        assert(style@ == index_of(entries@));
        let j = choose|j: int|
            0 <= j < entries@.len() && source_layer_of(#[trigger] entries@[j]) == Some(
                style.groups@[0].name@,
            );
        assert(source_layer_of(entries@[j]) is Some);
        assert(!draws_nothing(entries@));
    }
    Ok(style)
}

/// The names of the source layers that the style of a document draws.
pub fn read_style_source_layers(document: &Json) -> (outcome: Result<Vec<String>, StyleParseError>)
    ensures
        match outcome {
            Ok(names) => style_of(*document) is Ok && lists_source_layers(
                names@,
                style_of(*document).unwrap(),
            ),
            Err(error) => style_of(*document) == Err::<StyleModel, StyleParseError>(error),
        },
{
    match read_style(document) {
        Ok(style) => {
            assert(style_of(*document).unwrap() == style@);
            Ok(style.source_layers())
        },
        Err(error) => Err(error),
    }
}

} // verus!
