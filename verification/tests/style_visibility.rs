use vt_optimizer::json::{Json, JsonNumber, Member};
use vt_optimizer::paint::{parse_paint_value, parse_stop, PaintProperty, PaintValue, Stop};
use vt_optimizer::style::{
    read_style, read_style_source_layers, MapboxStyle, MapboxStyleLayer, StyleParseError,
};

fn obj(members: Vec<(&str, Json)>) -> Json {
    Json::Object(
        members
            .into_iter()
            .map(|(key, value)| Member { key: key.to_string(), value })
            .collect(),
    )
}

fn arr(items: Vec<Json>) -> Json {
    Json::Array(items)
}

fn text(value: &str) -> Json {
    Json::Text(value.to_string())
}

fn num(value: i64) -> Json {
    Json::Number(JsonNumber::whole(value))
}

/// The number `floor` + 0.5.
fn half_above(floor: i64) -> Json {
    Json::Number(JsonNumber { floor, fractional: true })
}

fn stops(pairs: Vec<Json>) -> Json {
    obj(vec![("stops", arr(pairs))])
}

fn layer(source_layer: &str, mut rest: Vec<(&'static str, Json)>) -> Json {
    let mut members = vec![("source", text("osm")), ("source-layer", text(source_layer))];
    members.append(&mut rest);
    obj(members)
}

fn style_of(layers: Vec<Json>) -> MapboxStyle {
    match read_style(&obj(vec![("version", num(8)), ("layers", arr(layers))])) {
        Ok(style) => style,
        Err(error) => panic!("style was refused: {:?}", error),
    }
}

fn error_of(document: Json) -> StyleParseError {
    match read_style(&document) {
        Ok(_) => panic!("style was accepted"),
        Err(error) => error,
    }
}

fn visible_zooms(style: &MapboxStyle, name: &str) -> Vec<u8> {
    (0..=255u8).filter(|zoom| style.is_layer_visible_on_zoom(name, *zoom)).collect()
}

#[test]
fn zoom_range_includes_minzoom_and_excludes_maxzoom() {
    let style = style_of(vec![layer("roads", vec![("minzoom", num(5)), ("maxzoom", num(10))])]);
    assert!(style.is_layer_visible_on_zoom("roads", 5));
    assert!(style.is_layer_visible_on_zoom("roads", 9));
    assert!(!style.is_layer_visible_on_zoom("roads", 4));
    assert!(!style.is_layer_visible_on_zoom("roads", 10));
    assert_eq!(visible_zooms(&style, "roads"), vec![5, 6, 7, 8, 9]);
}

#[test]
fn layer_without_bounds_is_visible_at_every_zoom() {
    let style = style_of(vec![layer("water", vec![])]);
    assert_eq!(visible_zooms(&style, "water").len(), 256);
}

#[test]
fn only_minzoom_bounds_from_below() {
    let style = style_of(vec![layer("water", vec![("minzoom", num(250))])]);
    assert_eq!(visible_zooms(&style, "water"), vec![250, 251, 252, 253, 254, 255]);
}

#[test]
fn only_maxzoom_bounds_from_above() {
    let style = style_of(vec![layer("water", vec![("maxzoom", num(3))])]);
    assert_eq!(visible_zooms(&style, "water"), vec![0, 1, 2]);
}

#[test]
fn fractional_bounds_fall_between_zooms() {
    // minzoom 4.5, maxzoom 9.5
    let style = style_of(vec![layer(
        "roads",
        vec![("minzoom", half_above(4)), ("maxzoom", half_above(9))],
    )]);
    assert_eq!(visible_zooms(&style, "roads"), vec![5, 6, 7, 8, 9]);
}

#[test]
fn bounds_beyond_all_zooms() {
    let never = style_of(vec![layer("a", vec![("minzoom", num(256))])]);
    assert!(visible_zooms(&never, "a").is_empty());
    let always = style_of(vec![layer("a", vec![("minzoom", num(-3)), ("maxzoom", num(1000))])]);
    assert_eq!(visible_zooms(&always, "a").len(), 256);
    let closed = style_of(vec![layer("a", vec![("maxzoom", num(0))])]);
    assert!(visible_zooms(&closed, "a").is_empty());
    let huge = style_of(vec![layer("a", vec![("minzoom", num(i64::MAX))])]);
    assert!(visible_zooms(&huge, "a").is_empty());
    let tiny = style_of(vec![layer("a", vec![("maxzoom", num(i64::MIN))])]);
    assert!(visible_zooms(&tiny, "a").is_empty());
}

#[test]
fn bound_that_is_no_number_is_no_bound() {
    let style = style_of(vec![layer("a", vec![("minzoom", text("5")), ("maxzoom", Json::Null)])]);
    assert_eq!(visible_zooms(&style, "a").len(), 256);
}

#[test]
fn visibility_none_is_never_visible() {
    let style = style_of(vec![layer(
        "roads",
        vec![
            ("layout", obj(vec![("visibility", text("none"))])),
            ("paint", obj(vec![("line-width", num(3)), ("line-opacity", num(1))])),
        ],
    )]);
    assert!(visible_zooms(&style, "roads").is_empty());
}

#[test]
fn visibility_other_than_none_is_visible() {
    for value in [text("visible"), text("None"), text(""), num(0), Json::Null, Json::Bool(false)] {
        let style = style_of(vec![layer("roads", vec![("layout", obj(vec![("visibility", value)]))])]);
        assert_eq!(visible_zooms(&style, "roads").len(), 256);
    }
    let no_visibility = style_of(vec![layer("roads", vec![("layout", obj(vec![]))])]);
    assert_eq!(visible_zooms(&no_visibility, "roads").len(), 256);
    let layout_is_text = style_of(vec![layer("roads", vec![("layout", text("none"))])]);
    assert_eq!(visible_zooms(&layout_is_text, "roads").len(), 256);
}

#[test]
fn stop_with_zero_value_hides_only_its_own_zoom() {
    let style = style_of(vec![layer(
        "parks",
        vec![("paint", obj(vec![("fill-opacity", stops(vec![arr(vec![num(5), num(0)])]))]))],
    )]);
    assert!(!style.is_layer_visible_on_zoom("parks", 5));
    assert!(style.is_layer_visible_on_zoom("parks", 6));
    assert!(style.is_layer_visible_on_zoom("parks", 4));
    assert_eq!(visible_zooms(&style, "parks").len(), 255);
}

#[test]
fn zoom_between_stops_is_not_interpolated() {
    // Zero at 4 and at 8: zooms 5 to 7 lie between two zero stops and still show.
    let style = style_of(vec![layer(
        "parks",
        vec![(
            "paint",
            obj(vec![(
                "line-width",
                stops(vec![arr(vec![num(4), num(0)]), arr(vec![num(8), num(0)])]),
            )]),
        )],
    )]);
    let hidden: Vec<u8> =
        (0..=255u8).filter(|z| !style.is_layer_visible_on_zoom("parks", *z)).collect();
    assert_eq!(hidden, vec![4, 8]);
}

#[test]
fn scalar_zero_hides_at_every_zoom() {
    let style = style_of(vec![layer("parks", vec![("paint", obj(vec![("text-size", num(0))]))])]);
    assert!(visible_zooms(&style, "parks").is_empty());
}

#[test]
fn scalar_that_is_not_zero_does_not_hide() {
    let style = style_of(vec![layer(
        "parks",
        vec![("paint", obj(vec![("text-size", half_above(0)), ("icon-size", num(-1))]))],
    )]);
    assert_eq!(visible_zooms(&style, "parks").len(), 256);
}

#[test]
fn every_recognized_property_can_hide() {
    let names = [
        "fill-opacity",
        "fill-outline-color",
        "line-opacity",
        "line-width",
        "icon-size",
        "text-size",
        "text-max-width",
        "text-opacity",
        "raster-opacity",
        "circle-radius",
        "circle-opacity",
        "fill-extrusion-opacity",
        "heatmap-opacity",
    ];
    for (i, name) in names.iter().enumerate() {
        assert_eq!(PaintProperty::nth(i).name(), *name);
        assert_eq!(PaintProperty::nth(i).index(), i);
        let paint = Json::Object(vec![Member { key: name.to_string(), value: num(0) }]);
        let style = style_of(vec![layer("x", vec![("paint", paint)])]);
        assert!(!style.is_layer_visible_on_zoom("x", 3), "{} did not hide", name);
    }
}

#[test]
fn other_paint_properties_never_hide() {
    let style = style_of(vec![layer(
        "parks",
        vec![(
            "paint",
            obj(vec![
                ("fill-color", num(0)),
                ("line-blur", stops(vec![arr(vec![num(5), num(0)])])),
                ("Fill-Opacity", num(0)),
            ]),
        )],
    )]);
    assert_eq!(visible_zooms(&style, "parks").len(), 256);
}

#[test]
fn paint_that_is_no_object_is_ignored() {
    let style = style_of(vec![layer("parks", vec![("paint", num(0))])]);
    assert_eq!(visible_zooms(&style, "parks").len(), 256);
}

#[test]
fn unreadable_paint_value_is_as_good_as_absent() {
    for value in [
        text("0"),
        Json::Null,
        Json::Bool(false),
        arr(vec![num(0)]),
        obj(vec![]),
        obj(vec![("stops", num(0))]),
        obj(vec![("base", num(0))]),
        stops(vec![]),
        stops(vec![arr(vec![num(300), num(0)])]),
    ] {
        assert!(parse_paint_value(&value).is_none());
        let style = style_of(vec![layer("p", vec![("paint", obj(vec![("line-width", value)]))])]);
        assert_eq!(visible_zooms(&style, "p").len(), 256);
    }
}

#[test]
fn stops_outside_zoom_range_are_dropped() {
    let value = stops(vec![
        arr(vec![num(-1), num(0)]),
        arr(vec![num(0), num(0)]),
        arr(vec![num(255), num(0)]),
        arr(vec![num(256), num(0)]),
        arr(vec![half_above(255), num(0)]),
        arr(vec![half_above(-1), num(0)]),
    ]);
    match parse_paint_value(&value) {
        Some(PaintValue::Stops(kept)) => {
            let zero = JsonNumber::whole(0);
            assert_eq!(kept, vec![Stop { zoom: 0, value: zero }, Stop { zoom: 255, value: zero }]);
        }
        other => panic!("unexpected {:?}", other),
    }
}

#[test]
fn malformed_stops_are_dropped_one_by_one() {
    let value = stops(vec![
        num(3),
        arr(vec![num(4)]),
        arr(vec![text("5"), num(0)]),
        arr(vec![num(6), text("0")]),
        arr(vec![]),
        arr(vec![num(7), num(0), text("extra")]),
        arr(vec![num(8), num(2)]),
    ]);
    match parse_paint_value(&value) {
        Some(PaintValue::Stops(kept)) => {
            assert_eq!(
                kept,
                vec![
                    Stop { zoom: 7, value: JsonNumber::whole(0) },
                    Stop { zoom: 8, value: JsonNumber::whole(2) },
                ]
            );
        }
        other => panic!("unexpected {:?}", other),
    }
}

#[test]
fn fractional_stop_zoom_counts_as_the_zoom_below() {
    assert_eq!(
        parse_stop(&arr(vec![half_above(5), num(0)])),
        Some(Stop { zoom: 5, value: JsonNumber::whole(0) })
    );
    assert_eq!(parse_stop(&arr(vec![half_above(255), num(0)])), None);
    assert_eq!(parse_stop(&arr(vec![num(255), half_above(0)])).map(|s| s.zoom), Some(255));
}

#[test]
fn first_stop_for_a_zoom_decides() {
    let zero_first = PaintValue::Stops(vec![
        Stop { zoom: 5, value: JsonNumber::whole(0) },
        Stop { zoom: 5, value: JsonNumber::whole(1) },
    ]);
    assert!(!zero_first.is_nonzero_at_zoom(5));
    let one_first = PaintValue::Stops(vec![
        Stop { zoom: 5, value: JsonNumber::whole(1) },
        Stop { zoom: 5, value: JsonNumber::whole(0) },
    ]);
    assert!(one_first.is_nonzero_at_zoom(5));
    assert!(one_first.is_nonzero_at_zoom(6));
}

#[test]
fn scalar_is_read_before_stops() {
    match parse_paint_value(&num(2)) {
        Some(PaintValue::Number(n)) => assert_eq!(n, JsonNumber::whole(2)),
        other => panic!("unexpected {:?}", other),
    }
    assert!(PaintValue::Number(JsonNumber::whole(2)).is_nonzero_at_zoom(0));
    assert!(!PaintValue::Number(JsonNumber::whole(0)).is_nonzero_at_zoom(200));
    assert!(PaintValue::Number(JsonNumber { floor: 0, fractional: true }).is_nonzero_at_zoom(0));
    assert!(PaintValue::Number(JsonNumber { floor: -1, fractional: true }).is_nonzero_at_zoom(0));
}

#[test]
fn layers_of_one_source_layer_are_taken_together() {
    let style = style_of(vec![
        layer("roads", vec![("minzoom", num(3)), ("maxzoom", num(5))]),
        layer("water", vec![("maxzoom", num(2))]),
        layer("roads", vec![("minzoom", num(8)), ("maxzoom", num(10))]),
        layer("roads", vec![("layout", obj(vec![("visibility", text("none"))]))]),
        layer(
            "roads",
            vec![("minzoom", num(12)), ("paint", obj(vec![("line-width", num(0))]))],
        ),
    ]);
    assert_eq!(visible_zooms(&style, "roads"), vec![3, 4, 8, 9]);
    assert_eq!(visible_zooms(&style, "water"), vec![0, 1]);
}

#[test]
fn unknown_source_layer_is_not_visible() {
    let style = style_of(vec![layer("roads", vec![])]);
    assert!(visible_zooms(&style, "rails").is_empty());
    assert!(visible_zooms(&style, "").is_empty());
    assert!(visible_zooms(&style, "Roads").is_empty());
    assert!(visible_zooms(&style, "roads ").is_empty());
}

#[test]
fn style_without_any_source_layer_is_refused() {
    let document = obj(vec![(
        "layers",
        arr(vec![
            obj(vec![("id", text("background")), ("type", text("background"))]),
            obj(vec![("id", text("a")), ("source", text("osm"))]),
            obj(vec![("source", text("osm")), ("source-layer", num(3))]),
            obj(vec![("source", text("osm")), ("minzoom", num(3))]),
            num(1),
        ]),
    )]);
    assert_eq!(error_of(document), StyleParseError::NoSourceLayers);
}

#[test]
fn style_with_empty_layers_is_refused() {
    assert_eq!(error_of(obj(vec![("layers", arr(vec![]))])), StyleParseError::NoSourceLayers);
}

#[test]
fn entry_without_source_is_passed_over() {
    let document = obj(vec![("layers", arr(vec![obj(vec![("source-layer", text("roads"))])]))]);
    assert_eq!(error_of(document), StyleParseError::NoSourceLayers);
    let style = style_of(vec![
        obj(vec![("source-layer", text("roads"))]),
        layer("water", vec![]),
    ]);
    assert_eq!(style.source_layers(), vec!["water".to_string()]);
    assert!(!style.is_layer_visible_on_zoom("roads", 1));
}

#[test]
fn any_value_under_source_counts() {
    let style = style_of(vec![obj(vec![("source", Json::Null), ("source-layer", text("roads"))])]);
    assert!(style.is_layer_visible_on_zoom("roads", 1));
}

#[test]
fn document_without_layers_array_is_refused() {
    assert_eq!(error_of(obj(vec![("version", num(8))])), StyleParseError::MissingLayers);
    assert_eq!(error_of(obj(vec![("layers", obj(vec![]))])), StyleParseError::MissingLayers);
    assert_eq!(error_of(obj(vec![("layers", Json::Null)])), StyleParseError::MissingLayers);
    assert_eq!(error_of(arr(vec![layer("roads", vec![])])), StyleParseError::MissingLayers);
    assert_eq!(error_of(Json::Null), StyleParseError::MissingLayers);
    assert_eq!(error_of(text("layers")), StyleParseError::MissingLayers);
}

#[test]
fn source_layers_are_listed_once_each() {
    let style = style_of(vec![
        layer("roads", vec![]),
        layer("water", vec![]),
        layer("roads", vec![]),
        obj(vec![("id", text("background"))]),
        layer("parks", vec![]),
        layer("water", vec![]),
    ]);
    let mut names = style.source_layers();
    names.sort();
    assert_eq!(names, vec!["parks".to_string(), "roads".to_string(), "water".to_string()]);
}

#[test]
fn source_layers_of_a_document() {
    let document = obj(vec![("layers", arr(vec![layer("b", vec![]), layer("a", vec![])]))]);
    let mut names = read_style_source_layers(&document).unwrap();
    names.sort();
    assert_eq!(names, vec!["a".to_string(), "b".to_string()]);
    assert_eq!(
        read_style_source_layers(&obj(vec![])),
        Err(StyleParseError::MissingLayers)
    );
    assert_eq!(
        read_style_source_layers(&obj(vec![("layers", arr(vec![]))])),
        Err(StyleParseError::NoSourceLayers)
    );
}

#[test]
fn single_layer_answers_for_itself() {
    let entry = layer(
        "roads",
        vec![
            ("minzoom", num(2)),
            ("paint", obj(vec![("line-opacity", stops(vec![arr(vec![num(3), num(0)])]))])),
        ],
    );
    let parsed = MapboxStyleLayer::parse(&entry);
    assert!(!parsed.is_visible_on_zoom(1));
    assert!(parsed.is_visible_on_zoom(2));
    assert!(parsed.is_visible_on_zoom(3));
    assert!(parsed.is_rendered(1));
    assert!(parsed.is_rendered(2));
    assert!(!parsed.is_rendered(3));
}
