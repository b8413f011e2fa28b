use vt_optimizer::paths::has_mbtiles_extension;

#[test]
fn lower_case_extension_is_accepted() {
    assert!(has_mbtiles_extension("mbtiles"));
}

#[test]
fn extension_case_is_ignored() {
    assert!(has_mbtiles_extension("MBTILES"));
    assert!(has_mbtiles_extension("MbTiles"));
    assert!(has_mbtiles_extension("mbtileS"));
}

#[test]
fn missing_extension_is_refused() {
    assert!(!has_mbtiles_extension(""));
}

#[test]
fn other_extensions_are_refused() {
    assert!(!has_mbtiles_extension("json"));
    assert!(!has_mbtiles_extension("mbtile"));
    assert!(!has_mbtiles_extension("mbtiless"));
    assert!(!has_mbtiles_extension(".mbtiles"));
    assert!(!has_mbtiles_extension("mbtilez"));
    assert!(!has_mbtiles_extension("sqlite"));
}

#[test]
fn letters_outside_ascii_do_not_match() {
    // U+017F folds to `s` in Unicode, not in ASCII.
    assert!(!has_mbtiles_extension("mbtile\u{17f}"));
    // 32 below `m` is `M`; 32 below `b` is `B`; 32 above is something else.
    assert!(!has_mbtiles_extension("\u{8d}btiles"));
    assert!(!has_mbtiles_extension("-btiles"));
}
