use balchug::export::{
    color_list, font_entry, index_html, join_with, lib_code, replace_all, CARGO_TOML, INDEX_HTML, LIB_CODE,
    TRUNK_TOML,
};

#[test]
fn replace_matches_std() {
    let cases = [
        ("a{x}b{x}", "{x}", "1"),
        ("aaa", "aa", "b"),
        ("aaaa", "aa", "aa"),
        ("no match here", "zz", "y"),
        ("", "x", "y"),
        ("x", "xx", "y"),
        ("ёжик ёж", "ёж", "e"),
        ("{a}{a}{a}", "{a}", ""),
    ];
    for (s, p, w) in cases {
        assert_eq!(replace_all(s, p, w), s.replace(p, w), "replacing {p:?} in {s:?}");
    }
}

#[test]
fn join_matches_std() {
    let parts: Vec<String> = vec!["a".into(), "bc".into(), "".into(), "d".into()];
    assert_eq!(join_with(&parts, ","), parts.join(","));
    assert_eq!(join_with(&[], ","), "");
    assert_eq!(join_with(&["only".to_string()], ", "), "only");
}

#[test]
fn colour_and_font_entries() {
    assert_eq!(color_list([0, 128, 255]), "0, 128, 255");
    assert_eq!(font_entry("regular", "1f2e"), "\"assets/regular-1f2e.otf\"");
}

#[test]
fn lib_code_fills_every_field() {
    let fonts = vec![font_entry("regular", "aa"), font_entry("bold", "bb")];
    let code = lib_code("c0ffee", [1, 2, 3], &fonts, 20, 50);
    let expected = LIB_CODE
        .replace("{atlas_hash}", "c0ffee")
        .replace("{settings.background_color}", "1, 2, 3")
        .replace("{fonts}", &fonts.join(","))
        .replace("{viscosity}", "20")
        .replace("{inertion}", "50");
    assert_eq!(code, expected);
    assert!(code.contains("assets/atlas-c0ffee.webp"));
    assert!(!code.contains("{atlas_hash}"));
}

#[test]
fn index_page_fills_name_and_colour() {
    let page = index_html("My demo", [10, 20, 30]);
    let expected = INDEX_HTML
        .replace("{settings.name}", "My demo")
        .replace("{settings.background_color}", "10, 20, 30");
    assert_eq!(page, expected);
}

#[test]
fn fixed_build_files() {
    assert!(CARGO_TOML.contains("name = \"balchug-demo\""));
    assert!(CARGO_TOML.contains("crate-type = [\"cdylib\"]"));
    assert!(TRUNK_TOML.contains("target = \"index.html\""));
    assert!(INDEX_HTML.contains("<canvas id=\"canvas\""));
}
