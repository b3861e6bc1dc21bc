use scc::highlighter::is_supported_extension;

#[test]
fn only_json_themes_are_supported() {
    assert!(is_supported_extension("json"));
    assert!(!is_supported_extension("JSON"));
    assert!(!is_supported_extension(""));
    assert!(!is_supported_extension("jso"));
    assert!(!is_supported_extension("jsonx"));
    assert!(!is_supported_extension(".json"));
    assert!(!is_supported_extension("toml"));
    assert!(!is_supported_extension("jsön"));
}
