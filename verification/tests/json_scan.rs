use dependable_core::parsers::json_scan::{scan_document, scan_strings, JsonStringValue};

fn paths(values: &[JsonStringValue]) -> Vec<(Vec<&str>, &str)> {
    values
        .iter()
        .map(|v| {
            (
                v.path.iter().map(String::as_str).collect(),
                v.value.as_str(),
            )
        })
        .collect()
}

#[test]
fn scans_nested_string_values_with_paths() {
    let src = r#"{
            "name": "demo",
            "dependencies": { "react": "^18.0.0" },
            "scopes": { "https://x/": { "@std/a": "jsr:@std/a@1" } }
        }"#;
    let values = scan_strings(src);
    let got = paths(&values);
    assert!(got.contains(&(vec!["name"], "demo")));
    assert!(got.contains(&(vec!["dependencies", "react"], "^18.0.0")));
    assert!(got.contains(&(vec!["scopes", "https://x/", "@std/a"], "jsr:@std/a@1")));
}

#[test]
fn content_span_slices_back_to_value() {
    let src = r#"{ "dependencies": { "react": "^18.0.0" } }"#;
    let v = scan_strings(src)
        .into_iter()
        .find(|v| v.path == ["dependencies", "react"])
        .unwrap();
    assert_eq!(&src[v.content_start..v.content_end], "^18.0.0");
}

#[test]
fn skips_line_and_block_comments() {
    let src = r#"{
            // a line comment
            "imports": {
                /* block */ "lodash": "npm:lodash@^4"
            }
        }"#;
    let values = scan_strings(src);
    assert!(paths(&values).contains(&(vec!["imports", "lodash"], "npm:lodash@^4")));
}

#[test]
fn every_prefix_of_a_document_scans_without_panicking() {
    let src = r#"{
            "pins": [
                { "identity": "swift-nio", "location": "https://github.com/apple/swift-nio.git",
                  "state": { "version": "2.65.0" } }
            ],
            "version": 2
        }"#;
    for cut in 0..=src.len() {
        let _ = scan_document(&src[..cut]);
    }
}

#[test]
fn a_delimiter_where_a_value_belongs_terminates() {
    for src in ["[ } ]", "{ \"a\": }", "{ \"a\": ] }", "[[[", "{{{"] {
        let scanned = scan_document(src);
        assert!(!scanned.well_formed, "{src}");
    }
}

#[test]
fn well_formedness_separates_a_whole_document_from_a_prefix() {
    let src = r#"{ "a": [1, 2, {"b": "c"}], "d": null, "e": true }"#;
    assert!(scan_document(src).well_formed);
    assert!(scan_document(&src[..src.len() - 1]).well_formed.eq(&false));

    assert!(scan_document("{ /* hi */ \"a\": 1 } // done").well_formed);

    assert!(!scan_document("not json at all {{{").well_formed);
    assert!(!scan_document("{} garbage").well_formed);
    assert!(!scan_document("").well_formed);

    assert!(!scan_document(r#"{ "a": "unterminated "#).well_formed);
    assert!(!scan_document(r#"{ "a" 1 }"#).well_formed);

    assert!(!scan_document(r#"{ "a": nope }"#).well_formed);
    assert!(scan_document(r#"{ "a": -1.5e3 }"#).well_formed);
}

#[test]
fn handles_arrays_with_indices() {
    let src = r#"{ "project": { "dependencies": ["flask>=2.0", "requests"] } }"#;
    let values = scan_strings(src);
    let got = paths(&values);
    assert!(got.contains(&(vec!["project", "dependencies", "0"], "flask>=2.0")));
    assert!(got.contains(&(vec!["project", "dependencies", "1"], "requests")));
}

#[test]
fn only_json_numbers_are_numbers() {
    for number in ["0", "-0", "10", "1.5", "-1.5e3", "1E+2", "2e-10", "0.0"] {
        assert!(scan_document(&format!("{{ \"a\": {number} }}")).well_formed, "{number}");
    }
    for other in [
        "NaN", "nan", "inf", "-inf", "infinity", "+1", ".5", "1.", "01", "-", "1e", "1e+", "--1",
    ] {
        let scanned = scan_document(&format!("{{ \"a\": {other} }}"));
        assert!(!scanned.well_formed, "{other}");
        assert!(scanned.values.is_empty(), "{other}");
    }
}

#[test]
fn values_come_in_the_order_they_are_written() {
    let src = r#"{ "a": "1", "b": ["", { "c": "ä\"" }, x "d"], "e": "2" }"#;
    let values = scan_document(src).values;
    assert_eq!(values.len(), 5);
    let mut last = 0;
    for v in &values {
        assert!(last < v.content_start && v.content_start <= v.content_end);
        last = v.content_end;
    }
    assert!(last < src.len());
}
