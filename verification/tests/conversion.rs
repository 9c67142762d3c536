use json_objects_to_csv::{ArrayFormatting, Error, Flattener, Json2Csv};

fn parse_values(input: &str) -> Vec<serde_json::Value> {
    serde_json::Deserializer::from_str(input)
        .into_iter::<serde_json::Value>()
        .collect::<Result<Vec<_>, _>>()
        .unwrap()
}

/// Runs both conversion paths on the same input, checks that they produce
/// byte-identical output, and returns it as text.
fn execute_delim(input: &str, flattener: &Flattener, delimiter: u8) -> String {
    let from_reader = Json2Csv::new(flattener.clone())
        .convert_from_reader(&input.as_bytes().to_vec(), delimiter)
        .unwrap();
    let values = parse_values(input);
    let from_array = Json2Csv::new(flattener.clone())
        .convert_from_array(&values, delimiter)
        .unwrap();
    assert_eq!(from_reader, from_array);
    String::from_utf8(from_array).unwrap()
}

fn execute(input: &str, flattener: &Flattener) -> String {
    execute_delim(input, flattener, b',')
}

/// Runs both conversion paths and returns the error of each.
fn execute_expect_err(input: &str, flattener: &Flattener) -> Vec<Error> {
    let err_from_reader = Json2Csv::new(flattener.clone())
        .convert_from_reader(&input.as_bytes().to_vec(), b',')
        .unwrap_err();
    let values = parse_values(input);
    let err_from_array = Json2Csv::new(flattener.clone())
        .convert_from_array(&values, b',')
        .unwrap_err();
    vec![err_from_reader, err_from_array]
}

fn plain_flattener(preserve_arrays: bool, preserve_objects: bool) -> Flattener {
    Flattener::new()
        .set_key_separator(".")
        .set_array_formatting(ArrayFormatting::Plain)
        .set_preserve_empty_arrays(preserve_arrays)
        .set_preserve_empty_objects(preserve_objects)
}

#[test]
fn simple_input() {
    let cases: &[(&str, &[&str])] = &[
        (r#"{"a": {"b": 1}}{"c": [2]}"#, &["a.b,c.0", "1,", ",2"]),
        (r#"{"a": {"b": 1}}{"c": [2]}   "#, &["a.b,c.0", "1,", ",2"]),
        (r#"      {"a": {"b": 1}}{"c": [2]}"#, &["a.b,c.0", "1,", ",2"]),
        (r#"{"a": 3}{"a": 4}{"a": 5}"#, &["a", "3", "4", "5"]),
        (r#"{"b": 3, "a": 1}{"a": 4, "b": 2}"#, &["a,b", "1,3", "4,2"]),
        (
            r#"{"b": 3, "a": 1, "c": 0}{"c": [], "a": 4, "b": 2}"#,
            &["a,b,c", "1,3,0", "4,2,"],
        ),
        (
            r#"{"b": 3, "a": 1, "c": 0}{"c": {}, "a": 4, "b": 2}"#,
            &["a,b,c", "1,3,0", "4,2,"],
        ),
        (
            r#"{"b": 3, "a": 1, "c": 0}{"a": 4, "b": 2}"#,
            &["a,b,c", "1,3,0", "4,2,"],
        ),
    ];
    for (input, expected) in cases {
        for &preserve_arrays in &[true, false] {
            for &preserve_objects in &[true, false] {
                let flattener = plain_flattener(preserve_arrays, preserve_objects);
                let result = execute(input, &flattener);
                assert_eq!(result, expected.join("\n") + "\n");
            }
        }
    }
}

#[test]
fn duplicated_keys_last_wins() {
    let flattener = Flattener::new()
        .set_key_separator(".")
        .set_array_formatting(ArrayFormatting::Plain)
        .set_preserve_empty_arrays(true)
        .set_preserve_empty_objects(true);
    let result = execute(
        r#"{"a": [1,2,3], "a": {"b": 2}, "c": 1, "c": 2}"#,
        &flattener,
    );
    let expected = &["a.b,c", "2,2"];
    assert_eq!(result, expected.join("\n") + "\n");
}

/// The library uses internal separators that later are replaced by the user
/// provided ones. This checks that the replacement does not make the headers
/// and the data be in a different order.
#[test]
fn no_reordering_on_non_default_separators() {
    let flattener = Flattener::new()
        .set_key_separator("]")
        .set_array_formatting(ArrayFormatting::Surrounded {
            start: ".".to_string(),
            end: "".to_string(),
        })
        .set_preserve_empty_arrays(true)
        .set_preserve_empty_objects(true);
    let result = execute(r#"{"a": [1,2,3]} {"a": {"b": 2}}"#, &flattener);
    let expected = &["a.0,a.1,a.2,a]b", "1,2,3,", ",,,2"];
    assert_eq!(result, expected.join("\n") + "\n");
}

/// An error must be reported when flattening makes two keys in an object
/// look the same.
#[test]
fn error_on_collision() {
    for input in [
        r#"{"a": {"b": 1}, "a.b": 2}"#,
        r#"{"a": {"b": 1}}{"a.b": 2}"#,
        r#"{"a": {"b": 1}} {"a.b": 2}"#,
    ] {
        let flattener = plain_flattener(false, false);
        for err in execute_expect_err(input, &flattener) {
            assert!(matches!(err, Error::FlattenedKeysCollision), "unexpected: {:?}", err);
        }
    }
}

/// An error must be reported when flattening makes two keys in an object
/// look the same, even when it is due to array formatting.
#[test]
fn error_on_collision_array_formatting() {
    for input in [r#"{"a[0]": 1, "a": [2]}"#, r#"{"a[0]": 1} {"a": [2]}"#] {
        let flattener = Flattener::new()
            .set_key_separator(".")
            .set_array_formatting(ArrayFormatting::Surrounded {
                start: "[".to_string(),
                end: "]".to_string(),
            })
            .set_preserve_empty_arrays(false)
            .set_preserve_empty_objects(false);
        for err in execute_expect_err(input, &flattener) {
            assert!(matches!(err, Error::FlattenedKeysCollision), "unexpected: {:?}", err);
        }
    }
}

/// In all those cases there are no headers after flattening the input, so
/// the resulting CSV is empty.
#[test]
fn empty_csv_when_no_headers() {
    for input in [
        "",
        "{}",
        "{}{}{}{}",
        r#"{"a": []}"#,
        r#"{"b": {}}"#,
        r#"{"a": []} {"b": {}} {}"#,
    ] {
        let flattener = plain_flattener(false, false);
        let result = execute(input, &flattener);
        assert_eq!(result, "");
    }
}

#[test]
fn preserved_empty() {
    for input in [
        r#"{"a": []}"#,
        r#"{"a": []} {} {}"#,
        r#"{"a": {}}"#,
        r#"{"a": {}} {}"#,
    ] {
        let flattener = plain_flattener(true, true);
        let result = execute(input, &flattener);
        let mut expected = vec!["a"];
        expected.extend(vec![r#""""#; parse_values(input).len()]);
        assert_eq!(result, expected.join("\n") + "\n");
    }
}

#[test]
fn not_preserved_empty() {
    let cases: &[(&str, &[&str])] = &[
        (r#"{"a": [], "b": 3}"#, &["b", "3"]),
        (r#"{"a": [], "b": 3} {} {}"#, &["b", "3", r#""""#, r#""""#]),
        (r#"{"a": {}, "b": 3}"#, &["b", "3"]),
        (r#"{"a": {}} {} {"b": 3} {}"#, &["b", r#""""#, r#""""#, "3", r#""""#]),
        (r#"{"a": {}} {} {"b": 3} {"c": 4}"#, &["b,c", ",", ",", "3,", ",4"]),
    ];
    for (input, expected) in cases {
        let flattener = plain_flattener(false, false);
        let result = execute(input, &flattener);
        assert_eq!(result, expected.join("\n") + "\n");
    }
}

/// Scalars keep their canonical text form; null renders as the empty field.
#[test]
fn scalar_rendering() {
    let flattener = plain_flattener(false, false);
    let result = execute(
        r#"{"s": "x", "n": 1.5, "i": -7, "b": true, "f": false, "z": null}"#,
        &flattener,
    );
    assert_eq!(result, "b,f,i,n,s,z\ntrue,false,-7,1.5,x,\n");
}

/// Field text that holds the delimiter is quoted by the CSV writer.
#[test]
fn quoting_of_fields() {
    let flattener = plain_flattener(false, false);
    let result = execute(r#"{"a": "x,y", "b": "q\"t"}"#, &flattener);
    assert_eq!(result, "a,b\n\"x,y\",\"q\"\"t\"\n");
}

/// The CSV field delimiter is configurable.
#[test]
fn semicolon_delimiter() {
    let flattener = Flattener::new()
        .set_key_separator(".")
        .set_array_formatting(ArrayFormatting::Plain)
        .set_preserve_empty_arrays(true)
        .set_preserve_empty_objects(true);
    let input = r#"{"a": {"b": 1}} {"c": [2]} {"d": []} {"e": {}}"#;
    let result = execute_delim(input, &flattener, b';');
    let expected = ["a.b;c.0;d;e", "1;;;", ";2;;", ";;;", ";;;"];
    assert_eq!(result, expected.join("\n") + "\n");
}

/// Malformed JSON in the stream is a parse error.
#[test]
fn parse_error_reported() {
    let flattener = plain_flattener(false, false);
    let err = Json2Csv::new(flattener)
        .convert_from_reader(&br#"{"a": 1} {"b":"#.to_vec(), b',')
        .unwrap_err();
    assert!(matches!(err, Error::ParsingJson(_)), "unexpected: {:?}", err);
}

/// A top-level value that is not an object cannot be flattened.
#[test]
fn flatten_error_on_non_object() {
    let flattener = plain_flattener(false, false);
    for err in execute_expect_err(r#"[1, 2]"#, &flattener) {
        assert!(matches!(err, Error::Flattening(_)), "unexpected: {:?}", err);
    }
}

/// Surrounded array formatting appears in headers; objects whose keys all
/// vanish still produce an (empty) row.
#[test]
fn surrounded_array_formatting() {
    let flattener = Flattener::new()
        .set_key_separator(".")
        .set_array_formatting(ArrayFormatting::Surrounded {
            start: "[".to_string(),
            end: "]".to_string(),
        })
        .set_preserve_empty_arrays(false)
        .set_preserve_empty_objects(false);
    let input = r#"{"a": {"b": 1}} {"c": [2]} {"d": []} {"e": {}}"#;
    let result = execute(input, &flattener);
    let expected = ["a.b,c[0]", "1,", ",2", ",", ","];
    assert_eq!(result, expected.join("\n") + "\n");
}

/// Keys and values outside ASCII survive the spill round trip of the
/// streaming path unchanged.
#[test]
fn non_ascii_round_trip() {
    let flattener = plain_flattener(false, false);
    let input = "{\"k\u{00e9}y\": \"h\u{00e9}llo \u{2192} w\u{00f6}rld\"} {\"z\": \"\u{1f600}\"}";
    let result = execute(input, &flattener);
    let expected = "k\u{00e9}y,z\nh\u{00e9}llo \u{2192} w\u{00f6}rld,\n,\u{1f600}\n";
    assert_eq!(result, expected);
}

/// The key transform maps the reserved separators to the caller's.
#[test]
fn transform_key_maps_reserved_separators() {
    let converter = Json2Csv::new(
        Flattener::new().set_key_separator("::").set_array_formatting(
            ArrayFormatting::Surrounded {
                start: "<".to_string(),
                end: ">".to_string(),
            },
        ),
    );
    assert_eq!(converter.transform_key("a\u{241D}b\u{241E}0\u{241F}"), "a::b<0>");
    let plain = Json2Csv::new(Flattener::new().set_key_separator("."));
    assert_eq!(plain.transform_key("x\u{241D}y\u{241D}z"), "x.y.z");
    assert_eq!(plain.transform_key("untouched"), "untouched");
}
