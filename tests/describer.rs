use std::collections::HashMap;

use def::{DeserializeError, Describer};

fn describe_tester(describer: &Describer) {
    for (path, desc, is_none) in [
        ("/path/to/dir", "This is /path/to/dir.", false),
        ("/another/dir", "This is /another/dir.", false),
        ("/yet/another/path", "This is /yet/another/path.", false),
        ("/path/to/dir/1", "1 is in /path/to/dir.", false),
        ("/path/to/dir/things", "things is in /path/to/dir.", false),
        ("/yet/another/path/1", "1 is in /yet/another/path.", false),
        ("/yet/another/path/$", "$ is in /yet/another/path.", false),
        ("/obvious/obviously", "obviously is obviously", false),
        ("/doesn't/exist", "", true),
    ]
    .iter()
    {
        assert_eq!(
            describer.describe(path),
            if *is_none {
                None
            } else {
                Some(desc.to_string())
            }
        );
    }
}

#[test]
fn new_describe_test() {
    let mut descriptions: HashMap<String, String> = HashMap::new();
    let mut patterns: HashMap<String, String> = HashMap::new();
    for (path, desc, is_pattern) in [
        ("/path/to/dir", "This is /path/to/dir.", false),
        ("/another/dir", "This is /another/dir.", false),
        ("/yet/another/path", "This is /yet/another/path.", false),
        ("/path/to/dir", "* is in /path/to/dir.", true),
        ("/yet/another/path", "* is in /yet/another/path.", true),
        ("/obvious", "* is *", true),
        ("/yet/another", "* is in /yet/another/path.", true),
    ]
    .iter()
    {
        if *is_pattern {
            patterns.insert(path.to_string(), desc.to_string());
        } else {
            descriptions.insert(path.to_string(), desc.to_string());
        }
    }

    describe_tester(&Describer::new_with(descriptions, patterns));
}

#[test]
fn new_from_json_describe_test() {
    match Describer::new_from_json(
        "
	    {
                \"descriptions\": {
                        \"/path/to/dir\": \"This is /path/to/dir.\",
                        \"/another/dir\": \"This is /another/dir.\",
                        \"/yet/another/path\": \"This is /yet/another/path.\"
		},
                \"patterns\": {
                        \"/path/to/dir\": \"* is in /path/to/dir.\",
                        \"/yet/another/path\": \"* is in /yet/another/path.\",
                        \"/obvious\": \"* is *\",
                        \"/yet/another\": \"* is in /yet/another/path.\"
                }
            }",
    ) {
        Ok(d) => describe_tester(&d),
        Err(e) => panic!("{:?}", e),
    };
}

#[test]
fn add_test() {
    let mut d = Describer::new();
    d.add_description("path/to/directory", "This is an empty directory.");
    d.add_pattern("parent/directory", "* is a child of parent/directory.");
    assert_eq!(
        d.to_json(false).unwrap(),
        format!(
            "{}{}{}{}",
            "{\"descriptions\":",
            "{\"path/to/directory\":\"This is an empty directory.\"},",
            "\"patterns\":",
            "{\"parent/directory\":\"* is a child of parent/directory.\"}}"
        )
    );
}

#[test]
fn doc_example_describes_children_not_parent() {
    let mut describer = Describer::new();
    describer.add_description("path/to/directory", "This is an empty directory.");
    describer.add_pattern("parent/directory", "* is a child of parent/directory.");
    assert_eq!(
        describer.describe("path/to/directory"),
        Some("This is an empty directory.".to_string())
    );
    assert_eq!(
        describer.describe("parent/directory/test"),
        Some("test is a child of parent/directory.".to_string())
    );
    assert_eq!(describer.describe("parent/directory"), None);
}

#[test]
fn exact_description_wins_over_pattern() {
    let mut d = Describer::new();
    d.add_pattern("/p", "* from pattern");
    d.add_description("/p/x", "exact");
    assert_eq!(d.describe("/p/x"), Some("exact".to_string()));
    assert_eq!(d.describe("/p/y"), Some("y from pattern".to_string()));
}

#[test]
fn every_placeholder_is_replaced() {
    let mut d = Describer::new();
    d.add_pattern("/p", "* and * again");
    assert_eq!(d.describe("/p/x"), Some("x and x again".to_string()));
}

#[test]
fn pattern_without_placeholder_is_kept_as_is() {
    let mut d = Describer::new();
    d.add_pattern("/p", "a child of p");
    assert_eq!(d.describe("/p/anything"), Some("a child of p".to_string()));
}

#[test]
fn home_scenario() {
    let mut d = Describer::new();
    d.add_description("/a/b", "home");
    d.add_pattern("/a", "* lives in /a");
    assert_eq!(d.describe("/a/b"), Some("home".to_string()));
    assert_eq!(d.describe("/a/c"), Some("c lives in /a".to_string()));
    assert_eq!(d.describe("/a"), None);
}

#[test]
fn empty_describer_describes_nothing() {
    let d = Describer::new();
    for path in ["", "/", "/a", "a", "/a/b/c", "*"] {
        assert_eq!(d.describe(path), None);
    }
    let d = Describer::default();
    assert_eq!(d.describe("/a/b"), None);
}

#[test]
fn path_without_separator_is_not_matched() {
    let mut d = Describer::new();
    d.add_pattern("name", "* under name");
    d.add_pattern("", "* at the root");
    assert_eq!(d.describe("name"), None);
    assert_eq!(d.describe("other"), None);
    d.add_description("name", "exact");
    assert_eq!(d.describe("name"), Some("exact".to_string()));
}

#[test]
fn split_is_at_last_separator() {
    let mut d = Describer::new();
    d.add_pattern("/a/b", "* in b");
    d.add_pattern("/a", "* in a");
    assert_eq!(d.describe("/a/b/c"), Some("c in b".to_string()));
    assert_eq!(d.describe("/x"), None);
    assert_eq!(d.describe("/leaf"), None);
    d.add_pattern("", "* at the root");
    assert_eq!(d.describe("/leaf"), Some("leaf at the root".to_string()));
    assert_eq!(d.describe("/a/"), Some(" in a".to_string()));
}

#[test]
fn adding_again_replaces() {
    let mut d = Describer::new();
    d.add_description("/a", "first");
    d.add_description("/a", "second");
    d.add_pattern("/a", "* one");
    d.add_pattern("/a", "* two");
    assert_eq!(d.describe("/a"), Some("second".to_string()));
    assert_eq!(d.describe("/a/z"), Some("z two".to_string()));
}

#[test]
fn non_ascii_names_are_substituted() {
    let mut d = Describer::new();
    d.add_pattern("/dir/ü", "*: ∗ → *");
    assert_eq!(d.describe("/dir/ü/ñame"), Some("ñame: ∗ → ñame".to_string()));
}

#[test]
fn json_round_trip_keeps_descriptions() {
    let mut d = Describer::new();
    d.add_description("/a/b", "home");
    d.add_description("/q\"uote", "with \"quotes\" and \\ and\nnewline");
    d.add_pattern("/a", "* lives in /a");
    d.add_pattern("/t", "tab\there *");
    for pretty in [false, true] {
        let text = d.to_json(pretty).unwrap();
        let e = Describer::new_from_json(&text).unwrap();
        for path in ["/a/b", "/a/c", "/a", "/q\"uote", "/t/x", "/none", "x"] {
            assert_eq!(e.describe(path), d.describe(path));
        }
    }
}

#[test]
fn pretty_json_is_indented() {
    let mut d = Describer::new();
    d.add_description("path/to/directory", "This is an empty directory.");
    d.add_pattern("parent/directory", "* is a child of parent/directory.");
    assert_eq!(
        d.to_json(true).unwrap(),
        "{\n  \"descriptions\": {\n    \"path/to/directory\": \"This is an empty directory.\"\n  },\n  \"patterns\": {\n    \"parent/directory\": \"* is a child of parent/directory.\"\n  }\n}"
    );
}

#[test]
fn empty_describer_to_json() {
    let d = Describer::new();
    assert_eq!(
        d.to_json(false).unwrap(),
        "{\"descriptions\":{},\"patterns\":{}}"
    );
    let e = Describer::new_from_json("{\"descriptions\":{},\"patterns\":{}}").unwrap();
    assert_eq!(e.describe("/a"), None);
}

#[test]
fn missing_patterns_field_is_an_error() {
    match Describer::new_from_json("{\"descriptions\": {}}") {
        Err(DeserializeError::MissingField(f)) => assert_eq!(f, "patterns"),
        other => panic!("unexpected: {:?}", other.map(|_| ())),
    }
}

#[test]
fn missing_descriptions_field_is_an_error() {
    match Describer::new_from_json("{\"patterns\": {\"/a\": \"*\"}}") {
        Err(DeserializeError::MissingField(f)) => assert_eq!(f, "descriptions"),
        other => panic!("unexpected: {:?}", other.map(|_| ())),
    }
    match Describer::new_from_json("{}") {
        Err(DeserializeError::MissingField(f)) => assert_eq!(f, "descriptions"),
        other => panic!("unexpected: {:?}", other.map(|_| ())),
    }
}

#[test]
fn malformed_json_is_an_error() {
    for text in [
        "",
        "not json",
        "{\"descriptions\": {}, \"patterns\": {}",
        "{\"descriptions\": {\"/a\": 1}, \"patterns\": {}}",
        "{\"descriptions\": null, \"patterns\": {}}",
        "[]",
    ] {
        assert!(matches!(
            Describer::new_from_json(text),
            Err(DeserializeError::Malformed(_))
        ));
    }
}

#[test]
fn new_with_keeps_both_maps() {
    let mut descriptions: HashMap<String, String> = HashMap::new();
    descriptions.insert("/a".to_string(), "A".to_string());
    let mut patterns: HashMap<String, String> = HashMap::new();
    patterns.insert("/a".to_string(), "* of A".to_string());
    let d = Describer::new_with(descriptions, patterns);
    assert_eq!(d.describe("/a"), Some("A".to_string()));
    assert_eq!(d.describe("/a/b"), Some("b of A".to_string()));
    let e = Describer::new_with(HashMap::new(), HashMap::new());
    assert_eq!(e.describe("/a"), None);
}

#[test]
fn other_members_are_ignored() {
    let d = Describer::new_from_json(
        "{\"version\": 1, \"descriptions\": {\"/a\": \"A\"}, \"extra\": [true, null], \"patterns\": {\"/a\": \"* of A\"}}",
    )
    .unwrap();
    assert_eq!(d.describe("/a"), Some("A".to_string()));
    assert_eq!(d.describe("/a/b"), Some("b of A".to_string()));
}

#[test]
fn mistyped_member_is_malformed() {
    for text in [
        "{\"descriptions\": [], \"patterns\": {}}",
        "{\"descriptions\": {}, \"patterns\": \"*\"}",
        "{\"descriptions\": {}, \"patterns\": {\"/a\": {}}}",
    ] {
        assert!(matches!(
            Describer::new_from_json(text),
            Err(DeserializeError::Malformed(_))
        ));
    }
}

#[test]
fn compact_text_has_no_line_break_and_pretty_text_has() {
    let mut d = Describer::new();
    d.add_description("/a", "line one\nline two");
    let compact = d.to_json(false).unwrap();
    let pretty = d.to_json(true).unwrap();
    assert!(!compact.contains('\n'));
    assert!(pretty.contains('\n'));
    let empty = Describer::new();
    assert!(!empty.to_json(false).unwrap().contains('\n'));
    assert_eq!(
        empty.to_json(true).unwrap(),
        "{\n  \"descriptions\": {},\n  \"patterns\": {}\n}"
    );
}

#[test]
fn describer_can_be_debug_printed() {
    let mut d = Describer::new();
    d.add_description("/a", "A");
    assert!(format!("{:?}", d).contains("/a"));
}
