use curies::{Converter, CuriesError, Record};

fn doid_record() -> Record {
    Record {
        prefix: "doid".to_string(),
        uri_prefix: "http://purl.obolibrary.org/obo/DOID_".to_string(),
        prefix_synonyms: vec!["DOID".to_string()],
        uri_prefix_synonyms: vec!["https://identifiers.org/DOID/".to_string()],
        pattern: None,
    }
}

#[test]
fn round_trip_concrete() {
    let mut converter = Converter::new(":");
    converter.add_record(doid_record()).unwrap();
    let uri = converter.expand("doid:1234").unwrap();
    assert_eq!(uri, "http://purl.obolibrary.org/obo/DOID_1234");
    assert_eq!(converter.compress(&uri).unwrap(), "doid:1234");
    // and through the synonym side, back to the canonical form
    let curie = converter
        .compress("https://identifiers.org/DOID/42")
        .unwrap();
    assert_eq!(curie, "doid:42");
    assert_eq!(
        converter.expand(&curie).unwrap(),
        "http://purl.obolibrary.org/obo/DOID_42"
    );
}

#[test]
fn longest_prefix_wins() {
    let mut converter = Converter::new(":");
    converter
        .add_prefix("term", "http://amigo.geneontology.org/amigo/term/")
        .unwrap();
    converter
        .add_prefix("go", "http://amigo.geneontology.org/amigo/term/GO:")
        .unwrap();
    // the longer, more specific URI prefix must win, whatever the
    // insertion order was
    assert_eq!(
        converter
            .compress("http://amigo.geneontology.org/amigo/term/GO:0032571")
            .unwrap(),
        "go:0032571"
    );
    assert_eq!(
        converter
            .compress("http://amigo.geneontology.org/amigo/term/X123")
            .unwrap(),
        "term:X123"
    );
}

#[test]
fn uniqueness_invariant() {
    let mut converter = Converter::new(":");
    converter.add_record(doid_record()).unwrap();
    let len_before = converter.len();

    // same canonical prefix
    let r = Record::new("doid", "http://elsewhere.org/");
    let e = converter.add_record(r).unwrap_err();
    assert_eq!(
        e.to_string(),
        "Duplicate record found for prefix: doid"
    );
    // same canonical URI prefix
    assert!(converter
        .add_record(Record::new("other", "http://purl.obolibrary.org/obo/DOID_"))
        .is_err());
    // a prefix synonym colliding with an existing synonym
    let r = Record {
        prefix: "fresh".to_string(),
        uri_prefix: "http://fresh.org/".to_string(),
        prefix_synonyms: vec!["DOID".to_string()],
        uri_prefix_synonyms: Vec::new(),
        pattern: None,
    };
    assert!(converter.add_record(r).is_err());
    // a URI prefix synonym colliding with an existing synonym
    let r = Record {
        prefix: "fresh".to_string(),
        uri_prefix: "http://fresh.org/".to_string(),
        prefix_synonyms: Vec::new(),
        uri_prefix_synonyms: vec!["https://identifiers.org/DOID/".to_string()],
        pattern: None,
    };
    assert!(converter.add_record(r).is_err());

    // nothing changed
    assert_eq!(converter.len(), len_before);
    assert_eq!(converter.find_by_prefix("doid").unwrap().prefix, "doid");
    assert!(converter.find_by_prefix("fresh").is_err());
    assert!(converter.find_by_uri_prefix("http://fresh.org/").is_err());
}

#[test]
fn chain_precedence() {
    let mut c1 = Converter::new(":");
    c1.add_prefix("p", "http://a/").unwrap();
    let mut c2 = Converter::new(":");
    c2.add_prefix("p", "http://b/").unwrap();
    let chained = Converter::chain(vec![c1, c2]).unwrap();
    // the base converter's namespace wins for expansion
    assert_eq!(chained.expand("p:1").unwrap(), "http://a/1");
    // the conflicting namespace became a synonym of the base record
    assert_eq!(chained.compress("http://b/1").unwrap(), "p:1");
    assert_eq!(chained.len(), 1);
}

#[test]
fn chain_merges_through_prefix_synonym() {
    // the incoming record matches an existing record only through a
    // prefix synonym; the merge lands on that record's identity
    let mut c1 = Converter::new(":");
    c1.add_record(Record {
        prefix: "go".to_string(),
        uri_prefix: "http://purl.obolibrary.org/obo/GO_".to_string(),
        prefix_synonyms: vec!["gomf".to_string()],
        uri_prefix_synonyms: Vec::new(),
        pattern: None,
    })
    .unwrap();
    let mut c2 = Converter::new(":");
    c2.add_record(Record {
        prefix: "gomf".to_string(),
        uri_prefix: "http://identifiers.org/go/".to_string(),
        prefix_synonyms: Vec::new(),
        uri_prefix_synonyms: Vec::new(),
        pattern: None,
    })
    .unwrap();
    let chained = Converter::chain(vec![c1, c2]).unwrap();
    assert_eq!(chained.len(), 1);
    assert_eq!(chained.expand("go:1").unwrap(), "http://purl.obolibrary.org/obo/GO_1");
    assert_eq!(chained.compress("http://identifiers.org/go/1").unwrap(), "go:1");
}

#[test]
fn chain_keeps_disjoint_records() {
    let mut c1 = Converter::new(":");
    c1.add_prefix("a", "http://a/").unwrap();
    let mut c2 = Converter::new(":");
    c2.add_prefix("b", "http://b/").unwrap();
    let chained = Converter::chain(vec![c1, c2]).unwrap();
    assert_eq!(chained.len(), 2);
    assert_eq!(chained.expand("a:1").unwrap(), "http://a/1");
    assert_eq!(chained.expand("b:1").unwrap(), "http://b/1");
}

#[test]
fn pattern_enforcement() {
    let mut converter = Converter::new(":");
    converter
        .add_record(Record {
            prefix: "doid".to_string(),
            uri_prefix: "http://purl.obolibrary.org/obo/DOID_".to_string(),
            prefix_synonyms: Vec::new(),
            uri_prefix_synonyms: Vec::new(),
            pattern: Some("^[0-9]+$".to_string()),
        })
        .unwrap();
    assert_eq!(
        converter.expand("doid:1234").unwrap(),
        "http://purl.obolibrary.org/obo/DOID_1234"
    );
    let e = converter.expand("doid:abc").unwrap_err();
    assert_eq!(
        e.to_string(),
        "Invalid format: ID abc does not match the pattern ^[0-9]+$"
    );
    // the pattern guards compression of the local identifier too
    assert!(converter
        .compress("http://purl.obolibrary.org/obo/DOID_abc")
        .is_err());
    assert_eq!(
        converter
            .compress("http://purl.obolibrary.org/obo/DOID_99")
            .unwrap(),
        "doid:99"
    );
}

#[test]
fn batch_passthrough() {
    let mut converter = Converter::new(":");
    converter
        .add_prefix("doid", "http://purl.obolibrary.org/obo/DOID_")
        .unwrap();
    assert_eq!(
        converter.expand_list(vec!["doid:1", "unknown:9"], true),
        vec![
            Some("http://purl.obolibrary.org/obo/DOID_1".to_string()),
            Some("unknown:9".to_string())
        ]
    );
    assert_eq!(
        converter.expand_list(vec!["doid:1", "unknown:9"], false),
        vec![
            Some("http://purl.obolibrary.org/obo/DOID_1".to_string()),
            None
        ]
    );
    assert_eq!(
        converter.compress_list(
            vec!["http://purl.obolibrary.org/obo/DOID_1", "http://other/9"],
            true
        ),
        vec![
            Some("doid:1".to_string()),
            Some("http://other/9".to_string())
        ]
    );
}

#[test]
fn empty_chain() {
    let e = Converter::chain(vec![]).unwrap_err();
    assert_eq!(
        e.to_string(),
        "Invalid format: The list of converters is empty"
    );
}

#[test]
fn registry_scenario() {
    let mut converter = Converter::new(":");
    converter.add_record(doid_record()).unwrap();
    assert_eq!(
        converter.expand("doid:1234").unwrap(),
        "http://purl.obolibrary.org/obo/DOID_1234"
    );
    assert_eq!(
        converter.expand("DOID:1234").unwrap(),
        "http://purl.obolibrary.org/obo/DOID_1234"
    );
    assert_eq!(
        converter
            .compress("https://identifiers.org/DOID/1234")
            .unwrap(),
        "doid:1234"
    );
    let e = converter.compress("http://unregistered/1234").unwrap_err();
    assert_eq!(e.to_string(), "Not found: http://unregistered/1234");
}

#[test]
fn standardize_operations() {
    let mut converter = Converter::new(":");
    converter.add_record(doid_record()).unwrap();
    assert_eq!(converter.standardize_prefix("DOID").unwrap(), "doid");
    assert_eq!(converter.standardize_prefix("doid").unwrap(), "doid");
    assert!(converter.standardize_prefix("nope").is_err());
    assert_eq!(
        converter.standardize_curie("DOID:1234").unwrap(),
        "doid:1234"
    );
    // a loose input that does not split in two passes through unchanged
    assert_eq!(converter.standardize_curie("justtext").unwrap(), "justtext");
    assert_eq!(
        converter
            .standardize_uri("https://identifiers.org/DOID/1234")
            .unwrap(),
        "http://purl.obolibrary.org/obo/DOID_1234"
    );
    assert_eq!(
        converter
            .standardize_uri("http://purl.obolibrary.org/obo/DOID_1234")
            .unwrap(),
        "http://purl.obolibrary.org/obo/DOID_1234"
    );
}

#[test]
fn dual_mode_operations() {
    let mut converter = Converter::new(":");
    converter.add_record(doid_record()).unwrap();
    assert!(converter.is_curie("doid:1234"));
    assert!(!converter.is_curie("go:0001"));
    assert!(converter.is_uri("http://purl.obolibrary.org/obo/DOID_1234"));
    assert!(!converter.is_uri("http://other/1"));
    assert_eq!(
        converter
            .compress_or_standardize("https://identifiers.org/DOID/7")
            .unwrap(),
        "doid:7"
    );
    assert_eq!(
        converter.compress_or_standardize("DOID:7").unwrap(),
        "doid:7"
    );
    assert!(converter.compress_or_standardize("http://other/7").is_err());
    assert_eq!(
        converter.expand_or_standardize("DOID:7").unwrap(),
        "http://purl.obolibrary.org/obo/DOID_7"
    );
    assert_eq!(
        converter
            .expand_or_standardize("https://identifiers.org/DOID/7")
            .unwrap(),
        "http://purl.obolibrary.org/obo/DOID_7"
    );
    assert!(converter.expand_or_standardize("nope:nope").is_err());
}

#[test]
fn update_record_replaces() {
    let mut converter = Converter::new(":");
    converter
        .add_record(Record::new("doid", "http://purl.obolibrary.org/obo/DOID_"))
        .unwrap();
    let replacement = Record::new("doid", "https://identifiers.org/doid:");
    assert!(converter.update_record(replacement).is_ok());
    assert_eq!(
        converter.expand("doid:1").unwrap(),
        "https://identifiers.org/doid:1"
    );
    let missing = Record::new("notthere", "http://notthere");
    let e = converter.update_record(missing).unwrap_err();
    assert_eq!(e.to_string(), "Not found: notthere");
}

#[test]
fn error_variants() {
    let mut converter = Converter::new(":");
    converter.add_record(doid_record()).unwrap();
    assert_eq!(
        converter.expand("nope:1").unwrap_err().to_string(),
        "Not found: nope"
    );
    assert_eq!(
        converter.expand("noseparator").unwrap_err().to_string(),
        "Invalid CURIE: noseparator"
    );
    assert_eq!(
        converter.expand("too:many:parts").unwrap_err().to_string(),
        "Invalid CURIE: too:many:parts"
    );
    assert_eq!(
        converter
            .add_prefix("x", "http://purl.obolibrary.org/obo/DOID_")
            .unwrap_err()
            .to_string(),
        "Duplicate record found for prefix: http://purl.obolibrary.org/obo/DOID_"
    );
    let mut bad = Converter::new(":");
    bad.add_record(Record {
        prefix: "bad".to_string(),
        uri_prefix: "http://bad/".to_string(),
        prefix_synonyms: Vec::new(),
        uri_prefix_synonyms: Vec::new(),
        pattern: Some("[unclosed".to_string()),
    })
    .unwrap();
    assert_eq!(
        bad.expand("bad:1").unwrap_err().to_string(),
        "Invalid format: Invalid regex pattern [unclosed"
    );
}

#[test]
fn custom_delimiter() {
    let mut converter = Converter::new("|");
    converter.add_prefix("doid", "http://x/").unwrap();
    assert_eq!(converter.expand("doid|7").unwrap(), "http://x/7");
    assert!(converter.expand("doid:7").is_err());
    assert_eq!(converter.compress("http://x/7").unwrap(), "doid|7");
}

#[test]
fn extended_prefix_map_round_trips_through_json() {
    let mut converter = Converter::new(":");
    converter.add_record(doid_record()).unwrap();
    converter
        .add_record(Record {
            prefix: "odd".to_string(),
            uri_prefix: "http://odd.org/a\"b\\c/".to_string(),
            prefix_synonyms: Vec::new(),
            uri_prefix_synonyms: Vec::new(),
            pattern: Some("^[0-9]+$".to_string()),
        })
        .unwrap();
    let json = converter.write_extended_prefix_map().unwrap();
    let parsed: serde_json::Value = serde_json::from_str(&json).unwrap();
    let arr = parsed.as_array().unwrap();
    assert_eq!(arr.len(), 2);
    assert_eq!(arr[0]["prefix"], "doid");
    assert_eq!(arr[0]["uri_prefix"], "http://purl.obolibrary.org/obo/DOID_");
    assert_eq!(arr[0]["prefix_synonyms"][0], "DOID");
    assert_eq!(
        arr[0]["uri_prefix_synonyms"][0],
        "https://identifiers.org/DOID/"
    );
    assert!(arr[0]["pattern"].is_null());
    // escaping of quote and backslash survives the round trip
    assert_eq!(arr[1]["uri_prefix"], "http://odd.org/a\"b\\c/");
    assert_eq!(arr[1]["pattern"], "^[0-9]+$");
}

#[test]
fn jsonld_context_shape() {
    let mut converter = Converter::new(":");
    converter.add_record(doid_record()).unwrap();
    converter.add_prefix("obo", "http://purl.obolibrary.org/obo/").unwrap();
    let parsed: serde_json::Value = serde_json::from_str(&converter.write_jsonld()).unwrap();
    let context = parsed["@context"].as_object().unwrap();
    assert_eq!(context["doid"], "http://purl.obolibrary.org/obo/DOID_");
    // the prefix synonym maps to the same canonical URI prefix
    assert_eq!(context["DOID"], "http://purl.obolibrary.org/obo/DOID_");
    assert_eq!(context["obo"], "http://purl.obolibrary.org/obo/");
}

#[test]
fn prefix_map_and_getters() {
    let mut converter = Converter::new(":");
    converter.add_record(doid_record()).unwrap();
    converter.add_prefix("obo", "http://purl.obolibrary.org/obo/").unwrap();
    let map = converter.write_prefix_map();
    assert_eq!(
        map,
        vec![
            (
                "doid".to_string(),
                "http://purl.obolibrary.org/obo/DOID_".to_string()
            ),
            (
                "obo".to_string(),
                "http://purl.obolibrary.org/obo/".to_string()
            ),
        ]
    );
    assert_eq!(
        converter.get_prefixes(false),
        vec!["doid".to_string(), "obo".to_string()]
    );
    assert_eq!(
        converter.get_prefixes(true),
        vec!["doid".to_string(), "DOID".to_string(), "obo".to_string()]
    );
    assert_eq!(
        converter.get_uri_prefixes(true),
        vec![
            "http://purl.obolibrary.org/obo/DOID_".to_string(),
            "https://identifiers.org/DOID/".to_string(),
            "http://purl.obolibrary.org/obo/".to_string(),
        ]
    );
}

#[test]
fn converter_summary_counts_records() {
    let mut converter = Converter::new(":");
    assert_eq!(converter.to_string(), "Converter contains 0 records");
    converter.add_prefix("a", "http://a/").unwrap();
    converter.add_prefix("b", "http://b/").unwrap();
    assert_eq!(converter.to_string(), "Converter contains 2 records");
    for i in 0..10 {
        converter
            .add_prefix(&format!("p{}", i), &format!("http://p{}/", i))
            .unwrap();
    }
    assert_eq!(converter.to_string(), "Converter contains 12 records");
}

#[test]
fn compress_strips_canonical_before_longer_synonym() {
    // when the canonical URI prefix already matches the URI, it is the
    // one stripped, even if a longer synonym also matches
    let mut converter = Converter::new(":");
    converter
        .add_record(Record {
            prefix: "p".to_string(),
            uri_prefix: "http://a/".to_string(),
            prefix_synonyms: Vec::new(),
            uri_prefix_synonyms: vec!["http://a/b/".to_string()],
            pattern: None,
        })
        .unwrap();
    assert_eq!(converter.compress("http://a/b/X").unwrap(), "p:b/X");
}

#[test]
fn empty_converter_behaviour() {
    let converter = Converter::default();
    assert_eq!(converter.len(), 0);
    assert!(converter.is_empty());
    assert!(converter.expand("doid:1234").is_err());
    assert!(converter.compress("http://purl.obolibrary.org/obo/DOID_1234").is_err());
    assert!(converter.get_prefixes(true).is_empty());
    assert!(converter.get_uri_prefixes(true).is_empty());
    assert!(converter.write_prefix_map().is_empty());
    assert_eq!(converter.write_extended_prefix_map().unwrap(), "[]");
    assert_eq!(converter.write_jsonld(), "{\"@context\":{}}");
}

#[test]
fn error_messages_by_category() {
    assert_eq!(
        CuriesError::Utf8("boom".to_string()).to_string(),
        "Error decoding UTF-8: boom"
    );
    assert_eq!(
        CuriesError::StdIo("boom".to_string()).to_string(),
        "Error reading file: boom"
    );
    assert_eq!(
        CuriesError::SerdeJson("boom".to_string()).to_string(),
        "Error parsing JSON: boom"
    );
    assert_eq!(
        CuriesError::Reqwest("boom".to_string()).to_string(),
        "Error sending request: boom"
    );
}

#[test]
fn record_display_lines() {
    let record = doid_record();
    let text = record.to_string();
    assert!(text.starts_with("Prefix: doid\n"));
    assert!(text.contains("URI prefix: http://purl.obolibrary.org/obo/DOID_\n"));
    assert!(text.contains("Prefix synonyms: DOID\n"));
    assert!(text.contains("URI prefix synonyms: https://identifiers.org/DOID/\n"));
}
