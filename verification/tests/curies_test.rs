use curies::{Converter, Record};

#[test]
fn new_empty_converter() {
    let mut converter = Converter::new(":");
    let record1 = Record {
        prefix: "doid".to_string(),
        uri_prefix: "http://purl.obolibrary.org/obo/DOID_".to_string(),
        prefix_synonyms: vec!["DOID".to_string()],
        uri_prefix_synonyms: vec!["https://identifiers.org/DOID/".to_string()],
        pattern: None,
    };
    let record2 = Record {
        prefix: "obo".to_string(),
        uri_prefix: "http://purl.obolibrary.org/obo/".to_string(),
        prefix_synonyms: vec!["OBO".to_string()],
        uri_prefix_synonyms: vec!["https://identifiers.org/obo/".to_string()],
        pattern: None,
    };
    let record3 = Record {
        prefix: "wrongpattern".to_string(),
        uri_prefix: "http://purl.obolibrary.org/wrongpattern/".to_string(),
        prefix_synonyms: Vec::new(),
        uri_prefix_synonyms: Vec::new(),
        pattern: Some("\\".to_string()), // Wrong pattern for test
    };
    assert!(record1.to_string().starts_with("Prefix: doid"));
    assert!(converter.to_string().starts_with("Converter contains"));
    converter.add_record(record1.clone()).unwrap();
    converter.add_record(record2).unwrap();
    converter.add_record(record3).unwrap();
    assert_eq!(converter.len(), 3);
    assert!(!converter.is_empty());
    assert!(converter.get_prefixes(true).len() > converter.get_prefixes(false).len());
    assert!(converter.get_uri_prefixes(true).len() > converter.get_uri_prefixes(false).len());
    assert!(converter.write_extended_prefix_map().unwrap().starts_with("[{"));
    assert!(converter.write_prefix_map().len() == 3);
    let jsonld: serde_json::Value = serde_json::from_str(&converter.write_jsonld()).unwrap();
    assert!(jsonld["@context"].to_string().starts_with("{"));
    println!("{:?}", converter.write_jsonld());

    // Find Record by prefix or URI
    assert_eq!(converter.find_by_prefix("doid").unwrap().prefix, "doid");
    assert_eq!(
        converter
            .find_by_uri_prefix("http://purl.obolibrary.org/obo/DOID_")
            .unwrap()
            .prefix,
        "doid"
    );
    assert_eq!(
        converter
            .find_by_uri("http://purl.obolibrary.org/obo/DOID_1234")
            .unwrap()
            .prefix,
        "doid"
    );

    // Test expansion and compression
    assert_eq!(
        converter.expand("doid:1234").unwrap(),
        "http://purl.obolibrary.org/obo/DOID_1234"
    );
    assert_eq!(
        converter
            .compress("http://purl.obolibrary.org/obo/DOID_1234")
            .unwrap(),
        "doid:1234"
    );
    assert_eq!(
        converter.expand("DOID:1234").unwrap(),
        "http://purl.obolibrary.org/obo/DOID_1234"
    );
    assert_eq!(
        converter
            .compress("https://identifiers.org/DOID/1234")
            .unwrap(),
        "doid:1234"
    );
    assert_eq!(
        converter
            .compress("http://purl.obolibrary.org/obo/1234")
            .unwrap(),
        "obo:1234"
    );

    assert_eq!(
        converter.compress_list(
            ["http://wrong/1234", "https://identifiers.org/DOID/1234"].to_vec(),
            false
        ),
        [None, Some("doid:1234".to_string())].to_vec()
    );
    assert_eq!(
        converter.expand_list(["doid:1234", "wrong:1234"].to_vec(), false),
        [
            Some("http://purl.obolibrary.org/obo/DOID_1234".to_string()),
            None
        ]
        .to_vec()
    );

    // Test wrong calls
    assert!(converter
        .add_prefix("doid", "http://purl.obolibrary.org/obo/DOID_")
        .map_err(|e| assert!(e.to_string().starts_with("Duplicate record")))
        .is_err());
    assert!(converter
        .add_record(Record::new("wrong", "http://purl.obolibrary.org/obo/DOID_"))
        .is_err());
    assert!(converter
        .expand("wrong:1234")
        .map_err(|e| assert!(e.to_string().starts_with("Not found")))
        .is_err());
    assert!(converter
        .expand("wrong")
        .map_err(|e| assert!(e.to_string().starts_with("Invalid CURIE")))
        .is_err());
    assert!(converter.find_by_uri_prefix("wrong").is_err());
    assert!(converter.expand("wrongpattern:1234").is_err());
    let record4 = Record {
        prefix: "wrong".to_string(),
        uri_prefix: "http://wrong.org/".to_string(),
        prefix_synonyms: Vec::new(),
        uri_prefix_synonyms: vec!["https://identifiers.org/obo/".to_string()],
        pattern: None,
    };
    assert!(converter.add_record(record4).is_err());
    let record5 = Record {
        prefix: "wrong".to_string(),
        uri_prefix: "http://wrong.org/".to_string(),
        prefix_synonyms: vec!["OBO".to_string()],
        uri_prefix_synonyms: Vec::new(),
        pattern: None,
    };
    assert!(converter.add_record(record5).is_err());
}

#[test]
fn from_prefix_map_converter() {
    let prefix_map: Vec<(String, String)> = vec![
        (
            "DOID".to_string(),
            "http://purl.obolibrary.org/obo/DOID_".to_string(),
        ),
        (
            "OBO".to_string(),
            "http://purl.obolibrary.org/obo/".to_string(),
        ),
    ];
    let converter = Converter::from_prefix_map(prefix_map).unwrap();
    assert_eq!(
        converter.expand("DOID:1234").unwrap(),
        "http://purl.obolibrary.org/obo/DOID_1234"
    );
    assert_eq!(
        converter
            .compress("http://purl.obolibrary.org/obo/DOID_1234")
            .unwrap(),
        "DOID:1234"
    );
    assert_eq!(
        converter
            .compress("http://purl.obolibrary.org/obo/1234")
            .unwrap(),
        "OBO:1234"
    );
}

#[test]
fn from_extended_map_vec() {
    let records: Vec<Record> = [
        Record::new("doid", "http://purl.obolibrary.org/obo/DOID_"),
        Record::new("obo", "http://purl.obolibrary.org/obo/"),
    ]
    .to_vec();
    let converter = Converter::from_extended_prefix_map(records).unwrap();
    assert_eq!(
        converter.expand("doid:1234").unwrap(),
        "http://purl.obolibrary.org/obo/DOID_1234"
    );
    assert_eq!(
        converter
            .compress("http://purl.obolibrary.org/obo/DOID_1234")
            .unwrap(),
        "doid:1234"
    );
}
