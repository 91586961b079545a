use curies::{Converter, Record};

#[test]
fn main_tests() {
    let mut converter = Converter::new(":");

    let record1 = Record {
        prefix: "doid".to_string(),
        uri_prefix: "http://purl.obolibrary.org/obo/DOID_".to_string(),
        prefix_synonyms: vec!["DOID".to_string()],
        uri_prefix_synonyms: vec!["https://identifiers.org/DOID/".to_string()],
        pattern: None,
    };
    let record2 = Record {
        prefix: "obo".to_string(),
        uri_prefix: "http://purl.obolibrary.org/obo/".to_string(),
        prefix_synonyms: vec!["OBO".to_string()],
        uri_prefix_synonyms: vec!["https://identifiers.org/obo/".to_string()],
        pattern: None,
    };
    converter.add_record(record1).unwrap();
    converter.add_record(record2).unwrap();

    // Find Record by prefix or URI
    let curie = converter.find_by_prefix("doid").unwrap();
    assert_eq!(curie.prefix, "doid");
    println!("Found CURIE by prefix: {:?}", curie.prefix);

    let curie = converter
        .find_by_uri_prefix("http://purl.obolibrary.org/obo/DOID_")
        .unwrap();
    assert_eq!(curie.prefix, "doid");
    println!("Found CURIE by URI prefix: {:?}", curie.prefix);

    let curie = converter
        .find_by_uri("http://purl.obolibrary.org/obo/DOID_1234")
        .unwrap();
    assert_eq!(curie.prefix, "doid");
    println!("Found CURIE by URI: {:?}", curie.prefix);

    // Test expansion and compression
    let uri = converter.expand("doid:1234").unwrap();
    println!("Expanded CURIE: {}", uri);
    assert_eq!(uri, "http://purl.obolibrary.org/obo/DOID_1234");

    let curie = converter
        .compress("http://purl.obolibrary.org/obo/DOID_1234")
        .unwrap();
    println!("Compressed URI: {}", curie);
    assert_eq!(curie, "doid:1234");
}
