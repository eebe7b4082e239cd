use dataloglite::parser::{parse_query, NonQueryDatalogItem};

#[test]
fn queries_tests_test_parse_query_relation() {
    let input = r#"?parent("Alice", "Bob")."#;
    let (remaining, query) = parse_query(input).unwrap();
    let NonQueryDatalogItem::Relation(data) = query.data else {
        panic!("Expected NonQueryDatalogItem::Relation");
    };
    assert_eq!(remaining, "");
    assert_eq!(data.name, "parent");
    assert_eq!(data.first, "Alice");
    assert_eq!(data.second, "Bob");
}

#[test]
fn queries_tests_test_parse_query_fact() {
    let input = r#"?female("Alice")."#;
    let (remaining, query) = parse_query(input).unwrap();
    let NonQueryDatalogItem::Fact(data) = query.data else {
        panic!("Expected NonQueryDatalogItem::Fact");
    };
    assert_eq!(remaining, "");
    assert_eq!(data.name, "female");
    assert_eq!(data.first, "Alice");
    assert!(!data.first_is_variable);
}
