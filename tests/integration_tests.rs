use dataloglite::parser::{parse_datalog, DatalogItem, RuleDefinition};
use dataloglite::query_engine::interpret;
use dataloglite::Database;

const BASIC: &str = r#"parent("Alice", "Bob").
parent("Bob", "Charlie").
parent("Alice", "Diana").
parent("Diana", "Eve").
parent("Charlie", "Frank").
parent("Eve", "George").
parent("Bob", "Irene").
parent("Frank", "Judy").
parent("George", "Kevin").
parent("Diana", "Henry").
"#;

const COMMENTS: &str = r#"// Family relations, one per line
parent("Alice", "Bob"). // Alice is a parent of Bob
parent("Bob", "Charlie").
/* a block comment
   over two lines */
parent("Alice", "Diana").
parent("Diana", "Eve"). /* after an item */
parent("Charlie", "Frank").
// parent("Nobody", "Here").
parent("Eve", "George").
parent("Bob", "Irene").
parent("Frank", "Judy").
parent("George", "Kevin").
parent("Diana", "Henry").
// the end
"#;

const COUSINS: &str = r#"// parents
parent("Alice", "Bob").
parent("Alice", "Barbara").
parent("Bob", "Carl").
parent("Barbara", "Cindy").
parent("Diana", "Henry").
parent("Henry", "Ivan").
/* who is male */
male("Bob").
male("Carl").
male("Henry").
male("Ivan").
female("Alice").
father(X, Y) :- parent(X, Y), male(X).
"#;

const PEOPLE: &str = r#"male("Charlie").
male("Bob").
female("Alice").
female("Julie").
parent("Alice", "Bob").
parent("Charlie", "Bob").
parent("Alice", "Julie").
parent("Charlie", "Julie").
"#;

fn transcript(input: &str) -> String {
    let mut db = Database::new();
    interpret(input, &mut db, Some(true)).expect("Failed to convert output to string")
}

#[test]
fn test_example_datalog() {
    let input = BASIC.to_string();
    let (remaining, relations) = parse_datalog(&input).expect("Failed to parse");

    assert_eq!(remaining, "");
    assert_eq!(relations.len(), 10);

    assert!(relations.iter().any(|r| {
        if let DatalogItem::Relation(rel) = r {
            rel.first == "Alice" && rel.second == "Bob"
        } else {
            false
        }
    }));
    assert!(relations.iter().any(|r| match r {
        DatalogItem::Relation(rel) => rel.first == "Bob" && rel.second == "Charlie",
        _ => false,
    }));
    assert!(relations.iter().any(|r| match r {
        DatalogItem::Relation(rel) => rel.first == "Diana" && rel.second == "Henry",
        _ => false,
    }));
}

#[test]
fn test_empty_input() {
    let input = "";
    let result = parse_datalog(input);
    assert!(result.is_ok());
    assert!(result.unwrap().1.is_empty());
}

#[test]
fn test_example_comments() {
    let input = COMMENTS;
    let (remaining, relations) = parse_datalog(&input).expect("Failed to parse");

    assert_eq!(remaining, "");
    assert_eq!(relations.len(), 10);
}

#[test]
fn test_cousins_facts_rules() {
    let input = COUSINS;
    let (remaining, items) = parse_datalog(&input).expect("Failed to parse");

    assert_eq!(remaining, "");
    assert_eq!(items.len(), 12);

    assert!(items.iter().any(|r| match r {
        DatalogItem::Relation(rel) => rel.first == "Alice" && rel.second == "Bob",
        _ => false,
    }));
    assert!(items.iter().any(|r| match r {
        DatalogItem::Relation(rel) => rel.first == "Alice" && rel.second == "Barbara",
        _ => false,
    }));
    assert!(items.iter().any(|r| match r {
        DatalogItem::Relation(rel) => rel.first == "Diana" && rel.second == "Henry",
        _ => false,
    }));
    let DatalogItem::Rule(el) = &items[items.len() - 1] else {
        panic!("Expected Rule variant");
    };
    assert_eq!(el.name, "father");
    assert_eq!(el.first, "X");
    assert_eq!(el.second, "Y");
    assert_eq!(el.definition.relations.len(), 2);

    let RuleDefinition { relations } = &el.definition;
    assert_eq!(relations.len(), 2);

    let DatalogItem::Relation(rel) = &relations[0] else {
        panic!("Expected Relation");
    };
    assert_eq!(rel.name, "parent");
    assert_eq!(rel.first, "X");
    assert_eq!(rel.second, "Y");

    let DatalogItem::Fact(rel) = &relations[1] else {
        panic!("Expected Fact");
    };
    assert_eq!(rel.name, "male");
    assert_eq!(rel.first, "X");
}

#[test]
fn test_query_relation() {
    let input = r#"parent("Alice", "Bob").
?parent("Alice", "Bob").
?parent("Alice", "Charlie").
"#;
    let output = transcript(input);

    let expected_output = "parent is Alice of Bob
Query: parent is Alice of Bob?
true
Query: parent is Alice of Charlie?
false";
    assert_eq!(output.trim(), expected_output)
}

#[test]
fn test_query_variable_based_relation_second_is_var() {
    let input = r#"parent("Alice", "Bob").
parent("Alice", "Charlie").
?parent("Alice", X).
"#;
    let output = transcript(input);

    let expected_output = "parent is Alice of Bob
parent is Alice of Charlie
Query: Of whom is Alice parent?
Bob, Charlie";
    assert_eq!(output.trim(), expected_output)
}

#[test]
fn test_query_variable_based_relation_first_is_var() {
    let input = r#"parent("Alice", "Bob").
parent("Charlie", "Bob").
?parent(X, "Bob").
"#;
    let output = transcript(input);

    let expected_output = "parent is Alice of Bob
parent is Charlie of Bob
Query: Who is parent of Bob?
Alice, Charlie";
    assert_eq!(output.trim(), expected_output)
}

#[test]
fn test_query_fact() {
    let input = r#"female("Alice").
male("Bob").
?female("Alice").
?male("Alice").
"#;
    let output = transcript(input);

    let expected_output = "female is Alice
male is Bob
Query: female is Alice
true
Query: male is Alice
false";
    assert_eq!(output.trim(), expected_output)
}

#[test]
fn test_query_basic_projection_relation() {
    let input = format!("{}?parent(X, _).\n", PEOPLE);
    let output = transcript(&input);

    let expected_output = "male is Charlie
male is Bob
female is Alice
female is Julie
parent is Alice of Bob
parent is Charlie of Bob
parent is Alice of Julie
parent is Charlie of Julie
Query: list all where parent(X, _)
Bob, Julie";
    assert_eq!(output.trim(), expected_output)
}

#[test]
fn test_query_basic_projection_fact() {
    let input = format!("{}?male(_).\n", PEOPLE);
    let output = transcript(&input);

    let expected_output = "male is Charlie
male is Bob
female is Alice
female is Julie
parent is Alice of Bob
parent is Charlie of Bob
parent is Alice of Julie
parent is Charlie of Julie
Query: list all where male(_)
Bob, Charlie";
    assert_eq!(output.trim(), expected_output)
}

#[test]
fn test_query_conjunctive() {
    let input = format!("{}?parent(X, Y), male(X).\n", PEOPLE);
    let output = transcript(&input);

    // The values of X, the one variable of both goals, for which both hold.
    let expected_output = "male is Charlie
male is Bob
female is Alice
female is Julie
parent is Alice of Bob
parent is Charlie of Bob
parent is Alice of Julie
parent is Charlie of Julie
Query: list all where:
    parent(X, Y)
    male(X)
Charlie";
    assert_eq!(output.trim(), expected_output)
}
