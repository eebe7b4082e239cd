use dataloglite::parser::{parse_datalog, parse_query, NonQueryDatalogItem};
use dataloglite::query_engine::interpret;
use dataloglite::{
    parse_argument, parse_block_comment, parse_comment, parse_datalog_item, parse_fact,
    parse_fact_with_var, parse_line_comment, parse_name, parse_quoted_string,
    parse_relation_or_fact, parse_relation_with_vars, parse_rule, parse_variable, Database,
    DatalogItem,
};
use dataloglite::parser::{parse_conjunctive_query, parse_variable_based_relation, VariableBasedRelation};

const FAMILY: &str = r#"male("Charlie").
male("Bob").
parent("Alice", "Bob").
parent("Charlie", "Bob").
parent("Alice", "Julie").
parent("Charlie", "Julie").
"#;

fn conjunctive(db: &Database, query: &str) -> Vec<String> {
    let (_, q) = parse_query(query).unwrap();
    let NonQueryDatalogItem::ConjunctiveQuery(c) = q.data else {
        panic!("Expected a conjunctive query");
    };
    db.query_conjunctive(c)
}

fn family() -> Database {
    let mut db = Database::new();
    interpret(FAMILY, &mut db, None).unwrap();
    db
}

#[test]
fn ground_lookups_answer_true_and_false() {
    let mut db = Database::new();
    let out = interpret(
        "parent(\"Alice\",\"Bob\"). parent(\"Alice\",\"Charlie\"). ?parent(\"Alice\",\"Bob\"). ?parent(\"Alice\",\"Dave\").",
        &mut db,
        None,
    )
    .unwrap();
    assert_eq!(
        out,
        "parent is Alice of Bob\nparent is Alice of Charlie\nQuery: parent is Alice of Bob?\ntrue\nQuery: parent is Alice of Dave?\nfalse\n"
    );
}

#[test]
fn shared_variable_intersection() {
    let db = family();
    assert_eq!(conjunctive(&db, "?parent(X,Y), male(X)."), vec!["Charlie"]);
    assert_eq!(conjunctive(&db, "?parent(Y, X), male(X)."), vec!["Bob"]);
    assert_eq!(conjunctive(&db, "?q(X, Y) :- parent(X, Y), male(X)."), vec!["Charlie"]);
    assert_eq!(conjunctive(&db, "?parent(X, \"Julie\"), parent(X, \"Bob\")."), vec!["Alice", "Charlie"]);
    assert!(conjunctive(&db, "?parent(X, Y), male(Z).").is_empty());
}

#[test]
fn reordered_goals_give_the_same_values() {
    let db = family();
    assert_eq!(conjunctive(&db, "?parent(X, Y), male(X)."), conjunctive(&db, "?male(X), parent(X, Y)."));
    assert_eq!(
        conjunctive(&db, "?parent(Y, X), male(X), parent(\"Alice\", X)."),
        conjunctive(&db, "?parent(\"Alice\", X), parent(Y, X), male(X).")
    );
}

#[test]
fn empty_and_blank_texts_have_no_items() {
    for text in ["", " ", "\n\t \r\n"] {
        let (rest, items) = parse_datalog(text).unwrap();
        assert_eq!(rest, "");
        assert!(items.is_empty());
    }
}

#[test]
fn an_unterminated_literal_fails_the_whole_text() {
    let mut db = Database::new();
    let r = parse_datalog("male(\"Bob\"). parent(\"Alice\", \"Bob).");
    assert_eq!(r.unwrap_err().position, 13);
    let r = interpret("male(\"Bob\"). parent(\"Alice\", \"Bob).", &mut db, None);
    assert!(r.is_err());
    assert!(db.facts().is_empty());
    assert!(db.relations().is_empty());
}

#[test]
fn who_is_parent_of_bob() {
    let mut db = Database::new();
    let out = interpret(
        "parent(\"Zoe\", \"Bob\"). parent(\"Alice\", \"Bob\"). parent(\"Alice\", \"Bob\"). parent(\"Carl\", \"Ann\"). ?parent(X, \"Bob\").",
        &mut db,
        None,
    )
    .unwrap();
    assert!(out.ends_with("Query: Who is parent of Bob?\nAlice, Zoe\n"));
}

#[test]
fn comments_of_both_kinds() {
    assert_eq!(parse_line_comment("// note\nrest").unwrap().0, "\nrest");
    assert_eq!(parse_block_comment("/* a\n b */rest").unwrap().0, "rest");
    assert_eq!(parse_comment("/**/x").unwrap().0, "x");
    assert!(parse_block_comment("/* open").is_err());
    assert!(parse_comment("x").is_err());
    let (_, items) = parse_datalog("/* c */ male(\"Al\"). // c\n// c\n").unwrap();
    assert_eq!(items.len(), 1);
    assert_eq!(parse_datalog("male(\"Al\"). /* open").unwrap_err().position, 12);
}

#[test]
fn tokens() {
    assert_eq!(parse_quoted_string("\"Alice\", x").unwrap(), (", x", "Alice".to_string()));
    assert!(parse_quoted_string("\"\"").is_err());
    assert!(parse_quoted_string("\"Al1\"").is_err());
    assert_eq!(parse_variable("X1y)").unwrap(), (")", "X1y".to_string()));
    assert!(parse_variable("x").is_err());
    assert_eq!(parse_argument("Y,").unwrap(), (",", "Y".to_string()));
    assert_eq!(parse_argument("\"Bo\")").unwrap(), (")", "Bo".to_string()));
    assert_eq!(parse_name("is_parent2(").unwrap(), ("(", "is_parent2".to_string()));
    assert!(parse_name("Parent").is_err());
}

#[test]
fn item_shapes() {
    let (rest, f) = parse_fact("male(\"Bob\"). x").unwrap();
    assert_eq!((rest, f.name.as_str(), f.first.as_str(), f.first_is_variable), (" x", "male", "Bob", false));
    let (_, f) = parse_fact_with_var("male(X)").unwrap();
    assert!(f.first_is_variable);
    let (_, r) = parse_relation_with_vars("p(X, \"b\")").unwrap();
    assert!(r.first_is_variable && !r.second_is_variable);
    assert!(matches!(parse_relation_or_fact("p(X)").unwrap().1, DatalogItem::Fact(_)));
    assert!(matches!(parse_relation_or_fact("p(X,Y)").unwrap().1, DatalogItem::Relation(_)));
    let (_, rule) = parse_rule("g(X, Z) :- p(X, Y), p(Y, Z).").unwrap();
    assert_eq!(rule.definition.relations.len(), 2);
    assert!(matches!(parse_datalog_item("?p(_).").unwrap().1, DatalogItem::Query(_)));
    let (_, item) = parse_datalog_item("p(X, Y).").unwrap();
    let DatalogItem::Relation(r) = item else {
        panic!("Expected a relation");
    };
    assert!(r.first_is_variable && r.second_is_variable);
    assert!(parse_datalog_item("p(X, Y)").is_err());
    let (_, v) = parse_variable_based_relation("p(X, \"b\").").unwrap();
    assert!(matches!(v, VariableBasedRelation::VariableBasedRelationFirstIsVar(_)));
    assert!(parse_variable_based_relation("p(X, Y).").is_err());
    let (_, c) = parse_conjunctive_query("p(X, Y), q(X).").unwrap();
    assert_eq!((c.name.as_str(), c.definition.data.len()), ("", 2));
    assert!(parse_conjunctive_query("p(X, Y).").is_err());
    assert!(parse_query("?p(X, Y).").is_err());
}

#[test]
fn a_relation_with_variables_is_read_but_not_stored() {
    let mut db = Database::new();
    let out = interpret("parent(X, Y). parent(\"Al\", \"Bo\"). ?parent(_, Y).", &mut db, None).unwrap();
    assert_eq!(
        out,
        "parent is X of Y\nparent is Al of Bo\nQuery: list all where parent(_, Y)\nAl\n"
    );
    assert_eq!(db.relations().len(), 1);
}

#[test]
fn comments_only_have_no_items() {
    let (rest, items) = parse_datalog("// one\n/* two */ \n").unwrap();
    assert_eq!(rest, "");
    assert!(items.is_empty());
}
