use dataloglite::items::{QueryProjectionFact, QueryProjectionRelation};
use dataloglite::parser::{parse_query, NonQueryDatalogItem};
use dataloglite::query_engine::{execute_query, interpret};
use dataloglite::{Database, DatabaseInstance, Fact, Relation};

fn fact(name: &str, first: &str) -> Fact {
    Fact { name: name.to_string(), first: first.to_string(), first_is_variable: false }
}

fn relation(name: &str, first: &str, second: &str) -> Relation {
    Relation {
        name: name.to_string(),
        first: first.to_string(),
        second: second.to_string(),
        first_is_variable: false,
        second_is_variable: false,
    }
}

fn keys(db: &Database) -> Vec<(String, String, String)> {
    let mut v: Vec<(String, String, String)> = db
        .relations()
        .iter()
        .map(|r| (r.name.clone(), r.first.clone(), r.second.clone()))
        .collect();
    v.sort();
    v
}

fn answer(db: &Database, query: &str) -> String {
    let (_, q) = parse_query(query).unwrap();
    let mut out = String::new();
    execute_query(q.data, db, &mut out);
    out
}

#[test]
fn adding_twice_is_adding_once() {
    let mut once = Database::new();
    once.add_fact(fact("male", "Bob"));
    once.add_relation(relation("parent", "Alice", "Bob"));
    let mut twice = Database::new();
    twice.add_fact(fact("male", "Bob"));
    twice.add_fact(fact("male", "Bob"));
    twice.add_relation(relation("parent", "Alice", "Bob"));
    twice.add_relation(relation("parent", "Alice", "Bob"));
    assert_eq!(twice.facts().len(), 1);
    assert_eq!(twice.relations().len(), 1);
    assert_eq!(keys(&once), keys(&twice));
    for q in ["?male(_).", "?parent(_, Y).", "?parent(X, _).", "?parent(X, \"Bob\").", "?parent(\"Alice\", \"Bob\")."] {
        assert_eq!(answer(&once, q), answer(&twice, q));
    }
}

#[test]
fn inserted_relations_are_found_and_others_not() {
    let mut db = Database::new();
    db.add_relations(vec![relation("parent", "Alice", "Bob"), relation("parent", "Bob", "Carl")]);
    assert!(db.contains_relation(&relation("parent", "Alice", "Bob")));
    assert!(db.contains_relation(&relation("parent", "Bob", "Carl")));
    assert!(!db.contains_relation(&relation("parent", "Alice", "Carl")));
    assert!(!db.contains_relation(&relation("parent", "Bob", "Alice")));
    assert!(!db.contains_relation(&relation("parent", "Carl", "Bob")));
    db.clear();
    assert!(!db.contains_relation(&relation("parent", "Alice", "Bob")));
}

#[test]
fn a_relation_with_a_variable_is_never_held() {
    let mut db = Database::new();
    db.add_relation(relation("parent", "X", "Bob"));
    let mut q = relation("parent", "X", "Bob");
    q.first_is_variable = true;
    assert!(!db.contains_relation(&q));
    assert!(db.contains_relation(&relation("parent", "X", "Bob")));
}

#[test]
fn answers_do_not_depend_on_insertion_order() {
    let mut a = Database::new();
    a.add_relation(relation("parent", "Charlie", "Julie"));
    a.add_relation(relation("parent", "Alice", "Bob"));
    a.add_relation(relation("parent", "Alice", "Julie"));
    a.add_fact(fact("male", "Charlie"));
    a.add_fact(fact("male", "Bob"));
    let mut b = Database::new();
    b.add_fact(fact("male", "Bob"));
    b.add_relation(relation("parent", "Alice", "Julie"));
    b.add_relation(relation("parent", "Alice", "Bob"));
    b.add_fact(fact("male", "Charlie"));
    b.add_relation(relation("parent", "Charlie", "Julie"));
    for q in ["?male(_).", "?parent(_, Y).", "?parent(X, _).", "?parent(X, \"Julie\").", "?parent(\"Alice\", X)."] {
        assert_eq!(answer(&a, q), answer(&b, q));
    }
    assert_eq!(answer(&a, "?parent(X, \"Julie\")."), "Query: Who is parent of Julie?\nAlice, Charlie\n");
}

#[test]
fn projections_are_ascending_and_distinct() {
    let mut db = Database::new();
    db.add_facts(vec![fact("male", "Zed"), fact("male", "Adam"), fact("male", "Mike")]);
    db.add_relations(vec![
        relation("parent", "Zoe", "Bob"),
        relation("parent", "Ann", "Bob"),
        relation("parent", "Ann", "Al"),
    ]);
    assert_eq!(
        db.query_projection_fact(QueryProjectionFact { name: "male".to_string() }),
        vec!["Adam", "Mike", "Zed"]
    );
    let firsts = QueryProjectionRelation {
        name: "parent".to_string(),
        first: "_".to_string(),
        second: "Y".to_string(),
    };
    assert_eq!(db.query_projection_relation(firsts), vec!["Ann", "Zoe"]);
    let seconds = QueryProjectionRelation {
        name: "parent".to_string(),
        first: "X".to_string(),
        second: "_".to_string(),
    };
    assert_eq!(db.query_projection_relation(seconds), vec!["Al", "Bob"]);
}

#[test]
fn lookups_by_one_field() {
    let mut db = Database::new();
    db.add_relations(vec![
        relation("parent", "Charlie", "Bob"),
        relation("parent", "Alice", "Bob"),
        relation("parent", "Alice", "Julie"),
        relation("friend", "Dan", "Bob"),
    ]);
    let who: Vec<String> = db.relations_where_second_is("parent", "Bob").iter().map(|r| r.first.clone()).collect();
    assert_eq!(who, vec!["Alice", "Charlie"]);
    let whom: Vec<String> = db.relations_where_first_is("parent", "Alice").iter().map(|r| r.second.clone()).collect();
    assert_eq!(whom, vec!["Bob", "Julie"]);
    assert!(db.relations_where_first_is("parent", "Nobody").is_empty());
}

#[test]
fn uppercase_sorts_before_lowercase() {
    let mut db = Database::new();
    db.add_facts(vec![fact("name", "bob"), fact("name", "Bob"), fact("name", "Bo")]);
    assert_eq!(
        db.query_projection_fact(QueryProjectionFact { name: "name".to_string() }),
        vec!["Bo", "Bob", "bob"]
    );
}

#[test]
fn the_instance_holds_one_store() {
    let mut inst = DatabaseInstance::new();
    inst.get_db_mut().add_fact(fact("male", "Bob"));
    assert!(inst.get_db().contains_fact(&fact("male", "Bob")));
    assert!(!inst.get_db().contains_fact(&fact("male", "Al")));
    let d = Database::default();
    assert!(d.facts().is_empty());
}

#[test]
fn an_empty_text_says_so() {
    let mut db = Database::new();
    assert_eq!(interpret("  \n", &mut db, None).unwrap(), "No valid datalog items found\n");
}

#[test]
fn a_failed_read_stores_nothing() {
    let mut db = Database::new();
    let r = interpret("male(\"Bob\").\nmale(\"Al", &mut db, Some(false));
    assert_eq!(r.unwrap_err().position, 13);
    assert!(db.facts().is_empty());
}

#[test]
fn reset_empties_the_store_first() {
    let mut db = Database::new();
    interpret("male(\"Bob\").", &mut db, None).unwrap();
    let out = interpret("?male(\"Bob\").", &mut db, Some(false)).unwrap();
    assert_eq!(out, "Query: male is Bob\ntrue\n");
    let out = interpret("?male(\"Bob\").", &mut db, Some(true)).unwrap();
    assert_eq!(out, "Query: male is Bob\nfalse\n");
}

#[test]
fn a_fact_with_a_variable_is_written_but_not_stored() {
    let mut db = Database::new();
    let out = interpret("male(X). ?male(_).", &mut db, None).unwrap();
    assert_eq!(out, "male is X\nQuery: list all where male(_)\n\n");
    assert!(db.facts().is_empty());
}

#[test]
fn a_rule_writes_nothing() {
    let mut db = Database::new();
    let out = interpret("father(X, Y) :- parent(X, Y), male(X).", &mut db, None).unwrap();
    assert_eq!(out, "");
}

#[test]
fn a_query_shape_is_answered_by_its_own_query() {
    let mut db = Database::new();
    db.add_relation(relation("parent", "Alice", "Bob"));
    let (_, q) = parse_query("?parent(_, Y).").unwrap();
    let NonQueryDatalogItem::QueryProjectionRelation(p) = q.data else {
        panic!("Expected a projection");
    };
    assert_eq!(db.query_projection_relation(p), vec!["Alice"]);
}
