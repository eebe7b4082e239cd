//! A small Datalog-like language: a parser for facts, relations, rules and
//! queries, an in-memory store of ground facts and relations, and an
//! evaluator for the query shapes of the language.
pub mod api;
pub mod grammar;
pub mod items;
pub mod laws;
pub mod parser;
pub mod query_engine;
pub mod text;

pub use api::{Database, DatabaseInstance};
pub use items::{DatalogItem, Fact, Relation, Rule, RuleDefinition};
pub use parser::{
    parse_argument, parse_block_comment, parse_comment, parse_datalog, parse_datalog_item,
    parse_fact, parse_fact_with_var, parse_line_comment, parse_name, parse_quoted_string,
    parse_relation, parse_relation_or_fact, parse_relation_with_vars, parse_rule,
    parse_rule_definition, parse_variable, ParseError,
};
