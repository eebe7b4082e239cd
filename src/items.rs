//! The items of the language: facts, relations, rules and queries, with
//! their mathematical views.
use vstd::prelude::*;

verus! {

/// An argument as written: a quoted literal or a variable token.
pub enum Term {
    Lit(Seq<char>),
    Var(Seq<char>),
}

impl Term {
    pub open spec fn text(self) -> Seq<char> {
        match self {
            Term::Lit(t) => t,
            Term::Var(t) => t,
        }
    }

    pub open spec fn term(text: Seq<char>, is_variable: bool) -> Term {
        if is_variable {
            Term::Var(text)
        } else {
            Term::Lit(text)
        }
    }
}

/// A predicate applied to arguments: one for a fact, two for a relation.
pub struct Atom {
    pub name: Seq<char>,
    pub args: Seq<Term>,
}

/// What a query asks.
pub enum QueryShape {
    /// Is this ground relation stored?
    GroundRelation(Atom),
    /// Is this ground fact stored?
    GroundFact(Atom),
    /// Which first fields go with this name and second field?
    FirstIsVar(Seq<char>, Seq<char>),
    /// Which second fields go with this name and first field?
    SecondIsVar(Seq<char>, Seq<char>),
    /// Name, first and second field, the wildcard `_` marking the field asked for.
    ProjectionRelation(Seq<char>, Seq<char>, Seq<char>),
    /// Which values do the facts of this name hold?
    ProjectionFact(Seq<char>),
    /// Head name, head fields and the goals of the body.
    Conjunctive(Seq<char>, Seq<char>, Seq<char>, Seq<Atom>),
}

/// What an item of the text says.
pub enum ItemShape {
    Fact(Atom),
    Relation(Atom),
    /// Head name, head fields and the goals of the body.
    Rule(Seq<char>, Seq<char>, Seq<char>, Seq<Atom>),
    Query(QueryShape),
}

/// A fact `name(first)`.
#[derive(Debug)]
pub struct Fact {
    pub name: String,
    pub first: String,
    /// Whether `first` was written as a variable token rather than a literal.
    pub first_is_variable: bool,
}

/// A relation `name(first, second)`.
#[derive(Debug)]
pub struct Relation {
    pub name: String,
    pub first: String,
    pub second: String,
    /// Whether `first` was written as a variable token rather than a literal.
    pub first_is_variable: bool,
    /// Whether `second` was written as a variable token rather than a literal.
    pub second_is_variable: bool,
}

impl Fact {
    pub open spec fn view(&self) -> Atom {
        Atom { name: self.name@, args: seq![Term::term(self.first@, self.first_is_variable)] }
    }

    /// A fact whose argument is a literal.
    pub open spec fn is_ground(&self) -> bool {
        !self.first_is_variable
    }
}

impl Relation {
    pub open spec fn view(&self) -> Atom {
        Atom {
            name: self.name@,
            args: seq![
                Term::term(self.first@, self.first_is_variable),
                Term::term(self.second@, self.second_is_variable),
            ],
        }
    }

    /// A relation whose arguments are both literals.
    pub open spec fn is_ground(&self) -> bool {
        !self.first_is_variable && !self.second_is_variable
    }
}

/// A rule `name(first, second) :- goal, goal, ... .`; it is kept, never evaluated.
#[derive(Debug)]
pub struct Rule {
    pub name: String,
    pub first: String,
    pub second: String,
    pub definition: RuleDefinition,
}

/// The body of a rule: facts and relations whose arguments may be variables.
#[derive(Debug)]
pub struct RuleDefinition {
    pub relations: Vec<DatalogItem>,
}

/// A query `?...` and what it asks.
#[derive(Debug)]
pub struct Query {
    pub data: NonQueryDatalogItem,
}

/// A query `?name(X, "b").` or `?name("a", X).`, where `X` marks the field asked for.
#[derive(Debug)]
pub enum VariableBasedRelation {
    VariableBasedRelationFirstIsVar(VariableBasedRelationFirstIsVar),
    VariableBasedRelationSecondIsVar(VariableBasedRelationSecondIsVar),
}

#[derive(Debug)]
pub struct VariableBasedRelationFirstIsVar {
    pub name: String,
    pub second: String,
}

#[derive(Debug)]
pub struct VariableBasedRelationSecondIsVar {
    pub name: String,
    pub first: String,
}

/// A query `?name(_, Y).` or `?name(X, _).`: all values of the field marked `_`.
#[derive(Debug)]
pub struct QueryProjectionRelation {
    pub name: String,
    pub first: String,
    pub second: String,
}

/// A query `?name(_).`: all values of the facts of that name.
#[derive(Debug)]
pub struct QueryProjectionFact {
    pub name: String,
}

/// A query over a body of goals that share one variable. A query written
/// without a head (`?g1, g2.`) has an empty head name and empty head fields.
#[derive(Debug)]
pub struct ConjunctiveQuery {
    pub name: String,
    pub first: String,
    pub second: String,
    pub definition: ConjunctiveQueryDefinition,
}

#[derive(Debug)]
pub struct ConjunctiveQueryDefinition {
    pub data: Vec<NonQueryDatalogItem>,
}

/// The shapes a query can take.
#[derive(Debug)]
pub enum NonQueryDatalogItem {
    Fact(Fact),
    Relation(Relation),
    VariableBasedRelation(VariableBasedRelation),
    QueryProjectionRelation(QueryProjectionRelation),
    QueryProjectionFact(QueryProjectionFact),
    ConjunctiveQuery(ConjunctiveQuery),
}

/// One item of the text.
#[derive(Debug)]
pub enum DatalogItem {
    Fact(Fact),
    Relation(Relation),
    Rule(Rule),
    Query(Query),
}

/// The atom that a goal of a rule body stands for; anything but a fact or a
/// relation stands for an atom without arguments, which nothing satisfies.
pub open spec fn item_atom(item: DatalogItem) -> Atom {
    match item {
        DatalogItem::Fact(f) => f.view(),
        DatalogItem::Relation(r) => r.view(),
        _ => Atom { name: seq![], args: seq![] },
    }
}

/// The atom that a goal of a conjunctive query stands for; anything but a
/// fact or a relation stands for an atom without arguments.
pub open spec fn goal_atom(item: NonQueryDatalogItem) -> Atom {
    match item {
        NonQueryDatalogItem::Fact(f) => f.view(),
        NonQueryDatalogItem::Relation(r) => r.view(),
        _ => Atom { name: seq![], args: seq![] },
    }
}

impl RuleDefinition {
    pub open spec fn view(&self) -> Seq<Atom> {
        self.relations@.map_values(|i: DatalogItem| item_atom(i))
    }
}

impl ConjunctiveQueryDefinition {
    pub open spec fn view(&self) -> Seq<Atom> {
        self.data@.map_values(|i: NonQueryDatalogItem| goal_atom(i))
    }
}

impl VariableBasedRelation {
    pub open spec fn view(&self) -> QueryShape {
        match self {
            VariableBasedRelation::VariableBasedRelationFirstIsVar(q) => QueryShape::FirstIsVar(
                q.name@,
                q.second@,
            ),
            VariableBasedRelation::VariableBasedRelationSecondIsVar(q) => QueryShape::SecondIsVar(
                q.name@,
                q.first@,
            ),
        }
    }
}

impl QueryProjectionRelation {
    pub open spec fn view(&self) -> QueryShape {
        QueryShape::ProjectionRelation(self.name@, self.first@, self.second@)
    }
}

impl QueryProjectionFact {
    pub open spec fn view(&self) -> QueryShape {
        QueryShape::ProjectionFact(self.name@)
    }
}

impl ConjunctiveQuery {
    pub open spec fn view(&self) -> QueryShape {
        QueryShape::Conjunctive(self.name@, self.first@, self.second@, self.definition.view())
    }
}

impl Rule {
    pub open spec fn view(&self) -> ItemShape {
        ItemShape::Rule(self.name@, self.first@, self.second@, self.definition.view())
    }
}

impl NonQueryDatalogItem {
    pub open spec fn view(&self) -> QueryShape {
        match self {
            NonQueryDatalogItem::Fact(f) => QueryShape::GroundFact(f.view()),
            NonQueryDatalogItem::Relation(r) => QueryShape::GroundRelation(r.view()),
            NonQueryDatalogItem::VariableBasedRelation(v) => v.view(),
            NonQueryDatalogItem::QueryProjectionRelation(q) => q.view(),
            NonQueryDatalogItem::QueryProjectionFact(q) => q.view(),
            NonQueryDatalogItem::ConjunctiveQuery(q) => q.view(),
        }
    }
}

impl DatalogItem {
    pub open spec fn view(&self) -> ItemShape {
        match self {
            DatalogItem::Fact(f) => ItemShape::Fact(f.view()),
            DatalogItem::Relation(r) => ItemShape::Relation(r.view()),
            DatalogItem::Rule(r) => r.view(),
            DatalogItem::Query(q) => ItemShape::Query(q.data.view()),
        }
    }
}

/// The views of a sequence of items.
pub open spec fn item_shapes(items: Seq<DatalogItem>) -> Seq<ItemShape> {
    items.map_values(|i: DatalogItem| i.view())
}

} // verus!
