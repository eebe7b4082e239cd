//! The parser: reads the items of a text as `grammar` describes them.
//!
//! The internal readers work on the characters of the text and a position;
//! each is proved to give exactly what its production in `grammar` gives.
//! The public `parse_*` functions read from the start of a `&str` and hand
//! back the unread rest with the value read.
use crate::grammar;
use crate::grammar::Run;
use crate::items::{goal_atom, item_atom, item_shapes, Atom, ItemShape, QueryShape, Term};
use crate::text::{is_single, push_char};
use vstd::prelude::*;
use vstd::std_specs::iter::IteratorSpec;

pub use crate::items::{
    ConjunctiveQuery, ConjunctiveQueryDefinition, DatalogItem, Fact, NonQueryDatalogItem, Query,
    QueryProjectionFact, QueryProjectionRelation, Relation, Rule, RuleDefinition,
    VariableBasedRelation, VariableBasedRelationFirstIsVar, VariableBasedRelationSecondIsVar,
};

verus! {

broadcast use vstd::string::axiom_spec_iter, vstd::string::next_postcondition;

/// Where reading failed, as a position in characters from the start.
#[derive(Debug, PartialEq, Eq, Structural)]
pub struct ParseError {
    pub position: usize,
}

/// A text read by a reader, compared with what its production gives.
pub open spec fn same_text(r: Option<(String, usize)>, g: Option<(Seq<char>, int)>) -> bool {
    match (r, g) {
        (Some((x, j)), Some((t, k))) => x@ == t && j as int == k,
        (None, None) => true,
        _ => false,
    }
}

/// The characters of `input`, one by one.
fn chars_of(input: &str) -> (v: Vec<char>)
    ensures
        v@ == input@,
{
    let mut v: Vec<char> = Vec::new();
    let mut it = input.chars();
    loop
        invariant
            v@ + it.remaining() == input@,
            it.obeys_prophetic_iter_laws(),
            it.decrease() is Some,
        ensures
            v@ == input@,
        decreases it.decrease()->0,
    {
        match it.next() {
            Some(c) => {
                v.push(c);
            },
            None => {
                assert(v@ =~= input@);
                break ;
            },
        }
    }
    v
}

fn in_run(c: char, k: Run) -> (r: bool)
    ensures
        r == grammar::in_run(c, k),
{
    match k {
        Run::NameChars => ('a' <= c && c <= 'z') || ('A' <= c && c <= 'Z') || ('0' <= c && c
            <= '9') || c == '_',
        Run::Letters => ('a' <= c && c <= 'z') || ('A' <= c && c <= 'Z'),
        Run::LettersDigits => ('a' <= c && c <= 'z') || ('A' <= c && c <= 'Z') || ('0' <= c && c
            <= '9'),
        Run::Blanks => c == ' ' || c == '\t',
        Run::LineRest => c != '\n',
    }
}

/// The end of the run of `k` characters from `i`.
fn scan(s: &Vec<char>, i: usize, k: Run) -> (j: usize)
    requires
        i <= s@.len(),
    ensures
        j as int == grammar::run_end(s@, i as int, k),
        i <= j <= s@.len(),
{
    let mut j = i;
    while j < s.len() && in_run(s[j], k)
        invariant
            i <= j <= s@.len(),
            grammar::run_end(s@, i as int, k) == grammar::run_end(s@, j as int, k),
        decreases s@.len() - j,
    {
        j = j + 1;
    }
    j
}

fn is_char(s: &Vec<char>, i: usize, c: char) -> (r: bool)
    ensures
        r == grammar::char_at(s@, i as int, c),
{
    i < s.len() && s[i] == c
}

/// The characters from `i` to `j` as a string.
fn text_of(s: &Vec<char>, i: usize, j: usize) -> (r: String)
    requires
        i <= j <= s@.len(),
    ensures
        r@ == s@.subrange(i as int, j as int),
{
    let mut r = String::new();
    let mut k = i;
    while k < j
        invariant
            i <= k <= j,
            j <= s@.len(),
            r@ == s@.subrange(i as int, k as int),
        decreases j - k,
    {
        push_char(&mut r, s[k]);
        assert(r@ =~= s@.subrange(i as int, k + 1));
        k = k + 1;
    }
    r
}

fn read_name(s: &Vec<char>, i: usize) -> (r: Option<(String, usize)>)
    requires
        i <= s@.len(),
    ensures
        same_text(r, grammar::name_at(s@, i as int)),
        r matches Some((_, j)) ==> i < j <= s@.len(),
{
    if i < s.len() && 'a' <= s[i] && s[i] <= 'z' {
        let j = scan(s, i + 1, Run::NameChars);
        Some((text_of(s, i, j), j))
    } else {
        None
    }
}

fn read_literal(s: &Vec<char>, i: usize) -> (r: Option<(String, usize)>)
    requires
        i <= s@.len(),
    ensures
        same_text(r, grammar::literal_at(s@, i as int)),
        r matches Some((_, j)) ==> i < j <= s@.len(),
{
    if i < s.len() && s[i] == '"' {
        let j = scan(s, i + 1, Run::Letters);
        if j > i + 1 && j < s.len() && s[j] == '"' {
            return Some((text_of(s, i + 1, j), j + 1));
        }
    }
    None
}

fn read_variable(s: &Vec<char>, i: usize) -> (r: Option<(String, usize)>)
    requires
        i <= s@.len(),
    ensures
        same_text(r, grammar::variable_at(s@, i as int)),
        r matches Some((_, j)) ==> i < j <= s@.len(),
{
    if i < s.len() && 'A' <= s[i] && s[i] <= 'Z' {
        let j = scan(s, i + 1, Run::LettersDigits);
        Some((text_of(s, i, j), j))
    } else {
        None
    }
}

/// An argument read by a reader (its text, whether it is a variable, the
/// end), compared with what its production gives.
pub open spec fn same_term(r: Option<(String, bool, usize)>, g: Option<(Term, int)>) -> bool {
    match (r, g) {
        (Some((x, v, j)), Some((t, k))) => Term::term(x@, v) == t && j as int == k,
        (None, None) => true,
        _ => false,
    }
}

pub open spec fn same_pos(r: Option<usize>, g: Option<int>) -> bool {
    match (r, g) {
        (Some(j), Some(k)) => j as int == k,
        (None, None) => true,
        _ => false,
    }
}

pub open spec fn same_relation(r: Option<(Relation, usize)>, g: Option<(Atom, int)>) -> bool {
    match (r, g) {
        (Some((x, j)), Some((a, k))) => x.view() == a && j as int == k,
        (None, None) => true,
        _ => false,
    }
}

pub open spec fn same_fact(r: Option<(Fact, usize)>, g: Option<(Atom, int)>) -> bool {
    match (r, g) {
        (Some((x, j)), Some((a, k))) => x.view() == a && j as int == k,
        (None, None) => true,
        _ => false,
    }
}

pub open spec fn same_goal(r: Option<(DatalogItem, usize)>, g: Option<(Atom, int)>) -> bool {
    match (r, g) {
        (Some((x, j)), Some((a, k))) => item_atom(x) == a && (x is Fact || x is Relation) && j as int
            == k,
        (None, None) => true,
        _ => false,
    }
}

/// Goals are facts and relations.
pub open spec fn all_goals(v: Seq<DatalogItem>) -> bool {
    forall|k: int| 0 <= k < v.len() ==> #[trigger] v[k] is Fact || v[k] is Relation
}

pub open spec fn same_goals(r: Option<(Vec<DatalogItem>, usize)>, g: Option<(Seq<Atom>, int)>) -> bool {
    match (r, g) {
        (Some((x, j)), Some((a, k))) => x@.map_values(|i: DatalogItem| item_atom(i)) == a
            && all_goals(x@) && j as int == k,
        (None, None) => true,
        _ => false,
    }
}

pub open spec fn same_rule(
    r: Option<(Rule, usize)>,
    g: Option<((Seq<char>, Seq<char>, Seq<char>, Seq<Atom>), int)>,
) -> bool {
    match (r, g) {
        (Some((x, j)), Some(((n, a, b, gs), k))) => x.view() == ItemShape::Rule(n, a, b, gs)
            && all_goals(x.definition.relations@) && j as int == k,
        (None, None) => true,
        _ => false,
    }
}

fn read_term(s: &Vec<char>, i: usize) -> (r: Option<(String, bool, usize)>)
    requires
        i <= s@.len(),
    ensures
        same_term(r, grammar::term_at(s@, i as int)),
        r matches Some((_, _, j)) ==> i < j <= s@.len(),
{
    match read_literal(s, i) {
        Some((t, j)) => Some((t, false, j)),
        None => match read_variable(s, i) {
            Some((t, j)) => Some((t, true, j)),
            None => None,
        },
    }
}

fn read_comma(s: &Vec<char>, i: usize) -> (r: Option<usize>)
    requires
        i <= s@.len(),
    ensures
        same_pos(r, grammar::comma_at(s@, i as int)),
        r matches Some(j) ==> i < j <= s@.len(),
{
    if i < s.len() && s[i] == ',' {
        Some(scan(s, i + 1, Run::Blanks))
    } else {
        None
    }
}

fn read_pair_atom(s: &Vec<char>, i: usize) -> (r: Option<(Relation, usize)>)
    requires
        i <= s@.len(),
    ensures
        same_relation(r, grammar::pair_atom_at(s@, i as int)),
        r matches Some((_, j)) ==> i < j <= s@.len(),
{
    let (name, j1) = match read_name(s, i) {
        Some(x) => x,
        None => return None,
    };
    if !(j1 < s.len() && s[j1] == '(') {
        return None;
    }
    let (first, first_is_variable, j2) = match read_term(s, j1 + 1) {
        Some(x) => x,
        None => return None,
    };
    let j3 = match read_comma(s, j2) {
        Some(x) => x,
        None => return None,
    };
    let (second, second_is_variable, j4) = match read_term(s, j3) {
        Some(x) => x,
        None => return None,
    };
    if !(j4 < s.len() && s[j4] == ')') {
        return None;
    }
    let r = Relation { name, first, second, first_is_variable, second_is_variable };
    proof {
        if let Some((a, _)) = grammar::pair_atom_at(s@, i as int) {
            assert(r.view().args =~= a.args);
        }
    }
    Some((r, j4 + 1))
}

fn read_single_atom(s: &Vec<char>, i: usize) -> (r: Option<(Fact, usize)>)
    requires
        i <= s@.len(),
    ensures
        same_fact(r, grammar::single_atom_at(s@, i as int)),
        r matches Some((_, j)) ==> i < j <= s@.len(),
{
    let (name, j1) = match read_name(s, i) {
        Some(x) => x,
        None => return None,
    };
    if !(j1 < s.len() && s[j1] == '(') {
        return None;
    }
    let (first, first_is_variable, j2) = match read_term(s, j1 + 1) {
        Some(x) => x,
        None => return None,
    };
    if !(j2 < s.len() && s[j2] == ')') {
        return None;
    }
    let r = Fact { name, first, first_is_variable };
    proof {
        if let Some((a, _)) = grammar::single_atom_at(s@, i as int) {
            assert(r.view().args =~= a.args);
        }
    }
    Some((r, j2 + 1))
}

fn read_goal(s: &Vec<char>, i: usize) -> (r: Option<(DatalogItem, usize)>)
    requires
        i <= s@.len(),
    ensures
        same_goal(r, grammar::goal_at(s@, i as int)),
        r matches Some((_, j)) ==> i < j <= s@.len(),
{
    match read_pair_atom(s, i) {
        Some((rel, j)) => Some((DatalogItem::Relation(rel), j)),
        None => match read_single_atom(s, i) {
            Some((f, j)) => Some((DatalogItem::Fact(f), j)),
            None => None,
        },
    }
}

fn read_goals(s: &Vec<char>, i: usize) -> (r: Option<(Vec<DatalogItem>, usize)>)
    requires
        i <= s@.len(),
    ensures
        same_goals(r, grammar::goals_at(s@, i as int)),
        r matches Some((_, j)) ==> i < j <= s@.len(),
    decreases s@.len() - i,
{
    let (g, j) = match read_goal(s, i) {
        Some(x) => x,
        None => return None,
    };
    let ghost ga = item_atom(g);
    let mut v: Vec<DatalogItem> = Vec::new();
    v.push(g);
    match read_comma(s, j) {
        Some(k) => {
            match read_goals(s, k) {
                Some((mut rest, e)) => {
                    let ghost rv = rest@;
                    v.append(&mut rest);
                    assert(v@.map_values(|i: DatalogItem| item_atom(i)) =~= seq![ga]
                        + rv.map_values(|i: DatalogItem| item_atom(i)));
                    Some((v, e))
                },
                None => {
                    assert(v@.map_values(|i: DatalogItem| item_atom(i)) =~= seq![ga]);
                    Some((v, j))
                },
            }
        },
        None => {
            assert(v@.map_values(|i: DatalogItem| item_atom(i)) =~= seq![ga]);
            Some((v, j))
        },
    }
}

fn read_neck(s: &Vec<char>, i: usize) -> (r: Option<usize>)
    requires
        i <= s@.len(),
    ensures
        same_pos(r, grammar::neck_at(s@, i as int)),
        r matches Some(j) ==> i < j <= s@.len(),
{
    let j = scan(s, i, Run::Blanks);
    if j < s.len() && j + 1 < s.len() && s[j] == ':' && s[j + 1] == '-' {
        Some(scan(s, j + 2, Run::Blanks))
    } else {
        None
    }
}

fn read_rule(s: &Vec<char>, i: usize) -> (r: Option<(Rule, usize)>)
    requires
        i <= s@.len(),
    ensures
        same_rule(r, grammar::rule_at(s@, i as int)),
        r matches Some((_, j)) ==> i < j <= s@.len(),
{
    let (head, j) = match read_pair_atom(s, i) {
        Some(x) => x,
        None => return None,
    };
    let k = match read_neck(s, j) {
        Some(x) => x,
        None => return None,
    };
    let (relations, e) = match read_goals(s, k) {
        Some(x) => x,
        None => return None,
    };
    if !(e < s.len() && s[e] == '.') {
        return None;
    }
    let r = Rule {
        name: head.name,
        first: head.first,
        second: head.second,
        definition: RuleDefinition { relations },
    };
    Some((r, e + 1))
}

pub open spec fn same_query(r: Option<(NonQueryDatalogItem, usize)>, g: Option<(QueryShape, int)>) -> bool {
    match (r, g) {
        (Some((x, j)), Some((q, k))) => x.view() == q && j as int == k,
        (None, None) => true,
        _ => false,
    }
}

pub open spec fn same_conjunctive(r: Option<(ConjunctiveQuery, usize)>, g: Option<(QueryShape, int)>) -> bool {
    match (r, g) {
        (Some((x, j)), Some((q, k))) => x.view() == q && j as int == k,
        (None, None) => true,
        _ => false,
    }
}

pub open spec fn same_item(r: Option<(DatalogItem, usize)>, g: Option<(ItemShape, int)>) -> bool {
    match (r, g) {
        (Some((x, j)), Some((q, k))) => x.view() == q && j as int == k,
        (None, None) => true,
        _ => false,
    }
}

fn read_closed_fact(s: &Vec<char>, i: usize) -> (r: Option<(Fact, usize)>)
    requires
        i <= s@.len(),
    ensures
        same_fact(r, grammar::closed(grammar::single_atom_at(s@, i as int), s@)),
        r matches Some((_, j)) ==> i < j <= s@.len(),
{
    match read_single_atom(s, i) {
        Some((f, j)) => if j < s.len() && s[j] == '.' {
            Some((f, j + 1))
        } else {
            None
        },
        None => None,
    }
}

fn read_ground_fact(s: &Vec<char>, i: usize) -> (r: Option<(Fact, usize)>)
    requires
        i <= s@.len(),
    ensures
        same_fact(r, grammar::ground_at(grammar::single_atom_at(s@, i as int), s@)),
        r matches Some((_, j)) ==> i < j <= s@.len(),
{
    match read_closed_fact(s, i) {
        Some((f, j)) => if !f.first_is_variable {
            Some((f, j))
        } else {
            assert(!(f.view().args[0] is Lit));
            None
        },
        None => None,
    }
}

fn read_ground_relation(s: &Vec<char>, i: usize) -> (r: Option<(Relation, usize)>)
    requires
        i <= s@.len(),
    ensures
        same_relation(r, grammar::ground_at(grammar::pair_atom_at(s@, i as int), s@)),
        r matches Some((_, j)) ==> i < j <= s@.len(),
{
    match read_pair_atom(s, i) {
        Some((rel, j)) => if j < s.len() && s[j] == '.' {
            if !rel.first_is_variable && !rel.second_is_variable {
                Some((rel, j + 1))
            } else {
                assert(!(rel.view().args[0] is Lit) || !(rel.view().args[1] is Lit));
                None
            }
        } else {
            None
        },
        None => None,
    }
}

fn read_closed_relation(s: &Vec<char>, i: usize) -> (r: Option<(Relation, usize)>)
    requires
        i <= s@.len(),
    ensures
        same_relation(r, grammar::closed(grammar::pair_atom_at(s@, i as int), s@)),
        r matches Some((_, j)) ==> i < j <= s@.len(),
{
    match read_pair_atom(s, i) {
        Some((rel, j)) => if j < s.len() && s[j] == '.' {
            Some((rel, j + 1))
        } else {
            None
        },
        None => None,
    }
}

/// The goals of a rule body as the goals of a query.
fn goals_for_query(v: Vec<DatalogItem>) -> (r: Vec<NonQueryDatalogItem>)
    requires
        all_goals(v@),
    ensures
        r@.map_values(|i: NonQueryDatalogItem| goal_atom(i)) == v@.map_values(
            |i: DatalogItem| item_atom(i),
        ),
{
    let ghost orig = v@;
    let mut v = v;
    let mut r: Vec<NonQueryDatalogItem> = Vec::new();
    while v.len() > 0
        invariant
            all_goals(orig),
            r@.len() + v@.len() == orig.len(),
            v@ == orig.skip(r@.len() as int),
            forall|k: int| 0 <= k < r@.len() ==> goal_atom(#[trigger] r@[k]) == item_atom(orig[k]),
        decreases v@.len(),
    {
        let ghost n = r@.len() as int;
        assert(v@[0] == orig[n]);
        let x = v.remove(0);
        assert(v@ =~= orig.skip(n + 1));
        match x {
            DatalogItem::Fact(f) => r.push(NonQueryDatalogItem::Fact(f)),
            DatalogItem::Relation(rel) => r.push(NonQueryDatalogItem::Relation(rel)),
            _ => {
                assert(orig[n] is Fact || orig[n] is Relation);
            },
        }
    }
    assert(r@.map_values(|i: NonQueryDatalogItem| goal_atom(i)) =~= orig.map_values(
        |i: DatalogItem| item_atom(i),
    ));
    r
}

fn read_headless(s: &Vec<char>, i: usize) -> (r: Option<(ConjunctiveQuery, usize)>)
    requires
        i <= s@.len(),
    ensures
        same_conjunctive(r, grammar::headless_at(s@, i as int)),
        r matches Some((_, j)) ==> i < j <= s@.len(),
{
    let (goals, e) = match read_goals(s, i) {
        Some(x) => x,
        None => return None,
    };
    if goals.len() >= 2 && e < s.len() && s[e] == '.' {
        let q = ConjunctiveQuery {
            name: String::new(),
            first: String::new(),
            second: String::new(),
            definition: ConjunctiveQueryDefinition { data: goals_for_query(goals) },
        };
        Some((q, e + 1))
    } else {
        None
    }
}

fn read_conjunctive(s: &Vec<char>, i: usize) -> (r: Option<(ConjunctiveQuery, usize)>)
    requires
        i <= s@.len(),
    ensures
        same_conjunctive(r, grammar::conjunctive_at(s@, i as int)),
        r matches Some((_, j)) ==> i < j <= s@.len(),
{
    match read_rule(s, i) {
        Some((rule, e)) => {
            let q = ConjunctiveQuery {
                name: rule.name,
                first: rule.first,
                second: rule.second,
                definition: ConjunctiveQueryDefinition {
                    data: goals_for_query(rule.definition.relations),
                },
            };
            Some((q, e))
        },
        None => read_headless(s, i),
    }
}

fn read_single_variable(s: &Vec<char>, i: usize) -> (r: Option<(VariableBasedRelation, usize)>)
    requires
        i <= s@.len(),
    ensures
        match (r, grammar::single_variable_at(s@, i as int)) {
            (Some((x, j)), Some((q, k))) => x.view() == q && j as int == k,
            (None, None) => true,
            _ => false,
        },
        r matches Some((_, j)) ==> i < j <= s@.len(),
{
    let (rel, j) = match read_pair_atom(s, i) {
        Some(x) => x,
        None => return None,
    };
    if !(j < s.len() && s[j] == '.') {
        return None;
    }
    let first_marked = is_single(&rel.first, 'X');
    let second_marked = is_single(&rel.second, 'X');
    if first_marked && !rel.second_is_variable && !second_marked {
        let q = VariableBasedRelationFirstIsVar { name: rel.name, second: rel.second };
        Some((VariableBasedRelation::VariableBasedRelationFirstIsVar(q), j + 1))
    } else if second_marked && !rel.first_is_variable && !first_marked {
        let q = VariableBasedRelationSecondIsVar { name: rel.name, first: rel.first };
        Some((VariableBasedRelation::VariableBasedRelationSecondIsVar(q), j + 1))
    } else {
        None
    }
}

fn read_projected(s: &Vec<char>, i: usize) -> (r: Option<(String, usize)>)
    requires
        i <= s@.len(),
    ensures
        same_text(r, grammar::projected_at(s@, i as int)),
        r matches Some((_, j)) ==> i < j <= s@.len(),
{
    if i < s.len() && s[i] == '_' {
        let t = text_of(s, i, i + 1);
        assert(t@ =~= grammar::wildcard());
        Some((t, i + 1))
    } else {
        match read_term(s, i) {
            Some((t, _, j)) => Some((t, j)),
            None => None,
        }
    }
}

fn read_projection(s: &Vec<char>, i: usize) -> (r: Option<(NonQueryDatalogItem, usize)>)
    requires
        i <= s@.len(),
    ensures
        same_query(r, grammar::projection_at(s@, i as int)),
        r matches Some((_, j)) ==> i < j <= s@.len(),
{
    let (name, j1) = match read_name(s, i) {
        Some(x) => x,
        None => return None,
    };
    if !(j1 < s.len() && s[j1] == '(') {
        return None;
    }
    if s.len() - j1 > 3 && s[j1 + 1] == '_' && s[j1 + 2] == ')' && s[j1 + 3] == '.' {
        return Some(
            (NonQueryDatalogItem::QueryProjectionFact(QueryProjectionFact { name }), j1 + 4),
        );
    }
    let (first, j2) = match read_projected(s, j1 + 1) {
        Some(x) => x,
        None => return None,
    };
    let j3 = match read_comma(s, j2) {
        Some(x) => x,
        None => return None,
    };
    let (second, j4) = match read_projected(s, j3) {
        Some(x) => x,
        None => return None,
    };
    if j4 < s.len() && j4 + 1 < s.len() && s[j4] == ')' && s[j4 + 1] == '.' && (is_single(
        &first,
        '_',
    ) || is_single(&second, '_')) {
        let q = QueryProjectionRelation { name, first, second };
        Some((NonQueryDatalogItem::QueryProjectionRelation(q), j4 + 2))
    } else {
        None
    }
}

fn read_query_body(s: &Vec<char>, i: usize) -> (r: Option<(NonQueryDatalogItem, usize)>)
    requires
        i <= s@.len(),
    ensures
        same_query(r, grammar::query_body_at(s@, i as int)),
        r matches Some((_, j)) ==> i < j <= s@.len(),
{
    if let Some((q, j)) = read_conjunctive(s, i) {
        return Some((NonQueryDatalogItem::ConjunctiveQuery(q), j));
    }
    if let Some((q, j)) = read_single_variable(s, i) {
        return Some((NonQueryDatalogItem::VariableBasedRelation(q), j));
    }
    if let Some(r) = read_projection(s, i) {
        return Some(r);
    }
    if let Some((rel, j)) = read_ground_relation(s, i) {
        return Some((NonQueryDatalogItem::Relation(rel), j));
    }
    if let Some((f, j)) = read_ground_fact(s, i) {
        return Some((NonQueryDatalogItem::Fact(f), j));
    }
    None
}

fn read_item(s: &Vec<char>, i: usize) -> (r: Option<(DatalogItem, usize)>)
    requires
        i <= s@.len(),
    ensures
        same_item(r, grammar::item_at(s@, i as int)),
        r matches Some((_, j)) ==> i < j <= s@.len(),
{
    if let Some((rule, j)) = read_rule(s, i) {
        return Some((DatalogItem::Rule(rule), j));
    }
    if let Some((f, j)) = read_closed_fact(s, i) {
        return Some((DatalogItem::Fact(f), j));
    }
    if let Some((rel, j)) = read_closed_relation(s, i) {
        return Some((DatalogItem::Relation(rel), j));
    }
    if let Some((q, j)) = read_query(s, i) {
        return Some((DatalogItem::Query(Query { data: q }), j));
    }
    None
}

fn read_query(s: &Vec<char>, i: usize) -> (r: Option<(NonQueryDatalogItem, usize)>)
    requires
        i <= s@.len(),
    ensures
        same_query(r, grammar::query_at(s@, i as int)),
        r matches Some((_, j)) ==> i < j <= s@.len(),
{
    if i < s.len() && s[i] == '?' {
        read_query_body(s, i + 1)
    } else {
        None
    }
}

fn read_block_close(s: &Vec<char>, i: usize) -> (r: Option<usize>)
    requires
        i <= s@.len(),
    ensures
        same_pos(r, grammar::block_close_at(s@, i as int)),
        r matches Some(k) ==> i <= k && k + 2 <= s@.len(),
{
    let mut k = i;
    while k < s.len() && k + 1 < s.len()
        invariant
            i <= k <= s@.len(),
            grammar::block_close_at(s@, i as int) == grammar::block_close_at(s@, k as int),
        decreases s@.len() - k,
    {
        if s[k] == '*' && s[k + 1] == '/' {
            return Some(k);
        }
        k = k + 1;
    }
    None
}

fn read_line_comment(s: &Vec<char>, i: usize) -> (r: Option<usize>)
    requires
        i <= s@.len(),
    ensures
        same_pos(r, grammar::line_comment_at(s@, i as int)),
        r matches Some(k) ==> i < k <= s@.len(),
{
    if i < s.len() && i + 1 < s.len() && s[i] == '/' && s[i + 1] == '/' {
        Some(scan(s, i + 2, Run::LineRest))
    } else {
        None
    }
}

fn read_block_comment(s: &Vec<char>, i: usize) -> (r: Option<usize>)
    requires
        i <= s@.len(),
    ensures
        same_pos(r, grammar::block_comment_at(s@, i as int)),
        r matches Some(k) ==> i < k <= s@.len(),
{
    if i < s.len() && i + 1 < s.len() && s[i] == '/' && s[i + 1] == '*' {
        match read_block_close(s, i + 2) {
            Some(k) => Some(k + 2),
            None => None,
        }
    } else {
        None
    }
}

fn read_comment(s: &Vec<char>, i: usize) -> (r: Option<usize>)
    requires
        i <= s@.len(),
    ensures
        same_pos(r, grammar::comment_at(s@, i as int)),
        r matches Some(k) ==> i < k <= s@.len(),
{
    match read_line_comment(s, i) {
        Some(k) => Some(k),
        None => read_block_comment(s, i),
    }
}

fn skip_trivia(s: &Vec<char>, i: usize) -> (r: usize)
    requires
        i <= s@.len(),
    ensures
        r as int == grammar::trivia_end(s@, i as int),
        i <= r <= s@.len(),
{
    let mut j = i;
    loop
        invariant
            i <= j <= s@.len(),
            grammar::trivia_end(s@, i as int) == grammar::trivia_end(s@, j as int),
        ensures
            i <= j <= s@.len(),
            grammar::trivia_end(s@, i as int) == j,
        decreases s@.len() - j,
    {
        if j < s.len() && (s[j] == ' ' || s[j] == '\t' || s[j] == '\r' || s[j] == '\n') {
            j = j + 1;
        } else {
            match read_comment(s, j) {
                Some(k) => {
                    j = k;
                },
                None => {
                    break ;
                },
            }
        }
    }
    j
}

/// The items already read, put before what reading the rest gives.
pub open spec fn prefixed(acc: Seq<ItemShape>, r: Result<Seq<ItemShape>, int>) -> Result<
    Seq<ItemShape>,
    int,
> {
    match r {
        Ok(rest) => Ok(acc + rest),
        Err(p) => Err(p),
    }
}

fn read_items(s: &Vec<char>, i: usize) -> (r: Result<Vec<DatalogItem>, usize>)
    requires
        i <= s@.len(),
    ensures
        match (r, grammar::items_from(s@, i as int)) {
            (Ok(v), Ok(items)) => item_shapes(v@) == items,
            (Err(p), Err(q)) => p as int == q,
            _ => false,
        },
{
    let mut v: Vec<DatalogItem> = Vec::new();
    let mut pos = i;
    while pos < s.len()
        invariant
            i <= pos <= s@.len(),
            grammar::items_from(s@, i as int) == prefixed(
                item_shapes(v@),
                grammar::items_from(s@, pos as int),
            ),
        decreases s@.len() - pos,
    {
        let (item, j) = match read_item(s, pos) {
            Some(x) => x,
            None => return Err(pos),
        };
        let k = skip_trivia(s, j);
        let ghost before = v@;
        let ghost shape = item.view();
        v.push(item);
        proof {
            assert(item_shapes(v@) =~= item_shapes(before).push(shape));
            if let Ok(rest) = grammar::items_from(s@, k as int) {
                assert(item_shapes(before) + (seq![shape] + rest) =~= item_shapes(v@) + rest);
            }
        }
        pos = k;
    }
    assert(item_shapes(v@) + seq![] =~= item_shapes(v@));
    Ok(v)
}

/// `rest` is what follows character `j` of `input`.
pub open spec fn rest_from(rest: &str, input: &str, j: int) -> bool {
    rest@ == input@.subrange(j, input@.len() as int)
}

/// What follows character `j` of `input`.
fn rest_of(input: &str, j: usize) -> (r: &str)
    requires
        j <= input@.len(),
    ensures
        rest_from(r, input, j as int),
{
    let n = input.unicode_len();
    input.substring_char(j, n)
}

/// Reads a literal, `"letters"`, and gives the letters.
pub fn parse_quoted_string(input: &str) -> (r: Result<(&str, String), ParseError>)
    ensures
        match grammar::literal_at(input@, 0) {
            Some((t, j)) => r matches Ok((rest, v)) && v@ == t && rest_from(rest, input, j),
            None => r matches Err(e) && e.position == 0,
        },
{
    let s = chars_of(input);
    match read_literal(&s, 0) {
        Some((t, j)) => Ok((rest_of(input, j), t)),
        None => Err(ParseError { position: 0 }),
    }
}

/// Reads a variable token: an upper-case letter, then letters and digits.
pub fn parse_variable(input: &str) -> (r: Result<(&str, String), ParseError>)
    ensures
        match grammar::variable_at(input@, 0) {
            Some((t, j)) => r matches Ok((rest, v)) && v@ == t && rest_from(rest, input, j),
            None => r matches Err(e) && e.position == 0,
        },
{
    let s = chars_of(input);
    match read_variable(&s, 0) {
        Some((t, j)) => Ok((rest_of(input, j), t)),
        None => Err(ParseError { position: 0 }),
    }
}

/// Reads an argument, a literal or else a variable token, and gives its text.
pub fn parse_argument(input: &str) -> (r: Result<(&str, String), ParseError>)
    ensures
        match grammar::term_at(input@, 0) {
            Some((t, j)) => r matches Ok((rest, v)) && v@ == t.text() && rest_from(rest, input, j),
            None => r matches Err(e) && e.position == 0,
        },
{
    let s = chars_of(input);
    match read_term(&s, 0) {
        Some((t, _, j)) => Ok((rest_of(input, j), t)),
        None => Err(ParseError { position: 0 }),
    }
}

/// Reads a predicate name: a lower-case letter, then letters, digits and `_`.
pub fn parse_name(input: &str) -> (r: Result<(&str, String), ParseError>)
    ensures
        match grammar::name_at(input@, 0) {
            Some((t, j)) => r matches Ok((rest, v)) && v@ == t && rest_from(rest, input, j),
            None => r matches Err(e) && e.position == 0,
        },
{
    let s = chars_of(input);
    match read_name(&s, 0) {
        Some((t, j)) => Ok((rest_of(input, j), t)),
        None => Err(ParseError { position: 0 }),
    }
}

/// Reads a ground relation item, `name("a", "b").`.
pub fn parse_relation(input: &str) -> (r: Result<(&str, Relation), ParseError>)
    ensures
        match grammar::ground_at(grammar::pair_atom_at(input@, 0), input@) {
            Some((a, j)) => r matches Ok((rest, v)) && v.view() == a && rest_from(rest, input, j),
            None => r matches Err(e) && e.position == 0,
        },
{
    let s = chars_of(input);
    match read_ground_relation(&s, 0) {
        Some((t, j)) => Ok((rest_of(input, j), t)),
        None => Err(ParseError { position: 0 }),
    }
}

/// Reads a single-variable query without its `?`: `name(X, "b").` or `name("a", X).`.
pub fn parse_variable_based_relation(input: &str) -> (r: Result<
    (&str, VariableBasedRelation),
    ParseError,
>)
    ensures
        match grammar::single_variable_at(input@, 0) {
            Some((q, j)) => r matches Ok((rest, v)) && v.view() == q && rest_from(rest, input, j),
            None => r matches Err(e) && e.position == 0,
        },
{
    let s = chars_of(input);
    match read_single_variable(&s, 0) {
        Some((t, j)) => Ok((rest_of(input, j), t)),
        None => Err(ParseError { position: 0 }),
    }
}

/// Reads a query: `?` and one of the query shapes, the most specific first.
pub fn parse_query(input: &str) -> (r: Result<(&str, Query), ParseError>)
    ensures
        match grammar::query_at(input@, 0) {
            Some((q, j)) => r matches Ok((rest, v)) && v.data.view() == q && rest_from(
                rest,
                input,
                j,
            ),
            None => r matches Err(e) && e.position == 0,
        },
{
    let s = chars_of(input);
    match read_query(&s, 0) {
        Some((q, j)) => Ok((rest_of(input, j), Query { data: q })),
        None => Err(ParseError { position: 0 }),
    }
}

/// Reads a fact item, `name(a).`, whose argument is a literal or a variable token.
pub fn parse_fact(input: &str) -> (r: Result<(&str, Fact), ParseError>)
    ensures
        match grammar::closed(grammar::single_atom_at(input@, 0), input@) {
            Some((a, j)) => r matches Ok((rest, v)) && v.view() == a && rest_from(rest, input, j),
            None => r matches Err(e) && e.position == 0,
        },
{
    let s = chars_of(input);
    match read_closed_fact(&s, 0) {
        Some((t, j)) => Ok((rest_of(input, j), t)),
        None => Err(ParseError { position: 0 }),
    }
}

/// Reads a goal: a relation shape `name(a, b)`, else a fact shape `name(a)`.
pub fn parse_relation_or_fact(input: &str) -> (r: Result<(&str, DatalogItem), ParseError>)
    ensures
        match grammar::goal_at(input@, 0) {
            Some((a, j)) => r matches Ok((rest, v)) && item_atom(v) == a && (v is Fact
                || v is Relation) && rest_from(rest, input, j),
            None => r matches Err(e) && e.position == 0,
        },
{
    let s = chars_of(input);
    match read_goal(&s, 0) {
        Some((t, j)) => Ok((rest_of(input, j), t)),
        None => Err(ParseError { position: 0 }),
    }
}

/// Reads a relation shape `name(a, b)` whose arguments may be variables.
pub fn parse_relation_with_vars(input: &str) -> (r: Result<(&str, Relation), ParseError>)
    ensures
        match grammar::pair_atom_at(input@, 0) {
            Some((a, j)) => r matches Ok((rest, v)) && v.view() == a && rest_from(rest, input, j),
            None => r matches Err(e) && e.position == 0,
        },
{
    let s = chars_of(input);
    match read_pair_atom(&s, 0) {
        Some((t, j)) => Ok((rest_of(input, j), t)),
        None => Err(ParseError { position: 0 }),
    }
}

/// Reads a fact shape `name(a)` whose argument may be a variable.
pub fn parse_fact_with_var(input: &str) -> (r: Result<(&str, Fact), ParseError>)
    ensures
        match grammar::single_atom_at(input@, 0) {
            Some((a, j)) => r matches Ok((rest, v)) && v.view() == a && rest_from(rest, input, j),
            None => r matches Err(e) && e.position == 0,
        },
{
    let s = chars_of(input);
    match read_single_atom(&s, 0) {
        Some((t, j)) => Ok((rest_of(input, j), t)),
        None => Err(ParseError { position: 0 }),
    }
}

/// Reads the body of a rule: goals separated by commas.
pub fn parse_rule_definition(input: &str) -> (r: Result<(&str, RuleDefinition), ParseError>)
    ensures
        match grammar::goals_at(input@, 0) {
            Some((gs, j)) => r matches Ok((rest, v)) && v.view() == gs && all_goals(
                v.relations@,
            ) && rest_from(rest, input, j),
            None => r matches Err(e) && e.position == 0,
        },
{
    let s = chars_of(input);
    match read_goals(&s, 0) {
        Some((relations, j)) => Ok((rest_of(input, j), RuleDefinition { relations })),
        None => Err(ParseError { position: 0 }),
    }
}

/// Reads a rule, `name(a, b) :- goal, goal, ... .`.
pub fn parse_rule(input: &str) -> (r: Result<(&str, Rule), ParseError>)
    ensures
        match grammar::rule_at(input@, 0) {
            Some(((n, a, b, gs), j)) => r matches Ok((rest, v)) && v.view() == ItemShape::Rule(
                n,
                a,
                b,
                gs,
            ) && rest_from(rest, input, j),
            None => r matches Err(e) && e.position == 0,
        },
{
    let s = chars_of(input);
    match read_rule(&s, 0) {
        Some((t, j)) => Ok((rest_of(input, j), t)),
        None => Err(ParseError { position: 0 }),
    }
}

/// Reads a conjunctive query without its `?`: written as a rule, or as two
/// or more goals without a head.
pub fn parse_conjunctive_query(input: &str) -> (r: Result<(&str, ConjunctiveQuery), ParseError>)
    ensures
        match grammar::conjunctive_at(input@, 0) {
            Some((q, j)) => r matches Ok((rest, v)) && v.view() == q && rest_from(rest, input, j),
            None => r matches Err(e) && e.position == 0,
        },
{
    let s = chars_of(input);
    match read_conjunctive(&s, 0) {
        Some((t, j)) => Ok((rest_of(input, j), t)),
        None => Err(ParseError { position: 0 }),
    }
}

/// Reads one item: a rule, a fact, a relation or a query. The arguments of a
/// fact or a relation item may be variables.
pub fn parse_datalog_item(input: &str) -> (r: Result<(&str, DatalogItem), ParseError>)
    ensures
        match grammar::item_at(input@, 0) {
            Some((it, j)) => r matches Ok((rest, v)) && v.view() == it && rest_from(rest, input, j),
            None => r matches Err(e) && e.position == 0,
        },
{
    let s = chars_of(input);
    match read_item(&s, 0) {
        Some((t, j)) => Ok((rest_of(input, j), t)),
        None => Err(ParseError { position: 0 }),
    }
}

/// Reads a line comment, `//` to the end of the line.
pub fn parse_line_comment(input: &str) -> (r: Result<(&str, ()), ParseError>)
    ensures
        match grammar::line_comment_at(input@, 0) {
            Some(j) => r matches Ok((rest, _)) && rest_from(rest, input, j),
            None => r matches Err(e) && e.position == 0,
        },
{
    let s = chars_of(input);
    match read_line_comment(&s, 0) {
        Some(j) => Ok((rest_of(input, j), ())),
        None => Err(ParseError { position: 0 }),
    }
}

/// Reads a block comment, `/*` to the next `*/`.
pub fn parse_block_comment(input: &str) -> (r: Result<(&str, ()), ParseError>)
    ensures
        match grammar::block_comment_at(input@, 0) {
            Some(j) => r matches Ok((rest, _)) && rest_from(rest, input, j),
            None => r matches Err(e) && e.position == 0,
        },
{
    let s = chars_of(input);
    match read_block_comment(&s, 0) {
        Some(j) => Ok((rest_of(input, j), ())),
        None => Err(ParseError { position: 0 }),
    }
}

/// Reads a comment of either kind.
pub fn parse_comment(input: &str) -> (r: Result<(&str, ()), ParseError>)
    ensures
        match grammar::comment_at(input@, 0) {
            Some(j) => r matches Ok((rest, _)) && rest_from(rest, input, j),
            None => r matches Err(e) && e.position == 0,
        },
{
    let s = chars_of(input);
    match read_comment(&s, 0) {
        Some(j) => Ok((rest_of(input, j), ())),
        None => Err(ParseError { position: 0 }),
    }
}

/// Reads a whole text: its items, with whitespace and comments before,
/// between and after them. Where an item cannot be read nothing is given
/// back but the position where it starts; on success the rest is empty.
pub fn parse_datalog(input: &str) -> (r: Result<(&str, Vec<DatalogItem>), ParseError>)
    ensures
        match grammar::program(input@) {
            Ok(items) => r matches Ok((rest, v)) && item_shapes(v@) == items && rest@.len() == 0,
            Err(p) => r matches Err(e) && e.position as int == p,
        },
{
    let s = chars_of(input);
    let start = skip_trivia(&s, 0);
    match read_items(&s, start) {
        Ok(v) => {
            let rest = rest_of(input, s.len());
            Ok((rest, v))
        },
        Err(p) => Err(ParseError { position: p }),
    }
}

} // verus!
