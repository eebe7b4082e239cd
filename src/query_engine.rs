//! Interpretation: applies the items of a text to a store, one after
//! another, and writes what each one says or answers.
use crate::api::{
    conjunctive_values, fact_values, firsts_with_second, projection_values, seconds_with_first,
    Database, StoreContents,
};
use crate::grammar::{all_literal, item_at, items_from, program, trivia_end, wildcard};
use crate::items::{
    goal_atom, item_shapes, Atom, DatalogItem, ItemShape, NonQueryDatalogItem, QueryShape, Term,
};
use crate::parser::{parse_datalog, ParseError, VariableBasedRelation};
use crate::text::{ascending_list, join_values, joined, texts};
use vstd::prelude::*;
use vstd::string::StringExecFns;

verus! {

/// `true` or `false`.
pub open spec fn yes_no(b: bool) -> Seq<char> {
    if b {
        "true"@
    } else {
        "false"@
    }
}

/// The values of a set, ascending, joined by `, `.
pub open spec fn listing(values: Set<Seq<char>>) -> Seq<char> {
    joined(ascending_list(values), ", "@)
}

/// A goal as written: `name(a)` or `name(a, b)`.
pub open spec fn goal_text(g: Atom) -> Seq<char> {
    g.name + "("@ + joined(g.args.map_values(|t: Term| t.text()), ", "@) + ")"@
}

/// The goals of a body, each on a line of its own, indented.
pub open spec fn goal_lines(goals: Seq<Atom>) -> Seq<char>
    decreases goals.len(),
{
    if goals.len() == 0 {
        Seq::empty()
    } else {
        goal_lines(goals.drop_last()) + "\n    "@ + goal_text(goals.last())
    }
}

/// What a query restates and answers: a line with the question and a line
/// with the answer.
pub open spec fn query_text(q: QueryShape, db: StoreContents) -> Seq<char> {
    match q {
        QueryShape::GroundRelation(a) => "Query: "@ + a.name + " is "@ + a.args[0].text() + " of "@
            + a.args[1].text() + "?\n"@ + yes_no(
            all_literal(a) && db.relations.contains((a.name, a.args[0].text(), a.args[1].text())),
        ) + "\n"@,
        QueryShape::GroundFact(a) => "Query: "@ + a.name + " is "@ + a.args[0].text() + "\n"@
            + yes_no(all_literal(a) && db.facts.contains((a.name, a.args[0].text()))) + "\n"@,
        QueryShape::FirstIsVar(n, b) => "Query: Who is "@ + n + " of "@ + b + "?\n"@ + listing(
            firsts_with_second(db, n, b),
        ) + "\n"@,
        QueryShape::SecondIsVar(n, a) => "Query: Of whom is "@ + a + " "@ + n + "?\n"@ + listing(
            seconds_with_first(db, n, a),
        ) + "\n"@,
        QueryShape::ProjectionRelation(n, a, b) => "Query: list all where "@ + n + "("@ + a
            + ", "@ + b + ")\n"@ + listing(projection_values(db, n, a, b)) + "\n"@,
        QueryShape::ProjectionFact(n) => "Query: list all where "@ + n + "(_)\n"@ + listing(
            fact_values(db, n),
        ) + "\n"@,
        QueryShape::Conjunctive(_, _, _, goals) => "Query: list all where:"@ + goal_lines(goals)
            + "\n"@ + listing(conjunctive_values(db, goals)) + "\n"@,
    }
}

/// A query that can be answered: a projection over a relation marks a field
/// with the wildcard.
pub open spec fn answerable(q: QueryShape) -> bool {
    q matches QueryShape::ProjectionRelation(_, a, b) ==> a == wildcard() || b == wildcard()
}

/// What one item writes, and the store after it. A ground fact or relation
/// is stored; a rule is kept as written and writes nothing.
pub open spec fn item_effect(it: ItemShape, db: StoreContents) -> (Seq<char>, StoreContents) {
    match it {
        ItemShape::Fact(a) => (
            a.name + " is "@ + a.args[0].text() + "\n"@,
            if all_literal(a) {
                db.with_fact((a.name, a.args[0].text()))
            } else {
                db
            },
        ),
        ItemShape::Relation(a) => (
            a.name + " is "@ + a.args[0].text() + " of "@ + a.args[1].text() + "\n"@,
            if all_literal(a) {
                db.with_relation((a.name, a.args[0].text(), a.args[1].text()))
            } else {
                db
            },
        ),
        ItemShape::Rule(_, _, _, _) => (Seq::empty(), db),
        ItemShape::Query(q) => (query_text(q, db), db),
    }
}

/// What the items write, one after another, and the store after the last.
pub open spec fn run(items: Seq<ItemShape>, db: StoreContents) -> (Seq<char>, StoreContents)
    decreases items.len(),
{
    if items.len() == 0 {
        (Seq::empty(), db)
    } else {
        let (t, d) = run(items.drop_last(), db);
        let (t2, d2) = item_effect(items.last(), d);
        (t + t2, d2)
    }
}

/// What interpreting a text on the store `db` writes and leaves in the
/// store, or the position where reading the text failed.
pub open spec fn transcript(input: Seq<char>, db: StoreContents) -> Result<
    (Seq<char>, StoreContents),
    int,
> {
    match program(input) {
        Ok(items) => if items.len() == 0 {
            Ok(("No valid datalog items found\n"@, db))
        } else {
            Ok(run(items, db))
        },
        Err(p) => Err(p),
    }
}

/// The texts of the given fields of a list of relations.
fn field_texts(v: &Vec<&crate::items::Relation>, want_first: bool) -> (r: Vec<String>)
    ensures
        texts(r@) == v@.map_values(
            |x: &crate::items::Relation|
                if want_first {
                    x.first@
                } else {
                    x.second@
                },
        ),
{
    let mut out: Vec<String> = Vec::new();
    let mut i: usize = 0;
    while i < v.len()
        invariant
            i <= v@.len(),
            texts(out@) == v@.take(i as int).map_values(
                |x: &crate::items::Relation|
                    if want_first {
                        x.first@
                    } else {
                        x.second@
                    },
            ),
        decreases v@.len() - i,
    {
        let ghost before = texts(out@);
        let x = if want_first {
            v[i].first.clone()
        } else {
            v[i].second.clone()
        };
        let ghost xv = x@;
        out.push(x);
        assert(texts(out@) =~= before.push(xv));
        assert(v@.take(i + 1) =~= v@.take(i as int).push(v@[i as int]));
        assert(texts(out@) =~= v@.take(i + 1).map_values(
            |x: &crate::items::Relation|
                if want_first {
                    x.first@
                } else {
                    x.second@
                },
        ));
        i = i + 1;
    }
    assert(v@.take(i as int) =~= v@);
    out
}

/// Writes the answer list and ends its line.
fn write_listing(writer: &mut String, values: &Vec<String>, set: Ghost<Set<Seq<char>>>)
    requires
        texts(values@) == ascending_list(set@),
    ensures
        final(writer)@ == old(writer)@ + listing(set@) + "\n"@,
{
    let line = join_values(values);
    writer.append(line.as_str());
    writer.append("\n");
    assert(final(writer)@ =~= old(writer)@ + listing(set@) + "\n"@);
}

/// Writes `true` or `false` and ends the line.
fn write_yes_no(writer: &mut String, b: bool)
    ensures
        final(writer)@ == old(writer)@ + yes_no(b) + "\n"@,
{
    if b {
        writer.append("true");
    } else {
        writer.append("false");
    }
    writer.append("\n");
}

/// Writes a goal as `goal_text` gives it.
fn write_goal(writer: &mut String, g: &NonQueryDatalogItem)
    ensures
        final(writer)@ == old(writer)@ + goal_text(goal_atom(*g)),
{
    let ghost w0 = writer@;
    let ghost a = goal_atom(*g);
    match g {
        NonQueryDatalogItem::Fact(f) => {
            writer.append(f.name.as_str());
            writer.append("(");
            writer.append(f.first.as_str());
            writer.append(")");
            assert(a.args.map_values(|t: Term| t.text()) =~= seq![f.first@]);
        },
        NonQueryDatalogItem::Relation(r) => {
            writer.append(r.name.as_str());
            writer.append("(");
            writer.append(r.first.as_str());
            writer.append(", ");
            writer.append(r.second.as_str());
            writer.append(")");
            let ghost parts = a.args.map_values(|t: Term| t.text());
            assert(parts =~= seq![r.first@, r.second@]);
            assert(parts.drop_last() =~= seq![r.first@]);
            assert(joined(seq![r.first@], ", "@) == r.first@);
            assert(joined(parts, ", "@) == r.first@ + ", "@ + r.second@);
        },
        _ => {
            writer.append("()");
            assert(a.args.map_values(|t: Term| t.text()) =~= Seq::<Seq<char>>::empty());
            assert("()"@ =~= "("@ + Seq::<char>::empty() + ")"@) by {
                reveal_strlit("()");
                reveal_strlit("(");
                reveal_strlit(")");
            }
        },
    }
    assert(final(writer)@ =~= w0 + goal_text(a));
}

/// Writes the goals of a body as `goal_lines` gives them.
fn write_goals(writer: &mut String, body: &Vec<NonQueryDatalogItem>)
    ensures
        final(writer)@ == old(writer)@ + goal_lines(
            body@.map_values(|i: NonQueryDatalogItem| goal_atom(i)),
        ),
{
    let ghost w0 = writer@;
    let ghost goals = body@.map_values(|i: NonQueryDatalogItem| goal_atom(i));
    let mut i: usize = 0;
    while i < body.len()
        invariant
            i <= body@.len(),
            goals == body@.map_values(|i: NonQueryDatalogItem| goal_atom(i)),
            writer@ == w0 + goal_lines(goals.take(i as int)),
        decreases body@.len() - i,
    {
        let ghost w1 = writer@;
        writer.append("\n    ");
        write_goal(writer, &body[i]);
        assert(goals.take(i + 1).drop_last() =~= goals.take(i as int));
        assert(writer@ =~= w0 + goal_lines(goals.take(i + 1)));
        i = i + 1;
    }
    assert(goals.take(i as int) =~= goals);
}

/// Writes what the query restates and answers against the store.
pub fn execute_query(query: NonQueryDatalogItem, db: &Database, writer: &mut String)
    requires
        db.inv(),
        answerable(query.view()),
    ensures
        final(writer)@ == old(writer)@ + query_text(query.view(), db@),
{
    let ghost w0 = writer@;
    let ghost shape = query.view();
    match query {
        NonQueryDatalogItem::QueryProjectionFact(q) => {
            writer.append("Query: list all where ");
            writer.append(q.name.as_str());
            writer.append("(_)\n");
            let ghost set = fact_values(db@, q.name@);
            let results = db.query_projection_fact(q);
            write_listing(writer, &results, Ghost(set));
        },
        NonQueryDatalogItem::QueryProjectionRelation(q) => {
            writer.append("Query: list all where ");
            writer.append(q.name.as_str());
            writer.append("(");
            writer.append(q.first.as_str());
            writer.append(", ");
            writer.append(q.second.as_str());
            writer.append(")\n");
            let ghost set = projection_values(db@, q.name@, q.first@, q.second@);
            let results = db.query_projection_relation(q);
            write_listing(writer, &results, Ghost(set));
        },
        NonQueryDatalogItem::ConjunctiveQuery(q) => {
            writer.append("Query: list all where:");
            write_goals(writer, &q.definition.data);
            writer.append("\n");
            let ghost set = conjunctive_values(db@, q.definition.view());
            let results = db.query_conjunctive(q);
            write_listing(writer, &results, Ghost(set));
        },
        NonQueryDatalogItem::Relation(rel) => {
            writer.append("Query: ");
            writer.append(rel.name.as_str());
            writer.append(" is ");
            writer.append(rel.first.as_str());
            writer.append(" of ");
            writer.append(rel.second.as_str());
            writer.append("?\n");
            let found = db.contains_relation(&rel);
            assert(all_literal(rel.view()) == rel.is_ground()) by {
                assert(all_literal(rel.view()) ==> rel.view().args[0] is Lit && rel.view().args[1] is Lit);
            }
            write_yes_no(writer, found);
        },
        NonQueryDatalogItem::Fact(fact) => {
            writer.append("Query: ");
            writer.append(fact.name.as_str());
            writer.append(" is ");
            writer.append(fact.first.as_str());
            writer.append("\n");
            let found = db.contains_fact(&fact);
            assert(all_literal(fact.view()) == fact.is_ground()) by {
                assert(all_literal(fact.view()) ==> fact.view().args[0] is Lit);
            }
            write_yes_no(writer, found);
        },
        NonQueryDatalogItem::VariableBasedRelation(item) => match item {
            VariableBasedRelation::VariableBasedRelationFirstIsVar(rel) => {
                writer.append("Query: Who is ");
                writer.append(rel.name.as_str());
                writer.append(" of ");
                writer.append(rel.second.as_str());
                writer.append("?\n");
                let relations = db.relations_where_second_is(rel.name.as_str(), rel.second.as_str());
                let values = field_texts(&relations, true);
                assert(texts(values@) =~= relations@.map_values(
                    |x: &crate::items::Relation| x.first@,
                ));
                let ghost set = firsts_with_second(db@, rel.name@, rel.second@);
                write_listing(writer, &values, Ghost(set));
            },
            VariableBasedRelation::VariableBasedRelationSecondIsVar(rel) => {
                writer.append("Query: Of whom is ");
                writer.append(rel.first.as_str());
                writer.append(" ");
                writer.append(rel.name.as_str());
                writer.append("?\n");
                let relations = db.relations_where_first_is(rel.name.as_str(), rel.first.as_str());
                let values = field_texts(&relations, false);
                assert(texts(values@) =~= relations@.map_values(
                    |x: &crate::items::Relation| x.second@,
                ));
                let ghost set = seconds_with_first(db@, rel.name@, rel.first@);
                write_listing(writer, &values, Ghost(set));
            },
        },
    }
    assert(writer@ =~= w0 + query_text(shape, db@));
}

/// Every query that reading a text gives can be answered.
proof fn lemma_items_answerable(s: Seq<char>, i: int)
    ensures
        items_from(s, i) matches Ok(items) ==> forall|k: int|
            0 <= k < items.len() ==> (#[trigger] items[k] matches ItemShape::Query(q) ==> answerable(
                q,
            )),
    decreases s.len() - i,
{
    if 0 <= i < s.len() {
        if let Some((it, j)) = item_at(s, i) {
            let k = trivia_end(s, j);
            if i < k <= s.len() {
                lemma_items_answerable(s, k);
                if let Ok(items) = items_from(s, i) {
                    assert forall|m: int| 0 <= m < items.len() implies (#[trigger] items[m] matches ItemShape::Query(
                        q,
                    ) ==> answerable(q)) by {
                        if m > 0 {
                            assert(items[m] == items_from(s, k)->Ok_0[m - 1]);
                        }
                    }
                }
            }
        }
    }
}

/// Interprets a text against the store: reads all of its items first, and
/// where that fails changes nothing (but the reset) and gives the position.
/// Otherwise applies the items in order: a ground fact or relation is
/// stored, a query is answered, a rule is kept as written; and gives back
/// what they wrote. With `reset_db` set to `Some(true)` the store is
/// emptied first.
pub fn interpret(input: &str, db: &mut Database, reset_db: Option<bool>) -> (r: Result<
    String,
    ParseError,
>)
    requires
        old(db).inv(),
    ensures
        final(db).inv(),
        ({
            let start = if reset_db == Some(true) {
                StoreContents::empty()
            } else {
                old(db)@
            };
            match transcript(input@, start) {
                Ok((t, d)) => r matches Ok(out) && out@ == t && final(db)@ == d,
                Err(p) => r matches Err(e) && e.position as int == p && final(db)@ == start,
            }
        }),
{
    match reset_db {
        Some(true) => db.clear(),
        _ => {},
    }
    let ghost start = db@;
    let items = match parse_datalog(input) {
        Ok((_, items)) => items,
        Err(e) => {
            return Err(e);
        },
    };
    let mut out = String::new();
    if items.len() == 0 {
        out.append("No valid datalog items found\n");
        return Ok(out);
    }
    let ghost all = items@;
    let ghost shapes = item_shapes(all);
    proof {
        lemma_items_answerable(input@, trivia_end(input@, 0));
    }
    for item in iter: items
        invariant
            iter.seq() == all,
            db.inv(),
            shapes == item_shapes(all),
            forall|m: int|
                0 <= m < shapes.len() ==> (#[trigger] shapes[m] matches ItemShape::Query(q)
                    ==> answerable(q)),
            (out@, db@) == run(shapes.take(iter.index() as int), start),
    {
        let ghost k = iter.index() as int;
        let ghost shape = item.view();
        assert(item == all[k]);
        assert(shape == shapes[k]);
        let ghost before = run(shapes.take(k), start);
        match item {
            DatalogItem::Fact(fact) => {
                out.append(fact.name.as_str());
                out.append(" is ");
                out.append(fact.first.as_str());
                out.append("\n");
                assert(all_literal(fact.view()) == fact.is_ground()) by {
                    assert(all_literal(fact.view()) ==> fact.view().args[0] is Lit);
                }
                if !fact.first_is_variable {
                    db.add_fact(fact);
                }
            },
            DatalogItem::Relation(rel) => {
                out.append(rel.name.as_str());
                out.append(" is ");
                out.append(rel.first.as_str());
                out.append(" of ");
                out.append(rel.second.as_str());
                out.append("\n");
                assert(all_literal(rel.view()) == rel.is_ground()) by {
                    assert(all_literal(rel.view()) ==> rel.view().args[0] is Lit
                        && rel.view().args[1] is Lit);
                }
                if !rel.first_is_variable && !rel.second_is_variable {
                    db.add_relation(rel);
                }
            },
            DatalogItem::Rule(_) => {},
            DatalogItem::Query(query) => {
                execute_query(query.data, db, &mut out);
            },
        }
        assert(shapes.take(k + 1).drop_last() =~= shapes.take(k));
        assert(out@ =~= before.0 + item_effect(shape, before.1).0);
    }
    let ghost k = all.len() as int;
    assert(shapes.take(k) =~= shapes);
    Ok(out)
}

} // verus!
