//! Properties of the store, the evaluator and the parser, stated over the
//! views that the functions' own contracts use.
use crate::api::{
    all_satisfied, conjunctive_values, in_every_goal, occurs_in, satisfied, shared_variable,
    FactKey, RelationKey, StoreContents,
};
use crate::grammar::{items_from, program, trivia_end};
use crate::items::{Atom, ItemShape, QueryShape, Term};
use crate::query_engine::query_text;
use crate::text::is_space;
use vstd::prelude::*;

verus! {

broadcast use vstd::seq_lib::group_to_multiset_ensures;

/// One insertion into a store.
pub enum Insertion {
    Fact(FactKey),
    Relation(RelationKey),
}

/// The store after the insertions, in order.
pub open spec fn after(db: StoreContents, ops: Seq<Insertion>) -> StoreContents
    decreases ops.len(),
{
    if ops.len() == 0 {
        db
    } else {
        let d = after(db, ops.drop_last());
        match ops.last() {
            Insertion::Fact(k) => d.with_fact(k),
            Insertion::Relation(k) => d.with_relation(k),
        }
    }
}

/// Adding a ground fact twice leaves the store as adding it once does, so
/// every query gets the same answer.
pub proof fn law_add_fact_idempotent(db: StoreContents, k: FactKey, q: QueryShape)
    ensures
        db.with_fact(k).with_fact(k) == db.with_fact(k),
        query_text(q, db.with_fact(k).with_fact(k)) == query_text(q, db.with_fact(k)),
{
    assert(db.with_fact(k).with_fact(k).facts =~= db.with_fact(k).facts);
}

/// Adding a ground relation twice leaves the store as adding it once does,
/// so every query gets the same answer.
pub proof fn law_add_relation_idempotent(db: StoreContents, k: RelationKey, q: QueryShape)
    ensures
        db.with_relation(k).with_relation(k) == db.with_relation(k),
        query_text(q, db.with_relation(k).with_relation(k)) == query_text(q, db.with_relation(k)),
{
    assert(db.with_relation(k).with_relation(k).relations =~= db.with_relation(k).relations);
}

/// The store after insertions holds what it held and what was inserted.
pub proof fn lemma_after_contents(db: StoreContents, ops: Seq<Insertion>)
    ensures
        forall|k: FactKey| #[trigger]
            after(db, ops).facts.contains(k) <==> db.facts.contains(k) || ops.contains(
                Insertion::Fact(k),
            ),
        forall|k: RelationKey| #[trigger]
            after(db, ops).relations.contains(k) <==> db.relations.contains(k) || ops.contains(
                Insertion::Relation(k),
            ),
    decreases ops.len(),
{
    if ops.len() > 0 {
        let init = ops.drop_last();
        lemma_after_contents(db, init);
        assert forall|k: FactKey| #[trigger]
            after(db, ops).facts.contains(k) <==> db.facts.contains(k) || ops.contains(
                Insertion::Fact(k),
            ) by {
            assert(after(db, init).facts.contains(k) <==> db.facts.contains(k) || init.contains(
                Insertion::Fact(k),
            ));
            if ops.last() == Insertion::Fact(k) {
                assert(ops[ops.len() - 1] == Insertion::Fact(k));
            }
            if ops.contains(Insertion::Fact(k)) {
                let i = choose|i: int| 0 <= i < ops.len() && ops[i] == Insertion::Fact(k);
                if i < ops.len() - 1 {
                    assert(init[i] == Insertion::Fact(k));
                }
            }
            if init.contains(Insertion::Fact(k)) {
                let i = choose|i: int| 0 <= i < init.len() && init[i] == Insertion::Fact(k);
                assert(ops[i] == Insertion::Fact(k));
            }
        }
        assert forall|k: RelationKey| #[trigger]
            after(db, ops).relations.contains(k) <==> db.relations.contains(k) || ops.contains(
                Insertion::Relation(k),
            ) by {
            assert(after(db, init).relations.contains(k) <==> db.relations.contains(k)
                || init.contains(Insertion::Relation(k)));
            if ops.last() == Insertion::Relation(k) {
                assert(ops[ops.len() - 1] == Insertion::Relation(k));
            }
            if ops.contains(Insertion::Relation(k)) {
                let i = choose|i: int| 0 <= i < ops.len() && ops[i] == Insertion::Relation(k);
                if i < ops.len() - 1 {
                    assert(init[i] == Insertion::Relation(k));
                }
            }
            if init.contains(Insertion::Relation(k)) {
                let i = choose|i: int| 0 <= i < init.len() && init[i] == Insertion::Relation(k);
                assert(ops[i] == Insertion::Relation(k));
            }
        }
    }
}

/// After ground relations are inserted into an empty store, a lookup of a
/// relation finds it exactly when it was one of those inserted: each one
/// inserted is found, and any other combination of literals is not.
pub proof fn law_membership(ops: Seq<Insertion>, k: RelationKey)
    ensures
        after(StoreContents::empty(), ops).relations.contains(k) <==> ops.contains(
            Insertion::Relation(k),
        ),
{
    lemma_after_contents(StoreContents::empty(), ops);
}

/// Two runs of insertions that insert the same facts and relations, in
/// whatever order and however often, leave the same store, so every query,
/// projection and variable lookup among them, gets the same answer.
pub proof fn law_order_independent(
    db: StoreContents,
    ops1: Seq<Insertion>,
    ops2: Seq<Insertion>,
    q: QueryShape,
)
    requires
        ops1.to_set() == ops2.to_set(),
    ensures
        after(db, ops1) == after(db, ops2),
        query_text(q, after(db, ops1)) == query_text(q, after(db, ops2)),
{
    lemma_after_contents(db, ops1);
    lemma_after_contents(db, ops2);
    assert forall|i: Insertion| ops1.contains(i) <==> ops2.contains(i) by {
        assert(ops1.to_set().contains(i) == ops1.contains(i));
        assert(ops2.to_set().contains(i) == ops2.contains(i));
    }
    assert(after(db, ops1).facts =~= after(db, ops2).facts);
    assert(after(db, ops1).relations =~= after(db, ops2).relations);
}

/// Bodies with the same goals, counted with multiplicity.
proof fn lemma_same_goals(b1: Seq<Atom>, b2: Seq<Atom>, g: Atom)
    requires
        b1.to_multiset() == b2.to_multiset(),
    ensures
        b1.contains(g) <==> b2.contains(g),
{
    b1.to_multiset_ensures();
    b2.to_multiset_ensures();
    assert(b1.contains(g) <==> b1.to_multiset().count(g) > 0);
    assert(b2.contains(g) <==> b2.to_multiset().count(g) > 0);
}

proof fn lemma_every_goal_same(b1: Seq<Atom>, b2: Seq<Atom>, v: Seq<char>)
    requires
        b1.to_multiset() == b2.to_multiset(),
    ensures
        in_every_goal(v, b1) <==> in_every_goal(v, b2),
{
    if in_every_goal(v, b1) {
        assert forall|g: int| 0 <= g < b2.len() implies occurs_in(v, #[trigger] b2[g]) by {
            lemma_same_goals(b1, b2, b2[g]);
            assert(b2.contains(b2[g]));
            let i = choose|i: int| 0 <= i < b1.len() && b1[i] == b2[g];
        }
    }
    if in_every_goal(v, b2) {
        assert forall|g: int| 0 <= g < b1.len() implies occurs_in(v, #[trigger] b1[g]) by {
            lemma_same_goals(b1, b2, b1[g]);
            assert(b1.contains(b1[g]));
            let i = choose|i: int| 0 <= i < b2.len() && b2[i] == b1[g];
        }
    }
}

proof fn lemma_all_satisfied_same(
    db: StoreContents,
    b1: Seq<Atom>,
    b2: Seq<Atom>,
    v: Seq<char>,
    x: Seq<char>,
)
    requires
        b1.to_multiset() == b2.to_multiset(),
    ensures
        all_satisfied(db, b1, v, x) <==> all_satisfied(db, b2, v, x),
{
    if all_satisfied(db, b1, v, x) {
        assert forall|g: int| 0 <= g < b2.len() implies satisfied(db, #[trigger] b2[g], v, x) by {
            lemma_same_goals(b1, b2, b2[g]);
            assert(b2.contains(b2[g]));
            let i = choose|i: int| 0 <= i < b1.len() && b1[i] == b2[g];
        }
    }
    if all_satisfied(db, b2, v, x) {
        assert forall|g: int| 0 <= g < b1.len() implies satisfied(db, #[trigger] b1[g], v, x) by {
            lemma_same_goals(b1, b2, b1[g]);
            assert(b1.contains(b1[g]));
            let i = choose|i: int| 0 <= i < b2.len() && b2[i] == b1[g];
        }
    }
}

/// Where exactly one variable is an argument of every goal, that is the
/// shared variable; where none is, there is none.
proof fn lemma_shared_is_the_one(body: Seq<Atom>, v: Seq<char>)
    requires
        forall|g: int| 0 <= g < body.len() ==> (#[trigger] body[g]).args.len() <= 2,
        in_every_goal(v, body),
        forall|w: Seq<char>| #[trigger] in_every_goal(w, body) ==> w == v,
        body.len() > 0,
    ensures
        shared_variable(body) == Some(v),
{
    let g0 = body[0];
    assert(occurs_in(v, g0));
    let k = choose|k: int| 0 <= k < g0.args.len() && g0.args[k] == Term::Var(v);
    if g0.args[0] is Var && in_every_goal(g0.args[0].text(), body) {
        assert(g0.args[0].text() == v);
    } else {
        assert(k == 1);
    }
}

/// Reordering the goals of a conjunctive query does not change the set of
/// values it answers with, where one variable, and only one, is shared by
/// all goals (as the evaluator supports), each goal being a fact or a
/// relation shape.
pub proof fn law_join_order(db: StoreContents, body1: Seq<Atom>, body2: Seq<Atom>)
    requires
        body1.to_multiset() == body2.to_multiset(),
        forall|g: int| 0 <= g < body1.len() ==> (#[trigger] body1[g]).args.len() <= 2,
        forall|v: Seq<char>, w: Seq<char>|
            #![trigger in_every_goal(v, body1), in_every_goal(w, body1)]
            in_every_goal(v, body1) && in_every_goal(w, body1) ==> v == w,
    ensures
        conjunctive_values(db, body1) == conjunctive_values(db, body2),
{
    assert(body1.len() == body2.len()) by {
        assert(body1.to_multiset().len() == body1.len());
        assert(body2.to_multiset().len() == body2.len());
    }
    assert forall|g: int| 0 <= g < body2.len() implies (#[trigger] body2[g]).args.len() <= 2 by {
        lemma_same_goals(body1, body2, body2[g]);
        assert(body2.contains(body2[g]));
        let i = choose|i: int| 0 <= i < body1.len() && body1[i] == body2[g];
        assert(body1[i].args.len() <= 2);
    }
    match shared_variable(body1) {
        Some(v) => {
            assert(in_every_goal(v, body1));
            lemma_every_goal_same(body1, body2, v);
            assert forall|w: Seq<char>| #[trigger] in_every_goal(w, body1) implies w == v by {}
            assert forall|w: Seq<char>| #[trigger] in_every_goal(w, body2) implies w == v by {
                lemma_every_goal_same(body1, body2, w);
            }
            lemma_shared_is_the_one(body1, v);
            lemma_shared_is_the_one(body2, v);
            assert forall|x: Seq<char>|
                conjunctive_values(db, body1).contains(x) <==> conjunctive_values(
                    db,
                    body2,
                ).contains(x) by {
                lemma_all_satisfied_same(db, body1, body2, v, x);
            }
            assert(conjunctive_values(db, body1) =~= conjunctive_values(db, body2));
        },
        None => {
            if let Some(w) = shared_variable(body2) {
                assert(in_every_goal(w, body2));
                lemma_every_goal_same(body1, body2, w);
                assert forall|u: Seq<char>| #[trigger] in_every_goal(u, body1) implies u == w by {}
                lemma_shared_is_the_one(body1, w);
            }
            assert(conjunctive_values(db, body1) =~= conjunctive_values(db, body2));
        },
    }
}

proof fn lemma_blank_trivia(s: Seq<char>, i: int)
    requires
        0 <= i <= s.len(),
        forall|k: int| 0 <= k < s.len() ==> is_space(#[trigger] s[k]),
    ensures
        trivia_end(s, i) == s.len(),
    decreases s.len() - i,
{
    if i < s.len() {
        lemma_blank_trivia(s, i + 1);
    }
}

/// A text of whitespace only, the empty text among them, holds no items
/// and is no error.
pub proof fn law_blank_text_has_no_items(s: Seq<char>)
    requires
        forall|k: int| 0 <= k < s.len() ==> is_space(#[trigger] s[k]),
    ensures
        program(s) == Ok::<Seq<ItemShape>, int>(Seq::empty()),
{
    lemma_blank_trivia(s, 0);
    assert(items_from(s, s.len() as int) == Ok::<Seq<ItemShape>, int>(Seq::empty()));
}

/// A text of whitespace and comments only, before which reading finds
/// nothing but trivia up to its end, holds no items and is no error.
pub proof fn law_trivia_text_has_no_items(s: Seq<char>)
    requires
        trivia_end(s, 0) >= s.len(),
    ensures
        program(s) == Ok::<Seq<ItemShape>, int>(Seq::empty()),
{
}

} // verus!
