//! The store of ground facts and relations, and the evaluation of queries
//! against it.
use crate::grammar::wildcard;
use crate::items::{
    goal_atom, Atom, ConjunctiveQuery, Fact, NonQueryDatalogItem, QueryProjectionFact,
    QueryProjectionRelation, Relation, Term,
};
use crate::text::{
    ascending, ascending_list, insert_ascending, is_single, lemma_ascending_list_of, text_eq, texts,
};
use vstd::prelude::*;

verus! {

broadcast use vstd::seq_lib::group_seq_properties;

/// A stored fact: its name and its value.
pub type FactKey = (Seq<char>, Seq<char>);

/// A stored relation: its name, its first and its second value.
pub type RelationKey = (Seq<char>, Seq<char>, Seq<char>);

/// What a store holds: sets of ground facts and ground relations.
pub struct StoreContents {
    pub facts: Set<FactKey>,
    pub relations: Set<RelationKey>,
}

impl StoreContents {
    pub open spec fn empty() -> StoreContents {
        StoreContents { facts: Set::empty(), relations: Set::empty() }
    }

    pub open spec fn with_fact(self, k: FactKey) -> StoreContents {
        StoreContents { facts: self.facts.insert(k), relations: self.relations }
    }

    pub open spec fn with_relation(self, k: RelationKey) -> StoreContents {
        StoreContents { facts: self.facts, relations: self.relations.insert(k) }
    }
}

/// The values of the facts named `name`.
pub open spec fn fact_values(db: StoreContents, name: Seq<char>) -> Set<Seq<char>> {
    Set::new(|x: Seq<char>| db.facts.contains((name, x)))
}

/// The first values of the relations named `name`.
pub open spec fn first_values(db: StoreContents, name: Seq<char>) -> Set<Seq<char>> {
    Set::new(|x: Seq<char>| exists|y: Seq<char>| db.relations.contains((name, x, y)))
}

/// The second values of the relations named `name`.
pub open spec fn second_values(db: StoreContents, name: Seq<char>) -> Set<Seq<char>> {
    Set::new(|y: Seq<char>| exists|x: Seq<char>| db.relations.contains((name, x, y)))
}

/// The first values of the relations named `name` whose second value is `second`.
pub open spec fn firsts_with_second(db: StoreContents, name: Seq<char>, second: Seq<char>) -> Set<
    Seq<char>,
> {
    Set::new(|x: Seq<char>| db.relations.contains((name, x, second)))
}

/// The second values of the relations named `name` whose first value is `first`.
pub open spec fn seconds_with_first(db: StoreContents, name: Seq<char>, first: Seq<char>) -> Set<
    Seq<char>,
> {
    Set::new(|y: Seq<char>| db.relations.contains((name, first, y)))
}

/// The values of the field marked by the wildcard `_`: the first field if it
/// is marked, else the second.
pub open spec fn projection_values(
    db: StoreContents,
    name: Seq<char>,
    first: Seq<char>,
    second: Seq<char>,
) -> Set<Seq<char>> {
    if first == wildcard() {
        first_values(db, name)
    } else {
        second_values(db, name)
    }
}

/// Whether a scan of the relations named `name` collects `x` from the
/// relation `k`: its first value (or its second, where `want_first` is
/// false), among those whose other value is `fixed` where that is given.
pub open spec fn picks(
    k: RelationKey,
    name: Seq<char>,
    want_first: bool,
    fixed: Option<Seq<char>>,
    x: Seq<char>,
) -> bool {
    k.0 == name && if want_first {
        k.1 == x && (fixed matches Some(b) ==> k.2 == b)
    } else {
        k.2 == x && (fixed matches Some(a) ==> k.1 == a)
    }
}

/// What such a scan collects over all stored relations.
pub open spec fn picked(
    db: StoreContents,
    name: Seq<char>,
    want_first: bool,
    fixed: Option<Seq<char>>,
) -> Set<Seq<char>> {
    Set::new(
        |x: Seq<char>| exists|k: RelationKey| db.relations.contains(k) && picks(k, name, want_first, fixed, x),
    )
}

/// What such a scan collects over the first `n` relations of `v`.
pub open spec fn picked_upto(
    v: Seq<Relation>,
    n: int,
    name: Seq<char>,
    want_first: bool,
    fixed: Option<Seq<char>>,
) -> Set<Seq<char>> {
    Set::new(
        |x: Seq<char>|
            exists|k: int| 0 <= k < n && picks(relation_key(#[trigger] v[k]), name, want_first, fixed, x),
    )
}

/// The values of the first `n` facts of `v` that are named `name`.
pub open spec fn fact_values_upto(v: Seq<Fact>, n: int, name: Seq<char>) -> Set<Seq<char>> {
    Set::new(|x: Seq<char>| exists|k: int| 0 <= k < n && fact_key(#[trigger] v[k]) == (name, x))
}

proof fn lemma_picked_named(db: StoreContents, name: Seq<char>, fixed: Seq<char>)
    ensures
        picked(db, name, true, None) == first_values(db, name),
        picked(db, name, false, None) == second_values(db, name),
        picked(db, name, true, Some(fixed)) == firsts_with_second(db, name, fixed),
        picked(db, name, false, Some(fixed)) == seconds_with_first(db, name, fixed),
{
    assert forall|x: Seq<char>| #[trigger]
        first_values(db, name).contains(x) implies picked(db, name, true, None).contains(x) by {
        let y = choose|y: Seq<char>| db.relations.contains((name, x, y));
        assert(picks((name, x, y), name, true, None, x));
    }
    assert forall|y: Seq<char>| #[trigger]
        second_values(db, name).contains(y) implies picked(db, name, false, None).contains(y) by {
        let x = choose|x: Seq<char>| db.relations.contains((name, x, y));
        assert(picks((name, x, y), name, false, None, y));
    }
    assert forall|x: Seq<char>| #[trigger]
        firsts_with_second(db, name, fixed).contains(x) implies picked(
        db,
        name,
        true,
        Some(fixed),
    ).contains(x) by {
        assert(picks((name, x, fixed), name, true, Some(fixed), x));
    }
    assert forall|y: Seq<char>| #[trigger]
        seconds_with_first(db, name, fixed).contains(y) implies picked(
        db,
        name,
        false,
        Some(fixed),
    ).contains(y) by {
        assert(picks((name, fixed, y), name, false, Some(fixed), y));
    }
    assert forall|x: Seq<char>| #[trigger]
        picked(db, name, true, None).contains(x) implies first_values(db, name).contains(x) by {
        let k = choose|k: RelationKey| db.relations.contains(k) && picks(k, name, true, None, x);
        assert(db.relations.contains((name, x, k.2)));
    }
    assert forall|y: Seq<char>| #[trigger]
        picked(db, name, false, None).contains(y) implies second_values(db, name).contains(y) by {
        let k = choose|k: RelationKey| db.relations.contains(k) && picks(k, name, false, None, y);
        assert(db.relations.contains((name, k.1, y)));
    }
    assert forall|x: Seq<char>| #[trigger]
        picked(db, name, true, Some(fixed)).contains(x) implies firsts_with_second(
        db,
        name,
        fixed,
    ).contains(x) by {
        let k = choose|k: RelationKey|
            db.relations.contains(k) && picks(k, name, true, Some(fixed), x);
        assert(k == (name, x, fixed));
    }
    assert forall|y: Seq<char>| #[trigger]
        picked(db, name, false, Some(fixed)).contains(y) implies seconds_with_first(
        db,
        name,
        fixed,
    ).contains(y) by {
        let k = choose|k: RelationKey|
            db.relations.contains(k) && picks(k, name, false, Some(fixed), y);
        assert(k == (name, fixed, y));
    }
    assert(picked(db, name, true, None) =~= first_values(db, name));
    assert(picked(db, name, false, None) =~= second_values(db, name));
    assert(picked(db, name, true, Some(fixed)) =~= firsts_with_second(db, name, fixed));
    assert(picked(db, name, false, Some(fixed)) =~= seconds_with_first(db, name, fixed));
}

/// Whether the variable `v` is an argument of `a`.
pub open spec fn occurs_in(v: Seq<char>, a: Atom) -> bool {
    exists|k: int| 0 <= k < a.args.len() && #[trigger] a.args[k] == Term::Var(v)
}

/// Whether the variable `v` is an argument of every goal of `body`.
pub open spec fn in_every_goal(v: Seq<char>, body: Seq<Atom>) -> bool {
    forall|g: int| 0 <= g < body.len() ==> occurs_in(v, #[trigger] body[g])
}

/// The variable that the goals of a body share: the first variable of the
/// first goal that is an argument of every goal.
pub open spec fn shared_variable(body: Seq<Atom>) -> Option<Seq<char>> {
    if body.len() > 0 && body[0].args.len() > 0 && body[0].args[0] is Var && in_every_goal(
        body[0].args[0].text(),
        body,
    ) {
        Some(body[0].args[0].text())
    } else if body.len() > 0 && body[0].args.len() > 1 && body[0].args[1] is Var && in_every_goal(
        body[0].args[1].text(),
        body,
    ) {
        Some(body[0].args[1].text())
    } else {
        None
    }
}

/// Whether a stored `value` fits the argument `t` of a goal once the variable
/// `v` stands for `x`: a literal asks for itself, `v` asks for `x`, and any
/// other variable takes any value.
pub open spec fn fits(t: Term, v: Seq<char>, x: Seq<char>, value: Seq<char>) -> bool {
    match t {
        Term::Lit(l) => value == l,
        Term::Var(w) => w == v ==> value == x,
    }
}

/// Whether some stored fact or relation satisfies the goal `g` once `v`
/// stands for `x`.
pub open spec fn satisfied(db: StoreContents, g: Atom, v: Seq<char>, x: Seq<char>) -> bool {
    if g.args.len() == 1 {
        exists|a: Seq<char>| #[trigger] db.facts.contains((g.name, a)) && fits(g.args[0], v, x, a)
    } else if g.args.len() == 2 {
        exists|a: Seq<char>, b: Seq<char>|
            #[trigger] db.relations.contains((g.name, a, b)) && fits(g.args[0], v, x, a) && fits(
                g.args[1],
                v,
                x,
                b,
            )
    } else {
        false
    }
}

/// Whether every goal of `body` is satisfied once `v` stands for `x`.
pub open spec fn all_satisfied(db: StoreContents, body: Seq<Atom>, v: Seq<char>, x: Seq<char>) -> bool {
    forall|g: int| 0 <= g < body.len() ==> satisfied(db, #[trigger] body[g], v, x)
}

/// The values of the shared variable for which every goal of the body is
/// satisfied; none where the goals share no variable.
pub open spec fn conjunctive_values(db: StoreContents, body: Seq<Atom>) -> Set<Seq<char>> {
    match shared_variable(body) {
        Some(v) => Set::new(|x: Seq<char>| all_satisfied(db, body, v, x)),
        None => Set::empty(),
    }
}

/// The goals of a conjunctive query.
pub open spec fn goals_of(body: Seq<NonQueryDatalogItem>) -> Seq<Atom> {
    body.map_values(|i: NonQueryDatalogItem| goal_atom(i))
}

pub open spec fn fact_key(f: Fact) -> FactKey {
    (f.name@, f.first@)
}

pub open spec fn relation_key(r: Relation) -> RelationKey {
    (r.name@, r.first@, r.second@)
}

pub open spec fn fact_keys(v: Seq<Fact>) -> Seq<FactKey> {
    v.map_values(|f: Fact| fact_key(f))
}

pub open spec fn relation_keys(v: Seq<Relation>) -> Seq<RelationKey> {
    v.map_values(|r: Relation| relation_key(r))
}

/// Whether the stored `value` fits the argument `t` (a variable where
/// `t_is_variable`) once the variable `v` stands for `x`.
fn fits_value(t: &str, t_is_variable: bool, v: &str, x: &str, value: &str) -> (r: bool)
    ensures
        r == fits(Term::term(t@, t_is_variable), v@, x@, value@),
{
    if t_is_variable {
        !text_eq(t, v) || text_eq(value, x)
    } else {
        text_eq(value, t)
    }
}

/// Whether the variable `v` is an argument of the goal `g`.
fn occurs(v: &str, g: &NonQueryDatalogItem) -> (r: bool)
    ensures
        r == occurs_in(v@, goal_atom(*g)),
{
    match g {
        NonQueryDatalogItem::Fact(f) => {
            let r = f.first_is_variable && text_eq(f.first.as_str(), v);
            assert(r ==> goal_atom(*g).args[0] == Term::Var(v@));
            r
        },
        NonQueryDatalogItem::Relation(rel) => {
            let a = rel.first_is_variable && text_eq(rel.first.as_str(), v);
            let b = rel.second_is_variable && text_eq(rel.second.as_str(), v);
            assert(a ==> goal_atom(*g).args[0] == Term::Var(v@));
            assert(b ==> goal_atom(*g).args[1] == Term::Var(v@));
            a || b
        },
        _ => false,
    }
}

/// Whether the variable `v` is an argument of every goal.
fn occurs_everywhere(v: &str, body: &Vec<NonQueryDatalogItem>) -> (r: bool)
    ensures
        r == in_every_goal(v@, goals_of(body@)),
{
    let mut i: usize = 0;
    while i < body.len()
        invariant
            i <= body@.len(),
            forall|g: int| 0 <= g < i ==> occurs_in(v@, #[trigger] goals_of(body@)[g]),
        decreases body@.len() - i,
    {
        if !occurs(v, &body[i]) {
            assert(!occurs_in(v@, goals_of(body@)[i as int]));
            return false;
        }
        i = i + 1;
    }
    true
}

/// The variable the goals share, as `shared_variable` picks it.
fn find_shared_variable(body: &Vec<NonQueryDatalogItem>) -> (r: Option<String>)
    ensures
        match shared_variable(goals_of(body@)) {
            Some(v) => r matches Some(s) && s@ == v,
            None => r is None,
        },
{
    if body.len() == 0 {
        return None;
    }
    let ghost g0 = goals_of(body@)[0];
    let (first, first_var, second, second_var): (&String, bool, &String, bool) = match &body[0] {
        NonQueryDatalogItem::Fact(f) => (&f.first, f.first_is_variable, &f.first, false),
        NonQueryDatalogItem::Relation(rel) => (
            &rel.first,
            rel.first_is_variable,
            &rel.second,
            rel.second_is_variable,
        ),
        _ => {
            return None;
        },
    };
    assert(g0.args.len() > 0 && (g0.args[0] is Var <==> first_var) && g0.args[0].text() == first@);
    assert(g0.args.len() > 1 ==> (g0.args[1] is Var <==> second_var) && g0.args[1].text()
        == second@);
    assert(g0.args.len() <= 1 ==> !second_var);
    if first_var && occurs_everywhere(first.as_str(), body) {
        return Some(first.clone());
    }
    if second_var && occurs_everywhere(second.as_str(), body) {
        return Some(second.clone());
    }
    None
}

/// The store of ground facts and relations, each held once.
pub struct Database {
    facts: Vec<Fact>,
    relations: Vec<Relation>,
}

impl View for Database {
    type V = StoreContents;

    closed spec fn view(&self) -> StoreContents {
        StoreContents {
            facts: fact_keys(self.facts@).to_set(),
            relations: relation_keys(self.relations@).to_set(),
        }
    }
}

impl Database {
    /// Every entry is ground and held once.
    pub closed spec fn inv(&self) -> bool {
        &&& fact_keys(self.facts@).no_duplicates()
        &&& relation_keys(self.relations@).no_duplicates()
        &&& forall|k: int| 0 <= k < self.facts@.len() ==> (#[trigger] self.facts@[k]).is_ground()
        &&& forall|k: int|
            0 <= k < self.relations@.len() ==> (#[trigger] self.relations@[k]).is_ground()
    }

    /// An empty store.
    pub fn new() -> (r: Database)
        ensures
            r.inv(),
            r@ == StoreContents::empty(),
    {
        let r = Database { facts: Vec::new(), relations: Vec::new() };
        assert(r@.facts =~= Set::empty());
        assert(r@.relations =~= Set::empty());
        r
    }

    fn has_fact(&self, name: &str, first: &str) -> (r: bool)
        ensures
            r == self@.facts.contains((name@, first@)),
    {
        let mut i: usize = 0;
        while i < self.facts.len()
            invariant
                i <= self.facts@.len(),
                forall|k: int| 0 <= k < i ==> fact_key(#[trigger] self.facts@[k]) != (name@, first@),
            decreases self.facts@.len() - i,
        {
            if text_eq(self.facts[i].name.as_str(), name) && text_eq(
                self.facts[i].first.as_str(),
                first,
            ) {
                assert(fact_keys(self.facts@)[i as int] == (name@, first@));
                return true;
            }
            i = i + 1;
        }
        assert(!fact_keys(self.facts@).contains((name@, first@)));
        false
    }

    /// Where the store holds the relation `name(first, second)`.
    fn find_relation(&self, name: &str, first: &str, second: &str) -> (r: Option<usize>)
        ensures
            match r {
                Some(k) => k < self.relations@.len() && relation_key(self.relations@[k as int]) == (
                    name@,
                    first@,
                    second@,
                ),
                None => !self@.relations.contains((name@, first@, second@)),
            },
    {
        let mut i: usize = 0;
        while i < self.relations.len()
            invariant
                i <= self.relations@.len(),
                forall|k: int|
                    0 <= k < i ==> relation_key(#[trigger] self.relations@[k]) != (
                        name@,
                        first@,
                        second@,
                    ),
            decreases self.relations@.len() - i,
        {
            let r = &self.relations[i];
            if text_eq(r.name.as_str(), name) && text_eq(r.first.as_str(), first) && text_eq(
                r.second.as_str(),
                second,
            ) {
                return Some(i);
            }
            i = i + 1;
        }
        assert(!relation_keys(self.relations@).contains((name@, first@, second@)));
        None
    }

    fn has_relation(&self, name: &str, first: &str, second: &str) -> (r: bool)
        ensures
            r == self@.relations.contains((name@, first@, second@)),
    {
        match self.find_relation(name, first, second) {
            Some(k) => {
                assert(relation_keys(self.relations@)[k as int] == (name@, first@, second@));
                true
            },
            None => false,
        }
    }

    /// Whether the store holds this fact; a fact with a variable is never held.
    pub fn contains_fact(&self, fact: &Fact) -> (r: bool)
        ensures
            r == (fact.is_ground() && self@.facts.contains(fact_key(*fact))),
    {
        !fact.first_is_variable && self.has_fact(fact.name.as_str(), fact.first.as_str())
    }

    /// Whether the store holds this relation; a relation with a variable is
    /// never held.
    pub fn contains_relation(&self, relation: &Relation) -> (r: bool)
        ensures
            r == (relation.is_ground() && self@.relations.contains(relation_key(*relation))),
    {
        !relation.first_is_variable && !relation.second_is_variable && self.has_relation(
            relation.name.as_str(),
            relation.first.as_str(),
            relation.second.as_str(),
        )
    }

    /// Adds a ground fact; adding one that is held already changes nothing.
    pub fn add_fact(&mut self, fact: Fact)
        requires
            old(self).inv(),
            fact.is_ground(),
        ensures
            final(self).inv(),
            final(self)@ == old(self)@.with_fact(fact_key(fact)),
    {
        if self.has_fact(fact.name.as_str(), fact.first.as_str()) {
            assert(self@.facts.insert(fact_key(fact)) =~= self@.facts);
            return;
        }
        let ghost before = self.facts@;
        let ghost key = fact_key(fact);
        self.facts.push(fact);
        assert(fact_keys(self.facts@) =~= fact_keys(before).push(key));
        assert(fact_keys(self.facts@).no_duplicates()) by {
            assert(!fact_keys(before).contains(key));
        }
        assert(self@.facts =~= fact_keys(before).to_set().insert(key));
    }

    /// Adds a ground relation; adding one that is held already changes nothing.
    pub fn add_relation(&mut self, relation: Relation)
        requires
            old(self).inv(),
            relation.is_ground(),
        ensures
            final(self).inv(),
            final(self)@ == old(self)@.with_relation(relation_key(relation)),
    {
        if self.has_relation(
            relation.name.as_str(),
            relation.first.as_str(),
            relation.second.as_str(),
        ) {
            assert(self@.relations.insert(relation_key(relation)) =~= self@.relations);
            return;
        }
        let ghost before = self.relations@;
        let ghost key = relation_key(relation);
        self.relations.push(relation);
        assert(relation_keys(self.relations@) =~= relation_keys(before).push(key));
        assert(relation_keys(self.relations@).no_duplicates()) by {
            assert(!relation_keys(before).contains(key));
        }
        assert(self@.relations =~= relation_keys(before).to_set().insert(key));
    }

    /// Adds each of the ground facts.
    pub fn add_facts(&mut self, facts: Vec<Fact>)
        requires
            old(self).inv(),
            forall|k: int| 0 <= k < facts@.len() ==> (#[trigger] facts@[k]).is_ground(),
        ensures
            final(self).inv(),
            final(self)@.facts == old(self)@.facts + fact_keys(facts@).to_set(),
            final(self)@.relations == old(self)@.relations,
    {
        let ghost start = self@;
        let ghost all = facts@;
        let mut facts = facts;
        let mut taken: Vec<Fact> = Vec::new();
        while facts.len() > 0
            invariant
                self.inv(),
                forall|k: int| 0 <= k < all.len() ==> (#[trigger] all[k]).is_ground(),
                facts@ == all.skip(taken@.len() as int),
                taken@ == all.take(taken@.len() as int),
                taken@.len() <= all.len(),
                self@.facts == start.facts + fact_keys(taken@).to_set(),
                self@.relations == start.relations,
            decreases facts@.len(),
        {
            let ghost n = taken@.len() as int;
            let f = facts.remove(0);
            assert(f == all[n]);
            let ghost key = fact_key(f);
            self.add_fact(f.copy());
            taken.push(f);
            assert(taken@ =~= all.take(n + 1));
            assert(facts@ =~= all.skip(n + 1));
            assert(fact_keys(taken@) =~= fact_keys(all.take(n)).push(key));
            assert(self@.facts =~= start.facts + fact_keys(taken@).to_set());
        }
        assert(taken@ =~= all);
    }

    /// Adds each of the ground relations.
    pub fn add_relations(&mut self, relations: Vec<Relation>)
        requires
            old(self).inv(),
            forall|k: int| 0 <= k < relations@.len() ==> (#[trigger] relations@[k]).is_ground(),
        ensures
            final(self).inv(),
            final(self)@.relations == old(self)@.relations + relation_keys(relations@).to_set(),
            final(self)@.facts == old(self)@.facts,
    {
        let ghost start = self@;
        let ghost all = relations@;
        let mut relations = relations;
        let mut taken: Vec<Relation> = Vec::new();
        while relations.len() > 0
            invariant
                self.inv(),
                forall|k: int| 0 <= k < all.len() ==> (#[trigger] all[k]).is_ground(),
                relations@ == all.skip(taken@.len() as int),
                taken@ == all.take(taken@.len() as int),
                taken@.len() <= all.len(),
                self@.relations == start.relations + relation_keys(taken@).to_set(),
                self@.facts == start.facts,
            decreases relations@.len(),
        {
            let ghost n = taken@.len() as int;
            let r = relations.remove(0);
            assert(r == all[n]);
            let ghost key = relation_key(r);
            self.add_relation(r.copy());
            taken.push(r);
            assert(taken@ =~= all.take(n + 1));
            assert(relations@ =~= all.skip(n + 1));
            assert(relation_keys(taken@) =~= relation_keys(all.take(n)).push(key));
            assert(self@.relations =~= start.relations + relation_keys(taken@).to_set());
        }
        assert(taken@ =~= all);
    }

    /// The stored facts, each once.
    pub fn facts(&self) -> (r: &Vec<Fact>)
        requires
            self.inv(),
        ensures
            fact_keys(r@).to_set() == self@.facts,
            fact_keys(r@).no_duplicates(),
            forall|k: int| 0 <= k < r@.len() ==> (#[trigger] r@[k]).is_ground(),
    {
        &self.facts
    }

    /// The stored relations, each once.
    pub fn relations(&self) -> (r: &Vec<Relation>)
        requires
            self.inv(),
        ensures
            relation_keys(r@).to_set() == self@.relations,
            relation_keys(r@).no_duplicates(),
            forall|k: int| 0 <= k < r@.len() ==> (#[trigger] r@[k]).is_ground(),
    {
        &self.relations
    }

    /// The values of the facts named `name`, ascending.
    fn collect_fact_values(&self, name: &str) -> (r: Vec<String>)
        ensures
            texts(r@) == ascending_list(fact_values(self@, name@)),
            ascending(texts(r@)),
            texts(r@).to_set() == fact_values(self@, name@),
    {
        let mut out: Vec<String> = Vec::new();
        let mut i: usize = 0;
        while i < self.facts.len()
            invariant
                i <= self.facts@.len(),
                ascending(texts(out@)),
                texts(out@).to_set() == fact_values_upto(self.facts@, i as int, name@),
            decreases self.facts@.len() - i,
        {
            let f = &self.facts[i];
            let ghost before = fact_values_upto(self.facts@, i as int, name@);
            if text_eq(f.name.as_str(), name) {
                insert_ascending(&mut out, f.first.clone());
                assert(fact_values_upto(self.facts@, i + 1, name@) =~= before.insert(f.first@));
            } else {
                assert(fact_values_upto(self.facts@, i + 1, name@) =~= before);
            }
            i = i + 1;
        }
        assert forall|x: Seq<char>| #[trigger]
            fact_values(self@, name@).contains(x) implies fact_values_upto(
            self.facts@,
            i as int,
            name@,
        ).contains(x) by {
            let k = choose|k: int|
                0 <= k < fact_keys(self.facts@).len() && fact_keys(self.facts@)[k] == (name@, x);
            assert(fact_key(self.facts@[k]) == (name@, x));
        }
        assert forall|x: Seq<char>| #[trigger]
            fact_values_upto(self.facts@, i as int, name@).contains(x) implies fact_values(
            self@,
            name@,
        ).contains(x) by {
            let k = choose|k: int| 0 <= k < i && fact_key(self.facts@[k]) == (name@, x);
            assert(fact_keys(self.facts@)[k] == (name@, x));
        }
        assert(texts(out@).to_set() =~= fact_values(self@, name@));
        proof {
            lemma_ascending_list_of(texts(out@));
        }
        out
    }

    /// The values that a scan of the relations named `name` collects,
    /// ascending (see `picks`).
    fn collect_relation_values(&self, name: &str, want_first: bool, fixed: Option<&str>) -> (r:
        Vec<String>)
        ensures
            texts(r@) == ascending_list(
                picked(
                    self@,
                    name@,
                    want_first,
                    match fixed {
                        Some(b) => Some(b@),
                        None => None,
                    },
                ),
            ),
            ascending(texts(r@)),
            texts(r@).to_set() == picked(
                self@,
                name@,
                want_first,
                match fixed {
                    Some(b) => Some(b@),
                    None => None,
                },
            ),
    {
        let ghost fv = match fixed {
            Some(b) => Some(b@),
            None => None,
        };
        let mut out: Vec<String> = Vec::new();
        let mut i: usize = 0;
        while i < self.relations.len()
            invariant
                i <= self.relations@.len(),
                fv == match fixed {
                    Some(b) => Some(b@),
                    None => None::<Seq<char>>,
                },
                ascending(texts(out@)),
                texts(out@).to_set() == picked_upto(
                    self.relations@,
                    i as int,
                    name@,
                    want_first,
                    fv,
                ),
            decreases self.relations@.len() - i,
        {
            let r = &self.relations[i];
            let ghost before = picked_upto(self.relations@, i as int, name@, want_first, fv);
            let hit = text_eq(r.name.as_str(), name) && match fixed {
                None => true,
                Some(b) => if want_first {
                    text_eq(r.second.as_str(), b)
                } else {
                    text_eq(r.first.as_str(), b)
                },
            };
            if hit {
                let x = if want_first {
                    r.first.clone()
                } else {
                    r.second.clone()
                };
                let ghost xv = x@;
                insert_ascending(&mut out, x);
                assert(picks(relation_key(*r), name@, want_first, fv, xv));
                assert forall|y: Seq<char>|
                    picked_upto(self.relations@, i + 1, name@, want_first, fv).contains(y)
                        <==> before.insert(xv).contains(y) by {
                    if picks(relation_key(*r), name@, want_first, fv, y) {
                        assert(y == xv);
                    }
                }
                assert(picked_upto(self.relations@, i + 1, name@, want_first, fv) =~= before.insert(
                    xv,
                ));
            } else {
                assert forall|y: Seq<char>|
                    picked_upto(self.relations@, i + 1, name@, want_first, fv).contains(y)
                        <==> before.contains(y) by {
                    assert(!picks(relation_key(*r), name@, want_first, fv, y));
                }
                assert(picked_upto(self.relations@, i + 1, name@, want_first, fv) =~= before);
            }
            i = i + 1;
        }
        assert forall|x: Seq<char>| #[trigger]
            picked(self@, name@, want_first, fv).contains(x) implies picked_upto(
            self.relations@,
            i as int,
            name@,
            want_first,
            fv,
        ).contains(x) by {
            let key = choose|key: RelationKey|
                self@.relations.contains(key) && picks(key, name@, want_first, fv, x);
            let k = choose|k: int|
                0 <= k < relation_keys(self.relations@).len() && relation_keys(
                    self.relations@,
                )[k] == key;
            assert(relation_key(self.relations@[k]) == key);
        }
        assert forall|x: Seq<char>| #[trigger]
            picked_upto(self.relations@, i as int, name@, want_first, fv).contains(x) implies picked(
            self@,
            name@,
            want_first,
            fv,
        ).contains(x) by {
            let k = choose|k: int|
                0 <= k < i && picks(relation_key(self.relations@[k]), name@, want_first, fv, x);
            assert(relation_keys(self.relations@)[k] == relation_key(self.relations@[k]));
            assert(self@.relations.contains(relation_key(self.relations@[k])));
        }
        assert(texts(out@).to_set() =~= picked(self@, name@, want_first, fv));
        proof {
            lemma_ascending_list_of(texts(out@));
        }
        out
    }

    /// The values of the facts named like the query, ascending and each once.
    pub fn query_projection_fact(&self, q: QueryProjectionFact) -> (r: Vec<String>)
        ensures
            texts(r@) == ascending_list(fact_values(self@, q.name@)),
            ascending(texts(r@)),
            texts(r@).to_set() == fact_values(self@, q.name@),
    {
        self.collect_fact_values(q.name.as_str())
    }

    /// The values of the field marked `_` over the relations named like the
    /// query, ascending and each once.
    pub fn query_projection_relation(&self, q: QueryProjectionRelation) -> (r: Vec<String>)
        requires
            q.first@ == wildcard() || q.second@ == wildcard(),
        ensures
            texts(r@) == ascending_list(projection_values(self@, q.name@, q.first@, q.second@)),
            ascending(texts(r@)),
            texts(r@).to_set() == projection_values(self@, q.name@, q.first@, q.second@),
    {
        proof {
            lemma_picked_named(self@, q.name@, seq![]);
        }
        if is_single(&q.first, '_') {
            self.collect_relation_values(q.name.as_str(), true, None)
        } else {
            self.collect_relation_values(q.name.as_str(), false, None)
        }
    }

    /// The stored relations of `picks`' kind whose values are `values`, one
    /// for each value in the same order.
    fn relations_for(&self, name: &str, fixed: &str, fixed_is_first: bool, values: &Vec<String>) -> (r:
        Vec<&Relation>)
        requires
            self.inv(),
            forall|k: int|
                0 <= k < values@.len() ==> (if fixed_is_first {
                    self@.relations.contains((name@, fixed@, #[trigger] values@[k]@))
                } else {
                    self@.relations.contains((name@, values@[k]@, fixed@))
                }),
        ensures
            r@.len() == values@.len(),
            forall|k: int|
                0 <= k < r@.len() ==> (#[trigger] r@[k]).is_ground() && relation_key(*r@[k]) == (
                    if fixed_is_first {
                        (name@, fixed@, values@[k]@)
                    } else {
                        (name@, values@[k]@, fixed@)
                    }
                ),
    {
        let mut out: Vec<&Relation> = Vec::new();
        let mut i: usize = 0;
        while i < values.len()
            invariant
                self.inv(),
                i <= values@.len(),
                out@.len() == i,
                forall|k: int|
                    0 <= k < values@.len() ==> (if fixed_is_first {
                        self@.relations.contains((name@, fixed@, #[trigger] values@[k]@))
                    } else {
                        self@.relations.contains((name@, values@[k]@, fixed@))
                    }),
                forall|k: int|
                    0 <= k < i ==> (#[trigger] out@[k]).is_ground() && relation_key(*out@[k]) == (
                        if fixed_is_first {
                            (name@, fixed@, values@[k]@)
                        } else {
                            (name@, values@[k]@, fixed@)
                        }
                    ),
            decreases values@.len() - i,
        {
            let found = if fixed_is_first {
                self.find_relation(name, fixed, values[i].as_str())
            } else {
                self.find_relation(name, values[i].as_str(), fixed)
            };
            assert(fixed_is_first ==> self@.relations.contains((name@, fixed@, values@[i as int]@)));
            assert(!fixed_is_first ==> self@.relations.contains(
                (name@, values@[i as int]@, fixed@),
            ));
            match found {
                Some(k) => {
                    out.push(&self.relations[k]);
                },
                None => {
                    return out;
                },
            }
            i = i + 1;
        }
        out
    }

    /// The relations named `rel_name` whose first value is `first`, in
    /// ascending order of their second value.
    pub fn relations_where_first_is(&self, rel_name: &str, first: &str) -> (r: Vec<&Relation>)
        requires
            self.inv(),
        ensures
            r@.map_values(|x: &Relation| x.second@) == ascending_list(
                seconds_with_first(self@, rel_name@, first@),
            ),
            ascending(r@.map_values(|x: &Relation| x.second@)),
            r@.map_values(|x: &Relation| x.second@).to_set() == seconds_with_first(
                self@,
                rel_name@,
                first@,
            ),
            forall|k: int|
                0 <= k < r@.len() ==> (#[trigger] r@[k]).name@ == rel_name@ && r@[k].first@
                    == first@ && r@[k].is_ground(),
    {
        proof {
            lemma_picked_named(self@, rel_name@, first@);
        }
        let values = self.collect_relation_values(rel_name, false, Some(first));
        assert forall|k: int| 0 <= k < values@.len() implies self@.relations.contains(
            (rel_name@, first@, #[trigger] values@[k]@),
        ) by {
            assert(texts(values@).to_set().contains(texts(values@)[k]));
        }
        let r = self.relations_for(rel_name, first, true, &values);
        assert(r@.map_values(|x: &Relation| x.second@) =~= texts(values@));
        r
    }

    /// The relations named `rel_name` whose second value is `second`, in
    /// ascending order of their first value.
    pub fn relations_where_second_is(&self, rel_name: &str, second: &str) -> (r: Vec<&Relation>)
        requires
            self.inv(),
        ensures
            r@.map_values(|x: &Relation| x.first@) == ascending_list(
                firsts_with_second(self@, rel_name@, second@),
            ),
            ascending(r@.map_values(|x: &Relation| x.first@)),
            r@.map_values(|x: &Relation| x.first@).to_set() == firsts_with_second(
                self@,
                rel_name@,
                second@,
            ),
            forall|k: int|
                0 <= k < r@.len() ==> (#[trigger] r@[k]).name@ == rel_name@ && r@[k].second@
                    == second@ && r@[k].is_ground(),
    {
        proof {
            lemma_picked_named(self@, rel_name@, second@);
        }
        let values = self.collect_relation_values(rel_name, true, Some(second));
        assert forall|k: int| 0 <= k < values@.len() implies self@.relations.contains(
            (rel_name@, #[trigger] values@[k]@, second@),
        ) by {
            assert(texts(values@).to_set().contains(texts(values@)[k]));
        }
        let r = self.relations_for(rel_name, second, false, &values);
        assert(r@.map_values(|x: &Relation| x.first@) =~= texts(values@));
        r
    }

    /// Whether some stored fact or relation satisfies the goal `g` once `v`
    /// stands for `x`.
    fn holds(&self, g: &NonQueryDatalogItem, v: &str, x: &str) -> (r: bool)
        ensures
            r == satisfied(self@, goal_atom(*g), v@, x@),
    {
        match g {
            NonQueryDatalogItem::Fact(f) => {
                let ghost t = Term::term(f.first@, f.first_is_variable);
                assert(goal_atom(*g) == f.view());
                let mut i: usize = 0;
                while i < self.facts.len()
                    invariant
                        i <= self.facts@.len(),
                        goal_atom(*g) == f.view(),
                        t == Term::term(f.first@, f.first_is_variable),
                        forall|k: int|
                            0 <= k < i ==> !((#[trigger] self.facts@[k]).name@ == f.name@ && fits(
                                t,
                                v@,
                                x@,
                                self.facts@[k].first@,
                            )),
                    decreases self.facts@.len() - i,
                {
                    let e = &self.facts[i];
                    if text_eq(e.name.as_str(), f.name.as_str()) && fits_value(
                        f.first.as_str(),
                        f.first_is_variable,
                        v,
                        x,
                        e.first.as_str(),
                    ) {
                        assert(fact_keys(self.facts@)[i as int] == (f.name@, e.first@));
                        assert(self@.facts.contains((f.name@, e.first@)));
                        assert(goal_atom(*g).args[0] == t);
                        assert(goal_atom(*g).args.len() == 1);
                        assert(fits(goal_atom(*g).args[0], v@, x@, e.first@));
                        assert(self@.facts.contains((goal_atom(*g).name, e.first@)));
                        return true;
                    }
                    i = i + 1;
                }
                assert forall|a: Seq<char>| #[trigger]
                    self@.facts.contains((f.name@, a)) implies !fits(t, v@, x@, a) by {
                    let k = choose|k: int|
                        0 <= k < fact_keys(self.facts@).len() && fact_keys(self.facts@)[k] == (
                            f.name@,
                            a,
                        );
                    assert(fact_key(self.facts@[k]) == (f.name@, a));
                }
                false
            },
            NonQueryDatalogItem::Relation(rel) => {
                let ghost t1 = Term::term(rel.first@, rel.first_is_variable);
                let ghost t2 = Term::term(rel.second@, rel.second_is_variable);
                assert(goal_atom(*g) == rel.view());
                let mut i: usize = 0;
                while i < self.relations.len()
                    invariant
                        i <= self.relations@.len(),
                        goal_atom(*g) == rel.view(),
                        t1 == Term::term(rel.first@, rel.first_is_variable),
                        t2 == Term::term(rel.second@, rel.second_is_variable),
                        forall|k: int|
                            0 <= k < i ==> !((#[trigger] self.relations@[k]).name@ == rel.name@
                                && fits(t1, v@, x@, self.relations@[k].first@) && fits(
                                t2,
                                v@,
                                x@,
                                self.relations@[k].second@,
                            )),
                    decreases self.relations@.len() - i,
                {
                    let e = &self.relations[i];
                    if text_eq(e.name.as_str(), rel.name.as_str()) && fits_value(
                        rel.first.as_str(),
                        rel.first_is_variable,
                        v,
                        x,
                        e.first.as_str(),
                    ) && fits_value(
                        rel.second.as_str(),
                        rel.second_is_variable,
                        v,
                        x,
                        e.second.as_str(),
                    ) {
                        assert(relation_keys(self.relations@)[i as int] == (
                            rel.name@,
                            e.first@,
                            e.second@,
                        ));
                        assert(self@.relations.contains((rel.name@, e.first@, e.second@)));
                        assert(goal_atom(*g).args[0] == t1);
                        assert(goal_atom(*g).args[1] == t2);
                        assert(goal_atom(*g).args.len() == 2);
                        assert(fits(goal_atom(*g).args[0], v@, x@, e.first@));
                        assert(fits(goal_atom(*g).args[1], v@, x@, e.second@));
                        assert(self@.relations.contains((goal_atom(*g).name, e.first@, e.second@)));
                        return true;
                    }
                    i = i + 1;
                }
                assert forall|a: Seq<char>, b: Seq<char>| #[trigger]
                    self@.relations.contains((rel.name@, a, b)) implies !(fits(t1, v@, x@, a)
                    && fits(t2, v@, x@, b)) by {
                    let k = choose|k: int|
                        0 <= k < relation_keys(self.relations@).len() && relation_keys(
                            self.relations@,
                        )[k] == (rel.name@, a, b);
                    assert(relation_key(self.relations@[k]) == (rel.name@, a, b));
                }
                false
            },
            _ => false,
        }
    }

    /// Whether every goal is satisfied once `v` stands for `x`.
    fn holds_all(&self, body: &Vec<NonQueryDatalogItem>, v: &str, x: &str) -> (r: bool)
        ensures
            r == all_satisfied(self@, goals_of(body@), v@, x@),
    {
        let mut i: usize = 0;
        while i < body.len()
            invariant
                i <= body@.len(),
                forall|g: int|
                    0 <= g < i ==> satisfied(self@, #[trigger] goals_of(body@)[g], v@, x@),
            decreases body@.len() - i,
        {
            if !self.holds(&body[i], v, x) {
                assert(!satisfied(self@, goals_of(body@)[i as int], v@, x@));
                return false;
            }
            i = i + 1;
        }
        true
    }

    /// The values of all stored facts, in store order.
    fn fact_values_all(&self) -> (r: Vec<String>)
        ensures
            texts(r@) == self.facts@.map_values(|f: Fact| f.first@),
    {
        let mut out: Vec<String> = Vec::new();
        let mut i: usize = 0;
        while i < self.facts.len()
            invariant
                i <= self.facts@.len(),
                texts(out@) == self.facts@.take(i as int).map_values(|f: Fact| f.first@),
            decreases self.facts@.len() - i,
        {
            let ghost before = texts(out@);
            out.push(self.facts[i].first.clone());
            assert(texts(out@) =~= before.push(self.facts@[i as int].first@));
            assert(self.facts@.take(i + 1) =~= self.facts@.take(i as int).push(self.facts@[i as int]));
            assert(texts(out@) =~= self.facts@.take(i + 1).map_values(|f: Fact| f.first@));
            i = i + 1;
        }
        assert(self.facts@.take(i as int) =~= self.facts@);
        out
    }

    /// The first values (or the second, where `want_first` is false) of all
    /// stored relations, in store order.
    fn relation_values_all(&self, want_first: bool) -> (r: Vec<String>)
        ensures
            texts(r@) == self.relations@.map_values(
                |e: Relation|
                    if want_first {
                        e.first@
                    } else {
                        e.second@
                    },
            ),
    {
        let mut out: Vec<String> = Vec::new();
        let mut i: usize = 0;
        while i < self.relations.len()
            invariant
                i <= self.relations@.len(),
                texts(out@) == self.relations@.take(i as int).map_values(
                    |e: Relation|
                        if want_first {
                            e.first@
                        } else {
                            e.second@
                        },
                ),
            decreases self.relations@.len() - i,
        {
            let e = &self.relations[i];
            let ghost before = texts(out@);
            if want_first {
                out.push(e.first.clone());
            } else {
                out.push(e.second.clone());
            }
            assert(texts(out@) =~= before.push(
                if want_first {
                    e.first@
                } else {
                    e.second@
                },
            ));
            assert(self.relations@.take(i + 1) =~= self.relations@.take(i as int).push(
                self.relations@[i as int],
            ));
            assert(texts(out@) =~= self.relations@.take(i + 1).map_values(
                |e: Relation|
                    if want_first {
                        e.first@
                    } else {
                        e.second@
                    },
            ));
            i = i + 1;
        }
        assert(self.relations@.take(i as int) =~= self.relations@);
        out
    }

    /// The candidates for which every goal is satisfied once `v` stands for
    /// them, ascending and each once.
    fn keep_satisfying(&self, body: &Vec<NonQueryDatalogItem>, v: &str, cands: &Vec<String>) -> (r:
        Vec<String>)
        ensures
            ascending(texts(r@)),
            texts(r@).to_set() == Set::new(
                |x: Seq<char>|
                    texts(cands@).to_set().contains(x) && all_satisfied(
                        self@,
                        goals_of(body@),
                        v@,
                        x,
                    ),
            ),
    {
        let ghost goals = goals_of(body@);
        let mut out: Vec<String> = Vec::new();
        let mut i: usize = 0;
        while i < cands.len()
            invariant
                i <= cands@.len(),
                goals == goals_of(body@),
                ascending(texts(out@)),
                texts(out@).to_set() == Set::new(
                    |x: Seq<char>|
                        texts(cands@).take(i as int).to_set().contains(x) && all_satisfied(
                            self@,
                            goals,
                            v@,
                            x,
                        ),
                ),
            decreases cands@.len() - i,
        {
            let ghost before = texts(out@).to_set();
            let ghost c = cands@[i as int]@;
            assert(texts(cands@).take(i + 1) =~= texts(cands@).take(i as int).push(c));
            if self.holds_all(body, v, cands[i].as_str()) {
                insert_ascending(&mut out, cands[i].clone());
            }
            assert(texts(out@).to_set() =~= Set::new(
                |x: Seq<char>|
                    texts(cands@).take(i + 1).to_set().contains(x) && all_satisfied(
                        self@,
                        goals,
                        v@,
                        x,
                    ),
            ));
            i = i + 1;
        }
        assert(texts(cands@).take(i as int) =~= texts(cands@));
        out
    }

    /// The values of the variable that the goals of the query share for
    /// which every goal is satisfied, ascending and each once. Each value is
    /// found among the stored entries that satisfy the last goal.
    pub fn query_conjunctive(&self, q: ConjunctiveQuery) -> (r: Vec<String>)
        ensures
            texts(r@) == ascending_list(conjunctive_values(self@, q.definition.view())),
            ascending(texts(r@)),
            texts(r@).to_set() == conjunctive_values(self@, q.definition.view()),
    {
        let body = &q.definition.data;
        let ghost goals = goals_of(body@);
        assert(goals == q.definition.view());
        let mut out: Vec<String> = Vec::new();
        let v = match find_shared_variable(body) {
            Some(v) => v,
            None => {
                assert(texts(out@) =~= seq![]);
                assert(conjunctive_values(self@, goals) =~= Set::empty());
                assert(ascending_list(Set::empty()) == texts(out@)) by {
                    lemma_ascending_list_of(texts(out@));
                    assert(texts(out@).to_set() =~= Set::empty());
                }
                return out;
            },
        };
        let ghost vv = v@;
        let ghost result = conjunctive_values(self@, goals);
        assert(result == Set::new(|x: Seq<char>| all_satisfied(self@, goals, vv, x)));
        let n = body.len();
        let ghost last = goals[n - 1];
        assert(occurs_in(vv, goals[n - 1]));
        let cands = match &body[n - 1] {
            NonQueryDatalogItem::Fact(_) => {
                let c = self.fact_values_all();
                assert forall|x: Seq<char>| result.contains(x) implies texts(c@).to_set().contains(
                    x,
                ) by {
                    assert(satisfied(self@, goals[n - 1], vv, x));
                    assert(last.args[0] == Term::Var(vv));
                    let a = choose|a: Seq<char>|
                        #[trigger] self@.facts.contains((last.name, a)) && fits(
                            last.args[0],
                            vv,
                            x,
                            a,
                        );
                    let k = choose|k: int|
                        0 <= k < fact_keys(self.facts@).len() && fact_keys(self.facts@)[k] == (
                            last.name,
                            a,
                        );
                    assert(fact_key(self.facts@[k]) == (last.name, a));
                    assert(texts(c@)[k] == x);
                }
                c
            },
            NonQueryDatalogItem::Relation(rel) => {
                let use_first = rel.first_is_variable && text_eq(rel.first.as_str(), v.as_str());
                assert(use_first ==> last.args[0] == Term::Var(vv));
                assert(!use_first ==> last.args[1] == Term::Var(vv));
                let c = self.relation_values_all(use_first);
                assert forall|x: Seq<char>| result.contains(x) implies texts(c@).to_set().contains(
                    x,
                ) by {
                    assert(satisfied(self@, goals[n - 1], vv, x));
                    let (a, b) = choose|a: Seq<char>, b: Seq<char>|
                        #[trigger] self@.relations.contains((last.name, a, b)) && fits(
                            last.args[0],
                            vv,
                            x,
                            a,
                        ) && fits(last.args[1], vv, x, b);
                    let k = choose|k: int|
                        0 <= k < relation_keys(self.relations@).len() && relation_keys(
                            self.relations@,
                        )[k] == (last.name, a, b);
                    assert(relation_key(self.relations@[k]) == (last.name, a, b));
                    assert(texts(c@)[k] == x);
                }
                c
            },
            _ => {
                assert(goals[n - 1].args.len() == 0);
                return out;
            },
        };
        out = self.keep_satisfying(body, v.as_str(), &cands);
        assert(texts(out@).to_set() =~= result);
        proof {
            lemma_ascending_list_of(texts(out@));
        }
        out
    }

    /// Empties the store.
    pub fn clear(&mut self)
        ensures
            final(self).inv(),
            final(self)@ == StoreContents::empty(),
    {
        self.facts.clear();
        self.relations.clear();
        assert(self@.facts =~= Set::empty());
        assert(self@.relations =~= Set::empty());
    }
}

/// Holds the store that a session of interpretation works on.
pub struct DatabaseInstance {
    db: Database,
}

impl DatabaseInstance {
    /// The store held.
    pub closed spec fn db(&self) -> Database {
        self.db
    }

    /// A holder of an empty store.
    pub fn new() -> (r: DatabaseInstance)
        ensures
            r.db().inv(),
            r.db()@ == StoreContents::empty(),
    {
        DatabaseInstance { db: Database::new() }
    }

    /// The store, to read.
    pub fn get_db(&self) -> (r: &Database)
        ensures
            *r == self.db(),
    {
        &self.db
    }

    /// The store, to change.
    pub fn get_db_mut(&mut self) -> (r: &mut Database)
        ensures
            *r == old(self).db(),
            final(self).db() == *final(r),
    {
        &mut self.db
    }
}

impl Default for Database {
    fn default() -> (r: Database)
        ensures
            r.inv(),
            r@ == StoreContents::empty(),
    {
        Database::new()
    }
}

impl Fact {
    /// A copy of this fact.
    pub fn copy(&self) -> (r: Fact)
        ensures
            r == *self,
    {
        Fact {
            name: self.name.clone(),
            first: self.first.clone(),
            first_is_variable: self.first_is_variable,
        }
    }
}

impl Relation {
    /// A copy of this relation.
    pub fn copy(&self) -> (r: Relation)
        ensures
            r == *self,
    {
        Relation {
            name: self.name.clone(),
            first: self.first.clone(),
            second: self.second.clone(),
            first_is_variable: self.first_is_variable,
            second_is_variable: self.second_is_variable,
        }
    }
}

} // verus!
