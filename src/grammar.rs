//! The grammar of the language as spec functions over the characters of
//! the text. Each production, tried at position `i`, gives what it read
//! and the position after it, or nothing where it does not match there.
use crate::items::{Atom, ItemShape, QueryShape, Term};
use crate::text::{is_alnum, is_alpha, is_blank, is_lower, is_name_char, is_space, is_upper};
use vstd::prelude::*;

verus! {

/// Runs of characters that the grammar reads as a whole.
#[derive(Clone, Copy)]
pub enum Run {
    /// Characters that continue a predicate name.
    NameChars,
    /// Letters, as inside a literal.
    Letters,
    /// Letters and digits, as after the first letter of a variable.
    LettersDigits,
    /// Spaces and tabs.
    Blanks,
    /// Anything but a line feed, as in a line comment.
    LineRest,
}

pub open spec fn in_run(c: char, k: Run) -> bool {
    match k {
        Run::NameChars => is_name_char(c),
        Run::Letters => is_alpha(c),
        Run::LettersDigits => is_alnum(c),
        Run::Blanks => is_blank(c),
        Run::LineRest => c != '\n',
    }
}

/// The end of the longest run of `k` characters from `i` on.
pub open spec fn run_end(s: Seq<char>, i: int, k: Run) -> int
    decreases s.len() - i,
{
    if 0 <= i < s.len() && in_run(s[i], k) {
        run_end(s, i + 1, k)
    } else {
        i
    }
}

pub open spec fn char_at(s: Seq<char>, i: int, c: char) -> bool {
    0 <= i < s.len() && s[i] == c
}

/// A predicate name: a lower-case letter, then letters, digits and `_`.
pub open spec fn name_at(s: Seq<char>, i: int) -> Option<(Seq<char>, int)> {
    if 0 <= i < s.len() && is_lower(s[i]) {
        let j = run_end(s, i + 1, Run::NameChars);
        Some((s.subrange(i, j), j))
    } else {
        None
    }
}

/// A literal: letters between double quotes, at least one.
pub open spec fn literal_at(s: Seq<char>, i: int) -> Option<(Seq<char>, int)> {
    if char_at(s, i, '"') {
        let j = run_end(s, i + 1, Run::Letters);
        if j > i + 1 && char_at(s, j, '"') {
            Some((s.subrange(i + 1, j), j + 1))
        } else {
            None
        }
    } else {
        None
    }
}

/// A variable token: an upper-case letter, then letters and digits.
pub open spec fn variable_at(s: Seq<char>, i: int) -> Option<(Seq<char>, int)> {
    if 0 <= i < s.len() && is_upper(s[i]) {
        let j = run_end(s, i + 1, Run::LettersDigits);
        Some((s.subrange(i, j), j))
    } else {
        None
    }
}

/// An argument: a literal, else a variable token.
pub open spec fn term_at(s: Seq<char>, i: int) -> Option<(Term, int)> {
    match literal_at(s, i) {
        Some((t, j)) => Some((Term::Lit(t), j)),
        None => match variable_at(s, i) {
            Some((t, j)) => Some((Term::Var(t), j)),
            None => None,
        },
    }
}

/// A comma and the blanks after it.
pub open spec fn comma_at(s: Seq<char>, i: int) -> Option<int> {
    if char_at(s, i, ',') {
        Some(run_end(s, i + 1, Run::Blanks))
    } else {
        None
    }
}

/// `name(a, b)` with two arguments.
pub open spec fn pair_atom_at(s: Seq<char>, i: int) -> Option<(Atom, int)> {
    match name_at(s, i) {
        Some((n, j1)) => if char_at(s, j1, '(') {
            match term_at(s, j1 + 1) {
                Some((a, j2)) => match comma_at(s, j2) {
                    Some(j3) => match term_at(s, j3) {
                        Some((b, j4)) => if char_at(s, j4, ')') {
                            Some((Atom { name: n, args: seq![a, b] }, j4 + 1))
                        } else {
                            None
                        },
                        None => None,
                    },
                    None => None,
                },
                None => None,
            }
        } else {
            None
        },
        None => None,
    }
}

/// `name(a)` with one argument.
pub open spec fn single_atom_at(s: Seq<char>, i: int) -> Option<(Atom, int)> {
    match name_at(s, i) {
        Some((n, j1)) => if char_at(s, j1, '(') {
            match term_at(s, j1 + 1) {
                Some((a, j2)) => if char_at(s, j2, ')') {
                    Some((Atom { name: n, args: seq![a] }, j2 + 1))
                } else {
                    None
                },
                None => None,
            }
        } else {
            None
        },
        None => None,
    }
}

/// A goal of a body: a relation shape, else a fact shape.
pub open spec fn goal_at(s: Seq<char>, i: int) -> Option<(Atom, int)> {
    match pair_atom_at(s, i) {
        Some(r) => Some(r),
        None => single_atom_at(s, i),
    }
}

/// Goals separated by commas, at least one. A comma not followed by a goal
/// is left unread.
pub open spec fn goals_at(s: Seq<char>, i: int) -> Option<(Seq<Atom>, int)>
    decreases s.len() - i,
{
    match goal_at(s, i) {
        Some((g, j)) => match comma_at(s, j) {
            Some(k) => if i < k <= s.len() {
                match goals_at(s, k) {
                    Some((gs, e)) => Some((seq![g] + gs, e)),
                    None => Some((seq![g], j)),
                }
            } else {
                Some((seq![g], j))
            },
            None => Some((seq![g], j)),
        },
        None => None,
    }
}

/// `:-` with blanks on either side.
pub open spec fn neck_at(s: Seq<char>, i: int) -> Option<int> {
    let j = run_end(s, i, Run::Blanks);
    if char_at(s, j, ':') && char_at(s, j + 1, '-') {
        Some(run_end(s, j + 2, Run::Blanks))
    } else {
        None
    }
}

/// `name(a, b) :- goal, goal, ... .`: the head name, the texts of the head
/// arguments and the goals.
pub open spec fn rule_at(s: Seq<char>, i: int) -> Option<
    ((Seq<char>, Seq<char>, Seq<char>, Seq<Atom>), int),
> {
    match pair_atom_at(s, i) {
        Some((h, j)) => match neck_at(s, j) {
            Some(k) => match goals_at(s, k) {
                Some((gs, e)) => if char_at(s, e, '.') {
                    Some(((h.name, h.args[0].text(), h.args[1].text(), gs), e + 1))
                } else {
                    None
                },
                None => None,
            },
            None => None,
        },
        None => None,
    }
}

/// An atom followed by a full stop.
pub open spec fn closed(r: Option<(Atom, int)>, s: Seq<char>) -> Option<(Atom, int)> {
    match r {
        Some((a, j)) => if char_at(s, j, '.') {
            Some((a, j + 1))
        } else {
            None
        },
        None => None,
    }
}

pub open spec fn all_literal(a: Atom) -> bool {
    forall|k: int| 0 <= k < a.args.len() ==> #[trigger] a.args[k] is Lit
}

/// An atom whose arguments are all literals, followed by a full stop.
pub open spec fn ground_at(r: Option<(Atom, int)>, s: Seq<char>) -> Option<(Atom, int)> {
    match closed(r, s) {
        Some((a, j)) => if all_literal(a) {
            Some((a, j))
        } else {
            None
        },
        None => None,
    }
}

/// The reserved marker of a single-variable query.
pub open spec fn marker() -> Seq<char> {
    seq!['X']
}

/// The wildcard of a projection query.
pub open spec fn wildcard() -> Seq<char> {
    seq!['_']
}

/// `?name(X, "b").` or `?name("a", X).`: one argument is the marker, the
/// other a literal other than the marker.
pub open spec fn single_variable_at(s: Seq<char>, i: int) -> Option<(QueryShape, int)> {
    match closed(pair_atom_at(s, i), s) {
        Some((a, j)) => {
            let (x, y) = (a.args[0], a.args[1]);
            if x.text() == marker() && y is Lit && y.text() != marker() {
                Some((QueryShape::FirstIsVar(a.name, y.text()), j))
            } else if y.text() == marker() && x is Lit && x.text() != marker() {
                Some((QueryShape::SecondIsVar(a.name, x.text()), j))
            } else {
                None
            }
        },
        None => None,
    }
}

/// An argument of a projection: the wildcard `_`, else an argument's text.
pub open spec fn projected_at(s: Seq<char>, i: int) -> Option<(Seq<char>, int)> {
    if char_at(s, i, '_') {
        Some((wildcard(), i + 1))
    } else {
        match term_at(s, i) {
            Some((t, j)) => Some((t.text(), j)),
            None => None,
        }
    }
}

/// `?name(a, b).` with at least one of `a`, `b` the wildcard, or `?name(_).`.
pub open spec fn projection_at(s: Seq<char>, i: int) -> Option<(QueryShape, int)> {
    match name_at(s, i) {
        Some((n, j1)) => if char_at(s, j1, '(') {
            if char_at(s, j1 + 1, '_') && char_at(s, j1 + 2, ')') && char_at(s, j1 + 3, '.') {
                Some((QueryShape::ProjectionFact(n), j1 + 4))
            } else {
                match projected_at(s, j1 + 1) {
                    Some((a, j2)) => match comma_at(s, j2) {
                        Some(j3) => match projected_at(s, j3) {
                            Some((b, j4)) => if char_at(s, j4, ')') && char_at(s, j4 + 1, '.')
                                && (a == wildcard() || b == wildcard()) {
                                Some((QueryShape::ProjectionRelation(n, a, b), j4 + 2))
                            } else {
                                None
                            },
                            None => None,
                        },
                        None => None,
                    },
                    None => None,
                }
            }
        } else {
            None
        },
        None => None,
    }
}

/// A body of two or more goals with no head, followed by a full stop.
pub open spec fn headless_at(s: Seq<char>, i: int) -> Option<(QueryShape, int)> {
    match goals_at(s, i) {
        Some((gs, e)) => if gs.len() >= 2 && char_at(s, e, '.') {
            Some((QueryShape::Conjunctive(seq![], seq![], seq![], gs), e + 1))
        } else {
            None
        },
        None => None,
    }
}

/// A conjunctive query: written as a rule, else as a body without a head.
pub open spec fn conjunctive_at(s: Seq<char>, i: int) -> Option<(QueryShape, int)> {
    match rule_at(s, i) {
        Some(((n, a, b, gs), e)) => Some((QueryShape::Conjunctive(n, a, b, gs), e)),
        None => headless_at(s, i),
    }
}

/// What follows the `?` of a query: the shapes are tried from the most
/// specific to the least, each from the same position.
pub open spec fn query_body_at(s: Seq<char>, i: int) -> Option<(QueryShape, int)> {
    match conjunctive_at(s, i) {
        Some(r) => Some(r),
        None => match single_variable_at(s, i) {
            Some(r) => Some(r),
            None => match projection_at(s, i) {
                Some(r) => Some(r),
                None => match ground_at(pair_atom_at(s, i), s) {
                    Some((a, j)) => Some((QueryShape::GroundRelation(a), j)),
                    None => match ground_at(single_atom_at(s, i), s) {
                        Some((a, j)) => Some((QueryShape::GroundFact(a), j)),
                        None => None,
                    },
                },
            },
        },
    }
}

/// A query: `?` and what follows it.
pub open spec fn query_at(s: Seq<char>, i: int) -> Option<(QueryShape, int)> {
    if char_at(s, i, '?') {
        query_body_at(s, i + 1)
    } else {
        None
    }
}

/// One item: a rule, a fact, a relation or a query, tried in that order. The
/// arguments of a fact or a relation item may be variables.
pub open spec fn item_at(s: Seq<char>, i: int) -> Option<(ItemShape, int)> {
    match rule_at(s, i) {
        Some(((n, a, b, gs), e)) => Some((ItemShape::Rule(n, a, b, gs), e)),
        None => match closed(single_atom_at(s, i), s) {
            Some((a, j)) => Some((ItemShape::Fact(a), j)),
            None => match closed(pair_atom_at(s, i), s) {
                Some((a, j)) => Some((ItemShape::Relation(a), j)),
                None => match query_at(s, i) {
                    Some((q, j)) => Some((ItemShape::Query(q), j)),
                    None => None,
                },
            },
        },
    }
}

/// The first `*/` from `i` on: the position of its `*`.
pub open spec fn block_close_at(s: Seq<char>, i: int) -> Option<int>
    decreases s.len() - i,
{
    if i < 0 || i + 1 >= s.len() {
        None
    } else if s[i] == '*' && s[i + 1] == '/' {
        Some(i)
    } else {
        block_close_at(s, i + 1)
    }
}

/// A line comment: `//` to the end of the line.
pub open spec fn line_comment_at(s: Seq<char>, i: int) -> Option<int> {
    if char_at(s, i, '/') && char_at(s, i + 1, '/') {
        Some(run_end(s, i + 2, Run::LineRest))
    } else {
        None
    }
}

/// A block comment: `/*` to the next `*/`.
pub open spec fn block_comment_at(s: Seq<char>, i: int) -> Option<int> {
    if char_at(s, i, '/') && char_at(s, i + 1, '*') {
        match block_close_at(s, i + 2) {
            Some(k) => Some(k + 2),
            None => None,
        }
    } else {
        None
    }
}

/// A comment: a line comment, else a block comment.
pub open spec fn comment_at(s: Seq<char>, i: int) -> Option<int> {
    match line_comment_at(s, i) {
        Some(k) => Some(k),
        None => block_comment_at(s, i),
    }
}

/// The position after the whitespace and comments from `i` on.
pub open spec fn trivia_end(s: Seq<char>, i: int) -> int
    decreases s.len() - i,
{
    if 0 <= i < s.len() && is_space(s[i]) {
        trivia_end(s, i + 1)
    } else {
        match comment_at(s, i) {
            Some(k) => if i < k <= s.len() {
                trivia_end(s, k)
            } else {
                i
            },
            None => i,
        }
    }
}

/// The items from `i` on, each followed by whitespace and comments; or the
/// position of the first place where no item can be read.
pub open spec fn items_from(s: Seq<char>, i: int) -> Result<Seq<ItemShape>, int>
    decreases s.len() - i,
{
    if i < 0 || i >= s.len() {
        Ok(seq![])
    } else {
        match item_at(s, i) {
            Some((it, j)) => {
                let k = trivia_end(s, j);
                if i < k <= s.len() {
                    match items_from(s, k) {
                        Ok(rest) => Ok(seq![it] + rest),
                        Err(p) => Err(p),
                    }
                } else {
                    Err(i)
                }
            },
            None => Err(i),
        }
    }
}

/// The items of a whole text, or the position where reading failed.
pub open spec fn program(s: Seq<char>) -> Result<Seq<ItemShape>, int> {
    items_from(s, trivia_end(s, 0))
}

} // verus!
