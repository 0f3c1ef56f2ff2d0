//! What a select statement over one table, or over two joined tables, is
//! made of and in which order, and turning a prepared SQL statement into
//! the text that shows it with its arguments in place.
use vstd::prelude::*;
use crate::substrings::{Substrings, positions_of, set_entries, zip_entries, strs, tokenize, word_flags};

verus! {

/// The statement `query` with its `?` placeholders replaced, in order, by
/// the texts of `arguments`, the way the tokens of the statement are
/// found and put back together by [`Substrings`]; `None` where the
/// statement has more placeholders than there are arguments.
pub fn select_sql_text(query: &str, arguments: Vec<String>) -> (r: Option<String>)
    ensures
        ({
            let v = tokenize(query@, word_flags(query@));
            let ps = positions_of(v.subs, "?"@);
            &&& ps.len() > arguments@.len() ==> r is None
            &&& ps.len() <= arguments@.len() ==> (r matches Some(s) && s@ == crate::text::concat(
                set_entries(v, zip_entries(ps, strs(arguments@))).chars,
            ))
        }),
{
    let mut s = Substrings::new(query);
    let found = s.find("?");
    if found.len() > arguments.len() {
        return None;
    }
    s.find_and_replace("?", arguments);
    Some(s.to_string())
}

/// Which of the two tables of a join a column belongs to.
#[derive(Clone, Copy, Debug, PartialEq, Eq)]
pub enum Side {
    Left,
    Right,
}

/// The list of the builder that a step takes an entry from.
#[derive(Clone, Copy, Debug, PartialEq, Eq)]
pub enum Clause {
    /// A join, with its table and condition.
    Join,
    /// A column to select.
    Column,
    /// An expression to select.
    Expr,
    /// A condition that a column equals a value.
    ColumnEquals,
    /// A condition given as an expression.
    Where,
    /// A column to group by.
    GroupBy,
    /// A column to order by, with its direction.
    OrderBy,
}

/// One step in building a select statement.
#[derive(Clone, Copy, Debug, PartialEq, Eq)]
pub enum SelectStep {
    /// Select from the table (the left one of a join).
    From,
    /// The entry at `index` of the list of `clause`; where `side` names a
    /// table, the column is qualified by that table, and the conditions of
    /// that table's list are meant.
    Item { clause: Clause, side: Option<Side>, index: usize },
    /// Select every column.
    Asterisk,
    /// Return at most this many rows.
    Limit(u64),
}

/// How much a select over one table holds: the lengths of its lists, in
/// the order in which they were filled, and its limit.
#[derive(Clone, Copy, Debug, PartialEq, Eq)]
pub struct SelectSpec {
    pub select: usize,
    pub select_exprs: usize,
    pub conditions: usize,
    pub expressions: usize,
    pub group_by: usize,
    pub order_by: usize,
    pub limit: Option<u64>,
}

/// How much a select over two joined tables holds: the number of joins,
/// the side of each selected, grouping and ordering column, the numbers of
/// the conditions on either table and of the other conditions, and its
/// limit.
#[derive(Clone, Debug, PartialEq, Eq)]
pub struct JoinSpec {
    pub joins: usize,
    pub select: Vec<Side>,
    pub select_exprs: usize,
    pub left_conditions: usize,
    pub right_conditions: usize,
    pub expressions: usize,
    pub group_by: Vec<Side>,
    pub order_by: Vec<Side>,
    pub limit: Option<u64>,
}

/// The first `n` entries of the list of `clause`, in order, all with the
/// same `side`.
pub open spec fn items(clause: Clause, side: Option<Side>, n: nat) -> Seq<SelectStep> {
    Seq::new(n, |k: int| SelectStep::Item { clause, side, index: k as usize })
}

/// The entries of the list of `clause`, in order, each qualified by the
/// table of its side.
pub open spec fn sided_items(clause: Clause, sides: Seq<Side>) -> Seq<SelectStep> {
    Seq::new(sides.len(), |k: int| SelectStep::Item { clause, side: Some(sides[k]), index: k as usize })
}

/// The limit, where there is one.
pub open spec fn limit_step(limit: Option<u64>) -> Seq<SelectStep> {
    match limit {
        Some(n) => seq![SelectStep::Limit(n)],
        None => Seq::empty(),
    }
}

/// The steps of a select over one table: the table; the chosen columns
/// and then the chosen expressions, or every column where none are
/// chosen; each column's condition and then each other condition; the
/// orderings; the groupings; and the limit.
pub open spec fn select_plan_spec(c: SelectSpec) -> Seq<SelectStep> {
    seq![SelectStep::From] + (if c.select > 0 || c.select_exprs > 0 {
        items(Clause::Column, None, c.select as nat) + items(Clause::Expr, None, c.select_exprs as nat)
    } else {
        seq![SelectStep::Asterisk]
    }) + items(Clause::ColumnEquals, None, c.conditions as nat) + items(
        Clause::Where,
        None,
        c.expressions as nat,
    ) + items(Clause::OrderBy, None, c.order_by as nat) + items(Clause::GroupBy, None, c.group_by as nat)
        + limit_step(c.limit)
}

/// The steps of a select over two joined tables: the left table; the
/// joins; the chosen columns, each qualified by its table, or every column
/// where none are chosen (chosen expressions take no part); the conditions
/// on the left table, then those on the right one, then the others, each
/// column qualified by its table; the groupings and then the orderings,
/// qualified the same way; and the limit.
pub open spec fn join_select_plan_spec(j: JoinSpec) -> Seq<SelectStep> {
    seq![SelectStep::From] + items(Clause::Join, None, j.joins as nat) + (if j.select@.len() > 0 {
        sided_items(Clause::Column, j.select@)
    } else {
        seq![SelectStep::Asterisk]
    }) + items(Clause::ColumnEquals, Some(Side::Left), j.left_conditions as nat) + items(
        Clause::ColumnEquals,
        Some(Side::Right),
        j.right_conditions as nat,
    ) + items(Clause::Where, None, j.expressions as nat) + sided_items(Clause::GroupBy, j.group_by@)
        + sided_items(Clause::OrderBy, j.order_by@) + limit_step(j.limit)
}

/// The entries that the steps of `p` take from the list of `clause`, in
/// order, each with the side of its step.
pub open spec fn picks(p: Seq<SelectStep>, clause: Clause) -> Seq<(Option<Side>, usize)>
    decreases p.len(),
{
    if p.len() == 0 {
        Seq::empty()
    } else {
        let rest = picks(p.drop_last(), clause);
        match p.last() {
            SelectStep::Item { clause: c, side, index } => if c == clause {
                rest.push((side, index))
            } else {
                rest
            },
            _ => rest,
        }
    }
}

/// The entries `0`, ..., `n - 1` of a list, in order, all with `side`.
pub open spec fn each_once(n: nat, side: Option<Side>) -> Seq<(Option<Side>, usize)> {
    Seq::new(n, |k: int| (side, k as usize))
}

/// The limits among the steps of `p`, in order.
pub open spec fn limits(p: Seq<SelectStep>) -> Seq<u64>
    decreases p.len(),
{
    if p.len() == 0 {
        Seq::empty()
    } else {
        let rest = limits(p.drop_last());
        match p.last() {
            SelectStep::Limit(n) => rest.push(n),
            _ => rest,
        }
    }
}

/// The number of steps of `p` that select every column.
pub open spec fn asterisks(p: Seq<SelectStep>) -> nat
    decreases p.len(),
{
    if p.len() == 0 {
        0
    } else {
        asterisks(p.drop_last()) + if p.last() == SelectStep::Asterisk {
            1nat
        } else {
            0nat
        }
    }
}

proof fn lemma_steps_append(a: Seq<SelectStep>, b: Seq<SelectStep>, clause: Clause)
    ensures
        picks(a + b, clause) == picks(a, clause) + picks(b, clause),
        limits(a + b) == limits(a) + limits(b),
        asterisks(a + b) == asterisks(a) + asterisks(b),
    decreases b.len(),
{
    if b.len() == 0 {
        assert(a + b =~= a);
        assert(picks(a, clause) + picks(b, clause) =~= picks(a, clause));
        assert(limits(a) + limits(b) =~= limits(a));
    } else {
        lemma_steps_append(a, b.drop_last(), clause);
        assert((a + b).drop_last() =~= a + b.drop_last());
        assert((a + b).last() == b.last());
        assert((picks(a, clause) + picks(b.drop_last(), clause)).push((None, 0usize)) =~= picks(a, clause)
            + picks(b.drop_last(), clause).push((None, 0usize)));
        match b.last() {
            SelectStep::Item { clause: c, side, index } => {
                assert((picks(a, clause) + picks(b.drop_last(), clause)).push((side, index)) =~= picks(a, clause)
                    + picks(b.drop_last(), clause).push((side, index)));
            },
            SelectStep::Limit(n) => {
                assert((limits(a) + limits(b.drop_last())).push(n) =~= limits(a) + limits(b.drop_last()).push(n));
            },
            _ => {},
        }
    }
}

/// The entries `0`, ..., `sides.len() - 1` of a list, in order, each with
/// its side.
pub open spec fn each_once_sided(sides: Seq<Side>) -> Seq<(Option<Side>, usize)> {
    Seq::new(sides.len(), |k: int| (Some(sides[k]), k as usize))
}

proof fn lemma_items_steps(c: Clause, side: Option<Side>, n: nat, clause: Clause)
    ensures
        picks(items(c, side, n), clause) == if c == clause {
            each_once(n, side)
        } else {
            Seq::empty()
        },
        limits(items(c, side, n)) == Seq::<u64>::empty(),
        asterisks(items(c, side, n)) == 0,
    decreases n,
{
    if n > 0 {
        lemma_items_steps(c, side, (n - 1) as nat, clause);
        assert(items(c, side, n).drop_last() =~= items(c, side, (n - 1) as nat));
        assert(each_once(n, side) =~= each_once((n - 1) as nat, side).push((side, (n - 1) as usize)));
    } else {
        assert(items(c, side, n) =~= Seq::<SelectStep>::empty());
        assert(each_once(n, side) =~= Seq::<(Option<Side>, usize)>::empty());
    }
}

proof fn lemma_sided_steps(c: Clause, sides: Seq<Side>, clause: Clause)
    ensures
        picks(sided_items(c, sides), clause) == if c == clause {
            each_once_sided(sides)
        } else {
            Seq::empty()
        },
        limits(sided_items(c, sides)) == Seq::<u64>::empty(),
        asterisks(sided_items(c, sides)) == 0,
    decreases sides.len(),
{
    if sides.len() > 0 {
        let d = sides.drop_last();
        lemma_sided_steps(c, d, clause);
        assert(sided_items(c, sides).drop_last() =~= sided_items(c, d));
        assert(Seq::new(sides.len(), |k: int| (Some(sides[k]), k as usize)) =~= Seq::new(
            d.len(),
            |k: int| (Some(d[k]), k as usize),
        ).push((Some(sides.last()), (sides.len() - 1) as usize)));
    } else {
        assert(sided_items(c, sides) =~= Seq::<SelectStep>::empty());
        assert(Seq::new(sides.len(), |k: int| (Some(sides[k]), k as usize)) =~= Seq::<
            (Option<Side>, usize),
        >::empty());
    }
}

proof fn lemma_single_steps(s: SelectStep, clause: Clause)
    requires
        !(s is Item),
    ensures
        picks(seq![s], clause) == Seq::<(Option<Side>, usize)>::empty(),
        limits(seq![s]) == match s {
            SelectStep::Limit(n) => seq![n],
            _ => Seq::<u64>::empty(),
        },
        asterisks(seq![s]) == if s == SelectStep::Asterisk {
            1nat
        } else {
            0nat
        },
{
    let p = seq![s];
    assert(p.drop_last() =~= Seq::<SelectStep>::empty());
    assert(p.last() == s);
    assert(picks(p.drop_last(), clause) == Seq::<(Option<Side>, usize)>::empty());
    assert(limits(p.drop_last()) == Seq::<u64>::empty());
    assert(asterisks(p.drop_last()) == 0);
    match s {
        SelectStep::Limit(n) => {
            assert(Seq::<u64>::empty().push(n) =~= seq![n]);
        },
        _ => {},
    }
}

proof fn lemma_limit_steps(limit: Option<u64>, clause: Clause)
    ensures
        picks(limit_step(limit), clause) == Seq::<(Option<Side>, usize)>::empty(),
        limits(limit_step(limit)) == match limit {
            Some(n) => seq![n],
            None => Seq::<u64>::empty(),
        },
        asterisks(limit_step(limit)) == 0,
{
    match limit {
        Some(n) => lemma_single_steps(SelectStep::Limit(n), clause),
        None => {},
    }
}

/// The entries that the steps of `p` take from the lists of the clauses in
/// `cs`, in order, each with its clause and side.
pub open spec fn picks_in(p: Seq<SelectStep>, cs: Set<Clause>) -> Seq<(Clause, Option<Side>, usize)>
    decreases p.len(),
{
    if p.len() == 0 {
        Seq::empty()
    } else {
        let rest = picks_in(p.drop_last(), cs);
        match p.last() {
            SelectStep::Item { clause, side, index } => if cs.contains(clause) {
                rest.push((clause, side, index))
            } else {
                rest
            },
            _ => rest,
        }
    }
}

/// The entries `0`, ..., `n - 1` of the list of `clause`, in order.
pub open spec fn each_of(clause: Clause, n: nat, side: Option<Side>) -> Seq<(Clause, Option<Side>, usize)> {
    Seq::new(n, |k: int| (clause, side, k as usize))
}

proof fn lemma_picks_in_append(a: Seq<SelectStep>, b: Seq<SelectStep>, cs: Set<Clause>)
    ensures
        picks_in(a + b, cs) == picks_in(a, cs) + picks_in(b, cs),
    decreases b.len(),
{
    if b.len() == 0 {
        assert(a + b =~= a);
        assert(picks_in(a, cs) + picks_in(b, cs) =~= picks_in(a, cs));
    } else {
        lemma_picks_in_append(a, b.drop_last(), cs);
        assert((a + b).drop_last() =~= a + b.drop_last());
        assert((a + b).last() == b.last());
        match b.last() {
            SelectStep::Item { clause, side, index } => {
                assert((picks_in(a, cs) + picks_in(b.drop_last(), cs)).push((clause, side, index)) =~= picks_in(
                    a,
                    cs,
                ) + picks_in(b.drop_last(), cs).push((clause, side, index)));
            },
            _ => {},
        }
    }
}

proof fn lemma_picks_in_items(c: Clause, side: Option<Side>, n: nat, cs: Set<Clause>)
    ensures
        picks_in(items(c, side, n), cs) == if cs.contains(c) {
            each_of(c, n, side)
        } else {
            Seq::empty()
        },
    decreases n,
{
    if n > 0 {
        lemma_picks_in_items(c, side, (n - 1) as nat, cs);
        assert(items(c, side, n).drop_last() =~= items(c, side, (n - 1) as nat));
        assert(each_of(c, n, side) =~= each_of(c, (n - 1) as nat, side).push((c, side, (n - 1) as usize)));
    } else {
        assert(items(c, side, n) =~= Seq::<SelectStep>::empty());
        assert(each_of(c, n, side) =~= Seq::<(Clause, Option<Side>, usize)>::empty());
    }
}

proof fn lemma_picks_in_single(s: SelectStep, cs: Set<Clause>)
    requires
        !(s is Item),
    ensures
        picks_in(seq![s], cs) == Seq::<(Clause, Option<Side>, usize)>::empty(),
{
    let p = seq![s];
    assert(p.drop_last() =~= Seq::<SelectStep>::empty());
    assert(p.last() == s);
    assert(picks_in(p.drop_last(), cs) == Seq::<(Clause, Option<Side>, usize)>::empty());
}

/// In the plan of a select over one table the chosen columns come before
/// the chosen expressions, so that a row holds the columns first; and the
/// conditions on columns come before the other conditions.
pub proof fn law_select_plan_order(c: SelectSpec)
    ensures
        picks_in(select_plan_spec(c), set![Clause::Column, Clause::Expr]) == each_of(
            Clause::Column,
            c.select as nat,
            None,
        ) + each_of(Clause::Expr, c.select_exprs as nat, None),
        picks_in(select_plan_spec(c), set![Clause::ColumnEquals, Clause::Where]) == each_of(
            Clause::ColumnEquals,
            c.conditions as nat,
            None,
        ) + each_of(Clause::Where, c.expressions as nat, None),
{
    let e = Seq::<(Clause, Option<Side>, usize)>::empty();
    assert(forall|x: Seq<(Clause, Option<Side>, usize)>| e + x =~= x && x + e =~= x);
    let from = seq![SelectStep::From];
    let chosen = if c.select > 0 || c.select_exprs > 0 {
        items(Clause::Column, None, c.select as nat) + items(Clause::Expr, None, c.select_exprs as nat)
    } else {
        seq![SelectStep::Asterisk]
    };
    let a = items(Clause::ColumnEquals, None, c.conditions as nat);
    let b = items(Clause::Where, None, c.expressions as nat);
    let o = items(Clause::OrderBy, None, c.order_by as nat);
    let g = items(Clause::GroupBy, None, c.group_by as nat);
    let l = limit_step(c.limit);
    assert(select_plan_spec(c) == from + chosen + a + b + o + g + l);
    let sets = seq![set![Clause::Column, Clause::Expr], set![Clause::ColumnEquals, Clause::Where]];
    assert forall|k: int| 0 <= k < 2 implies {
        let cs = #[trigger] sets[k];
        picks_in(select_plan_spec(c), cs) == picks_in(chosen, cs) + picks_in(a, cs) + picks_in(b, cs)
    } by {
        let cs = sets[k];
        lemma_picks_in_single(SelectStep::From, cs);
        lemma_picks_in_items(Clause::OrderBy, None, c.order_by as nat, cs);
        lemma_picks_in_items(Clause::GroupBy, None, c.group_by as nat, cs);
        match c.limit {
            Some(n) => lemma_picks_in_single(SelectStep::Limit(n), cs),
            None => {},
        }
        lemma_picks_in_append(from, chosen, cs);
        lemma_picks_in_append(from + chosen, a, cs);
        lemma_picks_in_append(from + chosen + a, b, cs);
        lemma_picks_in_append(from + chosen + a + b, o, cs);
        lemma_picks_in_append(from + chosen + a + b + o, g, cs);
        lemma_picks_in_append(from + chosen + a + b + o + g, l, cs);
        assert(!cs.contains(Clause::OrderBy) && !cs.contains(Clause::GroupBy));
    }
    let s1 = set![Clause::Column, Clause::Expr];
    let s2 = set![Clause::ColumnEquals, Clause::Where];
    assert(sets[0] == s1 && sets[1] == s2);
    lemma_picks_in_items(Clause::ColumnEquals, None, c.conditions as nat, s1);
    lemma_picks_in_items(Clause::Where, None, c.expressions as nat, s1);
    lemma_picks_in_items(Clause::ColumnEquals, None, c.conditions as nat, s2);
    lemma_picks_in_items(Clause::Where, None, c.expressions as nat, s2);
    lemma_picks_in_items(Clause::Column, None, c.select as nat, s1);
    lemma_picks_in_items(Clause::Expr, None, c.select_exprs as nat, s1);
    lemma_picks_in_items(Clause::Column, None, c.select as nat, s2);
    lemma_picks_in_items(Clause::Expr, None, c.select_exprs as nat, s2);
    if c.select > 0 || c.select_exprs > 0 {
        lemma_picks_in_append(
            items(Clause::Column, None, c.select as nat),
            items(Clause::Expr, None, c.select_exprs as nat),
            s1,
        );
        lemma_picks_in_append(
            items(Clause::Column, None, c.select as nat),
            items(Clause::Expr, None, c.select_exprs as nat),
            s2,
        );
    } else {
        lemma_picks_in_single(SelectStep::Asterisk, s1);
        lemma_picks_in_single(SelectStep::Asterisk, s2);
        assert(each_of(Clause::Column, 0, None) =~= e);
        assert(each_of(Clause::Expr, 0, None) =~= e);
    }
}

proof fn lemma_picks_in_sided(c: Clause, sides: Seq<Side>, cs: Set<Clause>)
    requires
        !cs.contains(c),
    ensures
        picks_in(sided_items(c, sides), cs) == Seq::<(Clause, Option<Side>, usize)>::empty(),
    decreases sides.len(),
{
    if sides.len() > 0 {
        lemma_picks_in_sided(c, sides.drop_last(), cs);
        assert(sided_items(c, sides).drop_last() =~= sided_items(c, sides.drop_last()));
    } else {
        assert(sided_items(c, sides) =~= Seq::<SelectStep>::empty());
    }
}

/// In the plan of a select over two joined tables the conditions on the
/// left table come first, then those on the right table, then the other
/// conditions.
pub proof fn law_join_select_plan_order(j: JoinSpec)
    ensures
        picks_in(join_select_plan_spec(j), set![Clause::ColumnEquals, Clause::Where]) == each_of(
            Clause::ColumnEquals,
            j.left_conditions as nat,
            Some(Side::Left),
        ) + each_of(Clause::ColumnEquals, j.right_conditions as nat, Some(Side::Right)) + each_of(
            Clause::Where,
            j.expressions as nat,
            None,
        ),
{
    let e = Seq::<(Clause, Option<Side>, usize)>::empty();
    assert(forall|x: Seq<(Clause, Option<Side>, usize)>| e + x =~= x && x + e =~= x);
    let cs = set![Clause::ColumnEquals, Clause::Where];
    let from = seq![SelectStep::From];
    let js = items(Clause::Join, None, j.joins as nat);
    let chosen = if j.select@.len() > 0 {
        sided_items(Clause::Column, j.select@)
    } else {
        seq![SelectStep::Asterisk]
    };
    let lc = items(Clause::ColumnEquals, Some(Side::Left), j.left_conditions as nat);
    let rc = items(Clause::ColumnEquals, Some(Side::Right), j.right_conditions as nat);
    let w = items(Clause::Where, None, j.expressions as nat);
    let g = sided_items(Clause::GroupBy, j.group_by@);
    let o = sided_items(Clause::OrderBy, j.order_by@);
    let l = limit_step(j.limit);
    assert(join_select_plan_spec(j) == from + js + chosen + lc + rc + w + g + o + l);
    assert(!cs.contains(Clause::Join) && !cs.contains(Clause::Column));
    assert(!cs.contains(Clause::GroupBy) && !cs.contains(Clause::OrderBy));
    lemma_picks_in_single(SelectStep::From, cs);
    lemma_picks_in_items(Clause::Join, None, j.joins as nat, cs);
    if j.select@.len() > 0 {
        lemma_picks_in_sided(Clause::Column, j.select@, cs);
    } else {
        lemma_picks_in_single(SelectStep::Asterisk, cs);
    }
    lemma_picks_in_items(Clause::ColumnEquals, Some(Side::Left), j.left_conditions as nat, cs);
    lemma_picks_in_items(Clause::ColumnEquals, Some(Side::Right), j.right_conditions as nat, cs);
    lemma_picks_in_items(Clause::Where, None, j.expressions as nat, cs);
    lemma_picks_in_sided(Clause::GroupBy, j.group_by@, cs);
    lemma_picks_in_sided(Clause::OrderBy, j.order_by@, cs);
    match j.limit {
        Some(n) => lemma_picks_in_single(SelectStep::Limit(n), cs),
        None => {},
    }
    lemma_picks_in_append(from, js, cs);
    lemma_picks_in_append(from + js, chosen, cs);
    lemma_picks_in_append(from + js + chosen, lc, cs);
    lemma_picks_in_append(from + js + chosen + lc, rc, cs);
    lemma_picks_in_append(from + js + chosen + lc + rc, w, cs);
    lemma_picks_in_append(from + js + chosen + lc + rc + w, g, cs);
    lemma_picks_in_append(from + js + chosen + lc + rc + w + g, o, cs);
    lemma_picks_in_append(from + js + chosen + lc + rc + w + g + o, l, cs);
}

/// The plan of a select over one table starts from the table and takes
/// every entry of every list of the builder exactly once, in order: each
/// chosen column and expression, each column condition, each other
/// condition, each grouping and each ordering; it selects every column
/// once exactly when neither a column nor an expression is chosen, and
/// ends with the limit where there is one.
pub proof fn law_select_plan_uses_every_entry(c: SelectSpec)
    ensures
        select_plan_spec(c)[0] == SelectStep::From,
        picks(select_plan_spec(c), Clause::Column) == each_once(c.select as nat, None),
        picks(select_plan_spec(c), Clause::Expr) == each_once(c.select_exprs as nat, None),
        picks(select_plan_spec(c), Clause::ColumnEquals) == each_once(c.conditions as nat, None),
        picks(select_plan_spec(c), Clause::Where) == each_once(c.expressions as nat, None),
        picks(select_plan_spec(c), Clause::GroupBy) == each_once(c.group_by as nat, None),
        picks(select_plan_spec(c), Clause::OrderBy) == each_once(c.order_by as nat, None),
        picks(select_plan_spec(c), Clause::Join).len() == 0,
        asterisks(select_plan_spec(c)) == if c.select == 0 && c.select_exprs == 0 {
            1nat
        } else {
            0nat
        },
        limits(select_plan_spec(c)) == match c.limit {
            Some(n) => seq![n],
            None => Seq::<u64>::empty(),
        },
{
    assert forall|clause: Clause| #![auto] true implies {
        &&& picks(select_plan_spec(c), clause) == if clause == Clause::Column {
            each_once(c.select as nat, None)
        } else if clause == Clause::Expr {
            each_once(c.select_exprs as nat, None)
        } else if clause == Clause::ColumnEquals {
            each_once(c.conditions as nat, None)
        } else if clause == Clause::Where {
            each_once(c.expressions as nat, None)
        } else if clause == Clause::GroupBy {
            each_once(c.group_by as nat, None)
        } else if clause == Clause::OrderBy {
            each_once(c.order_by as nat, None)
        } else {
            Seq::empty()
        }
        &&& asterisks(select_plan_spec(c)) == if c.select == 0 && c.select_exprs == 0 {
            1nat
        } else {
            0nat
        }
        &&& limits(select_plan_spec(c)) == match c.limit {
            Some(n) => seq![n],
            None => Seq::<u64>::empty(),
        }
    } by {
        let from = seq![SelectStep::From];
        let chosen = if c.select > 0 || c.select_exprs > 0 {
            items(Clause::Column, None, c.select as nat) + items(Clause::Expr, None, c.select_exprs as nat)
        } else {
            seq![SelectStep::Asterisk]
        };
        let a = items(Clause::ColumnEquals, None, c.conditions as nat);
        let b = items(Clause::Where, None, c.expressions as nat);
        let o = items(Clause::OrderBy, None, c.order_by as nat);
        let g = items(Clause::GroupBy, None, c.group_by as nat);
        let l = limit_step(c.limit);
        lemma_single_steps(SelectStep::From, clause);
        if c.select > 0 || c.select_exprs > 0 {
            lemma_items_steps(Clause::Column, None, c.select as nat, clause);
            lemma_items_steps(Clause::Expr, None, c.select_exprs as nat, clause);
            lemma_steps_append(
                items(Clause::Column, None, c.select as nat),
                items(Clause::Expr, None, c.select_exprs as nat),
                clause,
            );
        } else {
            lemma_single_steps(SelectStep::Asterisk, clause);
            lemma_items_steps(Clause::Column, None, 0, clause);
            lemma_items_steps(Clause::Expr, None, 0, clause);
        }
        lemma_items_steps(Clause::ColumnEquals, None, c.conditions as nat, clause);
        lemma_items_steps(Clause::Where, None, c.expressions as nat, clause);
        lemma_items_steps(Clause::OrderBy, None, c.order_by as nat, clause);
        lemma_items_steps(Clause::GroupBy, None, c.group_by as nat, clause);
        lemma_limit_steps(c.limit, clause);
        lemma_steps_append(from, chosen, clause);
        lemma_steps_append(from + chosen, a, clause);
        lemma_steps_append(from + chosen + a, b, clause);
        lemma_steps_append(from + chosen + a + b, o, clause);
        lemma_steps_append(from + chosen + a + b + o, g, clause);
        lemma_steps_append(from + chosen + a + b + o + g, l, clause);
        assert(select_plan_spec(c) == from + chosen + a + b + o + g + l);
        let e = Seq::<(Option<Side>, usize)>::empty();
        assert(e + e =~= e);
        assert(forall|x: Seq<(Option<Side>, usize)>| e + x =~= x && x + e =~= x);
        assert(forall|x: Seq<u64>| Seq::<u64>::empty() + x =~= x && x + Seq::<u64>::empty() =~= x);
    }
    assert(picks(select_plan_spec(c), Clause::Column) == each_once(c.select as nat, None));
    assert(picks(select_plan_spec(c), Clause::Expr) == each_once(c.select_exprs as nat, None));
    assert(picks(select_plan_spec(c), Clause::ColumnEquals) == each_once(c.conditions as nat, None));
    assert(picks(select_plan_spec(c), Clause::Where) == each_once(c.expressions as nat, None));
    assert(picks(select_plan_spec(c), Clause::GroupBy) == each_once(c.group_by as nat, None));
    assert(picks(select_plan_spec(c), Clause::OrderBy) == each_once(c.order_by as nat, None));
    assert(picks(select_plan_spec(c), Clause::Join) =~= Seq::<(Option<Side>, usize)>::empty());
}

/// The plan of a select over two joined tables starts from the left
/// table and takes every entry of every list that the join builder reads
/// exactly once, in order: each join; each chosen column, qualified by its
/// own table; each condition on the left table and then each on the right
/// one, qualified by that table; each other condition; each grouping and
/// each ordering, qualified by its table. Chosen expressions take no part;
/// it selects every column once exactly when no column is chosen, and ends
/// with the limit where there is one.
pub proof fn law_join_select_plan_uses_every_entry(j: JoinSpec)
    ensures
        join_select_plan_spec(j)[0] == SelectStep::From,
        picks(join_select_plan_spec(j), Clause::Join) == each_once(j.joins as nat, None),
        picks(join_select_plan_spec(j), Clause::Column) == each_once_sided(j.select@),
        picks(join_select_plan_spec(j), Clause::Expr).len() == 0,
        picks(join_select_plan_spec(j), Clause::ColumnEquals) == each_once(j.left_conditions as nat, Some(Side::Left))
            + each_once(j.right_conditions as nat, Some(Side::Right)),
        picks(join_select_plan_spec(j), Clause::Where) == each_once(j.expressions as nat, None),
        picks(join_select_plan_spec(j), Clause::GroupBy) == each_once_sided(j.group_by@),
        picks(join_select_plan_spec(j), Clause::OrderBy) == each_once_sided(j.order_by@),
        asterisks(join_select_plan_spec(j)) == if j.select@.len() == 0 {
            1nat
        } else {
            0nat
        },
        limits(join_select_plan_spec(j)) == match j.limit {
            Some(n) => seq![n],
            None => Seq::<u64>::empty(),
        },
{
    let e = Seq::<(Option<Side>, usize)>::empty();
    assert forall|clause: Clause| #![auto] true implies {
        &&& picks(join_select_plan_spec(j), clause) == if clause == Clause::Join {
            each_once(j.joins as nat, None)
        } else if clause == Clause::Column {
            each_once_sided(j.select@)
        } else if clause == Clause::ColumnEquals {
            each_once(j.left_conditions as nat, Some(Side::Left)) + each_once(
                j.right_conditions as nat,
                Some(Side::Right),
            )
        } else if clause == Clause::Where {
            each_once(j.expressions as nat, None)
        } else if clause == Clause::GroupBy {
            each_once_sided(j.group_by@)
        } else if clause == Clause::OrderBy {
            each_once_sided(j.order_by@)
        } else {
            e
        }
        &&& asterisks(join_select_plan_spec(j)) == if j.select@.len() == 0 {
            1nat
        } else {
            0nat
        }
        &&& limits(join_select_plan_spec(j)) == match j.limit {
            Some(n) => seq![n],
            None => Seq::<u64>::empty(),
        }
    } by {
        let from = seq![SelectStep::From];
        let js = items(Clause::Join, None, j.joins as nat);
        let chosen = if j.select@.len() > 0 {
            sided_items(Clause::Column, j.select@)
        } else {
            seq![SelectStep::Asterisk]
        };
        let lc = items(Clause::ColumnEquals, Some(Side::Left), j.left_conditions as nat);
        let rc = items(Clause::ColumnEquals, Some(Side::Right), j.right_conditions as nat);
        let w = items(Clause::Where, None, j.expressions as nat);
        let g = sided_items(Clause::GroupBy, j.group_by@);
        let o = sided_items(Clause::OrderBy, j.order_by@);
        let l = limit_step(j.limit);
        lemma_single_steps(SelectStep::From, clause);
        lemma_items_steps(Clause::Join, None, j.joins as nat, clause);
        lemma_sided_steps(Clause::Column, j.select@, clause);
        if j.select@.len() == 0 {
            lemma_single_steps(SelectStep::Asterisk, clause);
            assert(each_once_sided(j.select@) =~= e);
        }
        lemma_items_steps(Clause::ColumnEquals, Some(Side::Left), j.left_conditions as nat, clause);
        lemma_items_steps(Clause::ColumnEquals, Some(Side::Right), j.right_conditions as nat, clause);
        lemma_items_steps(Clause::Where, None, j.expressions as nat, clause);
        lemma_sided_steps(Clause::GroupBy, j.group_by@, clause);
        lemma_sided_steps(Clause::OrderBy, j.order_by@, clause);
        lemma_limit_steps(j.limit, clause);
        lemma_steps_append(from, js, clause);
        lemma_steps_append(from + js, chosen, clause);
        lemma_steps_append(from + js + chosen, lc, clause);
        lemma_steps_append(from + js + chosen + lc, rc, clause);
        lemma_steps_append(from + js + chosen + lc + rc, w, clause);
        lemma_steps_append(from + js + chosen + lc + rc + w, g, clause);
        lemma_steps_append(from + js + chosen + lc + rc + w + g, o, clause);
        lemma_steps_append(from + js + chosen + lc + rc + w + g + o, l, clause);
        assert(join_select_plan_spec(j) == from + js + chosen + lc + rc + w + g + o + l);
        assert(forall|x: Seq<(Option<Side>, usize)>| e + x =~= x && x + e =~= x);
        assert(forall|x: Seq<u64>| Seq::<u64>::empty() + x =~= x && x + Seq::<u64>::empty() =~= x);
    }
    assert(picks(join_select_plan_spec(j), Clause::Join) == each_once(j.joins as nat, None));
    assert(picks(join_select_plan_spec(j), Clause::Column) == each_once_sided(j.select@));
    assert(picks(join_select_plan_spec(j), Clause::Expr) == e);
    assert(picks(join_select_plan_spec(j), Clause::ColumnEquals) == each_once(
        j.left_conditions as nat,
        Some(Side::Left),
    ) + each_once(j.right_conditions as nat, Some(Side::Right)));
    assert(picks(join_select_plan_spec(j), Clause::Where) == each_once(j.expressions as nat, None));
    assert(picks(join_select_plan_spec(j), Clause::GroupBy) == each_once_sided(j.group_by@));
    assert(picks(join_select_plan_spec(j), Clause::OrderBy) == each_once_sided(j.order_by@));
}

fn push_items(plan: &mut Vec<SelectStep>, clause: Clause, side: Option<Side>, n: usize)
    ensures
        final(plan)@ == old(plan)@ + items(clause, side, n as nat),
{
    let ghost start = plan@;
    let mut k: usize = 0;
    while k < n
        invariant
            k <= n,
            plan@ == start + items(clause, side, k as nat),
        decreases n - k,
    {
        let step = SelectStep::Item { clause, side, index: k };
        plan.push(step);
        proof {
            assert(items(clause, side, (k + 1) as nat) =~= items(clause, side, k as nat).push(step));
            assert(start + items(clause, side, (k + 1) as nat) =~= (start + items(clause, side, k as nat)).push(
                step,
            ));
        }
        k = k + 1;
    }
    proof {
        assert(plan@ == start + items(clause, side, n as nat));
    }
}

fn push_sided(plan: &mut Vec<SelectStep>, clause: Clause, sides: &Vec<Side>)
    ensures
        final(plan)@ == old(plan)@ + sided_items(clause, sides@),
{
    let ghost start = plan@;
    let mut k: usize = 0;
    while k < sides.len()
        invariant
            k <= sides.len(),
            plan@ == start + sided_items(clause, sides@.take(k as int)),
        decreases sides.len() - k,
    {
        let step = SelectStep::Item { clause, side: Some(sides[k]), index: k };
        plan.push(step);
        proof {
            assert(sided_items(clause, sides@.take(k + 1)) =~= sided_items(clause, sides@.take(k as int)).push(
                step,
            ));
            assert(start + sided_items(clause, sides@.take(k + 1)) =~= (start + sided_items(
                clause,
                sides@.take(k as int),
            )).push(step));
        }
        k = k + 1;
    }
    proof {
        assert(sides@.take(sides.len() as int) =~= sides@);
    }
}

fn push_limit(plan: &mut Vec<SelectStep>, limit: Option<u64>)
    ensures
        final(plan)@ == old(plan)@ + limit_step(limit),
{
    match limit {
        Some(n) => {
            plan.push(SelectStep::Limit(n));
        },
        None => {
            assert(old(plan)@ + limit_step(limit) =~= old(plan)@);
        },
    }
}

/// The steps that build the select over one table that `c` describes.
pub fn select_plan(c: &SelectSpec) -> (r: Vec<SelectStep>)
    ensures
        r@ == select_plan_spec(*c),
{
    let mut plan: Vec<SelectStep> = Vec::new();
    plan.push(SelectStep::From);
    if c.select > 0 || c.select_exprs > 0 {
        push_items(&mut plan, Clause::Column, None, c.select);
        push_items(&mut plan, Clause::Expr, None, c.select_exprs);
    } else {
        plan.push(SelectStep::Asterisk);
    }
    push_items(&mut plan, Clause::ColumnEquals, None, c.conditions);
    push_items(&mut plan, Clause::Where, None, c.expressions);
    push_items(&mut plan, Clause::OrderBy, None, c.order_by);
    push_items(&mut plan, Clause::GroupBy, None, c.group_by);
    push_limit(&mut plan, c.limit);
    proof {
        assert(plan@ =~= select_plan_spec(*c));
    }
    plan
}

/// The steps that build the select over two joined tables that `j`
/// describes.
pub fn join_select_plan(j: &JoinSpec) -> (r: Vec<SelectStep>)
    ensures
        r@ == join_select_plan_spec(*j),
{
    let mut plan: Vec<SelectStep> = Vec::new();
    plan.push(SelectStep::From);
    push_items(&mut plan, Clause::Join, None, j.joins);
    if j.select.len() > 0 {
        push_sided(&mut plan, Clause::Column, &j.select);
    } else {
        plan.push(SelectStep::Asterisk);
    }
    push_items(&mut plan, Clause::ColumnEquals, Some(Side::Left), j.left_conditions);
    push_items(&mut plan, Clause::ColumnEquals, Some(Side::Right), j.right_conditions);
    push_items(&mut plan, Clause::Where, None, j.expressions);
    push_sided(&mut plan, Clause::GroupBy, &j.group_by);
    push_sided(&mut plan, Clause::OrderBy, &j.order_by);
    push_limit(&mut plan, j.limit);
    proof {
        assert(plan@ =~= join_select_plan_spec(*j));
    }
    plan
}

} // verus!
