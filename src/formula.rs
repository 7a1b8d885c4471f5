use vstd::prelude::*;

verus! {

/// A variable together with a polarity: `Literal(v, true)` asserts `v`,
/// `Literal(v, false)` asserts its negation.
#[derive(PartialEq, Eq, Structural, Clone, Copy, Debug)]
pub struct Literal(pub u16, pub bool);

/// The clauses of a formula, each as the sequence of its literals.
pub open spec fn clauses(f: Seq<Vec<Literal>>) -> Seq<Seq<Literal>> {
    f.map_values(|c: Vec<Literal>| c@)
}

/// Every literal of `f` names a variable below `n`.
pub open spec fn vars_below(f: Seq<Seq<Literal>>, n: int) -> bool {
    forall|i: int, j: int| 0 <= i < f.len() && 0 <= j < f[i].len() ==> (#[trigger] f[i][j]).0 < n
}

/// Some literal of `f` is on variable `v`.
pub open spec fn mentions(f: Seq<Seq<Literal>>, v: u16) -> bool {
    exists|i: int, j: int| 0 <= i < f.len() && 0 <= j < f[i].len() && (#[trigger] f[i][j]).0 == v
}

/// Clause `c` holds literal `l`.
pub open spec fn contains_lit(c: Seq<Literal>, l: Literal) -> bool {
    exists|j: int| 0 <= j < c.len() && c[j] == l
}

/// Some clause of `f` is empty.
pub open spec fn has_empty(f: Seq<Seq<Literal>>) -> bool {
    exists|i: int| 0 <= i < f.len() && (#[trigger] f[i]).len() == 0
}

/// The literals of the unit clauses of `f`, in the order of the clauses.
pub open spec fn unit_lits(f: Seq<Seq<Literal>>) -> Seq<Literal>
    decreases f.len(),
{
    if f.len() == 0 {
        seq![]
    } else if f.last().len() == 1 {
        unit_lits(f.drop_last()).push(f.last()[0])
    } else {
        unit_lits(f.drop_last())
    }
}

/// `a` after recording each literal of `u` in turn: a later literal on a
/// variable overwrites an earlier one.
pub open spec fn record(a: Seq<Option<bool>>, u: Seq<Literal>) -> Seq<Option<bool>>
    decreases u.len(),
{
    if u.len() == 0 {
        a
    } else {
        record(a, u.drop_last()).update(u.last().0 as int, Some(u.last().1))
    }
}

/// Clause `c` without its literals on variable `v`, the others in order.
pub open spec fn strip(c: Seq<Literal>, v: u16) -> Seq<Literal>
    decreases c.len(),
{
    if c.len() == 0 {
        seq![]
    } else if c.last().0 == v {
        strip(c.drop_last(), v)
    } else {
        strip(c.drop_last(), v).push(c.last())
    }
}

/// `f` simplified by making `l` true: clauses that hold `l` go, the other
/// clauses lose their literals on the variable of `l`.
pub open spec fn resolve(f: Seq<Seq<Literal>>, l: Literal) -> Seq<Seq<Literal>>
    decreases f.len(),
{
    if f.len() == 0 {
        seq![]
    } else if contains_lit(f.last(), l) {
        resolve(f.drop_last(), l)
    } else {
        resolve(f.drop_last(), l).push(strip(f.last(), l.0))
    }
}

/// `f` simplified by each literal of `u` in turn.
pub open spec fn resolve_all(f: Seq<Seq<Literal>>, u: Seq<Literal>) -> Seq<Seq<Literal>>
    decreases u.len(),
{
    if u.len() == 0 {
        f
    } else {
        resolve(resolve_all(f, u.drop_last()), u.last())
    }
}

/// The number of literals in `f`, over all its clauses.
pub open spec fn lit_count(f: Seq<Seq<Literal>>) -> nat
    decreases f.len(),
{
    if f.len() == 0 {
        0
    } else {
        lit_count(f.drop_last()) + f.last().len()
    }
}

/// `(a, f)` after rounds of unit propagation until `f` has no unit clause.
pub open spec fn saturate(a: Seq<Option<bool>>, f: Seq<Seq<Literal>>) -> (Seq<Option<bool>>, Seq<Seq<Literal>>)
    decreases lit_count(f),
{
    let u = unit_lits(f);
    if u.len() == 0 {
        (a, f)
    } else {
        proof {
            lemma_round_shrinks(f);
        }
        saturate(record(a, u), resolve_all(f, u))
    }
}

proof fn lemma_strip_len(c: Seq<Literal>, v: u16)
    ensures
        strip(c, v).len() <= c.len(),
        (exists|j: int| 0 <= j < c.len() && (#[trigger] c[j]).0 == v) ==> strip(c, v).len() < c.len(),
    decreases c.len(),
{
    if c.len() > 0 {
        lemma_strip_len(c.drop_last(), v);
        if exists|j: int| 0 <= j < c.len() && (#[trigger] c[j]).0 == v {
            let j = choose|j: int| 0 <= j < c.len() && (#[trigger] c[j]).0 == v;
            if j < c.len() - 1 {
                assert(c.drop_last()[j].0 == v);
            }
        }
    }
}

proof fn lemma_resolve_count(g: Seq<Seq<Literal>>, l: Literal)
    ensures
        lit_count(resolve(g, l)) <= lit_count(g),
        mentions(g, l.0) ==> lit_count(resolve(g, l)) < lit_count(g),
    decreases g.len(),
{
    if g.len() > 0 {
        let h = g.drop_last();
        lemma_resolve_count(h, l);
        lemma_strip_len(g.last(), l.0);
        if contains_lit(g.last(), l) {
            assert(g.last().len() > 0);
        } else {
            assert(resolve(g, l) == resolve(h, l).push(strip(g.last(), l.0)));
            assert(resolve(g, l).drop_last() =~= resolve(h, l));
        }
        if mentions(g, l.0) {
            let (i, j) = choose|i: int, j: int|
                0 <= i < g.len() && 0 <= j < g[i].len() && (#[trigger] g[i][j]).0 == l.0;
            if i < g.len() - 1 {
                assert(h[i][j].0 == l.0);
            } else {
                assert(g.last()[j].0 == l.0);
            }
        }
    }
}

proof fn lemma_resolve_all_count(g: Seq<Seq<Literal>>, u: Seq<Literal>)
    ensures
        lit_count(resolve_all(g, u)) <= lit_count(g),
        u.len() > 0 && mentions(g, u[0].0) ==> lit_count(resolve_all(g, u)) < lit_count(g),
    decreases u.len(),
{
    if u.len() > 0 {
        lemma_resolve_all_count(g, u.drop_last());
        lemma_resolve_count(resolve_all(g, u.drop_last()), u.last());
        if u.len() == 1 {
            lemma_resolve_count(g, u[0]);
        }
    }
}

proof fn lemma_unit_mentioned(f: Seq<Seq<Literal>>)
    ensures
        unit_lits(f).len() > 0 ==> mentions(f, unit_lits(f)[0].0),
    decreases f.len(),
{
    if f.len() > 0 {
        let h = f.drop_last();
        lemma_unit_mentioned(h);
        if unit_lits(h).len() > 0 {
            let (i, j) = choose|i: int, j: int|
                0 <= i < h.len() && 0 <= j < h[i].len() && (#[trigger] h[i][j]).0 == unit_lits(h)[0].0;
            assert(f[i][j] == h[i][j]);
        } else if f.last().len() == 1 {
            assert(f[f.len() - 1][0] == f.last()[0]);
        }
    }
}

/// A round of unit propagation that finds a unit clause removes at least one
/// literal.
pub proof fn lemma_round_shrinks(f: Seq<Seq<Literal>>)
    ensures
        unit_lits(f).len() > 0 ==> lit_count(resolve_all(f, unit_lits(f))) < lit_count(f),
{
    lemma_unit_mentioned(f);
    lemma_resolve_all_count(f, unit_lits(f));
}

/// Each literal that `strip` keeps is a literal of the clause, on another
/// variable.
pub proof fn lemma_strip_members(c: Seq<Literal>, v: u16)
    ensures
        forall|k: int| 0 <= k < strip(c, v).len() ==> (#[trigger] strip(c, v)[k]).0 != v
            && contains_lit(c, strip(c, v)[k]),
    decreases c.len(),
{
    if c.len() > 0 {
        let h = c.drop_last();
        lemma_strip_members(h, v);
        assert forall|k: int| 0 <= k < strip(c, v).len() implies (#[trigger] strip(c, v)[k]).0 != v
            && contains_lit(c, strip(c, v)[k]) by {
            if k < strip(h, v).len() {
                assert(strip(c, v)[k] == strip(h, v)[k]);
                let j = choose|j: int| 0 <= j < h.len() && h[j] == strip(h, v)[k];
                assert(c[j] == h[j]);
            } else {
                assert(strip(c, v)[k] == c[c.len() - 1]);
            }
        }
    }
}

/// Each clause that `resolve` keeps is a clause of `g` without `l`, stripped
/// of the variable of `l`.
pub proof fn lemma_resolve_members(g: Seq<Seq<Literal>>, l: Literal)
    ensures
        forall|k: int| 0 <= k < resolve(g, l).len() ==> exists|i: int| 0 <= i < g.len()
            && !contains_lit(g[i], l) && #[trigger] resolve(g, l)[k] == strip(g[i], l.0),
    decreases g.len(),
{
    if g.len() > 0 {
        let h = g.drop_last();
        lemma_resolve_members(h, l);
        assert forall|k: int| 0 <= k < resolve(g, l).len() implies exists|i: int| 0 <= i < g.len()
            && !contains_lit(g[i], l) && #[trigger] resolve(g, l)[k] == strip(g[i], l.0) by {
            if k < resolve(h, l).len() {
                assert(resolve(g, l)[k] == resolve(h, l)[k]);
                let i = choose|i: int| 0 <= i < h.len()
                    && !contains_lit(h[i], l) && #[trigger] resolve(h, l)[k] == strip(h[i], l.0);
                assert(g[i] == h[i]);
            } else {
                assert(resolve(g, l)[k] == strip(g[g.len() - 1], l.0));
            }
        }
    }
}

/// Resolution keeps every variable below `n`.
pub proof fn lemma_resolve_all_below(g: Seq<Seq<Literal>>, u: Seq<Literal>, n: int)
    requires
        vars_below(g, n),
    ensures
        vars_below(resolve_all(g, u), n),
    decreases u.len(),
{
    if u.len() > 0 {
        let h = resolve_all(g, u.drop_last());
        let l = u.last();
        lemma_resolve_all_below(g, u.drop_last(), n);
        lemma_resolve_members(h, l);
        assert forall|k: int, j: int| 0 <= k < resolve(h, l).len() && 0 <= j < resolve(h, l)[k].len()
            implies (#[trigger] resolve(h, l)[k][j]).0 < n by {
            let i = choose|i: int| 0 <= i < h.len()
                && !contains_lit(h[i], l) && #[trigger] resolve(h, l)[k] == strip(h[i], l.0);
            lemma_strip_members(h[i], l.0);
            assert(strip(h[i], l.0)[j] == resolve(h, l)[k][j]);
            let m = choose|m: int| 0 <= m < h[i].len() && h[i][m] == strip(h[i], l.0)[j];
            assert(h[i][m].0 < n);
        }
    }
}

/// Literal `l` occurs somewhere in `f`.
pub open spec fn occurs(f: Seq<Seq<Literal>>, l: Literal) -> bool {
    exists|i: int, j: int| 0 <= i < f.len() && 0 <= j < f[i].len() && #[trigger] f[i][j] == l
}

/// The one polarity with which `v` occurs in `f`; `None` where `v` does not
/// occur or occurs with both.
pub open spec fn pure_polarity(f: Seq<Seq<Literal>>, v: u16) -> Option<bool> {
    let t = occurs(f, Literal(v, true));
    let n = occurs(f, Literal(v, false));
    if t && !n {
        Some(true)
    } else if n && !t {
        Some(false)
    } else {
        None
    }
}

/// The clauses of `f` that do not hold `l`, in order.
pub open spec fn without(f: Seq<Seq<Literal>>, l: Literal) -> Seq<Seq<Literal>>
    decreases f.len(),
{
    if f.len() == 0 {
        seq![]
    } else if contains_lit(f.last(), l) {
        without(f.drop_last(), l)
    } else {
        without(f.drop_last(), l).push(f.last())
    }
}

/// `(a, f)` after pure-literal elimination has examined the variables below
/// `i` in ascending order: each unassigned pure one is recorded, the clauses it satisfies
/// go, and a unit clause of it is appended.
pub open spec fn eliminate(a: Seq<Option<bool>>, f: Seq<Seq<Literal>>, i: nat) -> (Seq<Option<bool>>, Seq<Seq<Literal>>)
    decreases i,
{
    if i == 0 {
        (a, f)
    } else {
        let (a1, f1) = eliminate(a, f, (i - 1) as nat);
        let v = (i - 1) as u16;
        let found = if a1[i - 1] is None {
            pure_polarity(f1, v)
        } else {
            None
        };
        match found {
            Some(b) => (
                a1.update(i - 1, Some(b)),
                without(f1, Literal(v, b)).push(seq![Literal(v, b)]),
            ),
            None => (a1, f1),
        }
    }
}

/// A propagation round on a formula without unit clauses records nothing
/// and removes nothing: it leaves both the assignment and the formula as
/// they were.
pub proof fn lemma_round_at_fixpoint(a: Seq<Option<bool>>, f: Seq<Seq<Literal>>)
    requires
        unit_lits(f).len() == 0,
    ensures
        record(a, unit_lits(f)) == a,
        resolve_all(f, unit_lits(f)) == f,
{
}

/// Propagation to the fixpoint leaves a formula without unit clauses, on which
/// a further round changes nothing.
pub proof fn lemma_saturate_is_fixpoint(a: Seq<Option<bool>>, f: Seq<Seq<Literal>>)
    ensures
        unit_lits(saturate(a, f).1).len() == 0,
        record(saturate(a, f).0, unit_lits(saturate(a, f).1)) == saturate(a, f).0,
        resolve_all(saturate(a, f).1, unit_lits(saturate(a, f).1)) == saturate(a, f).1,
    decreases lit_count(f),
{
    let u = unit_lits(f);
    if u.len() > 0 {
        lemma_round_shrinks(f);
        lemma_saturate_is_fixpoint(record(a, u), resolve_all(f, u));
    }
}

/// Whether a clause holds exactly one literal.
pub fn is_unit(c: &[Literal]) -> (r: bool)
    ensures
        r == (c@.len() == 1),
{
    c.len() == 1
}

} // verus!
