//! Facts about one simplification step and the models it keeps.
use vstd::prelude::*;

use crate::formula::{
    contains_lit, eliminate, has_empty, lemma_round_shrinks, lemma_strip_members, lit_count, resolve, resolve_all,
    saturate, strip, unit_lits, without, Literal,
};

verus! {

/// Literal `l` is true under `a`.
pub open spec fn lit_true(a: Seq<Option<bool>>, l: Literal) -> bool {
    a[l.0 as int] == Some(l.1)
}

/// Some literal of `c` is true under `a`.
pub open spec fn satisfied(a: Seq<Option<bool>>, c: Seq<Literal>) -> bool {
    exists|j: int| 0 <= j < c.len() && lit_true(a, #[trigger] c[j])
}

/// Every clause of `f` has a literal that is true under `a`.
pub open spec fn satisfies(a: Seq<Option<bool>>, f: Seq<Seq<Literal>>) -> bool {
    forall|i: int| 0 <= i < f.len() ==> satisfied(a, #[trigger] f[i])
}

/// Clause `c` is an element of `f`.
pub open spec fn holds_clause(f: Seq<Seq<Literal>>, c: Seq<Literal>) -> bool {
    exists|i: int| 0 <= i < f.len() && f[i] == c
}

/// A clause without `l` survives `resolve`, stripped of the variable of `l`.
pub proof fn lemma_resolve_keeps(g: Seq<Seq<Literal>>, l: Literal, i: int)
    requires
        0 <= i < g.len(),
        !contains_lit(g[i], l),
    ensures
        holds_clause(resolve(g, l), strip(g[i], l.0)),
    decreases g.len(),
{
    let h = g.drop_last();
    if i < g.len() - 1 {
        assert(h[i] == g[i]);
        lemma_resolve_keeps(h, l, i);
        let k = choose|k: int| 0 <= k < resolve(h, l).len() && resolve(h, l)[k] == strip(h[i], l.0);
        if contains_lit(g.last(), l) {
        } else {
            assert(resolve(g, l)[k] == resolve(h, l)[k]);
        }
    } else {
        assert(resolve(g, l).last() == strip(g[i], l.0));
    }
}

/// Where `l` is true, a model of `resolve(g, l)` is a model of `g`.
pub proof fn lemma_resolve_sound(a: Seq<Option<bool>>, g: Seq<Seq<Literal>>, l: Literal)
    requires
        satisfies(a, resolve(g, l)),
        lit_true(a, l),
    ensures
        satisfies(a, g),
{
    assert forall|i: int| 0 <= i < g.len() implies satisfied(a, #[trigger] g[i]) by {
        if contains_lit(g[i], l) {
            let j = choose|j: int| 0 <= j < g[i].len() && g[i][j] == l;
            assert(lit_true(a, g[i][j]));
        } else {
            lemma_resolve_keeps(g, l, i);
            let k = choose|k: int| 0 <= k < resolve(g, l).len() && resolve(g, l)[k] == strip(g[i], l.0);
            assert(satisfied(a, resolve(g, l)[k]));
            let s = strip(g[i], l.0);
            let j = choose|j: int| 0 <= j < s.len() && lit_true(a, #[trigger] s[j]);
            lemma_strip_members(g[i], l.0);
            assert(s[j] == strip(g[i], l.0)[j]);
            let m = choose|m: int| 0 <= m < g[i].len() && g[i][m] == s[j];
            assert(lit_true(a, g[i][m]));
        }
    }
}

/// A clause without `l` survives `without`.
pub proof fn lemma_without_keeps(g: Seq<Seq<Literal>>, l: Literal, i: int)
    requires
        0 <= i < g.len(),
        !contains_lit(g[i], l),
    ensures
        holds_clause(without(g, l), g[i]),
    decreases g.len(),
{
    let h = g.drop_last();
    if i < g.len() - 1 {
        assert(h[i] == g[i]);
        lemma_without_keeps(h, l, i);
        let k = choose|k: int| 0 <= k < without(h, l).len() && without(h, l)[k] == h[i];
        if !contains_lit(g.last(), l) {
            assert(without(g, l)[k] == without(h, l)[k]);
        }
    } else {
        assert(without(g, l).last() == g[i]);
    }
}

/// A model of the formula that pure-literal elimination leaves for `l` (the
/// clauses without `l`, then the unit clause of `l`) is a model of the
/// formula before it.
pub proof fn lemma_eliminate_sound(a: Seq<Option<bool>>, g: Seq<Seq<Literal>>, l: Literal)
    requires
        satisfies(a, without(g, l).push(seq![l])),
    ensures
        satisfies(a, g),
{
    let h = without(g, l).push(seq![l]);
    assert(satisfied(a, h[h.len() - 1]));
    assert(lit_true(a, l));
    assert forall|i: int| 0 <= i < g.len() implies satisfied(a, #[trigger] g[i]) by {
        if contains_lit(g[i], l) {
            let j = choose|j: int| 0 <= j < g[i].len() && g[i][j] == l;
            assert(lit_true(a, g[i][j]));
        } else {
            lemma_without_keeps(g, l, i);
            let k = choose|k: int| 0 <= k < without(g, l).len() && without(g, l)[k] == g[i];
            assert(h[k] == g[i]);
        }
    }
}

proof fn lemma_empty_resolve(g: Seq<Seq<Literal>>, l: Literal)
    requires
        has_empty(g),
    ensures
        has_empty(resolve(g, l)),
{
    let i = choose|i: int| 0 <= i < g.len() && (#[trigger] g[i]).len() == 0;
    lemma_resolve_keeps(g, l, i);
    assert(strip(g[i], l.0) == g[i]);
    let k = choose|k: int| 0 <= k < resolve(g, l).len() && resolve(g, l)[k] == strip(g[i], l.0);
    assert(resolve(g, l)[k].len() == 0);
}

proof fn lemma_empty_resolve_all(g: Seq<Seq<Literal>>, u: Seq<Literal>)
    requires
        has_empty(g),
    ensures
        has_empty(resolve_all(g, u)),
    decreases u.len(),
{
    if u.len() > 0 {
        lemma_empty_resolve_all(g, u.drop_last());
        lemma_empty_resolve(resolve_all(g, u.drop_last()), u.last());
    }
}

/// An empty clause survives propagation to the fixpoint.
pub proof fn lemma_empty_saturate(a: Seq<Option<bool>>, f: Seq<Seq<Literal>>)
    requires
        has_empty(f),
    ensures
        has_empty(saturate(a, f).1),
    decreases lit_count(f),
{
    let u = unit_lits(f);
    if u.len() > 0 {
        lemma_round_shrinks(f);
        lemma_empty_resolve_all(f, u);
        lemma_empty_saturate(crate::formula::record(a, u), resolve_all(f, u));
    }
}

/// An empty clause survives pure-literal elimination.
pub proof fn lemma_empty_eliminate(a: Seq<Option<bool>>, f: Seq<Seq<Literal>>, i: nat)
    requires
        has_empty(f),
    ensures
        has_empty(eliminate(a, f, i).1),
    decreases i,
{
    if i > 0 {
        lemma_empty_eliminate(a, f, (i - 1) as nat);
        let g = eliminate(a, f, (i - 1) as nat).1;
        let k = choose|k: int| 0 <= k < g.len() && (#[trigger] g[k]).len() == 0;
        let l = Literal((i - 1) as u16, true);
        let l2 = Literal((i - 1) as u16, false);
        lemma_without_keeps(g, l, k);
        lemma_without_keeps(g, l2, k);
        let k1 = choose|k1: int| 0 <= k1 < without(g, l).len() && without(g, l)[k1] == g[k];
        let k2 = choose|k2: int| 0 <= k2 < without(g, l2).len() && without(g, l2)[k2] == g[k];
        assert(without(g, l).push(seq![l])[k1].len() == 0);
        assert(without(g, l2).push(seq![l2])[k2].len() == 0);
    }
}

} // verus!
