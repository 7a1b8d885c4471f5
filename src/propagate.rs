use vstd::prelude::*;

use crate::formula::{
    clauses, contains_lit, is_unit, mentions, record, resolve, resolve_all, strip, unit_lits, vars_below,
    Literal, saturate, lit_count, lemma_round_shrinks, lemma_resolve_all_below,
};

verus! {

/// One round of unit propagation. Every unit clause of `f` is recorded in
/// `var_assigns`, in the order of the clauses; then each such literal in turn
/// removes the clauses that hold it and the opposite literals elsewhere.
/// Returns whether anything changed, which is whether `f` had a unit clause.
pub fn unit_prop(var_assigns: &mut [Option<bool>], f: &mut Vec<Vec<Literal>>) -> (changed: bool)
    requires
        vars_below(clauses(old(f)@), old(var_assigns)@.len() as int),
    ensures
        final(var_assigns)@ == record(old(var_assigns)@, unit_lits(clauses(old(f)@))),
        final(var_assigns)@.len() == old(var_assigns)@.len(),
        forall|v: int| 0 <= v < old(var_assigns)@.len() && old(var_assigns)@[v] is Some ==> (#[trigger] final(var_assigns)@[v]) is Some,
        clauses(final(f)@) == resolve_all(clauses(old(f)@), unit_lits(clauses(old(f)@))),
        changed == (unit_lits(clauses(old(f)@)).len() > 0),
{
    let ghost f0 = clauses(f@);
    let ghost a0 = var_assigns@;
    let mut changed = false;

    let mut units: Vec<Literal> = Vec::new();
    let mut k: usize = 0;
    while k < f.len()
        invariant
            clauses(f@) == f0,
            vars_below(f0, a0.len() as int),
            0 <= k <= f0.len(),
            units@ == unit_lits(f0.take(k as int)),
            var_assigns@ == record(a0, units@),
            var_assigns@.len() == a0.len(),
            forall|v: int| 0 <= v < a0.len() && a0[v] is Some ==> (#[trigger] var_assigns@[v]) is Some,
            units@.len() > 0 ==> mentions(f0, units@[0].0),
        decreases f0.len() - k,
    {
        assert(f0.take(k + 1).drop_last() =~= f0.take(k as int));
        assert(f0[k as int] == f@[k as int]@);
        if is_unit(f[k].as_slice()) {
            let l = f[k][0];
            assert(f0[k as int][0] == l);
            assert(l.0 < a0.len());
            var_assigns[l.0 as usize] = Some(l.1);
            units.push(l);
            assert(units@.drop_last() =~= unit_lits(f0.take(k as int)));
        }
        k += 1;
    }
    assert(f0.take(f0.len() as int) =~= f0);
    if units.is_empty() {
        return false;
    }

    let mut i: usize = 0;
    while i < units.len()
        invariant
            units@ == unit_lits(f0),
            var_assigns@ == record(a0, unit_lits(f0)),
            units@.len() > 0,
            var_assigns@.len() == a0.len(),
            forall|v: int| 0 <= v < a0.len() && a0[v] is Some ==> (#[trigger] var_assigns@[v]) is Some,
            mentions(f0, units@[0].0),
            0 <= i <= units@.len(),
            clauses(f@) == resolve_all(f0, units@.take(i as int)),
            i > 0 ==> changed,
        decreases units@.len() - i,
    {
        let l = units[i];
        let ghost g = clauses(f@);
        let mut ix: usize = 0;
        let ghost mut p: int = 0;
        while ix < f.len()
            invariant
                0 <= p <= g.len(),
                clauses(f@) == resolve(g.take(p), l) + g.skip(p),
                ix == resolve(g.take(p), l).len(),
                (i == 0 && mentions(g.take(p), l.0)) ==> changed,
                i > 0 ==> changed,
            decreases g.len() - p,
        {
            let ghost c = g[p];
            let ghost pre = f@;
            assert(clauses(f@)[ix as int] == g[p]);
            assert(f@[ix as int]@ == c);
            let mut del = false;
            let mut iy: usize = 0;
            let ghost mut q: int = 0;
            while iy < f[ix].len() && !del
                invariant
                    f@.len() == pre.len(),
                    0 <= ix < pre.len(),
                    forall|m: int| 0 <= m < pre.len() && m != ix ==> f@[m] == pre[m],
                    0 <= q <= c.len(),
                    !del ==> f@[ix as int]@ == strip(c.take(q), l.0) + c.skip(q),
                    !del ==> iy == strip(c.take(q), l.0).len(),
                    del ==> q < c.len() && c[q] == l,
                    forall|j: int| 0 <= j < q ==> c[j] != l,
                    (exists|j: int| 0 <= j < q && (#[trigger] c[j]).0 == l.0) ==> changed,
                    del ==> changed,
                    i > 0 ==> changed,
                    (i == 0 && mentions(g.take(p), l.0)) ==> changed,
                decreases c.len() - q + (if del { 0int } else { 1int }),
            {
                let lit = f[ix][iy];
                assert(c.take(q + 1) =~= c.take(q).push(c[q]));
                assert(c.take(q + 1).drop_last() =~= c.take(q));
                assert(lit == c[q]);
                if lit.0 == l.0 {
                    changed = true;
                    if lit.1 == l.1 {
                        del = true;
                    } else {
                        f[ix].remove(iy);
                        assert(f@[ix as int]@ =~= strip(c.take(q + 1), l.0) + c.skip(q + 1));
                        proof { q = q + 1; }
                    }
                } else {
                    assert(f@[ix as int]@ =~= strip(c.take(q + 1), l.0) + c.skip(q + 1));
                    iy += 1;
                    proof { q = q + 1; }
                }
            }
            assert(g.take(p + 1).drop_last() =~= g.take(p));
            assert(g.take(p + 1).last() == c);
            if del {
                assert(contains_lit(c, l));
                f.remove(ix);
                assert(clauses(f@) =~= clauses(pre).remove(ix as int));
                assert(resolve(g.take(p + 1), l) == resolve(g.take(p), l));
                assert(clauses(f@) =~= resolve(g.take(p + 1), l) + g.skip(p + 1));
            } else {
                assert(c.take(q) =~= c);
                assert(!contains_lit(c, l));
                assert(clauses(f@) =~= clauses(pre).update(ix as int, strip(c, l.0)));
                assert(resolve(g.take(p + 1), l) == resolve(g.take(p), l).push(strip(c, l.0)));
                assert(clauses(f@) =~= resolve(g.take(p + 1), l) + g.skip(p + 1));
                ix += 1;
            }
            proof {
                if !del {
                    assert(q == c.len());
                }
                if i == 0 && mentions(g.take(p + 1), l.0) {
                    let (k, j) = choose|k: int, j: int|
                        0 <= k < g.take(p + 1).len() && 0 <= j < g.take(p + 1)[k].len()
                            && (#[trigger] g.take(p + 1)[k][j]).0 == l.0;
                    if k < p {
                        assert(g.take(p)[k] == g.take(p + 1)[k]);
                        assert(g.take(p)[k][j].0 == l.0);
                        assert(mentions(g.take(p), l.0));
                    } else {
                        assert(g.take(p + 1)[k] == c);
                        assert(c[j].0 == l.0);
                        if !del {
                            assert(0 <= j < q);
                            assert(exists|j2: int| 0 <= j2 < q && (#[trigger] c[j2]).0 == l.0);
                        }
                    }
                    assert(changed);
                }
                p = p + 1;
            }
        }
        assert(g.take(p) =~= g);
        assert(units@.take(i + 1).drop_last() =~= units@.take(i as int));
        i += 1;
    }
    assert(units@.take(i as int) =~= units@);
    changed
}

/// Unit propagation to its fixpoint: rounds of `unit_prop` until one finds
/// no unit clause.
pub fn full_unit_prop(var_assigns: &mut [Option<bool>], f: &mut Vec<Vec<Literal>>)
    requires
        vars_below(clauses(old(f)@), old(var_assigns)@.len() as int),
    ensures
        (final(var_assigns)@, clauses(final(f)@)) == saturate(old(var_assigns)@, clauses(old(f)@)),
        final(var_assigns)@.len() == old(var_assigns)@.len(),
        vars_below(clauses(final(f)@), final(var_assigns)@.len() as int),
        forall|v: int| 0 <= v < old(var_assigns)@.len() && old(var_assigns)@[v] is Some ==> (#[trigger] final(var_assigns)@[v]) is Some,
{
    proof {
        lemma_round_shrinks(clauses(f@));
        lemma_resolve_all_below(clauses(f@), unit_lits(clauses(f@)), var_assigns@.len() as int);
    }
    let mut changed = unit_prop(var_assigns, f);
    while changed
        invariant
            vars_below(clauses(f@), var_assigns@.len() as int),
            saturate(var_assigns@, clauses(f@)) == saturate(old(var_assigns)@, clauses(old(f)@)),
            !changed ==> unit_lits(clauses(f@)).len() == 0,
            var_assigns@.len() == old(var_assigns)@.len(),
            forall|v: int| 0 <= v < old(var_assigns)@.len() && old(var_assigns)@[v] is Some ==> (#[trigger] var_assigns@[v]) is Some,
        decreases lit_count(clauses(f@)) + (if changed { 1int } else { 0int }),
    {
        proof {
            lemma_round_shrinks(clauses(f@));
            lemma_resolve_all_below(clauses(f@), unit_lits(clauses(f@)), var_assigns@.len() as int);
        }
        changed = unit_prop(var_assigns, f);
    }
}

} // verus!
