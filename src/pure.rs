use vstd::prelude::*;

use crate::formula::{clauses, contains_lit, eliminate, occurs, pure_polarity, vars_below, without, Literal};

verus! {

/// The polarity with which `v` occurs in every literal of `f` on it; `None`
/// where `v` does not occur or occurs with both polarities.
pub fn is_pure(v: u16, f: &[Vec<Literal>]) -> (r: Option<bool>)
    ensures
        r == pure_polarity(clauses(f@), v),
{
    let ghost g = clauses(f@);
    let mut seen = false;
    let mut val = false;
    let mut i: usize = 0;
    while i < f.len()
        invariant
            g == clauses(f@),
            0 <= i <= g.len(),
            seen == (exists|a: int, b: int| 0 <= a < i && 0 <= b < g[a].len() && (#[trigger] g[a][b]).0 == v),
            forall|a: int, b: int| 0 <= a < i && 0 <= b < g[a].len() && (#[trigger] g[a][b]).0 == v ==> g[a][b].1 == val,
        decreases g.len() - i,
    {
        let clause = &f[i];
        assert(clause@ == g[i as int]);
        let mut j: usize = 0;
        while j < clause.len()
            invariant
                g == clauses(f@),
                clause@ == g[i as int],
                0 <= i < g.len(),
                0 <= j <= clause@.len(),
                seen == ((exists|a: int, b: int| 0 <= a < i && 0 <= b < g[a].len() && (#[trigger] g[a][b]).0 == v)
                    || (exists|b: int| 0 <= b < j && (#[trigger] g[i as int][b]).0 == v)),
                forall|a: int, b: int| 0 <= a < i && 0 <= b < g[a].len() && (#[trigger] g[a][b]).0 == v ==> g[a][b].1 == val,
                forall|b: int| 0 <= b < j && (#[trigger] g[i as int][b]).0 == v ==> g[i as int][b].1 == val,
            decreases clause@.len() - j,
        {
            let lit = clause[j];
            assert(lit == g[i as int][j as int]);
            if v == lit.0 {
                if seen {
                    if val != lit.1 {
                        proof {
                            let (a, b) = if exists|a: int, b: int| 0 <= a < i && 0 <= b < g[a].len() && (#[trigger] g[a][b]).0 == v {
                                choose|a: int, b: int| 0 <= a < i && 0 <= b < g[a].len() && (#[trigger] g[a][b]).0 == v
                            } else {
                                (i as int, choose|b: int| 0 <= b < j && (#[trigger] g[i as int][b]).0 == v)
                            };
                            assert(g[a][b] == Literal(v, val));
                            assert(g[i as int][j as int] == Literal(v, lit.1));
                            assert(occurs(g, Literal(v, true)) && occurs(g, Literal(v, false)));
                        }
                        return None;
                    }
                } else {
                    proof {
                        assert forall|a: int, b: int|
                            0 <= a < i && 0 <= b < g[a].len() && (#[trigger] g[a][b]).0 == v implies g[a][b].1
                            == lit.1 by {
                            assert(g[a][b].0 == v);
                        }
                        assert forall|b: int| 0 <= b < j && (#[trigger] g[i as int][b]).0 == v implies g[i as int][b].1
                            == lit.1 by {
                            assert(g[i as int][b].0 == v);
                        }
                    }
                    seen = true;
                    val = lit.1;
                }
            }
            j += 1;
        }
        proof {
            let i1 = i + 1;
            if exists|a: int, b: int| 0 <= a < i1 && 0 <= b < g[a].len() && (#[trigger] g[a][b]).0 == v {
                let (a, b) = choose|a: int, b: int| 0 <= a < i1 && 0 <= b < g[a].len() && (#[trigger] g[a][b]).0 == v;
                if a == i {
                    assert(g[i as int][b].0 == v);
                }
            }
            if exists|a: int, b: int| 0 <= a < i && 0 <= b < g[a].len() && (#[trigger] g[a][b]).0 == v {
                let (a, b) = choose|a: int, b: int| 0 <= a < i && 0 <= b < g[a].len() && (#[trigger] g[a][b]).0 == v;
                assert(g[a][b].0 == v);
            }
            if exists|b: int| 0 <= b < j && (#[trigger] g[i as int][b]).0 == v {
                let b = choose|b: int| 0 <= b < j && (#[trigger] g[i as int][b]).0 == v;
                assert(g[i as int][b].0 == v);
            }
            assert(seen == (exists|a: int, b: int| 0 <= a < i1 && 0 <= b < g[a].len() && (#[trigger] g[a][b]).0 == v));
        }
        i += 1;
    }
    if !seen {
        assert(!occurs(g, Literal(v, true)) && !occurs(g, Literal(v, false))) by {
            if occurs(g, Literal(v, true)) {
                let (a, b) = choose|a: int, b: int| 0 <= a < g.len() && 0 <= b < g[a].len() && #[trigger] g[a][b] == Literal(v, true);
                assert(g[a][b].0 == v);
            }
            if occurs(g, Literal(v, false)) {
                let (a, b) = choose|a: int, b: int| 0 <= a < g.len() && 0 <= b < g[a].len() && #[trigger] g[a][b] == Literal(v, false);
                assert(g[a][b].0 == v);
            }
        }
        return None;
    }
    proof {
        let (a, b) = choose|a: int, b: int| 0 <= a < i && 0 <= b < g[a].len() && (#[trigger] g[a][b]).0 == v;
        assert(g[a][b] == Literal(v, val));
        if occurs(g, Literal(v, !val)) {
            let (c, d) = choose|c: int, d: int| 0 <= c < g.len() && 0 <= d < g[c].len() && #[trigger] g[c][d] == Literal(v, !val);
            assert(g[c][d].0 == v);
        }
    }
    Some(val)
}

/// Pure-literal elimination over the variables `0..var_assigns.len()` in
/// ascending order. Each unassigned variable that occurs in `f` with one polarity only is
/// recorded with it, the clauses that hold that literal are removed, and a
/// unit clause of it is appended to `f`.
pub fn pure_lit_elim(var_assigns: &mut [Option<bool>], f: &mut Vec<Vec<Literal>>)
    requires
        old(var_assigns)@.len() <= 0x10000,
        vars_below(clauses(old(f)@), old(var_assigns)@.len() as int),
    ensures
        vars_below(clauses(final(f)@), old(var_assigns)@.len() as int),
        forall|v: int| 0 <= v < old(var_assigns)@.len() && old(var_assigns)@[v] is Some ==> (#[trigger] final(var_assigns)@[v]) is Some,
        (final(var_assigns)@, clauses(final(f)@)) == eliminate(
            old(var_assigns)@,
            clauses(old(f)@),
            old(var_assigns)@.len() as nat,
        ),
        final(var_assigns)@.len() == old(var_assigns)@.len(),
{
    let ghost a0 = var_assigns@;
    let ghost f0 = clauses(f@);
    let n = var_assigns.len();
    let mut i: usize = 0;
    while i < n
        invariant
            n == a0.len(),
            n <= 0x10000,
            0 <= i <= n,
            var_assigns@.len() == n,
            (var_assigns@, clauses(f@)) == eliminate(a0, f0, i as nat),
            vars_below(clauses(f@), n as int),
            forall|v: int| 0 <= v < n && a0[v] is Some ==> (#[trigger] var_assigns@[v]) is Some,
        decreases n - i,
    {
        let v = i as u16;
        let found = if var_assigns[i].is_none() {
            is_pure(v, f.as_slice())
        } else {
            None
        };
        if let Some(b) = found {
            var_assigns[i] = Some(b);
            let l = Literal(v, b);
            let ghost g = clauses(f@);
            let mut ix: usize = 0;
            let ghost mut p: int = 0;
            while ix < f.len()
                invariant
                    0 <= p <= g.len(),
                    clauses(f@) == without(g.take(p), l) + g.skip(p),
                    ix == without(g.take(p), l).len(),
                    vars_below(clauses(f@), n as int),
                    (l.0 as int) < n,
                decreases g.len() - p,
            {
                let ghost c = g[p];
                assert(clauses(f@)[ix as int] == g[p]);
                let clause = &f[ix];
                let mut del = false;
                let mut j: usize = 0;
                while j < clause.len() && !del
                    invariant
                        clause@ == c,
                        0 <= j <= c.len(),
                        del ==> contains_lit(c, l),
                        forall|k: int| 0 <= k < j ==> c[k] != l,
                    decreases c.len() - j + (if del { 0int } else { 1int }),
                {
                    if clause[j] == l {
                        del = true;
                    } else {
                        j += 1;
                    }
                }
                assert(g.take(p + 1).drop_last() =~= g.take(p));
                assert(g.take(p + 1).last() == c);
                if del {
                    let ghost pre = clauses(f@);
                    f.remove(ix);
                    assert(clauses(f@) =~= pre.remove(ix as int));
                    assert forall|m: int, j: int| 0 <= m < clauses(f@).len() && 0 <= j < clauses(f@)[m].len()
                        implies (#[trigger] clauses(f@)[m][j]).0 < n by {
                        if m < ix {
                            assert(clauses(f@)[m] == pre[m]);
                        } else {
                            assert(clauses(f@)[m] == pre[m + 1]);
                        }
                    }
                    assert(without(g.take(p + 1), l) == without(g.take(p), l));
                    assert(clauses(f@) =~= without(g.take(p + 1), l) + g.skip(p + 1));
                } else {
                    assert(!contains_lit(c, l));
                    assert(clauses(f@) =~= without(g.take(p + 1), l) + g.skip(p + 1));
                    ix += 1;
                }
                proof {
                    p = p + 1;
                }
            }
            assert(g.take(p) =~= g);
            let unit = vec![l];
            assert(unit@ =~= seq![l]);
            let ghost before = clauses(f@);
            f.push(unit);
            assert(clauses(f@) =~= without(g, l).push(seq![l]));
            assert(clauses(f@) =~= before.push(seq![l]));
            assert forall|m: int, j: int| 0 <= m < clauses(f@).len() && 0 <= j < clauses(f@)[m].len()
                implies (#[trigger] clauses(f@)[m][j]).0 < n by {
                if m < before.len() {
                    assert(clauses(f@)[m] == before[m]);
                }
            }
        }
        i += 1;
    }
}

} // verus!
