use vstd::prelude::*;

use crate::formula::{
    clauses, eliminate, has_empty, lemma_resolve_all_below, lemma_round_shrinks, lit_count, record, resolve_all,
    saturate, unit_lits, vars_below, Literal,
};
use crate::step::{lemma_empty_eliminate, lemma_empty_saturate};
use crate::propagate::full_unit_prop;
use crate::pure::pure_lit_elim;

verus! {

/// The number of slots of `a` that are unassigned.
pub open spec fn count_none(a: Seq<Option<bool>>) -> nat
    decreases a.len(),
{
    if a.len() == 0 {
        0
    } else {
        count_none(a.drop_last()) + if a.last() is None { 1nat } else { 0nat }
    }
}

/// Every slot of `a` holds a value.
pub open spec fn all_assigned(a: Seq<Option<bool>>) -> bool {
    forall|v: int| 0 <= v < a.len() ==> (#[trigger] a[v]) is Some
}

/// A slot count does not grow where no slot loses its value, and shrinks
/// where one more slot gains one.
pub proof fn lemma_count_none(a: Seq<Option<bool>>, b: Seq<Option<bool>>)
    requires
        a.len() == b.len(),
        forall|v: int| 0 <= v < a.len() && a[v] is Some ==> (#[trigger] b[v]) is Some,
    ensures
        count_none(b) <= count_none(a),
        (exists|v: int| 0 <= v < a.len() && a[v] is None && (#[trigger] b[v]) is Some) ==> count_none(b) < count_none(a),
    decreases a.len(),
{
    if a.len() > 0 {
        let (a1, b1) = (a.drop_last(), b.drop_last());
        assert forall|v: int| 0 <= v < a1.len() && a1[v] is Some implies (#[trigger] b1[v]) is Some by {
            assert(a[v] == a1[v] && b[v] == b1[v]);
        }
        lemma_count_none(a1, b1);
        if exists|v: int| 0 <= v < a.len() && a[v] is None && (#[trigger] b[v]) is Some {
            let v = choose|v: int| 0 <= v < a.len() && a[v] is None && (#[trigger] b[v]) is Some;
            if v < a1.len() {
                assert(a1[v] is None && b1[v] is Some);
            }
        }
    }
}

/// The lowest unassigned slot of `a` at `x` or above; `a.len()` where there
/// is none.
pub open spec fn lowest_from(a: Seq<Option<bool>>, x: int) -> int
    decreases a.len() - x,
{
    if x < 0 || x >= a.len() {
        a.len() as int
    } else if a[x] is None {
        x
    } else {
        lowest_from(a, x + 1)
    }
}

pub proof fn lemma_lowest_from(a: Seq<Option<bool>>, x: int)
    requires
        0 <= x <= a.len(),
    ensures
        x <= lowest_from(a, x) <= a.len(),
        lowest_from(a, x) < a.len() ==> a[lowest_from(a, x)] is None,
        lowest_from(a, x) == a.len() ==> forall|v: int| x <= v < a.len() ==> (#[trigger] a[v]) is Some,
    decreases a.len() - x,
{
    if x < a.len() && a[x] is Some {
        lemma_lowest_from(a, x + 1);
    }
}

proof fn lemma_units_below(f: Seq<Seq<Literal>>, n: int)
    requires
        vars_below(f, n),
    ensures
        forall|k: int| 0 <= k < unit_lits(f).len() ==> ((#[trigger] unit_lits(f)[k]).0 as int) < n,
    decreases f.len(),
{
    if f.len() > 0 {
        let h = f.drop_last();
        assert(vars_below(h, n)) by {
            assert forall|i: int, j: int| 0 <= i < h.len() && 0 <= j < h[i].len() implies (#[trigger] h[i][j]).0 < n by {
                assert(h[i][j] == f[i][j]);
            }
        }
        lemma_units_below(h, n);
        let u = unit_lits(f);
        assert forall|k: int| 0 <= k < u.len() implies ((#[trigger] u[k]).0 as int) < n by {
            if f.last().len() == 1 {
                assert(u == unit_lits(h).push(f.last()[0]));
                if k < unit_lits(h).len() {
                    assert(u[k] == unit_lits(h)[k]);
                } else {
                    assert(u[k] == f.last()[0]);
                    assert(f[f.len() - 1][0] == f.last()[0]);
                    assert(f[f.len() - 1][0].0 < n);
                }
            } else {
                assert(u == unit_lits(h));
            }
        }
    }
}

proof fn lemma_record_keeps(a: Seq<Option<bool>>, u: Seq<Literal>)
    requires
        forall|k: int| 0 <= k < u.len() ==> ((#[trigger] u[k]).0 as int) < a.len(),
    ensures
        record(a, u).len() == a.len(),
        forall|v: int| 0 <= v < a.len() && a[v] is Some ==> (#[trigger] record(a, u)[v]) is Some,
    decreases u.len(),
{
    if u.len() > 0 {
        let h = u.drop_last();
        assert forall|k: int| 0 <= k < h.len() implies ((#[trigger] h[k]).0 as int) < a.len() by {
            assert(h[k] == u[k]);
        }
        lemma_record_keeps(a, h);
        assert(u[u.len() - 1] == u.last());
    }
}

/// Propagation to the fixpoint keeps the slot count and every value.
pub proof fn lemma_saturate_keeps(a: Seq<Option<bool>>, f: Seq<Seq<Literal>>)
    requires
        vars_below(f, a.len() as int),
    ensures
        saturate(a, f).0.len() == a.len(),
        forall|v: int| 0 <= v < a.len() && a[v] is Some ==> (#[trigger] saturate(a, f).0[v]) is Some,
    decreases lit_count(f),
{
    let u = unit_lits(f);
    if u.len() > 0 {
        lemma_round_shrinks(f);
        lemma_units_below(f, a.len() as int);
        lemma_record_keeps(a, u);
        lemma_resolve_all_below(f, u, a.len() as int);
        lemma_saturate_keeps(record(a, u), resolve_all(f, u));
    }
}

/// Pure-literal elimination keeps the slot count and every value.
pub proof fn lemma_eliminate_keeps(a: Seq<Option<bool>>, f: Seq<Seq<Literal>>, i: nat)
    requires
        i <= a.len(),
    ensures
        eliminate(a, f, i).0.len() == a.len(),
        forall|v: int| 0 <= v < a.len() && a[v] is Some ==> (#[trigger] eliminate(a, f, i).0[v]) is Some,
    decreases i,
{
    if i > 0 {
        lemma_eliminate_keeps(a, f, (i - 1) as nat);
    }
}

/// The outcome of the search on `(a, f)`: the answer, the final assignment
/// and the final formula. Each node propagates to the fixpoint and eliminates
/// pure literals; an empty formula is satisfiable and an empty clause is a
/// conflict. Otherwise it assumes the lowest unassigned variable true and, if
/// that fails, false, both from the state before the assumption. Where no
/// variable is left, one more round of propagation decides.
pub open spec fn search(a: Seq<Option<bool>>, f: Seq<Seq<Literal>>) -> (bool, Seq<Option<bool>>, Seq<Seq<Literal>>)
    decreases count_none(a),
{
    if a.len() > 0x10000 || !vars_below(f, a.len() as int) {
        (false, a, f)
    } else {
        let (a1, f1) = saturate(a, f);
        let (a2, f2) = eliminate(a1, f1, a1.len() as nat);
        let x = lowest_from(a2, 0);
        if f2.len() == 0 {
            (true, a2, f2)
        } else if has_empty(f2) {
            (false, a2, f2)
        } else if x >= a2.len() {
            let (a3, f3) = saturate(a2, f2);
            (f3.len() == 0, a3, f3)
        } else {
            proof {
                lemma_saturate_keeps(a, f);
                lemma_eliminate_keeps(a1, f1, a1.len() as nat);
                lemma_count_none(a, a2);
                lemma_lowest_from(a2, 0);
                lemma_count_none(a2, a2.update(x, Some(true)));
                lemma_count_none(a2, a2.update(x, Some(false)));
                assert(a2.update(x, Some(true))[x] is Some);
                assert(a2.update(x, Some(false))[x] is Some);
            }
            let (r1, a4, f4) = search(a2.update(x, Some(true)), f2.push(seq![Literal(x as u16, true)]));
            if r1 {
                (true, a4, f4)
            } else {
                search(a2.update(x, Some(false)), f2.push(seq![Literal(x as u16, false)]))
            }
        }
    }
}

/// The search is a function of its input: on equal assignments and formulas
/// it gives the same answer, the same final assignment and the same final
/// formula, so repeated runs of `dpll` agree.
pub proof fn lemma_search_deterministic(
    a1: Seq<Option<bool>>,
    f1: Seq<Seq<Literal>>,
    a2: Seq<Option<bool>>,
    f2: Seq<Seq<Literal>>,
)
    requires
        a1 == a2,
        f1 == f2,
    ensures
        search(a1, f1) == search(a2, f2),
{
}

/// A copy of the formula, clause by clause.
fn copy_formula(f: &Vec<Vec<Literal>>) -> (r: Vec<Vec<Literal>>)
    ensures
        clauses(r@) == clauses(f@),
{
    let mut r: Vec<Vec<Literal>> = Vec::new();
    let mut i: usize = 0;
    while i < f.len()
        invariant
            0 <= i <= f@.len(),
            clauses(r@) == clauses(f@).take(i as int),
        decreases f@.len() - i,
    {
        let mut c: Vec<Literal> = Vec::new();
        let mut j: usize = 0;
        while j < f[i].len()
            invariant
                0 <= i < f@.len(),
                0 <= j <= f@[i as int]@.len(),
                c@ == f@[i as int]@.take(j as int),
                clauses(r@) == clauses(f@).take(i as int),
            decreases f@[i as int]@.len() - j,
        {
            c.push(f[i][j]);
            assert(c@ =~= f@[i as int]@.take(j + 1));
            j += 1;
        }
        assert(c@ =~= f@[i as int]@);
        let ghost rb = r@;
        let ghost cv = c@;
        r.push(c);
        proof {
            assert(clauses(rb).len() == rb.len());
            assert(clauses(f@).take(i as int).len() == i);
            assert(rb.len() == i);
            assert(r@.len() == rb.len() + 1);
            assert forall|m: int| 0 <= m < i + 1 implies clauses(r@)[m] == clauses(f@).take(i + 1)[m] by {
                if m < i {
                    assert(r@[m] == rb[m]);
                    assert(clauses(rb)[m] == rb[m]@);
                    assert(clauses(rb)[m] == clauses(f@).take(i as int)[m]);
                } else {
                    assert(r@[m]@ == cv);
                }
            }
            assert(clauses(r@) =~= clauses(f@).take(i + 1));
        }
        i += 1;
    }
    assert(clauses(f@).take(f@.len() as int) =~= clauses(f@));
    r
}

/// Puts the values of `saved` back into the slots.
fn restore(var_assigns: &mut [Option<bool>], saved: &Vec<Option<bool>>)
    requires
        old(var_assigns)@.len() == saved@.len(),
    ensures
        final(var_assigns)@ == saved@,
{
    let mut k: usize = 0;
    while k < saved.len()
        invariant
            0 <= k <= saved@.len(),
            var_assigns@.len() == saved@.len(),
            forall|v: int| 0 <= v < k ==> var_assigns@[v] == saved@[v],
        decreases saved@.len() - k,
    {
        var_assigns[k] = saved[k];
        k += 1;
    }
    assert(var_assigns@ =~= saved@);
}

/// A copy of the slots.
fn copy_slots(var_assigns: &[Option<bool>]) -> (r: Vec<Option<bool>>)
    ensures
        r@ == var_assigns@,
{
    let mut r: Vec<Option<bool>> = Vec::new();
    let mut k: usize = 0;
    while k < var_assigns.len()
        invariant
            0 <= k <= var_assigns@.len(),
            r@ == var_assigns@.take(k as int),
        decreases var_assigns@.len() - k,
    {
        r.push(var_assigns[k]);
        assert(r@ =~= var_assigns@.take(k + 1));
        k += 1;
    }
    assert(r@ =~= var_assigns@);
    r
}

/// Decides whether the formula `f` over the variables `0..var_assigns.len()`
/// is satisfiable, by unit propagation, pure-literal elimination and case
/// splits on the lowest unassigned variable, true first. Both arguments are
/// simplified in place; the branch for false starts from the state before the
/// branch for true. A `true` result leaves `f` empty; a formula with an empty
/// clause gives `false`.
pub fn dpll(var_assigns: &mut [Option<bool>], f: &mut Vec<Vec<Literal>>) -> (r: bool)
    requires
        old(var_assigns)@.len() <= 0x10000,
        vars_below(clauses(old(f)@), old(var_assigns)@.len() as int),
    ensures
        final(var_assigns)@.len() == old(var_assigns)@.len(),
        vars_below(clauses(final(f)@), old(var_assigns)@.len() as int),
        forall|v: int| 0 <= v < old(var_assigns)@.len() && old(var_assigns)@[v] is Some ==> (#[trigger] final(var_assigns)@[v]) is Some,
        r ==> final(f)@.len() == 0,
        !r ==> has_empty(clauses(final(f)@)) || all_assigned(final(var_assigns)@),
        has_empty(clauses(old(f)@)) ==> !r,
        (r, final(var_assigns)@, clauses(final(f)@)) == search(old(var_assigns)@, clauses(old(f)@)),
    decreases count_none(old(var_assigns)@),
{
    let ghost a0 = var_assigns@;
    let ghost f0 = clauses(f@);
    full_unit_prop(var_assigns, f);
    let ghost a1 = var_assigns@;
    let ghost f1 = clauses(f@);
    pure_lit_elim(var_assigns, f);
    proof {
        if has_empty(f0) {
            lemma_empty_saturate(a0, f0);
            lemma_empty_eliminate(a1, f1, a1.len() as nat);
        }
    }

    if f.is_empty() {
        return true;
    }
    let ghost a2s = var_assigns@;
    let ghost f2s = clauses(f@);
    assert(has_empty(f2s) ==> search(a0, f0) == (false, a2s, f2s));
    let mut k: usize = 0;
    while k < f.len()
        invariant
            0 <= k <= f@.len(),
            forall|i: int| 0 <= i < k ==> (#[trigger] f@[i])@.len() != 0,
            var_assigns@ == a2s,
            clauses(f@) == f2s,
            has_empty(f2s) ==> search(a0, f0) == (false, a2s, f2s),
            var_assigns@.len() == a0.len(),
            a0 == old(var_assigns)@,
            f0 == clauses(old(f)@),
            a0.len() <= 0x10000,
            vars_below(clauses(f@), a0.len() as int),
            forall|v: int| 0 <= v < a0.len() && a0[v] is Some ==> (#[trigger] var_assigns@[v]) is Some,
            has_empty(f0) ==> has_empty(clauses(f@)),
        decreases f@.len() - k,
    {
        if f[k].is_empty() {
            assert(clauses(f@)[k as int].len() == 0);
            return false;
        }
        k += 1;
    }
    assert(!has_empty(clauses(f@))) by {
        if has_empty(clauses(f@)) {
            let i = choose|i: int| 0 <= i < clauses(f@).len() && (#[trigger] clauses(f@)[i]).len() == 0;
            assert(f@[i]@.len() == 0);
        }
    }

    // Pick the lowest unassigned variable.
    let n = var_assigns.len();
    let mut x: usize = 0;
    while x < n && var_assigns[x].is_some()
        invariant
            n == var_assigns@.len(),
            0 <= x <= n,
            forall|v: int| 0 <= v < x ==> (#[trigger] var_assigns@[v]) is Some,
            lowest_from(var_assigns@, x as int) == lowest_from(var_assigns@, 0),
            !has_empty(clauses(f@)),
            var_assigns@.len() == a0.len(),
            a0 == old(var_assigns)@,
            f0 == clauses(old(f)@),
            a0.len() <= 0x10000,
            vars_below(clauses(f@), a0.len() as int),
            forall|v: int| 0 <= v < a0.len() && a0[v] is Some ==> (#[trigger] var_assigns@[v]) is Some,
            has_empty(f0) ==> has_empty(clauses(f@)),
        decreases n - x,
    {
        x += 1;
    }
    proof {
        lemma_lowest_from(var_assigns@, 0);
    }
    if x == n {
        // Every variable holds a value: what is left are unit clauses of
        // recorded values, which one more round of propagation discharges.
        full_unit_prop(var_assigns, f);
        return f.is_empty();
    }
    let ghost a2 = var_assigns@;
    proof {
        lemma_count_none(a0, a2);
    }
    let saved_f = copy_formula(f);
    let saved_a = copy_slots(var_assigns);

    // Try with true: the assumption is recorded in the slot and appended as a
    // unit clause, which the next round of propagation discharges.
    var_assigns[x] = Some(true);
    let ghost at = var_assigns@;
    proof {
        lemma_count_none(a2, at);
        assert(a2[x as int] is None && at[x as int] is Some);
    }
    push_unit(f, Literal(x as u16, true), n);
    if dpll(var_assigns, f) {
        return true;
    }

    // Try with false, from the state before the assumption.
    *f = saved_f;
    restore(var_assigns, &saved_a);
    var_assigns[x] = Some(false);
    proof {
        lemma_count_none(a2, var_assigns@);
        assert(a2[x as int] is None && var_assigns@[x as int] is Some);
    }
    push_unit(f, Literal(x as u16, false), n);
    dpll(var_assigns, f)
}

/// Appends the unit clause of `l` to `f`.
fn push_unit(f: &mut Vec<Vec<Literal>>, l: Literal, n: usize)
    requires
        vars_below(clauses(old(f)@), n as int),
        (l.0 as int) < n,
    ensures
        clauses(final(f)@) == clauses(old(f)@).push(seq![l]),
        vars_below(clauses(final(f)@), n as int),
{
    let ghost before = clauses(f@);
    let unit = vec![l];
    assert(unit@ =~= seq![l]);
    f.push(unit);
    proof {
        assert(clauses(f@) =~= before.push(seq![l]));
        assert forall|i: int, j: int| 0 <= i < clauses(f@).len() && 0 <= j < clauses(f@)[i].len()
            implies (#[trigger] clauses(f@)[i][j]).0 < n by {
            if i < before.len() {
                assert(clauses(f@)[i] == before[i]);
            }
        }
    }
}

} // verus!
