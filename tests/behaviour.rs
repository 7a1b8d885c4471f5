use dpll::{dpll, full_unit_prop, is_pure, pure_lit_elim, unit_prop, Literal};

fn satisfied_by(vs: &[Option<bool>], f: &[Vec<Literal>]) -> bool {
    f.iter().all(|c| c.iter().any(|l| vs[l.0 as usize] == Some(l.1)))
}

#[test]
fn round_on_fixpoint_changes_nothing() {
    let mut c = vec![vec![Literal(0, true), Literal(1, false)], vec![Literal(1, true), Literal(2, true)]];
    let mut vs = [None, Some(true), None];
    let (c0, vs0) = (c.clone(), vs);
    assert!(!unit_prop(&mut vs, &mut c));
    assert_eq!(c, c0);
    assert_eq!(vs, vs0);
}

#[test]
fn round_after_full_propagation_changes_nothing() {
    let mut c = vec![
        vec![Literal(0, true)],
        vec![Literal(1, false), Literal(0, false)],
        vec![Literal(2, false), Literal(1, false)],
        vec![Literal(2, true), Literal(3, false), Literal(0, false)],
    ];
    let mut vs = [None; 4];
    full_unit_prop(&mut vs, &mut c);
    let (c0, vs0) = (c.clone(), vs);
    assert!(!unit_prop(&mut vs, &mut c));
    assert_eq!(c, c0);
    assert_eq!(vs, vs0);
}

#[test]
fn unit_propagation_example() {
    let mut c = vec![
        vec![Literal(0, true)],
        vec![Literal(1, false), Literal(0, false)],
        vec![Literal(2, false), Literal(1, false)],
        vec![Literal(2, true), Literal(3, false), Literal(0, false)],
    ];
    let mut vs = [None; 4];
    full_unit_prop(&mut vs, &mut c);
    assert_eq!(c, vec![vec![Literal(2, true), Literal(3, false)]]);
    assert_eq!(vs, [Some(true), Some(false), None, None]);
}

#[test]
fn disagreeing_units_leave_the_later_value_and_an_empty_clause() {
    let mut c = vec![vec![Literal(0, true)], vec![Literal(0, false)]];
    let mut vs = [None; 1];
    assert!(unit_prop(&mut vs, &mut c));
    assert_eq!(vs, [Some(false)]);
    assert_eq!(c, vec![Vec::<Literal>::new()]);
}

#[test]
fn pure_of_absent_variable_is_none() {
    let c = [vec![Literal(0, true)]];
    assert_eq!(is_pure(3, &c), None);
    assert_eq!(is_pure(0, &c), Some(true));
}

#[test]
fn pure_elimination_records_values() {
    let mut c = vec![vec![Literal(0, false), Literal(1, true)], vec![Literal(1, false), Literal(0, false)]];
    let mut vs = [None; 2];
    pure_lit_elim(&mut vs, &mut c);
    assert_eq!(vs, [Some(false), None]);
    assert_eq!(c, vec![vec![Literal(0, false)]]);
}

#[test]
fn scenario_a_witness_satisfies() {
    let f = vec![
        vec![Literal(0, true), Literal(1, true), Literal(2, true)],
        vec![Literal(0, false), Literal(1, true), Literal(2, false)],
        vec![Literal(1, false), Literal(2, true)],
    ];
    let mut c = f.clone();
    let mut vs = [None; 3];
    assert!(dpll(&mut vs, &mut c));
    assert_eq!(vs, [Some(true), Some(true), Some(true)]);
    assert!(satisfied_by(&vs, &f));
}

#[test]
fn hard_instance_witness_satisfies() {
    let f = vec![
        vec![Literal(0, true), Literal(3, true)],
        vec![Literal(0, true), Literal(2, false), Literal(5, false)],
        vec![Literal(0, true), Literal(5, true), Literal(9, true)],
        vec![Literal(1, true), Literal(8, true)],
        vec![Literal(4, false), Literal(2, false), Literal(6, true)],
        vec![Literal(4, false), Literal(5, true), Literal(6, false)],
        vec![Literal(4, true), Literal(5, true), Literal(7, false)],
        vec![Literal(4, true), Literal(7, true), Literal(9, false)],
    ];
    let mut c = f.clone();
    let mut vs = [None; 10];
    assert!(dpll(&mut vs, &mut c));
    assert!(satisfied_by(&vs, &f));
}

#[test]
fn scenario_b_unsatisfiable() {
    let mut c = vec![vec![Literal(0, true)], vec![Literal(0, false)], vec![Literal(1, true), Literal(2, false)]];
    let mut vs = [None; 3];
    assert!(!dpll(&mut vs, &mut c));
}

#[test]
fn unsatisfiable_by_propagation() {
    let mut c = vec![
        vec![Literal(0, true)],
        vec![Literal(0, false), Literal(1, true)],
        vec![Literal(0, false), Literal(1, false)],
    ];
    let mut vs = [None; 2];
    assert!(!dpll(&mut vs, &mut c));
    assert!(c.iter().any(|cl| cl.is_empty()));
}

#[test]
fn empty_formula_is_satisfiable() {
    let mut c: Vec<Vec<Literal>> = vec![];
    let mut vs = [None; 2];
    assert!(dpll(&mut vs, &mut c));
}

#[test]
fn all_variables_pure() {
    let mut c = vec![vec![Literal(0, true), Literal(0, true)], vec![Literal(1, false), Literal(1, false)]];
    let mut vs = [None; 2];
    assert!(dpll(&mut vs, &mut c));
    assert_eq!(vs, [Some(true), Some(false)]);
}

#[test]
fn repeated_runs_agree() {
    let f = vec![
        vec![Literal(0, true), Literal(3, true)],
        vec![Literal(0, false), Literal(2, false), Literal(5, false)],
        vec![Literal(1, true), Literal(5, true), Literal(4, true)],
        vec![Literal(1, false), Literal(3, false)],
        vec![Literal(4, false), Literal(2, true)],
    ];
    let (mut c1, mut c2) = (f.clone(), f.clone());
    let (mut v1, mut v2) = ([None; 6], [None; 6]);
    let r1 = dpll(&mut v1, &mut c1);
    let r2 = dpll(&mut v2, &mut c2);
    assert_eq!(r1, r2);
    assert_eq!(v1, v2);
    assert_eq!(c1, c2);
}

#[test]
fn false_branch_starts_from_state_before_assumption() {
    let f = vec![
        vec![Literal(0, false), Literal(1, true)],
        vec![Literal(0, false), Literal(1, false)],
        vec![Literal(0, true), Literal(1, true)],
    ];
    let mut c = f.clone();
    let mut vs = [None; 2];
    assert!(dpll(&mut vs, &mut c));
    assert_eq!(vs, [Some(false), Some(true)]);
    assert!(satisfied_by(&vs, &f));
    assert!(c.is_empty());
}

#[test]
fn both_branches_fail() {
    let mut c = vec![
        vec![Literal(0, true), Literal(1, true)],
        vec![Literal(0, true), Literal(1, false)],
        vec![Literal(0, false), Literal(2, true)],
        vec![Literal(0, false), Literal(2, false)],
    ];
    let mut vs = [None; 3];
    assert!(!dpll(&mut vs, &mut c));
}

#[test]
fn assigned_slot_is_not_eliminated() {
    let mut c = vec![vec![Literal(0, true), Literal(1, true)]];
    let mut vs = [Some(false), None];
    pure_lit_elim(&mut vs, &mut c);
    assert_eq!(vs, [Some(false), Some(true)]);
    assert_eq!(c, vec![vec![Literal(1, true)]]);
}

#[test]
fn input_with_empty_clause_is_unsatisfiable() {
    let mut c = vec![vec![Literal(0, true)], vec![]];
    let mut vs = [None; 1];
    assert!(!dpll(&mut vs, &mut c));
}
