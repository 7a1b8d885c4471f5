use dpll::{dpll, full_unit_prop, is_pure, is_unit, pure_lit_elim, unit_prop, Literal};

#[test]
fn check_unit() {
    let c = vec![Literal(0, false)];
    let d = vec![Literal(0, false), Literal(1, true), Literal(0, false)];
    let e: Vec<Literal> = vec![];
    assert!(is_unit(&c));
    assert!(!is_unit(&d));
    assert!(!is_unit(&e));
}

#[test]
fn check_unit_prop_empty() {
    let mut c = vec![];
    let d: Vec<Vec<Literal>> = vec![];
    let mut vs = [None; 3];
    assert!(!unit_prop(&mut vs, &mut c));
    assert_eq!(c, d);
    assert_eq!(vs, [None, None, None]);
}

#[test]
fn check_unit_prop_zero() {
    let mut c = vec![
        vec![Literal(0, true), Literal(2, true)],
        vec![Literal(1, false), Literal(0, false)],
    ];
    let d = vec![
        vec![Literal(0, true), Literal(2, true)],
        vec![Literal(1, false), Literal(0, false)],
    ];
    let mut vs = [None; 3];
    assert!(!unit_prop(&mut vs, &mut c));
    assert_eq!(c, d);
    assert_eq!(vs, [None, None, None]);
}

#[test]
fn check_unit_prop_single() {
    let mut c = vec![vec![Literal(0, true)], vec![Literal(1, false), Literal(0, false)]];
    let d = vec![vec![Literal(1, false)]];
    let mut vs = [None, None];
    assert!(unit_prop(&mut vs, &mut c));
    assert_eq!(c, d);
    assert_eq!(vs, [Some(true), None]);
}

#[test]
fn check_unit_prop_multi() {
    let mut c = vec![
        vec![Literal(0, true)],
        vec![Literal(2, false), Literal(1, false)],
        vec![Literal(2, true), Literal(3, false), Literal(0, false)],
        vec![Literal(1, false)],
        vec![Literal(0, false), Literal(1, true)],
    ];
    let d = vec![vec![Literal(2, true), Literal(3, false)], vec![]];
    let mut vs = [None; 4];
    assert!(unit_prop(&mut vs, &mut c));
    assert_eq!(c, d);
    assert_eq!(vs, [Some(true), Some(false), None, None]);
}

#[test]
fn check_full_unit_prop() {
    let mut c = vec![
        vec![Literal(0, true)],
        vec![Literal(0, false), Literal(1, false)],
        vec![Literal(4, false), Literal(2, false), Literal(1, false)],
        vec![Literal(2, false), Literal(1, true), Literal(4, true)],
    ];
    let d = vec![vec![Literal(2, false), Literal(4, true)]];
    let mut vs = [None; 4];
    full_unit_prop(&mut vs, &mut c);
    assert_eq!(c, d);
    assert_eq!(vs, [Some(true), Some(false), None, None]);
}

#[test]
fn check_pure() {
    let c = [vec![Literal(0, true)], vec![Literal(1, false), Literal(0, false)]];
    assert_eq!(is_pure(0, &c), None);
    assert_eq!(is_pure(1, &c), Some(false))
}

#[test]
fn check_pure_elim() {
    let mut c = vec![
        vec![Literal(0, true), Literal(3, true)],
        vec![Literal(0, true), Literal(2, false), Literal(5, false)],
        vec![Literal(0, true), Literal(5, true), Literal(9, true)],
        vec![Literal(1, true), Literal(8, true)],
        vec![Literal(4, false), Literal(5, true), Literal(6, false)],
        vec![Literal(4, true), Literal(7, true), Literal(9, false)],
    ];
    let mut vs = [None; 10];
    let d = [
        vec![Literal(0, true)],
        vec![Literal(1, true)],
        vec![Literal(5, true)],
        vec![Literal(7, true)],
    ];
    pure_lit_elim(&mut vs, &mut c);
    assert_eq!(c, d);
}

#[test]
fn check_dpll_simple() {
    let mut c = vec![
        vec![Literal(0, true), Literal(1, true), Literal(2, true)],
        vec![Literal(0, false), Literal(1, true), Literal(2, false)],
        vec![Literal(1, false), Literal(2, true)],
    ];
    let mut vs = [None; 3];
    assert!(dpll(&mut vs, &mut c));
    assert_eq!(vs, [Some(true), Some(true), Some(true)]);
}

#[test]
fn check_dpll_hard() {
    let mut c = vec![
        vec![Literal(0, true), Literal(3, true)],
        vec![Literal(0, true), Literal(2, false), Literal(5, false)],
        vec![Literal(0, true), Literal(5, true), Literal(9, true)],
        vec![Literal(1, true), Literal(8, true)],
        vec![Literal(4, false), Literal(2, false), Literal(6, true)],
        vec![Literal(4, false), Literal(5, true), Literal(6, false)],
        vec![Literal(4, true), Literal(5, true), Literal(7, false)],
        vec![Literal(4, true), Literal(7, true), Literal(9, false)],
    ];
    let mut vs = [None; 10];
    assert!(dpll(&mut vs, &mut c));
}
