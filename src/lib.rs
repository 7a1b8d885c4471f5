//! A DPLL decision procedure for Boolean satisfiability of formulas in
//! conjunctive normal form.
pub mod formula;
pub mod propagate;
pub mod pure;
pub mod search;
pub mod step;

pub use formula::{is_unit, Literal};
pub use propagate::{full_unit_prop, unit_prop};
pub use pure::{is_pure, pure_lit_elim};
pub use search::dpll;
