//! Bound tracking for unsigned-integer expressions lowered into a prime field:
//! every unsigned-integer node gets a provable upper bound, and range
//! reductions are marked where a bound would pass the field's safety ceiling.
//! Also: a table remapping flattened bit-variable names, and the SMT-LIB2
//! rendering of constraint-level programs.

pub mod bignat;
pub mod ir;
pub mod laws;
pub mod optimizer;
pub mod program;
pub mod smtlib2;
pub mod substitution;
pub mod table;
