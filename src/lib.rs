//! Semantic checks and dependency locking of an HDL compiler: the symbol
//! table, the expression and prototype checkers, modport expansion, and the
//! lockfile with its resolution steps.

pub mod analyzer_error;
pub mod check_expression;
pub mod check_proto;
pub mod cmd;
pub mod lockfile;
pub mod modport;
pub mod msb_table;
pub mod symbol;
pub mod text;
