//! Core of an interactive symbolic calculator: a live-editable expression
//! tree that is incrementally rewritten as text fragments are edited,
//! re-associated to respect operator precedence, and evaluated into numeric,
//! vector, boolean, or function values over a scoped variable environment.

pub mod complex;
pub mod context;
pub mod eval;
pub mod expr;
pub mod idx;
pub mod numtext;
pub mod ooo;
pub mod rational;
pub mod strings;
pub mod top;
pub mod update;
pub mod values;

pub use idx::IdGen;
