//! Symbolic differentiation over a single variable, with expressions kept in
//! a reduced canonical form by a verified term-rewriting engine.
//!
//! The expression type is [`Term`]; its two transformation passes are
//! `Term::derivative` and `Term::simplified`, each specified exactly by an
//! open specification function that states the rewrite system rule by rule.

pub mod term;
pub mod order;
pub mod simplify;
pub mod derivative;
pub mod laws;
pub mod render;

pub use term::Term;
