//! Capped token sales over a case-insensitive ticker registry.
//!
//! `registry` keeps who owns each ticker, `sto_capped` runs the sales: it
//! launches them, keeps the per-sale list of accepted secondary currencies,
//! admits purchases and commits them once the mint and the payment went
//! through.

pub mod utils;
pub mod registry;
pub mod sto_capped;
pub mod sto_lemmas;
