//! A data-driven matching engine for hex-board tile games: namespaced
//! identifiers, a layered binding scope, an expression and predicate
//! compiler for JSON-shaped rules, and the chained matcher that classifies a
//! player's selection as a match, a possible prefix of one, or neither.

pub mod data;
pub mod scope;
pub mod evaluation;
pub mod condition;
pub mod json;
pub mod nodes;
pub mod order;
pub mod matcher;
pub mod change;
pub mod mofang;
pub mod sigmar;
