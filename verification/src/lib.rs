//! A calculator core: text is scanned into tokens, variables are replaced by their values,
//! parenthesised groups are resolved innermost first, and each flat group is reduced by
//! precedence tier, left to right.
//!
//! The library never looks inside a number. It is generic in the number type `N` and takes
//! the three things it needs from its caller as functions: how to read a number from text,
//! how to apply an operator to two numbers, and how to write a number as text. Every contract
//! is stated for whatever pure function such an argument computes.
//!
//! - [`parse`] scans text into [`token::Token`]s.
//! - [`resolve`] replaces variables by numbers.
//! - [`calculate`] evaluates flat groups and sequences with parentheses.
//! - [`calculator`] keeps the variables of a session and takes input line by line.
//! - [`error`] and [`format`] describe failures and write them out.
//! - [`nesting`], [`precedence`] and [`residue`] prove what evaluation means for groups, for
//!   neighbouring operators, and for tokens that were evaluated before.

pub mod calculate;
pub mod calculator;
pub mod command;
pub mod error;
pub mod format;
pub mod nesting;
pub mod number;
pub mod op;
pub mod parse;
pub mod precedence;
pub mod residue;
pub mod resolve;
pub mod search;
pub mod token;
