//! A reader for a small markup language, and typed values from what it
//! reads.
//!
//! A [`parser::Parser`] reads a source text by the productions of
//! [`parse`], which are proved to yield what the [`grammar`] says; the
//! result is a [`tree`] of elements, attributes and texts, or an error at a
//! [`position`], which [`diagnostic`] shows below the line it belongs to.
//! [`extract`] builds values of other types from attributes and elements,
//! [`number`] whole numbers among them. [`markup`] writes a tree back, and
//! proves that reading gives it again. [`config`] and [`remote`] are the
//! configurations of a git server and of the servers that a search asks.

use vstd::prelude::*;

pub mod config;
pub mod diagnostic;
pub mod document;
pub mod extract;
pub mod grammar;
pub mod markup;
pub mod number;
pub mod parse;
pub mod parser;
pub mod position;
pub mod remote;
pub mod search;
pub mod text;
pub mod tree;

verus! {

/// The sum of two numbers, for sums that fit in a `u64`.
pub fn add(left: u64, right: u64) -> (sum: u64)
    requires
        left + right <= u64::MAX,
    ensures
        sum == left + right,
{
    left + right
}

} // verus!
