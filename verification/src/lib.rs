//! Closed-loop code editing: instructions become file edits, edits are applied to a
//! working tree, the tree is rebuilt, and build errors become new instructions.

pub mod coder;
pub mod convergence;
pub mod diagnostics;
pub mod error;
pub mod json;
pub mod llm;
pub mod parser;
pub mod pattern;
pub mod prompter;
pub mod repository;
pub mod text;

use crate::error::ErrorKind;
use crate::repository::GitRepository;
use vstd::prelude::*;

verus! {

/// The difference between two states of a repository, as text.
pub type Diff = String;

/// A unit of work of limited context.
pub type Step = String;

/// A plan: steps to take, one after the other.
pub trait Planner {
    /// Whether no step is left.
    fn completed(&self) -> bool;

    /// The step to take next.
    fn next_pending(&self) -> Step;

    /// The plan for the request `p`.
    fn from_prompt(&self, p: &str) -> Self where Self: Sized;
}

/// Anything that can be queried.
pub trait DataSource<Q, A> {
    /// The answer to `query`.
    fn query(&self, query: &Q) -> Result<A, ErrorKind>;
}

/// What a repository can be asked.
#[derive(Debug, Clone, Copy, PartialEq, Eq, Structural)]
pub enum Query {
    /// Nothing.
    Nothing,
}

/// What a repository answers.
#[derive(Debug, Clone, Copy, PartialEq, Eq, Structural)]
pub enum QueryResponse {
    /// Nothing.
    Nothing,
}

impl DataSource<Query, QueryResponse> for GitRepository {
    fn query(&self, query: &Query) -> (r: Result<QueryResponse, ErrorKind>)
        ensures
            r == Ok::<QueryResponse, ErrorKind>(QueryResponse::Nothing),
    {
        Ok(
            match query {
                Query::Nothing => QueryResponse::Nothing,
            },
        )
    }
}

} // verus!
