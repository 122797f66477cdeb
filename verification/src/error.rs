//! Why a benchmark run cannot go on.

use datafusion::common::DataFusionError;
use vstd::prelude::*;

verus! {

/// `datafusion::common::DataFusionError`: why the query engine refuses something.
#[verifier::external_type_specification]
#[verifier::external_body]
pub struct ExDataFusionError(DataFusionError);

/// Why a benchmark run cannot go on, with the message for the user.
#[derive(Debug, PartialEq, Eq)]
pub enum RunError {
    /// An option has a value that it cannot have.
    Configuration(String),
    /// Something that the run needs is not there.
    Execution(String),
    /// The run asks for something that does not exist.
    NotImplemented(String),
    /// The text of the query at this position of the list could not be had.
    Query(usize),
}

/// The model of [`RunError`].
pub enum RunErrorView {
    Configuration(Seq<char>),
    Execution(Seq<char>),
    NotImplemented(Seq<char>),
    Query(int),
}

impl View for RunError {
    type V = RunErrorView;

    open spec fn view(&self) -> RunErrorView {
        match self {
            RunError::Configuration(text) => RunErrorView::Configuration(text@),
            RunError::Execution(text) => RunErrorView::Execution(text@),
            RunError::NotImplemented(text) => RunErrorView::NotImplemented(text@),
            RunError::Query(position) => RunErrorView::Query(*position as int),
        }
    }
}

/// The model of an error holds what the error holds.
pub proof fn law_errors_are_seen_as_they_are(error: RunError)
    ensures
        match error {
            RunError::Configuration(text) => error@ == RunErrorView::Configuration(text@),
            RunError::Execution(text) => error@ == RunErrorView::Execution(text@),
            RunError::NotImplemented(text) => error@ == RunErrorView::NotImplemented(text@),
            RunError::Query(position) => error@ == RunErrorView::Query(position as int),
        },
{
}

} // verus!
