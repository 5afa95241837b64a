//! The verdict of a run: every failed unit of work with its cause, folded
//! into one error.

use crate::error::{TrackError, TrackErrorView};
use vstd::prelude::*;
use vstd::string::StringExecFns;

verus! {

/// One failed unit of work: the repository's URL and what went wrong.
#[derive(Debug, PartialEq)]
pub struct UnitFailure {
    pub url: String,
    pub cause: TrackError,
}

/// A [`UnitFailure`] with its texts as sequences of characters.
pub struct UnitFailureView {
    pub url: Seq<char>,
    pub cause: TrackErrorView,
}

impl View for UnitFailure {
    type V = UnitFailureView;

    open spec fn view(&self) -> UnitFailureView {
        UnitFailureView { url: self.url@, cause: self.cause@ }
    }
}

impl DeepView for UnitFailure {
    type V = UnitFailureView;

    open spec fn deep_view(&self) -> UnitFailureView {
        self@
    }
}

/// Why a run as a whole failed.
#[derive(Debug, PartialEq)]
pub enum RunError {
    /// The list of due repositories could not be had; no unit was started.
    DueListFailed(String),
    /// One or more units failed; each is listed, in the order in which the
    /// units ended.
    UnitsFailed(Vec<UnitFailure>),
}

/// A [`RunError`] with its texts as sequences of characters.
pub enum RunErrorView {
    DueListFailed(Seq<char>),
    UnitsFailed(Seq<UnitFailureView>),
}

impl View for RunError {
    type V = RunErrorView;

    open spec fn view(&self) -> RunErrorView {
        match self {
            RunError::DueListFailed(cause) => RunErrorView::DueListFailed(cause@),
            RunError::UnitsFailed(failures) => RunErrorView::UnitsFailed(failures.deep_view()),
        }
    }
}

impl UnitFailureView {
    /// The failure in one line: the repository and, after a colon, the cause.
    pub open spec fn line(self) -> Seq<char> {
        "error tracking repository "@ + self.url + ": "@ + self.cause.message()
    }
}

/// The lines of the failures, in order, with a line break between two.
pub open spec fn combined_message(failures: Seq<UnitFailureView>) -> Seq<char>
    decreases failures.len(),
{
    if failures.len() == 0 {
        Seq::empty()
    } else if failures.len() == 1 {
        failures[0].line()
    } else {
        combined_message(failures.drop_last()) + "\n"@ + failures.last().line()
    }
}

impl RunErrorView {
    /// The error in words.
    pub open spec fn message(self) -> Seq<char> {
        match self {
            RunErrorView::DueListFailed(cause) => cause,
            RunErrorView::UnitsFailed(failures) => combined_message(failures),
        }
    }
}

/// The run's verdict over the failures gathered: success where there is
/// none, else the error that lists them all.
pub open spec fn verdict_of(failures: Seq<UnitFailureView>) -> Result<(), RunErrorView> {
    if failures.len() == 0 {
        Ok(())
    } else {
        Err(RunErrorView::UnitsFailed(failures))
    }
}

/// The view of a verdict.
pub open spec fn verdict_view(verdict: Result<(), RunError>) -> Result<(), RunErrorView> {
    match verdict {
        Ok(()) => Ok(()),
        Err(error) => Err(error@),
    }
}

impl UnitFailure {
    /// A copy of the failure.
    pub fn duplicate(&self) -> (copy: UnitFailure)
        ensures
            copy@ == self@,
    {
        UnitFailure { url: self.url.clone(), cause: self.cause.duplicate() }
    }

    /// The failure in one line.
    pub fn line(&self) -> (text: String)
        ensures
            text@ == self@.line(),
    {
        let mut text = String::from_str("error tracking repository ");
        text.append(self.url.as_str());
        text.append(": ");
        let cause = self.cause.message();
        text.append(cause.as_str());
        text
    }
}

/// A copy of a list of failures.
pub fn duplicate_failures(failures: &Vec<UnitFailure>) -> (copy: Vec<UnitFailure>)
    ensures
        copy.deep_view() == failures.deep_view(),
{
    let mut copy: Vec<UnitFailure> = Vec::new();
    let mut i: usize = 0;
    while i < failures.len()
        invariant
            i <= failures.len(),
            copy.len() == i,
            forall|k: int| 0 <= k < i ==> copy[k]@ == failures[k]@,
        decreases failures.len() - i,
    {
        copy.push(failures[i].duplicate());
        i = i + 1;
    }
    assert(copy.deep_view() =~= failures.deep_view());
    copy
}

/// Success where no unit failed, else the one error that lists every
/// failure.
pub fn aggregate(failures: Vec<UnitFailure>) -> (verdict: Result<(), RunError>)
    ensures
        verdict_view(verdict) == verdict_of(failures.deep_view()),
{
    if failures.len() == 0 {
        Ok(())
    } else {
        Err(RunError::UnitsFailed(failures))
    }
}

impl RunError {
    /// The error in words: for failed units one line each, in order.
    pub fn message(&self) -> (text: String)
        ensures
            text@ == self@.message(),
    {
        match self {
            RunError::DueListFailed(cause) => cause.clone(),
            RunError::UnitsFailed(failures) => {
                let mut text = String::new();
                let mut i: usize = 0;
                while i < failures.len()
                    invariant
                        i <= failures.len(),
                        text@ == combined_message(failures.deep_view().take(i as int)),
                    decreases failures.len() - i,
                {
                    let ghost done = failures.deep_view().take(i as int);
                    let ghost more = failures.deep_view().take(i + 1);
                    assert(more.drop_last() =~= done);
                    assert(more.last() == failures[i as int]@);
                    if i > 0 {
                        text.append("\n");
                    }
                    let line = failures[i].line();
                    text.append(line.as_str());
                    i = i + 1;
                }
                assert(failures.deep_view().take(failures.len() as int) =~= failures.deep_view());
                text
            },
        }
    }
}

} // verus!
