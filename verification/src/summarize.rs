//! A one-line-summary pass over the fleet: whether it can run, what each
//! generated answer contributes, and the outcome reported to the user. The
//! generation itself (HTTP to the model) and the cache writes are I/O.
use vstd::prelude::*;

use crate::text::{chars_of, string_from, trim, trim_chars};

verus! {

/// The result of a pass.
#[derive(Debug, Clone, PartialEq, Eq)]
pub enum SummarizeOutcome {
    /// AI disabled, unreachable, or no chat model installed; the reason.
    Unavailable(String),
    /// Every repo already has a current cached summary.
    UpToDate,
    /// This many summaries were (re)generated.
    Updated(usize),
}

/// Whether a pass can run: the chat model to use, or why not.
pub fn pass_model(ai_enabled: bool, model: Option<String>) -> (r: Result<String, SummarizeOutcome>)
    ensures
        !ai_enabled ==> (r matches Err(SummarizeOutcome::Unavailable(m)) && m@ == "AI is disabled"@),
        ai_enabled && model is None ==> (r matches Err(SummarizeOutcome::Unavailable(m)) && m@
            == "No AI model available"@),
        ai_enabled && model is Some ==> r == Ok::<String, SummarizeOutcome>(model->0),
{
    if !ai_enabled {
        return Err(SummarizeOutcome::Unavailable(string_from(&chars_of("AI is disabled"))));
    }
    match model {
        Some(m) => Ok(m),
        None => Err(SummarizeOutcome::Unavailable(string_from(&chars_of("No AI model available")))),
    }
}

/// Progress of a pass: repos attempted (no current cached summary) and
/// summaries stored.
#[derive(Debug, Clone, Copy)]
pub struct SummarizePass {
    pub attempted: usize,
    pub done: usize,
}

impl SummarizePass {
    pub open spec fn wf(self) -> bool {
        self.done <= self.attempted
    }

    /// A pass that has done nothing yet.
    pub fn new() -> (r: Self)
        ensures
            r.attempted == 0 && r.done == 0,
            r.wf(),
    {
        SummarizePass { attempted: 0, done: 0 }
    }

    /// Record one repo's generation result; returns the summary to store (the
    /// trimmed answer), or `None` when the answer failed or was blank.
    pub fn record(&mut self, result: Result<String, String>) -> (r: Option<String>)
        requires
            old(self).wf(),
            old(self).attempted < usize::MAX,
        ensures
            final(self).wf(),
            final(self).attempted == old(self).attempted + 1,
            match result {
                Ok(text) => if trim(text@).len() > 0 {
                    r matches Some(s) && s@ == trim(text@) && final(self).done == old(self).done + 1
                } else {
                    r is None && final(self).done == old(self).done
                },
                Err(_) => r is None && final(self).done == old(self).done,
            },
    {
        self.attempted = self.attempted + 1;
        match result {
            Ok(text) => {
                let t = trim_chars(&chars_of(text.as_str()));
                if t.len() > 0 {
                    self.done = self.done + 1;
                    Some(string_from(&t))
                } else {
                    None
                }
            },
            Err(_) => None,
        }
    }

    /// The outcome of the finished pass.
    pub fn outcome(&self) -> (r: SummarizeOutcome)
        ensures
            self.attempted == 0 ==> r == SummarizeOutcome::UpToDate,
            self.attempted > 0 && self.done == 0 ==> (r matches SummarizeOutcome::Unavailable(m) && m@
                == "Couldn't generate summaries"@),
            self.attempted > 0 && self.done > 0 ==> r == SummarizeOutcome::Updated(self.done),
    {
        if self.attempted == 0 {
            SummarizeOutcome::UpToDate
        } else if self.done == 0 {
            SummarizeOutcome::Unavailable(string_from(&chars_of("Couldn't generate summaries")))
        } else {
            SummarizeOutcome::Updated(self.done)
        }
    }
}

} // verus!
