//! Removing what the exports have vouched for.
use vstd::prelude::*;
use vstd::string::*;

use crate::text::{
    debug_quoted, debug_text, decimal, decimal_text, in_quotes, joined, plain,
};

verus! {

/// What one removal removed.
#[derive(Clone, Copy, Debug)]
pub struct RetainReport {
    /// Events deleted, as the retention ledger recorded them.
    pub removed: u64,
    /// How many distinct streams those events were spread over: the streams that actually held
    /// something, which is at most the number asked for.
    pub streams: u64,
}

/// What the log answers to a removal under the guard of its exports.
#[derive(Debug)]
pub enum RetainOutcome {
    Removed { removed: u64, streams: u64 },
    /// The exports do not reach as far as the removal would.
    NotExported { up_to: u64, exported_through: u64 },
    /// A consumer has not folded as far as the removal would reach.
    ConsumerBehind { consumer: String, cursor: u64, up_to: u64 },
}

/// What a refusal says, with the consumer it names shown like this.
pub open spec fn refusal_said(outcome: RetainOutcome, shown: Seq<char>) -> Seq<char> {
    match outcome {
        RetainOutcome::Removed { .. } => seq![],
        RetainOutcome::NotExported { up_to, exported_through } =>
            "removing these streams would reach position "@ + decimal(up_to as nat)
                + ", and confirmed exports reach only "@ + decimal(exported_through as nat)
                + ": run export first (cards.export / store:export()), which writes the whole log to <root>/export and confirms it, and then prune again"@,
        RetainOutcome::ConsumerBehind { cursor, up_to, .. } =>
            "removing these streams would reach position "@ + decimal(up_to as nat)
                + ", and the read model "@ + shown + " has folded only to "@
                + decimal(cursor as nat)
                + ": what this removes is history it would never see. Catch it up (store:catch_up()) \u{2014} or, if "@
                + shown
                + " is a projection this build retired, reopen the store, which drags a retired cursor forward"@,
    }
}

/// The consumer a refusal names; empty where it names none.
pub open spec fn refusal_shows(outcome: RetainOutcome) -> Seq<char> {
    match outcome {
        RetainOutcome::ConsumerBehind { consumer, .. } => consumer@,
        _ => seq![],
    }
}

/// What a refusal says.
pub open spec fn refusal(outcome: RetainOutcome) -> Seq<char> {
    refusal_said(outcome, debug_text(refusal_shows(outcome)))
}

/// A removal under way, and what is done next.
#[derive(Debug)]
pub enum Retention {
    /// Fold everything into the live model: it has to have seen what announced the removal.
    CatchUp { streams: Vec<String> },
    /// Drag the retired names up again: the log has grown since they last were.
    CarryForward { streams: Vec<String> },
    /// Remove every event of these streams, if the exports vouch for them.
    Remove { streams: Vec<String> },
    /// Give the freed pages back: deleting rows hands them to the database, not to the
    /// filesystem.
    Reclaim { report: RetainReport },
    Done { report: RetainReport },
}

/// What follows a step of a removal that has no answer.
pub open spec fn after_done(r: Retention) -> Retention {
    match r {
        Retention::CatchUp { streams } => Retention::CarryForward { streams },
        Retention::CarryForward { streams } => Retention::Remove { streams },
        Retention::Remove { streams } => Retention::Remove { streams },
        Retention::Reclaim { report } => Retention::Done { report },
        Retention::Done { report } => Retention::Done { report },
    }
}

impl Retention {
    /// A removal of `streams`, at its beginning.
    pub fn new(streams: Vec<String>) -> (r: Retention)
        ensures
            r == (Retention::CatchUp { streams }),
    {
        Retention::CatchUp { streams }
    }

    /// What follows once that is done. A removal itself has an answer, which
    /// [`Retention::answered`] takes in.
    pub fn next(self) -> (r: Retention)
        requires
            !(self is Remove),
        ensures
            r == after_done(self),
    {
        match self {
            Retention::CatchUp { streams } => Retention::CarryForward { streams },
            Retention::CarryForward { streams } => Retention::Remove { streams },
            Retention::Remove { streams } => Retention::Remove { streams },
            Retention::Reclaim { report } => Retention::Done { report },
            Retention::Done { report } => Retention::Done { report },
        }
    }

    /// What follows the log's answer to the removal: the pages are given back where it was made,
    /// and a refusal says what to do about it.
    pub fn answered(self, outcome: RetainOutcome) -> (r: Result<Retention, String>)
        requires
            self is Remove,
        ensures
            match r {
                Ok(next) => outcome is Removed && next == (Retention::Reclaim {
                    report: RetainReport { removed: outcome->removed, streams: outcome->streams },
                }),
                Err(message) => {
                    &&& !(outcome is Removed)
                    &&& message@ == refusal(outcome)
                    &&& plain(refusal_shows(outcome)) ==> message@ == refusal_said(
                        outcome,
                        in_quotes(refusal_shows(outcome)),
                    )
                },
            },
    {
        match outcome {
            RetainOutcome::Removed { removed, streams } => Ok(
                Retention::Reclaim { report: RetainReport { removed, streams } },
            ),
            RetainOutcome::NotExported { up_to, exported_through } => {
                let mut out = joined(
                    "removing these streams would reach position ",
                    decimal_text(up_to).as_str(),
                );
                out.append(", and confirmed exports reach only ");
                out.append(decimal_text(exported_through).as_str());
                out.append(
                    ": run export first (cards.export / store:export()), which writes the whole log to <root>/export and confirms it, and then prune again",
                );
                Err(out)
            },
            RetainOutcome::ConsumerBehind { consumer, cursor, up_to } => {
                let quoted = debug_quoted(consumer.as_str());
                let mut out = joined(
                    "removing these streams would reach position ",
                    decimal_text(up_to).as_str(),
                );
                out.append(", and the read model ");
                out.append(quoted.as_str());
                out.append(" has folded only to ");
                out.append(decimal_text(cursor).as_str());
                out.append(
                    ": what this removes is history it would never see. Catch it up (store:catch_up()) \u{2014} or, if ",
                );
                out.append(quoted.as_str());
                out.append(
                    " is a projection this build retired, reopen the store, which drags a retired cursor forward",
                );
                Err(out)
            },
        }
    }
}

} // verus!
