//! Decisions: the fixed set of folds a conditional write runs over its stream.
use vstd::prelude::*;
use vstd::string::*;

use crate::json::{Fields, events_view, fields_view, get, lookup, text, text_of, text_view};
use crate::record::{Event, event_kind, kind_of};
use crate::text::{debug_quoted, debug_text, in_quotes, joined, plain, same};

verus! {

/// The fixed set of folds a conditional write will run.
///
/// Each one is a question about a stream that has to be answered at the instant the write
/// lands, and each names the kinds it needs: the fold is shown only those, which is the
/// difference between reading a long stream and reading three events of it.
///
/// The first four are what [`Rule::parse`] looks up by name. The two alias folds are not:
/// they are reached only through [`crate::command::bind_alias`] and
/// [`crate::command::release_alias`], because a bind that skipped the card read that comes
/// first would leave a name pointing at nothing.
#[derive(Debug)]
pub enum Rule {
    /// Nothing has been recorded on this stream yet.
    Unwritten,
    /// A `card_opened` is on the stream and no `card_closed` is.
    OpenUnclosed,
    /// No `card_closed` is on the stream. The fold a close itself runs.
    ClosedAbsent,
    /// A `card_opened` is on the stream, whatever came after it. The fold an assessment and a
    /// tag run: those are said *about* a run, not produced by it, so a close does not end
    /// them the way it ends samples and checkpoints.
    Opened,
    /// This alias does not currently mean this card: either it means another one or it means
    /// nothing. The fold a bind runs.
    AliasNot(String),
    /// This alias currently means something. The fold a release runs.
    AliasBound,
}

/// The mathematical reading of a [`Rule`].
pub enum RuleView {
    Unwritten,
    OpenUnclosed,
    ClosedAbsent,
    Opened,
    AliasNot(Seq<char>),
    AliasBound,
}

impl View for Rule {
    type V = RuleView;

    open spec fn view(&self) -> RuleView {
        match self {
            Rule::Unwritten => RuleView::Unwritten,
            Rule::OpenUnclosed => RuleView::OpenUnclosed,
            Rule::ClosedAbsent => RuleView::ClosedAbsent,
            Rule::Opened => RuleView::Opened,
            Rule::AliasNot(id) => RuleView::AliasNot(id@),
            Rule::AliasBound => RuleView::AliasBound,
        }
    }
}

impl Clone for Rule {
    fn clone(&self) -> (r: Self)
        ensures
            r@ == self@,
    {
        match self {
            Rule::Unwritten => Rule::Unwritten,
            Rule::OpenUnclosed => Rule::OpenUnclosed,
            Rule::ClosedAbsent => Rule::ClosedAbsent,
            Rule::Opened => Rule::Opened,
            Rule::AliasNot(id) => Rule::AliasNot(id.clone()),
            Rule::AliasBound => Rule::AliasBound,
        }
    }
}

/// A decision that is not one of the set.
#[derive(Debug)]
pub struct UnknownDecision {
    pub name: String,
}

/// What is said of a decision that is not one of the set, its name shown like this.
pub open spec fn unknown_said(shown: Seq<char>) -> Seq<char> {
    "unknown decision "@ + shown + "; the decisions this store knows are "@ + Rule::KNOWN@
}

impl UnknownDecision {
    /// The refusal, naming the decisions there are.
    pub fn message(&self) -> (r: String)
        ensures
            r@ == unknown_said(debug_text(self.name@)),
            plain(self.name@) ==> r@ == unknown_said(in_quotes(self.name@)),
    {
        let mut out = joined("unknown decision ", debug_quoted(self.name.as_str()).as_str());
        out.append("; the decisions this store knows are ");
        out.append(Rule::KNOWN);
        out
    }
}

/// The decision called `name`.
pub open spec fn decision(name: Seq<char>) -> Option<RuleView> {
    if name == "unwritten"@ {
        Some(RuleView::Unwritten)
    } else if name == "open_unclosed"@ {
        Some(RuleView::OpenUnclosed)
    } else if name == "closed_absent"@ {
        Some(RuleView::ClosedAbsent)
    } else if name == "opened"@ {
        Some(RuleView::Opened)
    } else {
        None
    }
}

/// The kinds a fold is shown; nothing where it is shown the whole stream.
pub open spec fn kinds_of(rule: RuleView) -> Option<Seq<Seq<char>>> {
    match rule {
        RuleView::Unwritten => None,
        RuleView::OpenUnclosed => Some(seq!["card_opened"@, "card_closed"@]),
        RuleView::ClosedAbsent => Some(seq!["card_closed"@]),
        RuleView::Opened => Some(seq!["card_opened"@]),
        RuleView::AliasNot(_) => Some(seq!["alias_bound"@, "alias_released"@]),
        RuleView::AliasBound => Some(seq!["alias_bound"@, "alias_released"@]),
    }
}

/// The reading of a list of names.
pub open spec fn names_view(names: Seq<&'static str>) -> Seq<Seq<char>> {
    Seq::new(names.len(), |i: int| names[i]@)
}

/// Whether an event of this kind is among `events`.
pub open spec fn has_kind(events: Seq<Fields>, kind: Seq<char>) -> bool {
    exists|i: int| 0 <= i < events.len() && kind_of(#[trigger] events[i]) == kind
}

/// What an alias means after `events` of its stream: the card of the last `alias_bound` not
/// undone by an `alias_released`, or nothing.
pub open spec fn binding(events: Seq<Fields>) -> Option<Seq<char>>
    decreases events.len(),
{
    if events.len() == 0 {
        None
    } else if kind_of(events.last()) == "alias_bound"@ {
        text_of(lookup(events.last(), "meta"@), "card_id"@)
    } else if kind_of(events.last()) == "alias_released"@ {
        None
    } else {
        binding(events.drop_last())
    }
}

/// Whether `rule` lets a write land behind `events`.
pub open spec fn allowed(rule: RuleView, events: Seq<Fields>) -> bool {
    match rule {
        RuleView::Unwritten => events.len() == 0,
        RuleView::OpenUnclosed => has_kind(events, "card_opened"@) && !has_kind(
            events,
            "card_closed"@,
        ),
        RuleView::ClosedAbsent => !has_kind(events, "card_closed"@),
        RuleView::Opened => has_kind(events, "card_opened"@),
        RuleView::AliasNot(id) => binding(events) != Some(id),
        RuleView::AliasBound => binding(events) is Some,
    }
}

/// What `alias-<name>` currently means: the card_id of the last `alias_bound` not undone by
/// an `alias_released`, or nothing.
///
/// The fold both alias decisions are. An `alias_bound` with no `meta.card_id` reads as
/// unbound here rather than as a binding to nothing; the projection reports the same event as
/// corrupt when it folds it, which is where a reader would want to hear about it.
pub fn bound_to(seen: &[Event]) -> (r: Option<String>)
    ensures
        text_view(r) == binding(events_view(seen@)),
{
    let mut bound: Option<String> = None;
    let mut i: usize = 0;
    let ghost all = events_view(seen@);
    while i < seen.len()
        invariant
            i <= seen@.len(),
            all == events_view(seen@),
            text_view(bound) == binding(all.take(i as int)),
        decreases seen@.len() - i,
    {
        let kind = event_kind(&seen[i]);
        if same(kind.as_str(), "alias_bound") {
            bound = text(get(&seen[i], "meta"), "card_id");
        } else if same(kind.as_str(), "alias_released") {
            bound = None;
        }
        assert(all.take(i + 1).drop_last() =~= all.take(i as int));
        assert(all.take(i + 1).last() == fields_view(seen@[i as int]@));
        i += 1;
    }
    assert(all.take(seen@.len() as int) =~= all);
    bound
}

/// Whether an event of this kind is among `seen`.
fn any_of_kind(seen: &[Event], kind: &str) -> (r: bool)
    ensures
        r == has_kind(events_view(seen@), kind@),
{
    let mut i: usize = 0;
    let ghost all = events_view(seen@);
    while i < seen.len()
        invariant
            i <= seen@.len(),
            all == events_view(seen@),
            forall|j: int| 0 <= j < i ==> kind_of(#[trigger] all[j]) != kind@,
        decreases seen@.len() - i,
    {
        if same(event_kind(&seen[i]).as_str(), kind) {
            assert(kind_of(all[i as int]) == kind@);
            return true;
        }
        assert(kind_of(all[i as int]) != kind@);
        i += 1;
    }
    false
}

impl Rule {
    pub const KNOWN: &'static str =
        "\"unwritten\", \"open_unclosed\", \"closed_absent\", \"opened\"";

    /// The decision called `name`.
    pub fn parse(name: &str) -> (r: Result<Rule, UnknownDecision>)
        ensures
            match r {
                Ok(rule) => decision(name@) == Some(rule@),
                Err(e) => decision(name@) is None && e.name@ == name@,
            },
    {
        if same(name, "unwritten") {
            Ok(Rule::Unwritten)
        } else if same(name, "open_unclosed") {
            Ok(Rule::OpenUnclosed)
        } else if same(name, "closed_absent") {
            Ok(Rule::ClosedAbsent)
        } else if same(name, "opened") {
            Ok(Rule::Opened)
        } else {
            Err(UnknownDecision { name: name.to_owned() })
        }
    }

    /// What the fold is shown. `None` is the whole stream.
    pub fn kinds(&self) -> (r: Option<Vec<&'static str>>)
        ensures
            match r {
                Some(kinds) => kinds_of(self@) == Some(names_view(kinds@)),
                None => kinds_of(self@) is None,
            },
    {
        let mut kinds: Vec<&'static str> = Vec::new();
        match self {
            // Unwritten asks whether anything is there, so it cannot name kinds: a stream
            // holding only events of other kinds would read as empty.
            Rule::Unwritten => {
                return None;
            },
            Rule::OpenUnclosed => {
                kinds.push("card_opened");
                kinds.push("card_closed");
            },
            Rule::ClosedAbsent => {
                kinds.push("card_closed");
            },
            Rule::Opened => {
                kinds.push("card_opened");
            },
            Rule::AliasNot(_) => {
                kinds.push("alias_bound");
                kinds.push("alias_released");
            },
            Rule::AliasBound => {
                kinds.push("alias_bound");
                kinds.push("alias_released");
            },
        }
        assert(names_view(kinds@) =~= kinds_of(self@)->0);
        Some(kinds)
    }

    /// Whether a write may land behind what was seen.
    pub fn allows(&self, seen: &[Event]) -> (r: bool)
        ensures
            r == allowed(self@, events_view(seen@)),
    {
        match self {
            Rule::Unwritten => seen.len() == 0,
            Rule::OpenUnclosed => any_of_kind(seen, "card_opened") && !any_of_kind(
                seen,
                "card_closed",
            ),
            Rule::ClosedAbsent => !any_of_kind(seen, "card_closed"),
            Rule::Opened => any_of_kind(seen, "card_opened"),
            Rule::AliasNot(card_id) => match bound_to(seen) {
                Some(bound) => !same(bound.as_str(), card_id.as_str()),
                None => true,
            },
            Rule::AliasBound => bound_to(seen).is_some(),
        }
    }
}

} // verus!
