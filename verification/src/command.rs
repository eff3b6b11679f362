//! Commands: what a conditional write asks the log for, and what its answer means.
use vstd::prelude::*;
use vstd::string::*;

use crate::json::{Fields, Json, Tree, Value, events_view, fields_view, text_of, text_view};
use crate::record::{
    CARD_OPENED, Committed, Event, Recorded, alias_stream, alias_stream_of, card_stream,
    card_stream_of, envelope, envelope_of, note_data, note_data_of, one_text, recorded_of,
    recorded_of_spec,
};
use crate::rule::{Rule, RuleView, UnknownDecision, allowed, binding, bound_to};
use crate::text::joined;

verus! {

/// A copy of an event.
fn copied(event: &Event) -> (r: Event)
    ensures
        fields_view(r@) == fields_view(event@),
{
    let mut out: Event = Vec::new();
    let mut i: usize = 0;
    while i < event.len()
        invariant
            i <= event@.len(),
            out@.len() == i,
            forall|j: int|
                0 <= j < i ==> (#[trigger] out@[j]).0@ == event@[j].0@ && out@[j].1@
                    == event@[j].1@,
        decreases event@.len() - i,
    {
        out.push((event[i].0.clone(), event[i].1.clone()));
        i += 1;
    }
    assert(fields_view(out@) =~= fields_view(event@));
    out
}

/// An event, the stream it is meant for, and the decision it hangs on.
#[derive(Debug)]
pub struct Proposal {
    pub stream: String,
    pub rule: Rule,
    pub event: Event,
}

/// The mathematical reading of a [`Proposal`].
pub struct ProposalView {
    pub stream: Seq<char>,
    pub rule: RuleView,
    pub event: Fields,
}

impl View for Proposal {
    type V = ProposalView;

    open spec fn view(&self) -> ProposalView {
        ProposalView { stream: self.stream@, rule: self.rule@, event: fields_view(self.event@) }
    }
}

impl Proposal {
    /// What is written behind the events the decision was shown: the event, or nothing where
    /// the decision declines.
    pub fn decide(&self, seen: &[Event]) -> (r: Option<Event>)
        ensures
            match r {
                Some(event) => allowed(self@.rule, events_view(seen@)) && fields_view(event@)
                    == self@.event,
                None => !allowed(self@.rule, events_view(seen@)),
            },
    {
        if self.rule.allows(seen) {
            Some(copied(&self.event))
        } else {
            None
        }
    }

    /// The answer to the caller: the event where it was written, nothing where the decision
    /// declined.
    pub fn answer(&self, committed: Option<Committed>) -> (r: Option<Recorded>)
        ensures
            match r {
                Some(recorded) => committed is Some && recorded@ == recorded_of_spec(
                    self@.stream,
                    self@.event,
                    committed->0,
                ),
                None => committed is None,
            },
    {
        match committed {
            Some(at) => Some(recorded_of(self.stream.as_str(), &self.event, at)),
            None => None,
        }
    }
}

/// `{kind, meta, data}` on `stream`, if `rule` says so.
pub fn decided(stream: &str, rule: Rule, kind: &str, meta: Json, data: Json) -> (r: Proposal)
    ensures
        r@ == (ProposalView {
            stream: stream@,
            rule: rule@,
            event: envelope_of(kind@, meta@, data@),
        }),
{
    Proposal { stream: stream.to_owned(), rule, event: envelope(kind, meta, data) }
}

/// `{kind, meta, data}` on `stream`, only if `decision`, folded over `stream` inside the
/// write, says so.
///
/// `decision` names one of a fixed set. A caller never passes code: a decision runs while the
/// log holds its write lock. The caller chooses; [`Rule`] decides.
pub fn append_if(stream: &str, decision: &str, kind: &str, meta: Value, data: Value) -> (r: Result<
    Proposal,
    UnknownDecision,
>)
    ensures
        match r {
            Ok(proposal) => crate::rule::decision(decision@) is Some && proposal@ == (
            ProposalView {
                stream: stream@,
                rule: crate::rule::decision(decision@)->0,
                event: envelope_of(kind@, meta@, data@),
            }),
            Err(e) => crate::rule::decision(decision@) is None && e.name@ == decision@,
        },
{
    match Rule::parse(decision) {
        Ok(rule) => Ok(decided(stream, rule, kind, meta.0, data.0)),
        Err(e) => Err(e),
    }
}

/// A card that was never opened.
#[derive(Debug)]
pub struct NoCard {
    pub card_id: String,
}

impl NoCard {
    pub fn message(&self) -> (r: String)
        ensures
            r@ == "no card "@ + self.card_id@,
    {
        joined("no card ", self.card_id.as_str())
    }
}

/// A read of the log for the opening of a card.
#[derive(Debug)]
pub struct OpeningRead {
    pub stream: String,
    /// The one kind that is read.
    pub kind: &'static str,
    /// How many events are asked for, from the beginning of the log.
    pub limit: usize,
}

/// What is read before a name is bound to `card_id`: the first opening on the card's stream.
///
/// One event is enough: the decision that writes a `card_opened` is `unwritten`, so there is at
/// most one.
pub fn opening_read(card_id: &str) -> (r: OpeningRead)
    ensures
        r.stream@ == card_stream_of(card_id@),
        r.kind@ == CARD_OPENED@,
        r.limit == 1,
{
    OpeningRead { stream: card_stream(card_id), kind: CARD_OPENED, limit: 1 }
}

/// The meta of a binding: the card, and the pkg its opening carries, where that is a text.
pub open spec fn binding_meta(card_id: Seq<char>, opened: Tree) -> Tree {
    let head = seq![("card_id"@, Tree::String(card_id))];
    match text_of(Some(opened), "pkg"@) {
        Some(pkg) => Tree::Object(head.push(("pkg"@, Tree::String(pkg)))),
        None => Tree::Object(head),
    }
}

/// The event that binds a name to `card_id`.
pub open spec fn bound_event(card_id: Seq<char>, opened: Tree, note: Option<Seq<char>>) -> Fields {
    envelope_of("alias_bound"@, binding_meta(card_id, opened), note_data_of(note))
}

/// Bind `name` to `card_id`, if that card was opened and the name does not already mean it.
///
/// `opened` is the `card_opened` of that card, as the caller read it by [`opening_read`] under
/// the lock it then writes under. An alias points only at a card that exists, and that
/// spans two streams where a decision folds one; so a bind without the card is refused here,
/// before there is anything to decide.
///
/// A name that already means that card asks for a state that holds, so the decision declines
/// and nothing is written. Rebinding to a *different* card appends another `alias_bound` on
/// the same stream, which is what keeps the history.
pub fn bind_alias(
    name: &str,
    card_id: &str,
    note: Option<String>,
    opened: Option<&Recorded>,
) -> (r: Result<Proposal, NoCard>)
    ensures
        match r {
            Ok(proposal) => opened is Some && proposal@ == (ProposalView {
                stream: alias_stream_of(name@),
                rule: RuleView::AliasNot(card_id@),
                event: bound_event(card_id@, opened->0@.meta, text_view(note)),
            }),
            Err(e) => opened is None && e.card_id@ == card_id@,
        },
{
    let opened = match opened {
        Some(opened) => opened,
        None => {
            return Err(NoCard { card_id: card_id.to_owned() });
        },
    };
    let mut meta: Event = Vec::new();
    meta.push(("card_id".to_owned(), Json::String(card_id.to_owned())));
    // The pkg is the card's own, read off the event that opened it. Taking it from the caller
    // would let the two disagree about one thing.
    match crate::json::text(Some(&opened.meta.0), "pkg") {
        Some(pkg) => {
            meta.push(("pkg".to_owned(), Json::String(pkg)));
        },
        None => {},
    }
    let meta = Json::Object(meta);
    proof {
        crate::json::lemma_object_view(meta);
        assert(meta@->Object_0 =~= binding_meta(card_id@, opened@.meta)->Object_0);
    }
    Ok(
        decided(
            alias_stream(name).as_str(),
            Rule::AliasNot(card_id.to_owned()),
            "alias_bound",
            meta,
            note_data(note),
        ),
    )
}

/// The event that releases a name from `card_id`, with its data as it is.
pub open spec fn release_of(card_id: Seq<char>, data: Tree) -> Fields {
    envelope_of("alias_released"@, Tree::Object(seq![("card_id"@, Tree::String(card_id))]), data)
}

/// The event that releases a name from `card_id`.
pub open spec fn released_event(card_id: Seq<char>, note: Option<Seq<char>>) -> Fields {
    release_of(card_id, note_data_of(note))
}

/// A release of an alias, before the log has said what it releases.
#[derive(Debug)]
pub struct Release {
    pub stream: String,
    pub data: Json,
}

/// An `alias_released` landed that was not built here.
#[derive(Debug)]
pub struct NotBuilt {
    pub stream: String,
}

impl NotBuilt {
    pub fn message(&self) -> (r: String)
        ensures
            r@ == "an alias_released landed on "@ + self.stream@
                + " that this store did not build"@,
    {
        let mut out = joined("an alias_released landed on ", self.stream.as_str());
        out.append(" that this store did not build");
        out
    }
}

/// Release `name`, if it currently means anything.
pub fn release_alias(name: &str, note: Option<String>) -> (r: Release)
    ensures
        r.stream@ == alias_stream_of(name@),
        r.data@ == note_data_of(text_view(note)),
{
    Release { stream: alias_stream(name), data: note_data(note) }
}

impl Release {
    /// The decision the release hangs on: that the alias means something.
    pub fn rule(&self) -> (r: Rule)
        ensures
            r@ == RuleView::AliasBound,
    {
        Rule::AliasBound
    }

    /// The event that is written behind what the decision was shown, or nothing where the
    /// name means nothing.
    ///
    /// The card_id comes out of the same fold that decides, not out of a read before it: the
    /// fold runs while the log holds the write lock, so the id the event carries is the
    /// binding that was there when it was released.
    pub fn decide(&self, seen: &[Event]) -> (r: Option<Event>)
        ensures
            match (r, binding(events_view(seen@))) {
                (Some(event), Some(card_id)) => fields_view(event@) == release_of(
                    card_id,
                    self.data@,
                ),
                (None, None) => true,
                _ => false,
            },
            r is Some <==> allowed(RuleView::AliasBound, events_view(seen@)),
    {
        match bound_to(seen) {
            Some(card_id) => Some(
                envelope("alias_released", one_text("card_id", card_id), self.data.clone()),
            ),
            None => None,
        }
    }

    /// The answer to the caller: the event where one was written, nothing where the decision
    /// declined. `built` is what [`Release::decide`] returned inside the write.
    pub fn answer(&self, built: Option<Event>, committed: Option<Committed>) -> (r: Result<
        Option<Recorded>,
        NotBuilt,
    >)
        ensures
            match r {
                Ok(Some(recorded)) => built is Some && committed is Some && recorded@
                    == recorded_of_spec(self.stream@, fields_view(built->0@), committed->0),
                Ok(None) => committed is None,
                Err(e) => committed is Some && built is None && e.stream@ == self.stream@,
            },
    {
        match committed {
            None => Ok(None),
            Some(at) => match built {
                Some(event) => Ok(Some(recorded_of(self.stream.as_str(), &event, at))),
                None => Err(NotBuilt { stream: self.stream.clone() }),
            },
        }
    }
}

} // verus!
