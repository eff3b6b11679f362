//! What the decisions promise of a log: laws over histories, stream by stream.
use vstd::prelude::*;
use vstd::string::*;

use crate::command::{binding_meta, bound_event, released_event};
use crate::json::{Fields, Tree, lookup, text_of};
use crate::projection::lemma_kinds_differ;
use crate::reading::selected;
use crate::record::{
    CARD_OPENED, Placed, alias_stream_of, card_stream_of, kind_of, lemma_field_names,
    recorded_from_spec,
};
use crate::rule::{RuleView, allowed, binding, decision, has_kind, kinds_of};
use crate::tables::entries;

verus! {

/// One event of a log, and the stream it is on.
pub struct Entry {
    pub stream: Seq<char>,
    pub event: Fields,
}

/// The events of one stream, in the order the log holds them.
pub open spec fn on_stream(log: Seq<Entry>, stream: Seq<char>) -> Seq<Fields>
    decreases log.len(),
{
    if log.len() == 0 {
        seq![]
    } else if log.last().stream == stream {
        on_stream(log.drop_last(), stream).push(log.last().event)
    } else {
        on_stream(log.drop_last(), stream)
    }
}

/// The events whose kind is one of `kinds`.
pub open spec fn of_kinds(events: Seq<Fields>, kinds: Seq<Seq<char>>) -> Seq<Fields>
    decreases events.len(),
{
    if events.len() == 0 {
        seq![]
    } else if kinds.contains(kind_of(events.last())) {
        of_kinds(events.drop_last(), kinds).push(events.last())
    } else {
        of_kinds(events.drop_last(), kinds)
    }
}

/// What a decision is shown of a stream: the kinds it names, or all of it where it names none.
pub open spec fn shown(rule: RuleView, events: Seq<Fields>) -> Seq<Fields> {
    match kinds_of(rule) {
        Some(kinds) => of_kinds(events, kinds),
        None => events,
    }
}

/// A log after a conditional write: with the event behind it where the decision allows it,
/// and as it was where the decision declines.
pub open spec fn after(log: Seq<Entry>, stream: Seq<char>, rule: RuleView, event: Fields) -> Seq<
    Entry,
> {
    if allowed(rule, shown(rule, on_stream(log, stream))) {
        log.push(Entry { stream, event })
    } else {
        log
    }
}

proof fn lemma_of_kinds_keeps(events: Seq<Fields>, kinds: Seq<Seq<char>>, kind: Seq<char>)
    requires
        kinds.contains(kind),
    ensures
        has_kind(of_kinds(events, kinds), kind) == has_kind(events, kind),
    decreases events.len(),
{
    if events.len() > 0 {
        let front = events.drop_last();
        lemma_of_kinds_keeps(front, kinds, kind);
        lemma_has_kind_push(front, events.last(), kind);
        assert(events =~= front.push(events.last()));
        if kinds.contains(kind_of(events.last())) {
            lemma_has_kind_push(of_kinds(front, kinds), events.last(), kind);
        }
    }
}

/// One more event brings its own kind and no other.
pub proof fn lemma_has_kind_push(events: Seq<Fields>, event: Fields, kind: Seq<char>)
    ensures
        has_kind(events.push(event), kind) == (has_kind(events, kind) || kind_of(event) == kind),
{
    let longer = events.push(event);
    if has_kind(events, kind) {
        let i = choose|i: int| 0 <= i < events.len() && kind_of(#[trigger] events[i]) == kind;
        assert(kind_of(longer[i]) == kind);
    }
    if kind_of(event) == kind {
        assert(kind_of(longer[events.len() as int]) == kind);
    }
    if has_kind(longer, kind) {
        let i = choose|i: int| 0 <= i < longer.len() && kind_of(#[trigger] longer[i]) == kind;
        if i < events.len() {
            assert(kind_of(events[i]) == kind);
        }
    }
}

proof fn lemma_has_kind_concat(before: Seq<Fields>, later: Seq<Fields>, kind: Seq<char>)
    ensures
        has_kind(before + later, kind) == (has_kind(before, kind) || has_kind(later, kind)),
{
    let whole = before + later;
    if has_kind(before, kind) {
        let i = choose|i: int| 0 <= i < before.len() && kind_of(#[trigger] before[i]) == kind;
        assert(kind_of(whole[i]) == kind);
    }
    if has_kind(later, kind) {
        let i = choose|i: int| 0 <= i < later.len() && kind_of(#[trigger] later[i]) == kind;
        assert(kind_of(whole[before.len() + i]) == kind);
    }
    if has_kind(whole, kind) {
        let i = choose|i: int| 0 <= i < whole.len() && kind_of(#[trigger] whole[i]) == kind;
        if i < before.len() {
            assert(kind_of(before[i]) == kind);
        } else {
            assert(kind_of(later[i - before.len()]) == kind);
        }
    }
}

proof fn lemma_of_kinds_binding(events: Seq<Fields>, kinds: Seq<Seq<char>>)
    requires
        kinds.contains("alias_bound"@),
        kinds.contains("alias_released"@),
    ensures
        binding(of_kinds(events, kinds)) == binding(events),
    decreases events.len(),
{
    if events.len() > 0 {
        lemma_of_kinds_binding(events.drop_last(), kinds);
        if kinds.contains(kind_of(events.last())) {
            let kept = of_kinds(events.drop_last(), kinds);
            assert(kept.push(events.last()).drop_last() =~= kept);
        }
    }
}

/// A decision loses nothing by being shown only the kinds it names: it decides as it would
/// over the whole stream.
pub proof fn law_kinds_are_enough(rule: RuleView, events: Seq<Fields>)
    ensures
        allowed(rule, shown(rule, events)) == allowed(rule, events),
{
    match rule {
        RuleView::Unwritten => {},
        RuleView::OpenUnclosed => {
            let kinds = kinds_of(rule)->0;
            assert(kinds[0] == "card_opened"@ && kinds[1] == "card_closed"@);
            lemma_of_kinds_keeps(events, kinds, "card_opened"@);
            lemma_of_kinds_keeps(events, kinds, "card_closed"@);
        },
        RuleView::ClosedAbsent => {
            let kinds = kinds_of(rule)->0;
            assert(kinds[0] == "card_closed"@);
            lemma_of_kinds_keeps(events, kinds, "card_closed"@);
        },
        RuleView::Opened => {
            let kinds = kinds_of(rule)->0;
            assert(kinds[0] == "card_opened"@);
            lemma_of_kinds_keeps(events, kinds, "card_opened"@);
        },
        _ => {
            let kinds = kinds_of(rule)->0;
            assert(kinds[0] == "alias_bound"@ && kinds[1] == "alias_released"@);
            lemma_of_kinds_binding(events, kinds);
        },
    }
}

/// `unwritten` accepts once: whatever is written on a stream, and whatever follows it, the
/// decision declines from there on.
pub proof fn law_unwritten_accepts_once(before: Seq<Fields>, event: Fields, later: Seq<Fields>)
    ensures
        !allowed(RuleView::Unwritten, before.push(event) + later),
{
}

/// A close is final: behind a `card_closed` neither the window of an open card nor a second
/// close is allowed, whatever follows.
pub proof fn law_close_is_final(before: Seq<Fields>, close: Fields, later: Seq<Fields>)
    requires
        kind_of(close) == "card_closed"@,
    ensures
        !allowed(RuleView::OpenUnclosed, before.push(close) + later),
        !allowed(RuleView::ClosedAbsent, before.push(close) + later),
{
    lemma_has_kind_push(before, close, "card_closed"@);
    lemma_has_kind_concat(before.push(close), later, "card_closed"@);
}

/// A card that was opened stays opened: what is said about a run is allowed behind its close
/// as it was before it.
pub proof fn law_opened_outlives_the_close(before: Seq<Fields>, later: Seq<Fields>)
    requires
        allowed(RuleView::Opened, before),
    ensures
        allowed(RuleView::Opened, before + later),
{
    lemma_has_kind_concat(before, later, "card_opened"@);
}

/// The window of a card is exactly what lies between its opening and its close.
pub proof fn law_open_window(before: Seq<Fields>, open: Fields, between: Seq<Fields>)
    requires
        kind_of(open) == "card_opened"@,
        !has_kind(before, "card_opened"@),
    ensures
        !allowed(RuleView::OpenUnclosed, before),
        !allowed(RuleView::Opened, before),
        allowed(RuleView::OpenUnclosed, before.push(open) + between) <==> !has_kind(
            before,
            "card_closed"@,
        ) && !has_kind(between, "card_closed"@),
        allowed(RuleView::Opened, before.push(open) + between),
{
    lemma_kinds_differ();
    lemma_has_kind_push(before, open, "card_opened"@);
    lemma_has_kind_push(before, open, "card_closed"@);
    lemma_has_kind_concat(before.push(open), between, "card_opened"@);
    lemma_has_kind_concat(before.push(open), between, "card_closed"@);
}

/// A binding carries its card where the fold looks for it.
proof fn lemma_bound_event(card_id: Seq<char>, opened: Tree, note: Option<Seq<char>>)
    ensures
        kind_of(bound_event(card_id, opened, note)) == "alias_bound"@,
        text_of(lookup(bound_event(card_id, opened, note), "meta"@), "card_id"@) == Some(card_id),
{
    lemma_field_names();
    reveal_with_fuel(lookup, 4);
    let event = bound_event(card_id, opened, note);
    assert(event[0].0 == "kind"@);
    assert(event[1] == ("meta"@, binding_meta(card_id, opened)));
    assert(event.drop_first()[0] == event[1]);
    assert(binding_meta(card_id, opened)->Object_0[0] == ("card_id"@, Tree::String(card_id)));
}

/// A release is a release.
proof fn lemma_released_event(card_id: Seq<char>, note: Option<Seq<char>>)
    ensures
        kind_of(released_event(card_id, note)) == "alias_released"@,
{
    let event = released_event(card_id, note);
    assert(event[0] == ("kind"@, Tree::String("alias_released"@)));
}

/// After a bind the name means the card it was bound to, so binding it there again is
/// declined, while binding it anywhere else is allowed without a release.
pub proof fn law_bind_is_idempotent(
    before: Seq<Fields>,
    card_id: Seq<char>,
    opened: Tree,
    note: Option<Seq<char>>,
    other: Seq<char>,
)
    ensures
        ({
            let events = before.push(bound_event(card_id, opened, note));
            &&& binding(events) == Some(card_id)
            &&& !allowed(RuleView::AliasNot(card_id), events)
            &&& other != card_id ==> allowed(RuleView::AliasNot(other), events)
            &&& allowed(RuleView::AliasBound, events)
        }),
{
    lemma_bound_event(card_id, opened, note);
}

/// After a release the name means nothing, so a second release is declined and a bind to any
/// card is allowed.
pub proof fn law_release_frees_the_name(
    before: Seq<Fields>,
    card_id: Seq<char>,
    note: Option<Seq<char>>,
    other: Seq<char>,
)
    ensures
        ({
            let events = before.push(released_event(card_id, note));
            &&& binding(events) is None
            &&& !allowed(RuleView::AliasBound, events)
            &&& allowed(RuleView::AliasNot(other), events)
        }),
{
    lemma_kinds_differ();
    lemma_released_event(card_id, note);
}

/// Only a bind and a release move a name: no event of another kind does.
pub proof fn law_other_kinds_leave_the_binding(before: Seq<Fields>, event: Fields)
    requires
        kind_of(event) != "alias_bound"@,
        kind_of(event) != "alias_released"@,
    ensures
        binding(before.push(event)) == binding(before),
{
    assert(before.push(event).drop_last() =~= before);
}

/// No name reaches the decisions of the aliases: what [`crate::command::append_if`] looks up is
/// never one of them, so a bind goes through the read of its card.
pub proof fn law_alias_decisions_have_no_name(name: Seq<char>)
    ensures
        match decision(name) {
            Some(rule) => !(rule is AliasNot) && !(rule is AliasBound),
            None => true,
        },
{
}

/// A bind that names no card means nothing: the name reads as unbound behind it.
pub proof fn law_a_bind_to_nothing_is_unbound(before: Seq<Fields>, event: Fields)
    requires
        kind_of(event) == "alias_bound"@,
        text_of(lookup(event, "meta"@), "card_id"@) is None,
    ensures
        binding(before.push(event)) is None,
{
}

/// A conditional write touches its own stream and no other, and a declined one touches none:
/// the log only ever grows.
pub proof fn law_a_write_is_one_event(
    log: Seq<Entry>,
    stream: Seq<char>,
    rule: RuleView,
    event: Fields,
    other: Seq<char>,
)
    ensures
        on_stream(after(log, stream, rule, event), stream) == if allowed(
            rule,
            on_stream(log, stream),
        ) {
            on_stream(log, stream).push(event)
        } else {
            on_stream(log, stream)
        },
        other != stream ==> on_stream(after(log, stream, rule, event), other) == on_stream(
            log,
            other,
        ),
        log.is_prefix_of(after(log, stream, rule, event)),
{
    law_kinds_are_enough(rule, on_stream(log, stream));
    let longer = log.push(Entry { stream, event });
    assert(longer.drop_last() =~= log);
}

/// At most one `card_opened` is on the stream.
pub open spec fn one_open(events: Seq<Fields>) -> bool {
    forall|i: int, j: int|
        0 <= i < j < events.len() && kind_of(#[trigger] events[i]) == "card_opened"@ ==> kind_of(
            #[trigger] events[j],
        ) != "card_opened"@
}

/// A card is opened at most once, as long as its openings are written under `unwritten`.
pub proof fn law_one_open(log: Seq<Entry>, stream: Seq<char>, rule: RuleView, event: Fields)
    requires
        one_open(on_stream(log, stream)),
        kind_of(event) == "card_opened"@ ==> rule is Unwritten,
    ensures
        one_open(on_stream(after(log, stream, rule, event), stream)),
{
    law_a_write_is_one_event(log, stream, rule, event, stream);
}

/// Every name that means a card means one that was opened.
pub open spec fn no_dangling_alias(log: Seq<Entry>) -> bool {
    forall|name: Seq<char>|
        match #[trigger] binding(on_stream(log, alias_stream_of(name))) {
            Some(card_id) => has_kind(on_stream(log, card_stream_of(card_id)), "card_opened"@),
            None => true,
        }
}

/// One more event never takes a kind off a stream.
proof fn lemma_kind_stays(log: Seq<Entry>, entry: Entry, stream: Seq<char>, kind: Seq<char>)
    requires
        has_kind(on_stream(log, stream), kind),
    ensures
        has_kind(on_stream(log.push(entry), stream), kind),
{
    assert(log.push(entry).drop_last() =~= log);
    lemma_has_kind_push(on_stream(log, stream), entry.event, kind);
}

/// A bind of a card that was opened leaves no name dangling.
pub proof fn law_bind_does_not_dangle(
    log: Seq<Entry>,
    name: Seq<char>,
    card_id: Seq<char>,
    opened: Tree,
    note: Option<Seq<char>>,
)
    requires
        no_dangling_alias(log),
        has_kind(on_stream(log, card_stream_of(card_id)), "card_opened"@),
    ensures
        no_dangling_alias(
            after(
                log,
                alias_stream_of(name),
                RuleView::AliasNot(card_id),
                bound_event(card_id, opened, note),
            ),
        ),
{
    let event = bound_event(card_id, opened, note);
    let entry = Entry { stream: alias_stream_of(name), event };
    let longer = log.push(entry);
    lemma_bound_event(card_id, opened, note);
    assert(longer.drop_last() =~= log);
    assert forall|n: Seq<char>| match #[trigger] binding(on_stream(longer, alias_stream_of(n))) {
        Some(id) => has_kind(on_stream(longer, card_stream_of(id)), "card_opened"@),
        None => true,
    } by {
        if alias_stream_of(n) == alias_stream_of(name) {
            lemma_kind_stays(log, entry, card_stream_of(card_id), "card_opened"@);
        } else {
            match binding(on_stream(log, alias_stream_of(n))) {
                Some(id) => {
                    lemma_kind_stays(log, entry, card_stream_of(id), "card_opened"@);
                },
                None => {},
            }
        }
    }
}

/// Nothing but an `alias_bound` can leave a name dangling: any other event, on any stream,
/// keeps every name on a card that was opened.
pub proof fn law_only_a_bind_points(log: Seq<Entry>, entry: Entry)
    requires
        no_dangling_alias(log),
        kind_of(entry.event) != "alias_bound"@,
    ensures
        no_dangling_alias(log.push(entry)),
{
    let longer = log.push(entry);
    assert(longer.drop_last() =~= log);
    assert forall|n: Seq<char>| match #[trigger] binding(on_stream(longer, alias_stream_of(n))) {
        Some(id) => has_kind(on_stream(longer, card_stream_of(id)), "card_opened"@),
        None => true,
    } by {
        let events = on_stream(log, alias_stream_of(n));
        assert(events.push(entry.event).drop_last() =~= events);
        match binding(events) {
            Some(id) => {
                lemma_kind_stays(log, entry, card_stream_of(id), "card_opened"@);
            },
            None => {},
        }
    }
}

/// What the read that guards a bind is given: the first events the log holds of the card's
/// stream and of the one kind, no more than were asked for.
pub open spec fn opening_page(log: Seq<Placed>, card_id: Seq<char>, limit: nat) -> Seq<Placed> {
    let all = selected(log, card_stream_of(card_id), Some(seq![CARD_OPENED@]));
    if all.len() <= limit {
        all
    } else {
        all.take(limit as int)
    }
}

/// A read of the openings on a card's stream finds one exactly where the card was opened.
pub proof fn law_an_opening_is_found_where_there_is_one(log: Seq<Placed>, card_id: Seq<char>)
    ensures
        selected(log, card_stream_of(card_id), Some(seq![CARD_OPENED@])).len() > 0 <==> has_kind(
            on_stream(entries(log), card_stream_of(card_id)),
            "card_opened"@,
        ),
        forall|i: int|
            0 <= i < selected(log, card_stream_of(card_id), Some(seq![CARD_OPENED@])).len()
                ==> kind_of(
                (#[trigger] selected(log, card_stream_of(card_id), Some(seq![CARD_OPENED@]))[i]).event,
            ) == "card_opened"@,
    decreases log.len(),
{
    let stream = card_stream_of(card_id);
    let kinds = seq![CARD_OPENED@];
    if log.len() > 0 {
        let front = log.drop_last();
        let e = log.last();
        law_an_opening_is_found_where_there_is_one(front, card_id);
        assert(entries(log).drop_last() =~= entries(front));
        lemma_has_kind_push(on_stream(entries(front), stream), e.event, "card_opened"@);
        assert(kinds.contains(kind_of(e.event)) <==> kind_of(e.event) == "card_opened"@) by {
            assert(kinds[0] == "card_opened"@);
        }
    }
}

/// A bind guarded by its read leaves no name dangling. Where the read of the card's opening
/// finds nothing, the card was never opened and the bind is refused; where it finds something,
/// the bind that is built on it points at a card that was opened.
pub proof fn law_a_guarded_bind_does_not_dangle(
    log: Seq<Placed>,
    name: Seq<char>,
    card_id: Seq<char>,
    note: Option<Seq<char>>,
)
    requires
        no_dangling_alias(entries(log)),
    ensures
        opening_page(log, card_id, 1).len() == 0 <==> !has_kind(
            on_stream(entries(log), card_stream_of(card_id)),
            "card_opened"@,
        ),
        opening_page(log, card_id, 1).len() > 0 ==> no_dangling_alias(
            after(
                entries(log),
                alias_stream_of(name),
                RuleView::AliasNot(card_id),
                bound_event(
                    card_id,
                    recorded_from_spec(opening_page(log, card_id, 1)[0]).meta,
                    note,
                ),
            ),
        ),
{
    law_an_opening_is_found_where_there_is_one(log, card_id);
    if opening_page(log, card_id, 1).len() > 0 {
        law_bind_does_not_dangle(
            entries(log),
            name,
            card_id,
            recorded_from_spec(opening_page(log, card_id, 1)[0]).meta,
            note,
        );
    }
}

} // verus!
