//! What a write says, and what is read of it: every event that is built here, field by field, and
//! what each decision asks of the events before it.
use vstd::prelude::*;
use vstd::string::*;

use crate::command::{binding_meta, bound_event, release_of, released_event};
use crate::json::{Fields, NumberView, Tree, lookup, text_of};
use crate::projection::lemma_kinds_differ;
use crate::record::{
    Committed, Placed, envelope_of, kind_of, lemma_field_names, note_data_of, recorded_from_spec,
    recorded_of_spec,
};
use crate::rows::{
    filed_under, law_a_bind_is_written_down, law_an_opening_is_written_down, on_alias, on_card,
};
use crate::rule::{RuleView, allowed, binding, decision, has_kind};
use crate::said::{
    holds_text, law_a_member_is_reached, law_a_text_is_what_is_said, law_the_first_field_is_found,
    reaches, says, silent,
};
use crate::sql::Cell;
use crate::tables::{Tables, applied};

verus! {

// ------------------------------------------------------------------ the envelope

/// An envelope says its kind, its meta and its data, a null one left out, and nothing else.
pub proof fn law_an_envelope_says_what_was_put_in(
    kind: Seq<char>,
    meta: Tree,
    data: Tree,
    key: Seq<char>,
    value: Tree,
)
    ensures
        says(envelope_of(kind, meta, data), key, value) <==> {
            ||| key == "kind"@ && value == Tree::String(kind)
            ||| key == "meta"@ && value == meta && !(meta is Null)
            ||| key == "data"@ && value == data && !(data is Null)
        },
{
    let event = envelope_of(kind, meta, data);
    lemma_field_names();
    reveal_with_fuel(lookup, 4);
    law_the_first_field_is_found(event, key, value);
    assert(event[0] == ("kind"@, Tree::String(kind)));
}

proof fn lemma_member(kind: Seq<char>, meta: Tree, data: Tree, key: Seq<char>, value: Tree)
    ensures
        reaches(envelope_of(kind, meta, data), seq!["meta"@, key], value) <==> meta is Object
            && says(meta->Object_0, key, value),
        reaches(envelope_of(kind, meta, data), seq!["data"@, key], value) <==> data is Object
            && says(data->Object_0, key, value),
{
    let event = envelope_of(kind, meta, data);
    law_an_envelope_says_what_was_put_in(kind, meta, data, "meta"@, meta);
    law_an_envelope_says_what_was_put_in(kind, meta, data, "data"@, data);
    law_a_member_is_reached(event, "meta"@, key, value);
    law_a_member_is_reached(event, "data"@, key, value);
    law_the_first_field_is_found(event, "meta"@, meta);
    law_the_first_field_is_found(event, "data"@, data);
    lemma_null(kind, meta, data);
    if meta is Object {
        law_the_first_field_is_found(meta->Object_0, key, value);
    }
    if data is Object {
        law_the_first_field_is_found(data->Object_0, key, value);
    }
}

proof fn lemma_null(kind: Seq<char>, meta: Tree, data: Tree)
    ensures
        meta is Null ==> lookup(envelope_of(kind, meta, data), "meta"@) is None,
        data is Null ==> lookup(envelope_of(kind, meta, data), "data"@) is None,
{
    let event = envelope_of(kind, meta, data);
    lemma_field_names();
    reveal_with_fuel(lookup, 4);
    assert(event[0] == ("kind"@, Tree::String(kind)));
}

/// What is read of an event is where it stands and what it says: its stream and its position, the
/// number and the time it says, 0 where it says none, its kind, empty where it says none, and its
/// meta and data, null where it says none.
pub proof fn law_a_read_is_what_is_said(stored: Placed, kind: Seq<char>, value: Tree, n: u64)
    ensures
        ({
            let r = recorded_from_spec(stored);
            let event = stored.event;
            &&& r.stream == stored.stream
            &&& r.position == stored.position
            &&& says(event, "seq"@, Tree::Number(NumberView::PosInt(n))) ==> r.seq == n
            &&& says(event, "epoch_ms"@, Tree::Number(NumberView::PosInt(n))) && n
                <= 0x7fff_ffff_ffff_ffff ==> r.epoch_ms == n
            &&& forall|m: i64| #[trigger]
                says(event, "epoch_ms"@, Tree::Number(NumberView::NegInt(m))) ==> r.epoch_ms == m
            &&& says(event, "seq"@, value) && !(value is Number && value->Number_0 is PosInt)
                ==> r.seq == 0
            &&& says(event, "epoch_ms"@, value) && !(value is Number) ==> r.epoch_ms == 0
            &&& silent(event, "seq"@) ==> r.seq == 0
            &&& silent(event, "epoch_ms"@) ==> r.epoch_ms == 0
            &&& says(event, "kind"@, Tree::String(kind)) ==> r.kind == kind
            &&& says(event, "kind"@, value) && !(value is String) ==> r.kind.len() == 0
            &&& silent(event, "kind"@) ==> r.kind.len() == 0
            &&& says(event, "meta"@, value) ==> r.meta == value
            &&& says(event, "data"@, value) ==> r.data == value
            &&& silent(event, "meta"@) ==> r.meta == Tree::Null
            &&& silent(event, "data"@) ==> r.data == Tree::Null
        }),
{
    let event = stored.event;
    law_the_first_field_is_found(event, "seq"@, Tree::Number(NumberView::PosInt(n)));
    law_the_first_field_is_found(event, "epoch_ms"@, Tree::Number(NumberView::PosInt(n)));
    law_the_first_field_is_found(event, "kind"@, Tree::String(kind));
    law_the_first_field_is_found(event, "meta"@, value);
    law_the_first_field_is_found(event, "data"@, value);
    law_the_first_field_is_found(event, "seq"@, value);
    law_the_first_field_is_found(event, "epoch_ms"@, value);
    law_the_first_field_is_found(event, "kind"@, value);
    let r = recorded_from_spec(stored);
    assert forall|m: i64| #[trigger]
        says(event, "epoch_ms"@, Tree::Number(NumberView::NegInt(m))) implies r.epoch_ms == m by {
        law_the_first_field_is_found(event, "epoch_ms"@, Tree::Number(NumberView::NegInt(m)));
    }
}

/// A write answers with the event that was written and with where it landed: the number, the
/// position, 0 where there is none, and the time the log answered.
pub proof fn law_an_answer_is_what_was_written(
    stream: Seq<char>,
    kind: Seq<char>,
    meta: Tree,
    data: Tree,
    at: Committed,
)
    ensures
        ({
            let r = recorded_of_spec(stream, envelope_of(kind, meta, data), at);
            &&& r.stream == stream
            &&& r.kind == kind
            &&& r.meta == meta
            &&& r.data == data
            &&& r.seq == at.seq
            &&& at.position is Some ==> r.position == at.position->0
            &&& at.position is None ==> r.position == 0
            &&& at.epoch_ms <= 0x7fff_ffff_ffff_ffff ==> r.epoch_ms == at.epoch_ms
        }),
{
    crate::record::law_envelope_reads_back(stream, kind, meta, data, at);
}

/// A note is the data of an alias event: an object that says the note, and nothing else, and no
/// object at all where there is none.
pub proof fn law_a_note_is_said(note: Option<Seq<char>>, key: Seq<char>, value: Tree)
    ensures
        note is None ==> note_data_of(note) == Tree::Null,
        note is Some ==> note_data_of(note) is Object,
        note is Some ==> (says(note_data_of(note)->Object_0, key, value) <==> key == "note"@ && value
            == Tree::String(note->0)),
{
    if note is Some {
        reveal_with_fuel(lookup, 2);
        law_the_first_field_is_found(note_data_of(note)->Object_0, key, value);
    }
}

// ------------------------------------------------------------------ aliases

/// A bind says the card it binds to, and of the card's opening the pkg and nothing else: the pkg
/// of the bind is the text under `pkg` in the meta of the opening, where that is a text, and none
/// where it is not. It says the note it was given.
pub proof fn law_a_bind_says_the_cards_own_pkg(
    card_id: Seq<char>,
    opened: Tree,
    note: Option<Seq<char>>,
    key: Seq<char>,
    value: Tree,
)
    ensures
        ({
            let event = bound_event(card_id, opened, note);
            &&& says(event, "kind"@, value) <==> value == Tree::String("alias_bound"@)
            &&& reaches(event, seq!["meta"@, key], value) <==> {
                ||| key == "card_id"@ && value == Tree::String(card_id)
                ||| key == "pkg"@ && value is String && opened is Object && says(
                    opened->Object_0,
                    "pkg"@,
                    value,
                )
            }
            &&& reaches(event, seq!["data"@, key], value) <==> key == "note"@ && note is Some && value
                == Tree::String(note->0)
        }),
        text_of(lookup(bound_event(card_id, opened, note), "meta"@), "pkg"@) == text_of(
            Some(opened),
            "pkg"@,
        ),
        text_of(lookup(bound_event(card_id, opened, note), "meta"@), "card_id"@) == Some(card_id),
{
    let event = bound_event(card_id, opened, note);
    let meta = binding_meta(card_id, opened);
    let data = note_data_of(note);
    lemma_field_names();
    reveal_strlit("card_id");
    reveal_strlit("pkg");
    assert("card_id"@.len() == 7 && "pkg"@.len() == 3);
    law_an_envelope_says_what_was_put_in("alias_bound"@, meta, data, "kind"@, value);
    law_an_envelope_says_what_was_put_in("alias_bound"@, meta, data, "meta"@, meta);
    law_the_first_field_is_found(event, "meta"@, meta);
    lemma_member("alias_bound"@, meta, data, key, value);
    law_a_note_is_said(note, key, value);
    reveal_with_fuel(lookup, 3);
    assert(meta->Object_0[0] == ("card_id"@, Tree::String(card_id)));
    law_the_first_field_is_found(meta->Object_0, key, value);
    if opened is Object {
        law_the_first_field_is_found(opened->Object_0, "pkg"@, value);
    }
}

/// A name is listed under the pkg of the card it means. Where a card's opening is folded and a
/// bind of a name to it, built from that opening as it was read, is folded behind it, the row of
/// the name and the row of the card hold the same pkg.
pub proof fn law_a_name_is_listed_under_its_cards_pkg(
    t: Tables,
    name: Seq<char>,
    opening: Placed,
    bind: Placed,
    id: Seq<char>,
    alias: Seq<char>,
    note: Option<Seq<char>>,
    n: int,
)
    requires
        on_card(opening, id, "card_opened"@),
        !t.cards.contains_key(Cell::Text(id)),
        on_alias(bind, alias, "alias_bound"@),
        filed_under(n, bind.event),
        lookup(bind.event, "meta"@) == lookup(
            bound_event(id, recorded_from_spec(opening).meta, note),
            "meta"@,
        ),
    ensures
        ({
            let t1 = applied(t, name, opening)->Ok_0;
            let t2 = applied(t1, name, bind)->Ok_0;
            &&& applied(t, name, opening) is Ok
            &&& applied(t1, name, bind) is Ok
            &&& t2.aliases[Cell::Text(alias)].card_id == Cell::Text(id)
            &&& t2.aliases[Cell::Text(alias)].pkg == t2.cards[Cell::Text(id)].pkg
            &&& t2.cards[Cell::Text(id)].pkg == t1.cards[Cell::Text(id)].pkg
        }),
{
    let opened = recorded_from_spec(opening).meta;
    let t1 = applied(t, name, opening)->Ok_0;
    law_an_opening_is_written_down(t, name, opening, id);
    law_a_bind_says_the_cards_own_pkg(id, opened, note, "pkg"@, Tree::Null);
    law_a_text_is_what_is_said(bind.event, "meta"@, "card_id"@, id);
    law_a_bind_is_written_down(t1, name, bind, alias, n, id);
    let t2 = applied(t1, name, bind)->Ok_0;
    let a = t2.aliases[Cell::Text(alias)].pkg;
    let c = t1.cards[Cell::Text(id)].pkg;
    let path = seq!["meta"@, "pkg"@];
    let of_opening = text_of(lookup(opening.event, "meta"@), "pkg"@);
    let of_bind = text_of(lookup(bind.event, "meta"@), "pkg"@);
    assert(of_opening == of_bind);
    assert forall|s: Seq<char>|
        (#[trigger] reaches(opening.event, path, Tree::String(s)) <==> of_opening == Some(s)) by {
        law_a_text_is_what_is_said(opening.event, "meta"@, "pkg"@, s);
    }
    assert forall|s: Seq<char>|
        (#[trigger] reaches(bind.event, path, Tree::String(s)) <==> of_bind == Some(s)) by {
        law_a_text_is_what_is_said(bind.event, "meta"@, "pkg"@, s);
    }
    assert(holds_text(a, bind.event, path));
    assert(holds_text(c, opening.event, path));
    match of_opening {
        Some(s) => {
            assert(reaches(opening.event, path, Tree::String(s)));
            assert(reaches(bind.event, path, Tree::String(s)));
        },
        None => {},
    }
}

/// A release says the card it releases the name from, and the note it was given.
pub proof fn law_a_release_says_what_it_releases(
    card_id: Seq<char>,
    note: Option<Seq<char>>,
    key: Seq<char>,
    value: Tree,
)
    ensures
        released_event(card_id, note) == release_of(card_id, note_data_of(note)),
        ({
            let event = released_event(card_id, note);
            &&& says(event, "kind"@, value) <==> value == Tree::String("alias_released"@)
            &&& reaches(event, seq!["meta"@, key], value) <==> key == "card_id"@ && value
                == Tree::String(card_id)
            &&& reaches(event, seq!["data"@, key], value) <==> key == "note"@ && note is Some && value
                == Tree::String(note->0)
        }),
{
    let meta = Tree::Object(seq![("card_id"@, Tree::String(card_id))]);
    let data = note_data_of(note);
    lemma_field_names();
    law_an_envelope_says_what_was_put_in("alias_released"@, meta, data, "kind"@, value);
    lemma_member("alias_released"@, meta, data, key, value);
    law_a_note_is_said(note, key, value);
    reveal_with_fuel(lookup, 2);
    law_the_first_field_is_found(meta->Object_0, key, value);
}

/// What releases a name says the card it was bound to, whatever its data is, and carries the data
/// as it is.
pub proof fn law_a_release_carries_its_data(
    card_id: Seq<char>,
    data: Tree,
    key: Seq<char>,
    value: Tree,
)
    ensures
        ({
            let event = release_of(card_id, data);
            &&& says(event, "kind"@, value) <==> value == Tree::String("alias_released"@)
            &&& reaches(event, seq!["meta"@, key], value) <==> key == "card_id"@ && value
                == Tree::String(card_id)
            &&& says(event, "data"@, value) <==> value == data && !(data is Null)
        }),
{
    let meta = Tree::Object(seq![("card_id"@, Tree::String(card_id))]);
    lemma_field_names();
    law_an_envelope_says_what_was_put_in("alias_released"@, meta, data, "kind"@, value);
    law_an_envelope_says_what_was_put_in("alias_released"@, meta, data, "data"@, value);
    lemma_member("alias_released"@, meta, data, key, value);
    reveal_with_fuel(lookup, 2);
    law_the_first_field_is_found(meta->Object_0, key, value);
}

/// Whether event `i` of a stream binds its name to a card, and no event behind it moves the name.
pub open spec fn last_binds(events: Seq<Fields>, i: int, id: Seq<char>) -> bool {
    &&& 0 <= i < events.len()
    &&& says(events[i], "kind"@, Tree::String("alias_bound"@))
    &&& reaches(events[i], seq!["meta"@, "card_id"@], Tree::String(id))
    &&& forall|j: int|
        i < j < events.len() ==> !says(#[trigger] events[j], "kind"@, Tree::String("alias_bound"@))
            && !says(events[j], "kind"@, Tree::String("alias_released"@))
}

proof fn lemma_kind_said(event: Fields)
    ensures
        kind_of(event) == "alias_bound"@ <==> says(event, "kind"@, Tree::String("alias_bound"@)),
        kind_of(event) == "alias_released"@ <==> says(
            event,
            "kind"@,
            Tree::String("alias_released"@),
        ),
        kind_of(event) == "card_opened"@ <==> says(event, "kind"@, Tree::String("card_opened"@)),
        kind_of(event) == "card_closed"@ <==> says(event, "kind"@, Tree::String("card_closed"@)),
{
    law_the_first_field_is_found(event, "kind"@, Tree::String("alias_bound"@));
    law_the_first_field_is_found(event, "kind"@, Tree::String("alias_released"@));
    law_the_first_field_is_found(event, "kind"@, Tree::String("card_opened"@));
    law_the_first_field_is_found(event, "kind"@, Tree::String("card_closed"@));
    reveal_strlit("alias_bound");
    reveal_strlit("alias_released");
    reveal_strlit("card_opened");
    reveal_strlit("card_closed");
    assert("alias_bound"@.len() > 0 && "alias_released"@.len() > 0);
    assert("card_opened"@.len() > 0 && "card_closed"@.len() > 0);
}

/// A name means the card of the last event that moved it, where that is a bind that says one, and
/// nothing otherwise.
pub proof fn law_a_name_means_its_last_bind(events: Seq<Fields>, id: Seq<char>)
    ensures
        binding(events) == Some(id) <==> exists|i: int| last_binds(events, i, id),
    decreases events.len(),
{
    if events.len() > 0 {
        let front = events.drop_last();
        let last = events.last();
        law_a_name_means_its_last_bind(front, id);
        lemma_kinds_differ();
        lemma_kind_said(last);
        law_a_text_is_what_is_said(last, "meta"@, "card_id"@, id);
        assert(events[events.len() - 1] == last);
        if kind_of(last) == "alias_bound"@ {
            if binding(events) == Some(id) {
                assert(last_binds(events, events.len() - 1, id));
            }
            if exists|i: int| last_binds(events, i, id) {
                let i = choose|i: int| last_binds(events, i, id);
                assert(i == events.len() - 1);
            }
        } else if kind_of(last) == "alias_released"@ {
            if exists|i: int| last_binds(events, i, id) {
                let i = choose|i: int| last_binds(events, i, id);
                assert(i < events.len() - 1);
            }
        } else {
            if exists|i: int| last_binds(front, i, id) {
                let i = choose|i: int| last_binds(front, i, id);
                assert forall|j: int| i < j < events.len() implies !says(
                    #[trigger] events[j],
                    "kind"@,
                    Tree::String("alias_bound"@),
                ) && !says(events[j], "kind"@, Tree::String("alias_released"@)) by {
                    if j < front.len() {
                        assert(front[j] == events[j]);
                    }
                }
                assert(last_binds(events, i, id));
            }
            if exists|i: int| last_binds(events, i, id) {
                let i = choose|i: int| last_binds(events, i, id);
                assert(i < front.len());
                assert forall|j: int| i < j < front.len() implies !says(
                    #[trigger] front[j],
                    "kind"@,
                    Tree::String("alias_bound"@),
                ) && !says(front[j], "kind"@, Tree::String("alias_released"@)) by {
                    assert(front[j] == events[j]);
                }
                assert(last_binds(front, i, id));
            }
        }
    }
}

// ------------------------------------------------------------------ decisions

/// Whether an event of a stream says this kind.
pub open spec fn anywhere(events: Seq<Fields>, kind: Seq<char>) -> bool {
    exists|i: int|
        0 <= i < events.len() && says(#[trigger] events[i], "kind"@, Tree::String(kind))
}

proof fn lemma_anywhere(events: Seq<Fields>, kind: Seq<char>)
    requires
        kind.len() > 0,
    ensures
        has_kind(events, kind) <==> anywhere(events, kind),
{
    assert forall|i: int| 0 <= i < events.len() implies (kind_of(#[trigger] events[i]) == kind
        <==> says(events[i], "kind"@, Tree::String(kind))) by {
        law_the_first_field_is_found(events[i], "kind"@, Tree::String(kind));
    }
    if has_kind(events, kind) {
        let i = choose|i: int| 0 <= i < events.len() && kind_of(#[trigger] events[i]) == kind;
        assert(says(events[i], "kind"@, Tree::String(kind)));
    }
    if anywhere(events, kind) {
        let i = choose|i: int|
            0 <= i < events.len() && says(#[trigger] events[i], "kind"@, Tree::String(kind));
        assert(kind_of(events[i]) == kind);
    }
}

/// What each decision that has a name asks of a stream. `unwritten`: that it is empty.
/// `open_unclosed`: that an opening is on it and no close. `closed_absent`: that no close is on
/// it. `opened`: that an opening is on it. No other name is a decision.
pub proof fn law_what_each_decision_asks(name: Seq<char>, events: Seq<Fields>)
    ensures
        decision(name) is Some <==> {
            ||| name == "unwritten"@
            ||| name == "open_unclosed"@
            ||| name == "closed_absent"@
            ||| name == "opened"@
        },
        name == "unwritten"@ ==> (allowed(decision(name)->0, events) <==> events.len() == 0),
        name == "open_unclosed"@ ==> (allowed(decision(name)->0, events) <==> anywhere(
            events,
            "card_opened"@,
        ) && !anywhere(events, "card_closed"@)),
        name == "closed_absent"@ ==> (allowed(decision(name)->0, events) <==> !anywhere(
            events,
            "card_closed"@,
        )),
        name == "opened"@ ==> (allowed(decision(name)->0, events) <==> anywhere(
            events,
            "card_opened"@,
        )),
{
    reveal_strlit("unwritten");
    reveal_strlit("open_unclosed");
    reveal_strlit("closed_absent");
    reveal_strlit("opened");
    reveal_strlit("card_opened");
    reveal_strlit("card_closed");
    assert("unwritten"@.len() == 9 && "opened"@.len() == 6 && "open_unclosed"@.len() == 13);
    assert("open_unclosed"@[0] == 'o' && "closed_absent"@[0] == 'c');
    assert("closed_absent"@.len() == 13);
    assert("card_opened"@.len() > 0 && "card_closed"@.len() > 0);
    lemma_anywhere(events, "card_opened"@);
    lemma_anywhere(events, "card_closed"@);
}

/// What the decisions of the aliases ask of a name's stream: a bind to a card, that the last event
/// that moved the name is no bind to that card; a release, that it is a bind that says a card.
pub proof fn law_what_the_alias_decisions_ask(events: Seq<Fields>, id: Seq<char>)
    ensures
        allowed(RuleView::AliasNot(id), events) <==> !(exists|i: int| last_binds(events, i, id)),
        allowed(RuleView::AliasBound, events) <==> exists|i: int, card: Seq<char>|
            last_binds(events, i, card),
{
    law_a_name_means_its_last_bind(events, id);
    match binding(events) {
        Some(card) => {
            law_a_name_means_its_last_bind(events, card);
            let i = choose|i: int| last_binds(events, i, card);
            assert(last_binds(events, i, card));
        },
        None => {
            assert forall|i: int, card: Seq<char>| !last_binds(events, i, card) by {
                law_a_name_means_its_last_bind(events, card);
            }
        },
    }
}

} // verus!
