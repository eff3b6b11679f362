//! Events: the envelope one is written in, and one as it is read back with its coordinates.
use vstd::prelude::*;
use vstd::string::*;

use crate::json::{
    Fields, Json, NumberView, Tree, Value, fields_view, get, lookup, text_view,
};
use crate::text::joined;

verus! {

/// The stream prefix a card's events live under: `card-<id>`.
pub const STREAM_PREFIX: &'static str = "card-";

/// The stream prefix an alias's events live under: `alias-<name>`.
pub const ALIAS_PREFIX: &'static str = "alias-";

/// The stream of the prune journal.
pub const PRUNE_STREAM: &'static str = "prune";

/// The kind of a card's opening.
pub const CARD_OPENED: &'static str = "card_opened";

/// An event: the fields of its envelope.
pub type Event = Vec<(String, Json)>;

/// One event, as it is read: the envelope plus where the store put it.
#[derive(Debug)]
pub struct Recorded {
    pub stream: String,
    /// Per-stream sequence, from 1.
    pub seq: u64,
    /// Global coordinate. 0 for a log with no database-wide order.
    pub position: u64,
    pub epoch_ms: i64,
    pub kind: String,
    pub meta: Value,
    pub data: Value,
}

/// The mathematical reading of a [`Recorded`].
pub struct RecordedView {
    pub stream: Seq<char>,
    pub seq: u64,
    pub position: u64,
    pub epoch_ms: i64,
    pub kind: Seq<char>,
    pub meta: Tree,
    pub data: Tree,
}

impl View for Recorded {
    type V = RecordedView;

    open spec fn view(&self) -> RecordedView {
        RecordedView {
            stream: self.stream@,
            seq: self.seq,
            position: self.position,
            epoch_ms: self.epoch_ms,
            kind: self.kind@,
            meta: self.meta@,
            data: self.data@,
        }
    }
}

impl Clone for Recorded {
    fn clone(&self) -> (r: Self)
        ensures
            r@ == self@,
    {
        Recorded {
            stream: self.stream.clone(),
            seq: self.seq,
            position: self.position,
            epoch_ms: self.epoch_ms,
            kind: self.kind.clone(),
            meta: self.meta.clone(),
            data: self.data.clone(),
        }
    }
}

/// What a write answers with: where the event landed, and when.
#[derive(Clone, Copy, Debug)]
pub struct Committed {
    pub seq: u64,
    pub epoch_ms: u64,
    pub position: Option<u64>,
}

/// One event as the log hands it out.
#[derive(Debug)]
pub struct Stored {
    pub position: u64,
    pub stream: String,
    pub event: Event,
}

/// The mathematical reading of a [`Stored`]: one event of the log, where the log holds it.
pub struct Placed {
    pub position: u64,
    pub stream: Seq<char>,
    pub event: Fields,
}

impl View for Stored {
    type V = Placed;

    open spec fn view(&self) -> Placed {
        Placed {
            position: self.position,
            stream: self.stream@,
            event: fields_view(self.event@),
        }
    }
}

/// A 64-bit word read as a signed number.
pub open spec fn wrapped(n: u64) -> int {
    if n <= i64::MAX {
        n as int
    } else {
        n - 0x1_0000_0000_0000_0000
    }
}

/// A 64-bit word read as a signed number.
pub fn signed_word(n: u64) -> (r: i64)
    ensures
        r == wrapped(n),
{
    if n <= i64::MAX as u64 {
        n as i64
    } else {
        -((u64::MAX - n) as i64) - 1
    }
}

/// The field `key` of an event, null where it has none.
pub open spec fn field_of(event: Fields, key: Seq<char>) -> Tree {
    match lookup(event, key) {
        Some(v) => v,
        None => Tree::Null,
    }
}

/// The kind of an event: its text under `kind`, empty where that is not a text.
pub open spec fn kind_of(event: Fields) -> Seq<char> {
    match field_of(event, "kind"@) {
        Tree::String(s) => s,
        _ => seq![],
    }
}

/// The field `key` of an event, null where it has none.
pub fn field(event: &Event, key: &str) -> (r: Json)
    ensures
        r@ == field_of(fields_view(event@), key@),
{
    match get(event, key) {
        Some(v) => v.clone(),
        None => Json::Null,
    }
}

/// The kind of an event.
pub fn event_kind(event: &Event) -> (r: String)
    ensures
        r@ == kind_of(fields_view(event@)),
{
    match field(event, "kind") {
        Json::String(s) => s,
        _ => {
            let none = String::new();
            assert(none@ =~= seq![]);
            none
        },
    }
}

/// The envelope of an event: `kind`, and `meta` and `data` where they are not null.
pub open spec fn envelope_of(kind: Seq<char>, meta: Tree, data: Tree) -> Fields {
    let head = seq![("kind"@, Tree::String(kind))];
    let with_meta = if meta is Null {
        head
    } else {
        head.push(("meta"@, meta))
    };
    if data is Null {
        with_meta
    } else {
        with_meta.push(("data"@, data))
    }
}

/// `{kind, meta, data}` as an event.
///
/// A null `meta` or `data` is left out of the envelope rather than written as JSON null: the
/// two keys are optional, and `null` is neither absent nor a value the log wants.
pub fn envelope(kind: &str, meta: Json, data: Json) -> (r: Event)
    ensures
        fields_view(r@) == envelope_of(kind@, meta@, data@),
{
    let mut event: Event = Vec::new();
    event.push(("kind".to_owned(), Json::String(kind.to_owned())));
    if !meta.is_null() {
        event.push(("meta".to_owned(), meta));
    }
    if !data.is_null() {
        event.push(("data".to_owned(), data));
    }
    assert(fields_view(event@) =~= envelope_of(kind@, meta@, data@));
    event
}

/// The stream a card's events live on.
pub open spec fn card_stream_of(id: Seq<char>) -> Seq<char> {
    STREAM_PREFIX@ + id
}

/// The stream an alias's events live on.
pub open spec fn alias_stream_of(name: Seq<char>) -> Seq<char> {
    ALIAS_PREFIX@ + name
}

/// The stream a card's events live on.
pub fn card_stream(id: &str) -> (r: String)
    ensures
        r@ == card_stream_of(id@),
{
    joined(STREAM_PREFIX, id)
}

/// The stream an alias's events live on.
pub fn alias_stream(name: &str) -> (r: String)
    ensures
        r@ == alias_stream_of(name@),
{
    joined(ALIAS_PREFIX, name)
}

/// A note as the data of an alias event.
pub open spec fn note_data_of(note: Option<Seq<char>>) -> Tree {
    match note {
        Some(note) => Tree::Object(seq![("note"@, Tree::String(note))]),
        None => Tree::Null,
    }
}

/// A note, as the `data` of an alias event. Absent when there is none, rather than an object
/// with a null in it.
pub fn note_data(note: Option<String>) -> (r: Json)
    ensures
        r@ == note_data_of(text_view(note)),
{
    match note {
        Some(text) => one_text("note", text),
        None => Json::Null,
    }
}

/// An object of one text field.
pub(crate) fn one_text(key: &str, text: String) -> (r: Json)
    ensures
        r@ == Tree::Object(seq![(key@, Tree::String(text@))]),
{
    let mut fields: Event = Vec::new();
    fields.push((key.to_owned(), Json::String(text)));
    let r = Json::Object(fields);
    proof {
        crate::json::lemma_object_view(r);
        assert(fields_view(fields@) =~= seq![(key@, Tree::String(text@))]);
    }
    r
}

/// The event as it was written, plus the coordinates the write returned.
pub open spec fn recorded_of_spec(stream: Seq<char>, event: Fields, at: Committed) -> RecordedView {
    RecordedView {
        stream,
        seq: at.seq,
        position: match at.position {
            Some(p) => p,
            None => 0,
        },
        epoch_ms: wrapped(at.epoch_ms) as i64,
        kind: kind_of(event),
        meta: field_of(event, "meta"@),
        data: field_of(event, "data"@),
    }
}

/// The event as it was written, plus the coordinates the write returned.
pub fn recorded_of(stream: &str, event: &Event, at: Committed) -> (r: Recorded)
    ensures
        r@ == recorded_of_spec(stream@, fields_view(event@), at),
{
    Recorded {
        stream: stream.to_owned(),
        seq: at.seq,
        position: match at.position {
            Some(p) => p,
            None => 0,
        },
        epoch_ms: signed_word(at.epoch_ms),
        kind: event_kind(event),
        meta: Value(field(event, "meta")),
        data: Value(field(event, "data")),
    }
}

/// An event read back out of the log.
pub open spec fn recorded_from_spec(stored: Placed) -> RecordedView {
    let event = stored.event;
    RecordedView {
        stream: stored.stream,
        seq: match field_of(event, "seq"@).as_u64() {
            Some(n) => n,
            None => 0,
        },
        position: stored.position,
        epoch_ms: match field_of(event, "epoch_ms"@).as_i64() {
            Some(n) => n,
            None => 0,
        },
        kind: kind_of(event),
        meta: field_of(event, "meta"@),
        data: field_of(event, "data"@),
    }
}

/// An event read back out of the log.
pub fn recorded_from(stored: Stored) -> (r: Recorded)
    ensures
        r@ == recorded_from_spec(stored@),
{
    let seq: u64 = match field(&stored.event, "seq").as_u64() {
        Some(n) => n,
        None => 0,
    };
    let epoch_ms: i64 = match field(&stored.event, "epoch_ms").as_i64() {
        Some(n) => n,
        None => 0,
    };
    Recorded {
        seq,
        position: stored.position,
        epoch_ms,
        kind: event_kind(&stored.event),
        meta: Value(field(&stored.event, "meta")),
        data: Value(field(&stored.event, "data")),
        stream: stored.stream,
    }
}

/// The names of an envelope's fields are different names.
pub proof fn lemma_field_names()
    ensures
        "kind"@ != "meta"@,
        "kind"@ != "data"@,
        "meta"@ != "data"@,
{
    reveal_strlit("kind");
    reveal_strlit("meta");
    reveal_strlit("data");
    assert("kind"@[0] != "meta"@[0]);
    assert("kind"@[0] != "data"@[0]);
    assert("meta"@[0] != "data"@[0]);
}

/// An envelope gives back what was put in it: the kind, and `meta` and `data`, null where
/// they were null.
pub proof fn law_envelope_reads_back(
    stream: Seq<char>,
    kind: Seq<char>,
    meta: Tree,
    data: Tree,
    at: Committed,
)
    ensures
        ({
            let r = recorded_of_spec(stream, envelope_of(kind, meta, data), at);
            r.stream == stream && r.kind == kind && r.meta == meta && r.data == data
        }),
{
    lemma_field_names();
    let event = envelope_of(kind, meta, data);
    reveal_with_fuel(lookup, 4);
    assert(event[0] == ("kind"@, Tree::String(kind)));
}

/// What a log keeps for a `meta` or a `data`: an empty object where the event has none.
pub open spec fn filled(value: Option<Tree>) -> Tree {
    match value {
        Some(v) => v,
        None => Tree::Object(seq![]),
    }
}

/// Whether `stored` is what a log keeps of `event`, written on `stream` and answered with `at`:
/// the same kind, `meta` and `data`, with the coordinates of the answer beside them.
pub open spec fn kept_as(stored: Placed, stream: Seq<char>, event: Fields, at: Committed) -> bool {
    &&& stored.stream == stream
    &&& at.position == Some(stored.position)
    &&& lookup(stored.event, "seq"@) == Some(Tree::Number(NumberView::PosInt(at.seq)))
    &&& lookup(stored.event, "epoch_ms"@) == Some(Tree::Number(NumberView::PosInt(at.epoch_ms)))
    &&& lookup(stored.event, "kind"@) == lookup(event, "kind"@)
    &&& lookup(stored.event, "meta"@) == Some(filled(lookup(event, "meta"@)))
    &&& lookup(stored.event, "data"@) == Some(filled(lookup(event, "data"@)))
}

/// What is read of a written event: what its write answered, with an empty object for a `meta`
/// or a `data` it had none of.
pub open spec fn read_back(stream: Seq<char>, event: Fields, at: Committed) -> RecordedView {
    RecordedView {
        meta: filled(lookup(event, "meta"@)),
        data: filled(lookup(event, "data"@)),
        ..recorded_of_spec(stream, event, at)
    }
}

/// A read gives back what the write answered: the stream, the seq, the position, the time and
/// the kind, and `meta` and `data` as they were written. Where the event had no `meta` or no
/// `data`, the write answers null and the read gives an empty object.
pub proof fn law_a_write_reads_back(
    stored: Placed,
    stream: Seq<char>,
    event: Fields,
    at: Committed,
)
    requires
        kept_as(stored, stream, event, at),
        at.epoch_ms <= i64::MAX,
    ensures
        recorded_from_spec(stored) == read_back(stream, event, at),
        lookup(event, "meta"@) is Some && lookup(event, "data"@) is Some ==> recorded_from_spec(
            stored,
        ) == recorded_of_spec(stream, event, at),
{
}

/// What was appended is what is read: the kind, and `meta` and `data`, an empty object where
/// they were null.
pub proof fn law_an_append_comes_back(
    stored: Placed,
    stream: Seq<char>,
    kind: Seq<char>,
    meta: Tree,
    data: Tree,
    at: Committed,
)
    requires
        kept_as(stored, stream, envelope_of(kind, meta, data), at),
    ensures
        ({
            let r = recorded_from_spec(stored);
            let none = Tree::Object(seq![]);
            &&& r.stream == stream && r.kind == kind && r.seq == at.seq
            &&& Some(r.position) == at.position
            &&& at.epoch_ms <= i64::MAX ==> r.epoch_ms == at.epoch_ms
            &&& r.meta == if meta is Null {
                none
            } else {
                meta
            }
            &&& r.data == if data is Null {
                none
            } else {
                data
            }
        }),
{
    lemma_field_names();
    let event = envelope_of(kind, meta, data);
    reveal_with_fuel(lookup, 4);
    assert(event[0] == ("kind"@, Tree::String(kind)));
}

} // verus!
