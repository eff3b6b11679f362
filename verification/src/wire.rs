//! One event as it travels: a line of JSON written out of the log, and read back into it.
use serde_json::Value as Outside;
use vstd::prelude::*;
use vstd::string::*;

use crate::digest::in_key_order;
use crate::json::{Fields, Json, Number, NumberView, Real, Tree, Value, lookup};
use crate::print::{escape, escaped, fields_text, hex_digit, items_text, json_text, quote};
use crate::text::decimal;

verus! {

/// A `serde_json::Value`, under a name of its own: [`crate::json::Value`] has the other.
#[verifier::external_body]
pub struct JsonValue {
    value: serde_json::Value,
}

/// What a [`JsonValue`] holds: an object as its fields in the order its map hands them out,
/// a number that is not an integer as its bits and the text it is printed as.
pub uninterp spec fn held(value: JsonValue) -> Tree;

/// What `serde_json::from_str` makes of a text: the value it is, or what the refusal says.
pub uninterp spec fn parsed(text: Seq<char>) -> Result<Tree, Seq<char>>;

/// A character a number is written with.
pub open spec fn number_char(c: char) -> bool {
    '0' <= c <= '9' || c == '-' || c == '+' || c == '.' || c == 'e' || c == 'E'
}

/// A value that its own text gives back: at most `depth` deep, the fields of each object in
/// the order of their names, and every number that is not an integer one whose own text reads
/// back as that number.
pub open spec fn readable(tree: Tree, depth: nat) -> bool
    decreases tree,
{
    match tree {
        Tree::Number(NumberView::NegInt(n)) => n < 0,
        Tree::Number(NumberView::Float { bits, text }) => {
            &&& text.len() > 0
            &&& forall|i: int| 0 <= i < text.len() ==> number_char(#[trigger] text[i])
            &&& parsed(text) == Ok::<Tree, Seq<char>>(tree)
        },
        Tree::Array(items) => {
            &&& depth > 0
            &&& forall|i: int|
                0 <= i < items.len() ==> readable(#[trigger] items[i], (depth - 1) as nat)
        },
        Tree::Object(fields) => {
            &&& depth > 0
            &&& in_key_order(fields)
            &&& forall|i: int|
                0 <= i < fields.len() ==> readable((#[trigger] fields[i]).1, (depth - 1) as nat)
        },
        _ => true,
    }
}

/// The deepest value `serde_json::from_str` reads.
pub const DEEPEST: u64 = 127;

/// Trusted: `serde_json::from_str` into a `serde_json::Value`, with its error as text.
///
/// The contract names what comes back. Of it, it says that the compact text of a value no
/// deeper than the parser goes reads back as that value, where each number in it that is not
/// an integer would read back on its own: integers, texts and the order of sorted fields
/// survive, and the parser may round the last digit of a fraction.
#[verifier::external_body]
pub(crate) fn parse_json(text: &str) -> (r: Result<JsonValue, String>)
    ensures
        match r {
            Ok(value) => parsed(text@) == Ok::<Tree, Seq<char>>(held(value)),
            Err(refusal) => parsed(text@) == Err::<Tree, Seq<char>>(refusal@),
        },
        forall|tree: Tree| #[trigger]
            readable(tree, DEEPEST as nat) && text@ == json_text(tree) ==> r is Ok && held(r->Ok_0)
                == tree,
{
    serde_json::from_str(text).map(|value| JsonValue { value }).map_err(|e| e.to_string())
}

/// Trusted: `serde_json::to_string` on a `serde_json::Value`, which succeeds on every one and
/// writes it with no space between its parts.
#[verifier::external_body]
pub(crate) fn write_json(value: &JsonValue) -> (r: String)
    ensures
        r@ == json_text(held(*value)),
{
    serde_json::to_string(&value.value).unwrap()
}

/// A [`JsonValue`], opened one level: which shape it is, with the values in it still closed.
pub enum Shape {
    Null,
    Bool(bool),
    Number(Number),
    String(String),
    Array(Vec<JsonValue>),
    Object(Vec<(String, JsonValue)>),
}

/// What the value with this shape is.
pub open spec fn shape_tree(shape: Shape) -> Tree {
    match shape {
        Shape::Null => Tree::Null,
        Shape::Bool(b) => Tree::Bool(b),
        Shape::Number(n) => Tree::Number(n@),
        Shape::String(s) => Tree::String(s@),
        Shape::Array(items) => Tree::Array(held_items(items@)),
        Shape::Object(fields) => Tree::Object(held_fields(fields@)),
    }
}

/// What a list of values holds.
pub open spec fn held_items(items: Seq<JsonValue>) -> Seq<Tree> {
    Seq::new(items.len(), |i: int| held(items[i]))
}

/// What a list of fields holds.
pub open spec fn held_fields(fields: Seq<(String, JsonValue)>) -> Fields {
    Seq::new(fields.len(), |i: int| (fields[i].0@, held(fields[i].1)))
}

/// Trusted: the variants of `serde_json::Value`, each as the one of [`Shape`] it is, the fields
/// of an object in the order its map hands them out. `serde_json::Number` answers `as_u64` for an
/// integer that is not negative, `as_i64` for one that is, and `as_f64` for every other.
#[verifier::external_body]
pub(crate) fn shape_of(value: JsonValue) -> (r: Shape)
    ensures
        held(value) == shape_tree(r),
{
    match value.value {
        Outside::Null => Shape::Null,
        Outside::Bool(b) => Shape::Bool(b),
        Outside::Number(n) => Shape::Number(
            n.as_u64().map(Number::PosInt).or(n.as_i64().map(Number::NegInt)).unwrap_or_else(
                || Number::Float(Real {
                    bits: n.as_f64().unwrap().to_bits(), text: n.to_string() }))),
        Outside::String(s) => Shape::String(s),
        Outside::Array(a) => Shape::Array(
            a.into_iter().map(|value| JsonValue { value }).collect()),
        Outside::Object(o) => Shape::Object(
            o.into_iter().map(|(k, value)| (k, JsonValue { value })).collect()),
    }
}

/// The value a [`JsonValue`] holds.
fn json_of(value: JsonValue) -> (r: Json)
    ensures
        r@ == held(value),
    decreases held(value),
{
    let ghost tree = held(value);
    match shape_of(value) {
        Shape::Null => Json::Null,
        Shape::Bool(b) => Json::Bool(b),
        Shape::Number(n) => Json::Number(n),
        Shape::String(s) => Json::String(s),
        Shape::Array(items) => {
            let mut out: Vec<Json> = Vec::new();
            for item in iter: items.into_iter()
                invariant
                    iter.seq() == items@,
                    tree == held(value),
                    tree == Tree::Array(held_items(items@)),
                    out@.len() == iter.index(),
                    forall|j: int| 0 <= j < out@.len() ==> (#[trigger] out@[j])@ == held(items@[j]),
            {
                assert(held(item) == tree->Array_0[iter.index()]);
                assert(decreases_to!(tree => tree->Array_0[iter.index()]));
                out.push(json_of(item));
            }
            let r = Json::Array(out);
            assert(r@->Array_0 =~= tree->Array_0);
            r
        },
        Shape::Object(fields) => {
            let mut out: Vec<(String, Json)> = Vec::new();
            for field in iter: fields.into_iter()
                invariant
                    iter.seq() == fields@,
                    tree == held(value),
                    tree == Tree::Object(held_fields(fields@)),
                    out@.len() == iter.index(),
                    forall|j: int|
                        0 <= j < out@.len() ==> (#[trigger] out@[j]).0@ == fields@[j].0@
                            && out@[j].1@ == held(fields@[j].1),
            {
                assert(held(field.1) == tree->Object_0[iter.index()].1);
                assert(decreases_to!(tree => tree->Object_0[iter.index()].1));
                out.push((field.0, json_of(field.1)));
            }
            let r = Json::Object(out);
            assert(r@->Object_0 =~= tree->Object_0);
            r
        },
    }
}

/// `text`, parsed: the value it is, or what the refusal says.
///
/// The other direction of [`crate::print::json_encode`]: the text of a value gives that value
/// back.
pub fn json_decode(text: &str) -> (r: Result<Value, String>)
    ensures
        match r {
            Ok(value) => parsed(text@) == Ok::<Tree, Seq<char>>(value@),
            Err(why) => parsed(text@) == Err::<Tree, Seq<char>>(why@),
        },
        reads_back(text@),
        forall|tree: Tree| #[trigger]
            readable(tree, DEEPEST as nat) && text@ == json_text(tree) ==> r is Ok && r->Ok_0@
                == tree,
{
    match parse_json(text) {
        Ok(value) => Ok(Value(json_of(value))),
        Err(why) => Err(why),
    }
}

/// Decoding undoes encoding: the text of a value, decoded, is that value.
pub proof fn law_decoding_undoes_encoding(tree: Tree)
    requires
        readable(tree, DEEPEST as nat),
        reads_back(json_text(tree)),
    ensures
        parsed(json_text(tree)) == Ok::<Tree, Seq<char>>(tree),
{
}

#[verifier::external_type_specification]
#[verifier::external_body]
pub struct ExExportedEvent(eventsdb::ExportedEvent);

/// An event as it travels: the stored fields, and where they lived.
pub struct Record {
    pub stream: Seq<char>,
    pub position: Option<u64>,
    pub event: Fields,
}

/// What an `eventsdb::ExportedEvent` carries: its stream, its position, and its event's
/// fields in the order its map hands them out.
pub uninterp spec fn carried(record: eventsdb::ExportedEvent) -> Record;

/// A record as one JSON object.
pub open spec fn record_tree(record: Record) -> Tree {
    let stream = seq![("stream"@, Tree::String(record.stream))];
    let event = seq![("event"@, Tree::Object(record.event))];
    match record.position {
        Some(p) => Tree::Object(
            event + seq![("position"@, Tree::Number(NumberView::PosInt(p)))] + stream,
        ),
        None => Tree::Object(event + stream),
    }
}

/// Trusted: `eventsdb::ExportedEvent::to_json`, an object of `stream`, `position` where there
/// is one, and `event`, whose map hands its fields out in the order of their names.
#[verifier::external_body]
pub(crate) fn to_json(record: &eventsdb::ExportedEvent) -> (r: JsonValue)
    ensures
        held(r) == record_tree(carried(*record)),
{
    JsonValue { value: record.to_json() }
}

/// An integer that is not negative.
pub open spec fn is_count(value: Option<Tree>) -> bool {
    match value {
        Some(v) => v.as_u64() is Some,
        None => false,
    }
}

/// A field a stored event may have, with a value it may have there.
pub open spec fn stored_field(name: Seq<char>, value: Tree) -> bool {
    if name == "kind"@ {
        true
    } else if name == "meta"@ {
        value is Object && forall|i: int|
            0 <= i < value->Object_0.len() ==> {
                let v = (#[trigger] value->Object_0[i]).1;
                v is String || v is Number || v is Bool
            }
    } else if name == "data"@ {
        value is Object
    } else if name == "seq"@ || name == "epoch_ms"@ || name == "_schema_version"@ {
        is_count(Some(value))
    } else {
        false
    }
}

/// An event that carries the fields a store writes.
pub open spec fn stored_event(event: Fields) -> bool {
    &&& forall|i: int|
        0 <= i < event.len() ==> stored_field((#[trigger] event[i]).0, event[i].1)
    &&& match lookup(event, "kind"@) {
        Some(Tree::String(kind)) => kind.len() > 0,
        _ => false,
    }
    &&& is_count(lookup(event, "epoch_ms"@))
    &&& is_count(lookup(event, "_schema_version"@))
}

/// A value that is a record: an object with a stream, a position or none, and a stored event.
pub open spec fn is_record(tree: Tree) -> bool {
    &&& tree is Object
    &&& match tree.get("stream"@) {
        Some(Tree::String(stream)) => stream.len() > 0,
        _ => false,
    }
    &&& match tree.get("position"@) {
        None | Some(Tree::Null) => true,
        Some(v) => v.as_u64() is Some,
    }
    &&& match tree.get("event"@) {
        Some(Tree::Object(event)) => stored_event(event),
        _ => false,
    }
}

/// The record a value is.
pub open spec fn record_in(tree: Tree) -> Record {
    Record {
        stream: tree.get("stream"@)->0->String_0,
        position: match tree.get("position"@) {
            Some(v) => v.as_u64(),
            None => None,
        },
        event: tree.get("event"@)->0->Object_0,
    }
}

/// What `eventsdb::ExportedEvent::from_json` says of a value that is not a record.
pub uninterp spec fn record_refusal(tree: Tree) -> Seq<char>;

/// Trusted: `eventsdb::ExportedEvent::from_json`, with its error as text.
///
/// The contract says which values are records and what record each is; what a refusal says is
/// named.
#[verifier::external_body]
pub(crate) fn from_json(value: JsonValue) -> (r: Result<eventsdb::ExportedEvent, String>)
    ensures
        match r {
            Ok(record) => is_record(held(value)) && carried(record) == record_in(held(value)),
            Err(refusal) => !is_record(held(value)) && refusal@ == record_refusal(held(value)),
        },
{
    eventsdb::ExportedEvent::from_json(value.value).map_err(|e| e.to_string())
}

/// A record as one line of JSON, without the line's end.
pub open spec fn line_of(record: Record) -> Seq<char> {
    json_text(record_tree(record))
}

/// `record` as one line of JSON, without the line's end.
pub fn export_line(record: &eventsdb::ExportedEvent) -> (r: String)
    ensures
        r@ == line_of(carried(*record)),
{
    write_json(&to_json(record))
}

/// Why a line is not a record.
#[derive(Debug)]
pub enum LineFault {
    NotJson { why: String },
    NotAnEvent { why: String },
}

/// The mathematical reading of a [`LineFault`].
pub enum LineFaultView {
    NotJson { why: Seq<char> },
    NotAnEvent { why: Seq<char> },
}

impl View for LineFault {
    type V = LineFaultView;

    open spec fn view(&self) -> LineFaultView {
        match self {
            LineFault::NotJson { why } => LineFaultView::NotJson { why: why@ },
            LineFault::NotAnEvent { why } => LineFaultView::NotAnEvent { why: why@ },
        }
    }
}

/// The record a line is, or why it is none.
pub open spec fn line_record(line: Seq<char>) -> Result<Record, LineFaultView> {
    match parsed(line) {
        Ok(tree) => if is_record(tree) {
            Ok(record_in(tree))
        } else {
            Err(LineFaultView::NotAnEvent { why: record_refusal(tree) })
        },
        Err(why) => Err(LineFaultView::NotJson { why }),
    }
}

/// A line reads back what was written: where it is the text of a readable value, it reads as
/// that value.
pub open spec fn reads_back(line: Seq<char>) -> bool {
    forall|tree: Tree| #[trigger]
        readable(tree, DEEPEST as nat) && line == json_text(tree) ==> parsed(line) == Ok::<
            Tree,
            Seq<char>,
        >(tree)
}

/// The record a line is.
pub fn read_line(line: &str) -> (r: Result<eventsdb::ExportedEvent, LineFault>)
    ensures
        match r {
            Ok(record) => line_record(line@) == Ok::<Record, LineFaultView>(carried(record)),
            Err(fault) => line_record(line@) == Err::<Record, LineFaultView>(fault@),
        },
        reads_back(line@),
        forall|record: Record| #[trigger]
            carries(record) && line@ == line_of(record) ==> r is Ok && carried(r->Ok_0) == record,
{
    let read = parse_json(line);
    proof {
        assert(reads_back(line@));
        assert forall|record: Record| #[trigger]
            carries(record) && line@ == line_of(record) implies line_record(line@) == Ok::<
            Record,
            LineFaultView,
        >(record) by {
            law_a_line_gives_back_its_record(record);
        }
    }
    match read {
        Ok(value) => match from_json(value) {
            Ok(record) => Ok(record),
            Err(why) => Err(LineFault::NotAnEvent { why }),
        },
        Err(why) => Err(LineFault::NotJson { why }),
    }
}

/// A record that travels: a stored event on a stream that has a name.
pub open spec fn travels(record: Record) -> bool {
    record.stream.len() > 0 && stored_event(record.event)
}

/// A record that a line carries: one that travels, and whose values its text gives back.
pub open spec fn carries(record: Record) -> bool {
    travels(record) && readable(record_tree(record), DEEPEST as nat)
}

/// The object a record is written as is a record, and the same one.
pub proof fn law_the_object_is_the_record(record: Record)
    requires
        travels(record),
    ensures
        is_record(record_tree(record)),
        record_in(record_tree(record)) == record,
{
    reveal_strlit("stream");
    reveal_strlit("position");
    reveal_strlit("event");
    assert("stream"@.len() == 6 && "position"@.len() == 8 && "event"@.len() == 5);
    let tree = record_tree(record);
    let fields = tree->Object_0;
    reveal_with_fuel(lookup, 4);
    assert(fields[0] == ("event"@, Tree::Object(record.event)));
    match record.position {
        Some(p) => {
            assert(fields.drop_first() =~= seq![
                ("position"@, Tree::Number(NumberView::PosInt(p))),
                ("stream"@, Tree::String(record.stream)),
            ]);
            assert(fields.drop_first().drop_first() =~= seq![
                ("stream"@, Tree::String(record.stream)),
            ]);
        },
        None => {
            assert(fields.drop_first() =~= seq![("stream"@, Tree::String(record.stream))]);
            assert(fields.drop_first().drop_first() =~= seq![]);
        },
    }
}

/// What is read back of an exported line is the record that was written: stream, position,
/// and every field of the event.
pub proof fn law_a_line_gives_back_its_record(record: Record)
    requires
        carries(record),
        reads_back(line_of(record)),
    ensures
        line_record(line_of(record)) == Ok::<Record, LineFaultView>(record),
{
    law_the_object_is_the_record(record);
}

/// A text without control characters, line ends among them.
pub open spec fn one_line(text: Seq<char>) -> bool {
    forall|i: int| 0 <= i < text.len() ==> #[trigger] text[i] >= ' '
}

proof fn lemma_decimal_one_line(n: nat)
    ensures
        one_line(decimal(n)),
    decreases n,
{
    if n >= 10 {
        lemma_decimal_one_line(n / 10);
    }
}

proof fn lemma_escape_one_line(c: char)
    ensures
        one_line(escape(c)),
{
    let code = c as int;
    assert(0 <= code);
    assert(c < ' ' ==> hex_digit(code / 16) >= ' ' && hex_digit(code % 16) >= ' ');
}

proof fn lemma_quote_one_line(s: Seq<char>)
    ensures
        one_line(escaped(s)),
        one_line(quote(s)),
    decreases s.len(),
{
    if s.len() > 0 {
        lemma_quote_one_line(s.drop_last());
        lemma_escape_one_line(s.last());
    }
}

proof fn lemma_items_one_line(items: Seq<Tree>, n: nat, depth: nat)
    requires
        n <= items.len(),
        forall|i: int| 0 <= i < items.len() ==> readable(#[trigger] items[i], depth),
    ensures
        one_line(items_text(items, n)),
    decreases items, n,
{
    if n > 0 {
        lemma_json_one_line(items[n - 1], depth);
        if n > 1 {
            lemma_items_one_line(items, (n - 1) as nat, depth);
        }
    }
}

proof fn lemma_fields_one_line(fields: Fields, n: nat, depth: nat)
    requires
        n <= fields.len(),
        forall|i: int| 0 <= i < fields.len() ==> readable((#[trigger] fields[i]).1, depth),
    ensures
        one_line(fields_text(fields, n)),
    decreases fields, n,
{
    if n > 0 {
        assert(readable(fields[n - 1].1, depth));
        lemma_json_one_line(fields[n - 1].1, depth);
        lemma_quote_one_line(fields[n - 1].0);
        if n > 1 {
            lemma_fields_one_line(fields, (n - 1) as nat, depth);
        }
    }
}

/// The text of a readable value is one line.
pub proof fn lemma_json_one_line(tree: Tree, depth: nat)
    requires
        readable(tree, depth),
    ensures
        one_line(json_text(tree)),
    decreases tree, 0nat,
{
    reveal_strlit("null");
    reveal_strlit("true");
    reveal_strlit("false");
    match tree {
        Tree::Number(NumberView::PosInt(n)) => {
            lemma_decimal_one_line(n as nat);
        },
        Tree::Number(NumberView::NegInt(n)) => {
            lemma_decimal_one_line((-n) as nat);
        },
        Tree::Number(NumberView::Float { text, .. }) => {
            assert forall|i: int| 0 <= i < text.len() implies #[trigger] text[i] >= ' ' by {
                assert(number_char(text[i]));
            }
        },
        Tree::String(s) => {
            lemma_quote_one_line(s);
        },
        Tree::Array(items) => {
            lemma_items_one_line(items, items.len(), (depth - 1) as nat);
        },
        Tree::Object(fields) => {
            lemma_fields_one_line(fields, fields.len(), (depth - 1) as nat);
        },
        _ => {},
    }
}

} // verus!
