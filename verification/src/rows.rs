//! What each kind of event leaves in the tables, said of what the event says: for every column,
//! the field of the event it holds.
use vstd::prelude::*;
use vstd::string::*;

use crate::json::{Fields, NumberView, Tree, lookup, member, num_of, text_of};
use crate::projection::{
    FaultView, alias_kind, alias_ops, all_kinds, card_kind, card_ops, cards_named, facts_of,
    folded, lemma_kinds_differ, parents_of,
};
use crate::pruning::{finite, law_a_prune_takes_its_cards, named_rows};
use crate::record::{
    ALIAS_PREFIX, PRUNE_STREAM, Placed, STREAM_PREFIX, alias_stream_of, card_stream_of,
};
use crate::said::{
    holds_int, holds_json, holds_number, holds_text, is_amount, law_a_column_of_a_field,
    law_a_column_of_a_member, law_a_column_of_an_inner_member, law_a_list_is_its_texts,
    law_a_member_is_reached, law_a_number_is_cut, law_a_text_is_what_is_said,
    law_only_a_number_is_cut, law_the_first_field_is_found, law_the_kind_is_what_is_said, lists,
    reaches, says,
};
use crate::sql::{Cell, int_cell};
use crate::tables::{
    CardRow, Tables, applied, checkpoint_pointers, law_an_event_is_filed_under_its_number,
    law_every_event_has_its_row, lemma_alias_event, lemma_card_event, lemma_card_rows,
    lemma_foldable, lemma_prune_event, no_rows, number_of, own_seq, pruned_behind, prunes,
    referred, replayed, run, sample_pointers,
};
use crate::text::{behind, lemma_behind};

verus! {

// ------------------------------------------------------------------ events

/// Whether `e` is an event of a kind on the stream of a card.
pub open spec fn on_card(e: Placed, id: Seq<char>, kind: Seq<char>) -> bool {
    e.stream == "card-"@ + id && says(e.event, "kind"@, Tree::String(kind))
}

/// Whether `e` is an event of a kind on the stream of an alias.
pub open spec fn on_alias(e: Placed, name: Seq<char>, kind: Seq<char>) -> bool {
    e.stream == "alias-"@ + name && says(e.event, "kind"@, Tree::String(kind))
}

/// Whether `e` is an entry of the prune journal.
pub open spec fn on_journal(e: Placed) -> bool {
    e.stream == "prune"@ && says(e.event, "kind"@, Tree::String("cards_pruned"@))
}

/// Whether an event is filed under `n`: the number it says under `seq`, read as a signed word,
/// and 0 where it says none.
pub open spec fn filed_under(n: int, event: Fields) -> bool {
    &&& forall|m: u64| #[trigger]
        says(event, "seq"@, Tree::Number(NumberView::PosInt(m))) ==> n == if m
            <= 0x7fff_ffff_ffff_ffff {
            m as int
        } else {
            m - 0x1_0000_0000_0000_0000
        }
    &&& (forall|m: u64| !(#[trigger] says(event, "seq"@, Tree::Number(NumberView::PosInt(m)))))
        ==> n == 0
}

/// Whether a cell holds a position of the log.
pub open spec fn holds_position(cell: Cell, position: u64) -> bool {
    &&& position <= 0x7fff_ffff_ffff_ffff ==> cell == Cell::Integer(position as int)
    &&& position > 0x7fff_ffff_ffff_ffff ==> cell == Cell::Integer(
        position - 0x1_0000_0000_0000_0000,
    )
}

/// Whether a cell holds the time an event says, 0 where it says none.
pub open spec fn holds_time(cell: Cell, event: Fields) -> bool {
    cell is Integer && is_amount(cell->Integer_0, event, seq!["epoch_ms"@])
}

proof fn lemma_filed(e: Placed)
    ensures
        filed_under(facts_of(e.position, e.event).seq, e.event),
{
    let n = facts_of(e.position, e.event).seq;
    match lookup(e.event, "seq"@) {
        Some(v) => {
            law_the_first_field_is_found(e.event, "seq"@, v);
        },
        None => {},
    }
    assert forall|m: u64| #[trigger]
        says(e.event, "seq"@, Tree::Number(NumberView::PosInt(m))) implies n == if m
        <= 0x7fff_ffff_ffff_ffff {
        m as int
    } else {
        m - 0x1_0000_0000_0000_0000
    } by {
        law_the_first_field_is_found(e.event, "seq"@, Tree::Number(NumberView::PosInt(m)));
    }
}

/// Every event is filed under one number, and two events of one stream that say different
/// numbers are filed under different ones.
pub proof fn law_numbers_are_kept_apart(a: Placed, b: Placed, m: u64, n: u64)
    requires
        says(a.event, "seq"@, Tree::Number(NumberView::PosInt(m))),
        says(b.event, "seq"@, Tree::Number(NumberView::PosInt(n))),
    ensures
        number_of(a.event) == m,
        filed_under(facts_of(a.position, a.event).seq, a.event),
        m <= 0x7fff_ffff_ffff_ffff ==> facts_of(a.position, a.event).seq == m,
        m != n ==> facts_of(a.position, a.event).seq != facts_of(b.position, b.event).seq,
{
    lemma_filed(a);
    law_the_first_field_is_found(a.event, "seq"@, Tree::Number(NumberView::PosInt(m)));
    law_the_first_field_is_found(b.event, "seq"@, Tree::Number(NumberView::PosInt(n)));
}

proof fn lemma_on_card(t: Tables, name: Seq<char>, e: Placed, id: Seq<char>, kind: Seq<char>)
    requires
        on_card(e, id, kind),
        card_kind(kind),
    ensures
        applied(t, name, e) == Ok::<Tables, FaultView>(
            run(t, card_ops(kind, id, facts_of(e.position, e.event))),
        ),
{
    law_the_kind_is_what_is_said(e.event, kind);
    lemma_behind(e.stream, "card-"@, id);
}

proof fn lemma_on_alias(t: Tables, name: Seq<char>, e: Placed, alias: Seq<char>, kind: Seq<char>)
    requires
        on_alias(e, alias, kind),
        alias_kind(kind),
    ensures
        folded(name, e) == alias_ops(kind, alias, facts_of(e.position, e.event)),
{
    lemma_kinds_differ();
    law_the_kind_is_what_is_said(e.event, kind);
    lemma_behind(e.stream, "alias-"@, alias);
}

// ------------------------------------------------------------------ cards

/// An opening writes the row of its card, where there is none yet: each column is the field of
/// the event it is named after, the card is open, nothing is counted yet, and nothing is said of
/// a close. No other row of a table changes, but that the card descends from every text in the
/// list of its parents, and from no other.
#[verifier::rlimit(30)]
pub proof fn law_an_opening_is_written_down(t: Tables, name: Seq<char>, e: Placed, id: Seq<char>)
    requires
        on_card(e, id, "card_opened"@),
    ensures
        applied(t, name, e) is Ok,
        ({
            let r = applied(t, name, e)->Ok_0;
            let key = Cell::Text(id);
            let row = r.cards[key];
            &&& t.cards.contains_key(key) ==> r.cards == t.cards
            &&& !t.cards.contains_key(key) ==> {
                &&& r.cards == t.cards.insert(key, row)
                &&& holds_text(row.pkg, e.event, seq!["meta"@, "pkg"@])
                &&& holds_text(row.scenario, e.event, seq!["meta"@, "scenario"@])
                &&& holds_text(row.source, e.event, seq!["meta"@, "source"@])
                &&& holds_text(row.created_by, e.event, seq!["meta"@, "created_by"@])
                &&& holds_text(row.model, e.event, seq!["meta"@, "model"@])
                &&& holds_text(row.trace_id, e.event, seq!["meta"@, "trace_id"@])
                &&& holds_text(row.work_url, e.event, seq!["meta"@, "work_url"@])
                &&& holds_text(row.fingerprint, e.event, seq!["meta"@, "fingerprint"@])
                &&& holds_text(row.note, e.event, seq!["data"@, "note"@])
                &&& holds_json(row.params_json, e.event, seq!["data"@, "params"@])
                &&& holds_time(row.opened_ms, e.event)
                &&& holds_position(row.opened_position, e.position)
                &&& row.state == Cell::Text("open"@)
                &&& row.sample_batches == 0 && row.sample_rows == 0 && row.eval_count == 0
                &&& row.checkpoint_count == 0
                &&& row.closed_ms is Null && row.error is Null && row.stats_json is Null
                &&& row.cost_json is Null && row.mean_score is Null && row.n is Null
                &&& row.pass_rate is Null && row.passed is Null && row.elapsed_ms is Null
                &&& row.llm_calls is Null
            }
            &&& forall|line: (Cell, Cell)| #[trigger]
                r.lineage.contains(line) <==> (t.lineage.contains(line) || (line.0 == key
                    && line.1 is Text && lists(
                    e.event,
                    seq!["data"@, "parents"@],
                    line.1->Text_0,
                )))
            &&& r == Tables { cards: r.cards, lineage: r.lineage, ..t }
        }),
{
    let f = facts_of(e.position, e.event);
    let r = run(t, card_ops("card_opened"@, id, f));
    lemma_kinds_differ();
    lemma_on_card(t, name, e, id, "card_opened"@);
    lemma_card_event(t, "card_opened"@, id, f);
    lemma_card_rows(t, "card_opened"@, id, f);
    law_a_column_of_a_member(e.event, "meta"@, "pkg"@);
    law_a_column_of_a_member(e.event, "meta"@, "scenario"@);
    law_a_column_of_a_member(e.event, "meta"@, "source"@);
    law_a_column_of_a_member(e.event, "meta"@, "created_by"@);
    law_a_column_of_a_member(e.event, "meta"@, "model"@);
    law_a_column_of_a_member(e.event, "meta"@, "trace_id"@);
    law_a_column_of_a_member(e.event, "meta"@, "work_url"@);
    law_a_column_of_a_member(e.event, "meta"@, "fingerprint"@);
    law_a_column_of_a_member(e.event, "data"@, "note"@);
    law_a_column_of_a_member(e.event, "data"@, "params"@);
    law_a_column_of_a_field(e.event, "epoch_ms"@);
    assert forall|line: (Cell, Cell)| #[trigger]
        r.lineage.contains(line) <==> (t.lineage.contains(line) || (line.0 == Cell::Text(id)
            && line.1 is Text && lists(
            e.event,
            seq!["data"@, "parents"@],
            line.1->Text_0,
        ))) by {
        if line.1 is Text {
            law_a_list_is_its_texts(e.event, "data"@, "parents"@, line.1->Text_0);
        }
        if line.0 == Cell::Text(id) && line.1 is Text && parents_of(f.data).contains(
            line.1->Text_0,
        ) {
            assert(line == (Cell::Text(id), Cell::Text(line.1->Text_0)));
        }
    }
}

/// A blob that an event names at the end of the path `at` has one more pointer at it, and the
/// size the event says at the end of the path `sized`, where it says one. Every other blob is as
/// it was.
pub open spec fn points(
    t: Tables,
    r: Tables,
    event: Fields,
    at: Seq<Seq<char>>,
    sized: Seq<Seq<char>>,
) -> bool {
    &&& forall|hash: Seq<char>| #[trigger]
        reaches(event, at, Tree::String(hash)) ==> {
            let key = Cell::Text(hash);
            &&& r.blobs == t.blobs.insert(key, r.blobs[key])
            &&& r.blobs[key].refs == 1 + if t.blobs.contains_key(key) {
                t.blobs[key].refs
            } else {
                0
            }
            &&& !t.blobs.contains_key(key) ==> holds_int(r.blobs[key].size, event, sized)
            &&& t.blobs.contains_key(key) ==> if exists|x: NumberView| #[trigger]
                reaches(event, sized, Tree::Number(x)) {
                holds_int(r.blobs[key].size, event, sized)
            } else {
                r.blobs[key].size == t.blobs[key].size
            }
        }
    &&& (forall|hash: Seq<char>| !(#[trigger] reaches(event, at, Tree::String(hash))))
        ==> r.blobs == t.blobs
}

proof fn lemma_points(t: Tables, r: Tables, e: Placed)
    requires
        r.blobs == match text_of(lookup(e.event, "data"@), "blob"@) {
            Some(hash) => referred(
                t.blobs,
                Cell::Text(hash),
                int_cell(num_of(member(lookup(e.event, "data"@), "size"@))),
            ),
            None => t.blobs,
        },
    ensures
        points(t, r, e.event, seq!["data"@, "blob"@], seq!["data"@, "size"@]),
{
    let at = seq!["data"@, "blob"@];
    let sized = seq!["data"@, "size"@];
    let found = member(lookup(e.event, "data"@), "size"@);
    law_a_column_of_a_member(e.event, "data"@, "size"@);
    assert forall|x: NumberView| #[trigger] reaches(e.event, sized, Tree::Number(x)) <==> found
        == Some(Tree::Number(x)) by {
        law_a_member_is_reached(e.event, "data"@, "size"@, Tree::Number(x));
    }
    match found {
        Some(Tree::Number(x)) => {
            assert(reaches(e.event, sized, Tree::Number(x)));
            law_a_number_is_cut(x);
        },
        _ => {
            law_only_a_number_is_cut(found);
        },
    }
    assert forall|hash: Seq<char>| #[trigger]
        reaches(e.event, at, Tree::String(hash)) <==> text_of(
            lookup(e.event, "data"@),
            "blob"@,
        ) == Some(hash) by {
        law_a_text_is_what_is_said(e.event, "data"@, "blob"@, hash);
    }
    match text_of(lookup(e.event, "data"@), "blob"@) {
        Some(hash) => {
            assert(reaches(e.event, at, Tree::String(hash)));
            assert(r.blobs =~= t.blobs.insert(Cell::Text(hash), r.blobs[Cell::Text(hash)]));
        },
        None => {},
    }
}

/// The cards after one of them was counted on: its row as `row`, where it has one, and every
/// other as it was.
pub open spec fn only_row(t: Tables, r: Tables, key: Cell, row: CardRow) -> bool {
    if t.cards.contains_key(key) {
        r.cards == t.cards.insert(key, row)
    } else {
        r.cards == t.cards
    }
}

/// A batch of samples writes its row under its card and its number, where there is none yet:
/// how many rows it holds, the rows as JSON, the blob and its size, and the time. Its card, where
/// it has a row, counts one batch more and as many rows more as the batch says.
pub proof fn law_samples_are_written_down(t: Tables, name: Seq<char>, e: Placed, id: Seq<char>, n: int)
    requires
        on_card(e, id, "samples_appended"@),
        filed_under(n, e.event),
    ensures
        applied(t, name, e) is Ok,
        ({
            let r = applied(t, name, e)->Ok_0;
            let key = (Cell::Text(id), Cell::Integer(n));
            let row = r.samples[key];
            let card = t.cards[Cell::Text(id)];
            let more = r.cards[Cell::Text(id)].sample_rows - card.sample_rows;
            &&& t.samples.contains_key(key) ==> r.samples == t.samples
            &&& !t.samples.contains_key(key) ==> {
                &&& r.samples == t.samples.insert(key, row)
                &&& holds_int(row.n, e.event, seq!["data"@, "n"@])
                &&& holds_json(row.rows_json, e.event, seq!["data"@, "rows"@])
                &&& holds_text(row.blob, e.event, seq!["data"@, "blob"@])
                &&& holds_int(row.size, e.event, seq!["data"@, "size"@])
                &&& holds_time(row.epoch_ms, e.event)
            }
            &&& only_row(
                t,
                r,
                Cell::Text(id),
                CardRow {
                    sample_batches: card.sample_batches + 1,
                    sample_rows: card.sample_rows + more,
                    ..card
                },
            )
            &&& t.cards.contains_key(Cell::Text(id)) ==> is_amount(
                more,
                e.event,
                seq!["data"@, "n"@],
            )
            &&& points(t, r, e.event, seq!["data"@, "blob"@], seq!["data"@, "size"@])
            &&& r == Tables { cards: r.cards, samples: r.samples, blobs: r.blobs, ..t }
        }),
{
    let f = facts_of(e.position, e.event);
    lemma_kinds_differ();
    lemma_on_card(t, name, e, id, "samples_appended"@);
    lemma_card_event(t, "samples_appended"@, id, f);
    lemma_card_rows(t, "samples_appended"@, id, f);
    lemma_filed_once(e, n);
    law_a_column_of_a_member(e.event, "data"@, "n"@);
    law_a_column_of_a_member(e.event, "data"@, "rows"@);
    law_a_column_of_a_member(e.event, "data"@, "blob"@);
    law_a_column_of_a_member(e.event, "data"@, "size"@);
    law_a_column_of_a_field(e.event, "epoch_ms"@);
    lemma_points(t, applied(t, name, e)->Ok_0, e);
}

/// An event is filed under one number.
proof fn lemma_filed_once(e: Placed, n: int)
    requires
        filed_under(n, e.event),
    ensures
        n == facts_of(e.position, e.event).seq,
{
    lemma_filed(e);
    match lookup(e.event, "seq"@) {
        Some(Tree::Number(NumberView::PosInt(m))) => {
            law_the_first_field_is_found(e.event, "seq"@, Tree::Number(NumberView::PosInt(m)));
        },
        _ => {
            assert forall|m: u64|
                !(#[trigger] says(e.event, "seq"@, Tree::Number(NumberView::PosInt(m)))) by {
                law_the_first_field_is_found(e.event, "seq"@, Tree::Number(NumberView::PosInt(m)));
            }
        },
    }
}

/// An evaluation writes its row under its card and its number, where there is none yet: where it
/// comes from, its data as JSON, and the time. Its card, where it has a row, counts one
/// evaluation more.
pub proof fn law_an_evaluation_is_written_down(
    t: Tables,
    name: Seq<char>,
    e: Placed,
    id: Seq<char>,
    n: int,
)
    requires
        on_card(e, id, "eval_recorded"@),
        filed_under(n, e.event),
    ensures
        applied(t, name, e) is Ok,
        ({
            let r = applied(t, name, e)->Ok_0;
            let key = (Cell::Text(id), Cell::Integer(n));
            let row = r.evals[key];
            let card = t.cards[Cell::Text(id)];
            &&& t.evals.contains_key(key) ==> r.evals == t.evals
            &&& !t.evals.contains_key(key) ==> {
                &&& r.evals == t.evals.insert(key, row)
                &&& holds_text(row.source, e.event, seq!["meta"@, "source"@])
                &&& holds_json(row.data_json, e.event, seq!["data"@])
                &&& holds_time(row.epoch_ms, e.event)
            }
            &&& only_row(
                t,
                r,
                Cell::Text(id),
                CardRow { eval_count: card.eval_count + 1, ..card },
            )
            &&& r == Tables { cards: r.cards, evals: r.evals, ..t }
        }),
{
    let f = facts_of(e.position, e.event);
    lemma_kinds_differ();
    lemma_on_card(t, name, e, id, "eval_recorded"@);
    lemma_card_event(t, "eval_recorded"@, id, f);
    lemma_card_rows(t, "eval_recorded"@, id, f);
    lemma_filed_once(e, n);
    law_a_column_of_a_member(e.event, "meta"@, "source"@);
    law_a_column_of_a_field(e.event, "data"@);
    law_a_column_of_a_field(e.event, "epoch_ms"@);
}

/// A checkpoint writes its row under its card and its number, where there is none yet: the blob
/// and its size, the format, the note, and the time. Its card, where it has a row, counts one
/// checkpoint more.
pub proof fn law_a_checkpoint_is_written_down(
    t: Tables,
    name: Seq<char>,
    e: Placed,
    id: Seq<char>,
    n: int,
)
    requires
        on_card(e, id, "checkpoint_saved"@),
        filed_under(n, e.event),
    ensures
        applied(t, name, e) is Ok,
        ({
            let r = applied(t, name, e)->Ok_0;
            let key = (Cell::Text(id), Cell::Integer(n));
            let row = r.checkpoints[key];
            let card = t.cards[Cell::Text(id)];
            &&& t.checkpoints.contains_key(key) ==> r.checkpoints == t.checkpoints
            &&& !t.checkpoints.contains_key(key) ==> {
                &&& r.checkpoints == t.checkpoints.insert(key, row)
                &&& holds_text(row.blob, e.event, seq!["data"@, "blob"@])
                &&& holds_int(row.size, e.event, seq!["data"@, "size"@])
                &&& holds_text(row.format, e.event, seq!["data"@, "format"@])
                &&& holds_text(row.note, e.event, seq!["data"@, "note"@])
                &&& holds_time(row.epoch_ms, e.event)
            }
            &&& only_row(
                t,
                r,
                Cell::Text(id),
                CardRow { checkpoint_count: card.checkpoint_count + 1, ..card },
            )
            &&& points(t, r, e.event, seq!["data"@, "blob"@], seq!["data"@, "size"@])
            &&& r == Tables { cards: r.cards, checkpoints: r.checkpoints, blobs: r.blobs, ..t }
        }),
{
    let f = facts_of(e.position, e.event);
    lemma_kinds_differ();
    lemma_on_card(t, name, e, id, "checkpoint_saved"@);
    lemma_card_event(t, "checkpoint_saved"@, id, f);
    lemma_card_rows(t, "checkpoint_saved"@, id, f);
    lemma_filed_once(e, n);
    law_a_column_of_a_member(e.event, "data"@, "blob"@);
    law_a_column_of_a_member(e.event, "data"@, "size"@);
    law_a_column_of_a_member(e.event, "data"@, "format"@);
    law_a_column_of_a_member(e.event, "data"@, "note"@);
    law_a_column_of_a_field(e.event, "epoch_ms"@);
    lemma_points(t, applied(t, name, e)->Ok_0, e);
}

/// A close writes into the row of its card, where there is one: the state its outcome is, the
/// error, the statistics and the cost as JSON, and the numbers among them, each as it was
/// written. Every other column is as it was, and so is every other row of every table.
#[verifier::rlimit(30)]
pub proof fn law_a_close_is_written_down(t: Tables, name: Seq<char>, e: Placed, id: Seq<char>)
    requires
        on_card(e, id, "card_closed"@),
    ensures
        applied(t, name, e) is Ok,
        ({
            let r = applied(t, name, e)->Ok_0;
            let key = Cell::Text(id);
            let before = t.cards[key];
            let row = r.cards[key];
            &&& !t.cards.contains_key(key) ==> r == t
            &&& t.cards.contains_key(key) ==> {
                &&& r == Tables { cards: t.cards.insert(key, row), ..t }
                &&& row.state == Cell::Text(
                    if reaches(e.event, seq!["meta"@, "outcome"@], Tree::String("ok"@)) {
                        "closed_ok"@
                    } else {
                        "closed_failed"@
                    },
                )
                &&& holds_time(row.closed_ms, e.event)
                &&& holds_text(row.error, e.event, seq!["data"@, "error"@])
                &&& holds_json(row.stats_json, e.event, seq!["data"@, "stats"@])
                &&& holds_json(row.cost_json, e.event, seq!["data"@, "cost"@])
                &&& holds_number(row.mean_score, e.event, seq!["data"@, "stats"@, "mean_score"@])
                &&& holds_int(row.n, e.event, seq!["data"@, "stats"@, "n"@])
                &&& holds_number(row.pass_rate, e.event, seq!["data"@, "stats"@, "pass_rate"@])
                &&& holds_int(row.passed, e.event, seq!["data"@, "stats"@, "passed"@])
                &&& holds_int(row.elapsed_ms, e.event, seq!["data"@, "cost"@, "elapsed_ms"@])
                &&& holds_int(row.llm_calls, e.event, seq!["data"@, "cost"@, "llm_calls"@])
                &&& row == CardRow {
                    state: row.state,
                    closed_ms: row.closed_ms,
                    error: row.error,
                    stats_json: row.stats_json,
                    cost_json: row.cost_json,
                    mean_score: row.mean_score,
                    n: row.n,
                    pass_rate: row.pass_rate,
                    passed: row.passed,
                    elapsed_ms: row.elapsed_ms,
                    llm_calls: row.llm_calls,
                    ..before
                }
            }
        }),
{
    let f = facts_of(e.position, e.event);
    lemma_kinds_differ();
    lemma_on_card(t, name, e, id, "card_closed"@);
    lemma_card_event(t, "card_closed"@, id, f);
    law_a_text_is_what_is_said(e.event, "meta"@, "outcome"@, "ok"@);
    law_a_column_of_a_field(e.event, "epoch_ms"@);
    law_a_column_of_a_member(e.event, "data"@, "error"@);
    law_a_column_of_a_member(e.event, "data"@, "stats"@);
    law_a_column_of_a_member(e.event, "data"@, "cost"@);
    law_a_column_of_an_inner_member(e.event, "data"@, "stats"@, "mean_score"@);
    law_a_column_of_an_inner_member(e.event, "data"@, "stats"@, "n"@);
    law_a_column_of_an_inner_member(e.event, "data"@, "stats"@, "pass_rate"@);
    law_a_column_of_an_inner_member(e.event, "data"@, "stats"@, "passed"@);
    law_a_column_of_an_inner_member(e.event, "data"@, "cost"@, "elapsed_ms"@);
    law_a_column_of_an_inner_member(e.event, "data"@, "cost"@, "llm_calls"@);
    assert(applied(t, name, e)->Ok_0 =~= Tables { cards: applied(t, name, e)->Ok_0.cards, ..t });
}

/// The number a row of a card holds is the number the close said, whichever it was: where the
/// mean score or the pass rate is a number, the column is that number, and where it is anything
/// else or nothing, the column is empty.
pub proof fn law_a_score_is_the_score_that_was_said(
    t: Tables,
    name: Seq<char>,
    e: Placed,
    id: Seq<char>,
    data: Fields,
    stats: Fields,
    value: Tree,
)
    requires
        on_card(e, id, "card_closed"@),
        t.cards.contains_key(Cell::Text(id)),
        says(e.event, "data"@, Tree::Object(data)),
        says(data, "stats"@, Tree::Object(stats)),
    ensures
        ({
            let row = applied(t, name, e)->Ok_0.cards[Cell::Text(id)];
            &&& says(stats, "mean_score"@, value) ==> row.mean_score == match value {
                Tree::Number(x) => Cell::Real(x),
                _ => Cell::Null,
            }
            &&& says(stats, "pass_rate"@, value) ==> row.pass_rate == match value {
                Tree::Number(x) => Cell::Real(x),
                _ => Cell::Null,
            }
        }),
{
    let f = facts_of(e.position, e.event);
    lemma_kinds_differ();
    lemma_on_card(t, name, e, id, "card_closed"@);
    lemma_card_event(t, "card_closed"@, id, f);
    law_the_first_field_is_found(e.event, "data"@, Tree::Object(data));
    law_the_first_field_is_found(data, "stats"@, Tree::Object(stats));
    law_the_first_field_is_found(stats, "mean_score"@, value);
    law_the_first_field_is_found(stats, "pass_rate"@, value);
}

/// A tag that is set has the value the event says, under its card and its key, and a tag that is
/// taken off has none. An event that does not say which tag, or sets one without a value, changes
/// nothing; and nothing else changes.
pub proof fn law_a_tag_is_written_down(t: Tables, name: Seq<char>, e: Placed, id: Seq<char>)
    requires
        on_card(e, id, "tag_set"@) || on_card(e, id, "tag_unset"@),
    ensures
        applied(t, name, e) is Ok,
        ({
            let r = applied(t, name, e)->Ok_0;
            let set = says(e.event, "kind"@, Tree::String("tag_set"@));
            &&& forall|key: Seq<char>, value: Seq<char>|
                set && reaches(e.event, tag_key(), Tree::String(key)) && reaches(
                    e.event,
                    tag_value(),
                    Tree::String(value),
                ) ==> r.tags == #[trigger] t.tags.insert(
                    (Cell::Text(id), Cell::Text(key)),
                    Cell::Text(value),
                )
            &&& forall|key: Seq<char>|
                !set && reaches(e.event, tag_key(), Tree::String(key)) ==> r.tags
                    == #[trigger] t.tags.remove((Cell::Text(id), Cell::Text(key)))
            &&& (forall|key: Seq<char>|
                !(#[trigger] reaches(e.event, tag_key(), Tree::String(key)))) ==> r.tags == t.tags
            &&& set && (forall|value: Seq<char>|
                !(#[trigger] reaches(e.event, tag_value(), Tree::String(value)))) ==> r.tags
                == t.tags
            &&& r == Tables { tags: r.tags, ..t }
        }),
{
    let f = facts_of(e.position, e.event);
    let set = says(e.event, "kind"@, Tree::String("tag_set"@));
    let kind = if set {
        "tag_set"@
    } else {
        "tag_unset"@
    };
    lemma_kinds_differ();
    lemma_on_card(t, name, e, id, kind);
    lemma_card_event(t, kind, id, f);
    assert forall|key: Seq<char>| #[trigger] reaches(e.event, tag_key(), Tree::String(key)) <==> text_of(
        f.meta,
        "key"@,
    ) == Some(key) by {
        law_a_text_is_what_is_said(e.event, "meta"@, "key"@, key);
    }
    assert forall|value: Seq<char>| #[trigger]
        reaches(e.event, tag_value(), Tree::String(value)) <==> text_of(f.meta, "value"@) == Some(
        value,
    ) by {
        law_a_text_is_what_is_said(e.event, "meta"@, "value"@, value);
    }
    match text_of(f.meta, "key"@) {
        Some(key) => {
            assert(reaches(e.event, tag_key(), Tree::String(key)));
        },
        None => {},
    }
    match text_of(f.meta, "value"@) {
        Some(value) => {
            assert(reaches(e.event, tag_value(), Tree::String(value)));
        },
        None => {},
    }
    assert(applied(t, name, e)->Ok_0 =~= Tables { tags: applied(t, name, e)->Ok_0.tags, ..t });
}

/// Where a tag's key is said.
pub open spec fn tag_key() -> Seq<Seq<char>> {
    seq!["meta"@, "key"@]
}

/// Where a tag's value is said.
pub open spec fn tag_value() -> Seq<Seq<char>> {
    seq!["meta"@, "value"@]
}

// ------------------------------------------------------------------ aliases

/// The line of history an alias event leaves under its name and its number, where there is none
/// yet: its kind, the card and the note it says, and the time.
pub open spec fn is_logged(
    t: Tables,
    r: Tables,
    e: Placed,
    alias: Seq<char>,
    n: int,
    kind: Seq<char>,
) -> bool {
    let key = (Cell::Text(alias), Cell::Integer(n));
    let line = r.alias_log[key];
    if t.alias_log.contains_key(key) {
        r.alias_log == t.alias_log
    } else {
        &&& r.alias_log == t.alias_log.insert(key, line)
        &&& line.kind == Cell::Text(kind)
        &&& holds_text(line.card_id, e.event, seq!["meta"@, "card_id"@])
        &&& holds_time(line.epoch_ms, e.event)
        &&& holds_text(line.note, e.event, seq!["data"@, "note"@])
    }
}

/// A bind makes its name mean the card it says: the name's row holds that card, and the pkg, the
/// note and the time the event says, whatever the row held before. It leaves a line of history,
/// and nothing else changes. A bind that says no card is refused.
pub proof fn law_a_bind_is_written_down(
    t: Tables,
    name: Seq<char>,
    e: Placed,
    alias: Seq<char>,
    n: int,
    card: Seq<char>,
)
    requires
        on_alias(e, alias, "alias_bound"@),
        filed_under(n, e.event),
    ensures
        reaches(e.event, seq!["meta"@, "card_id"@], Tree::String(card)) ==> {
            let r = applied(t, name, e)->Ok_0;
            let key = Cell::Text(alias);
            let row = r.aliases[key];
            &&& applied(t, name, e) is Ok
            &&& r.aliases == t.aliases.insert(key, row)
            &&& row.card_id == Cell::Text(card)
            &&& holds_text(row.pkg, e.event, seq!["meta"@, "pkg"@])
            &&& holds_time(row.bound_ms, e.event)
            &&& holds_text(row.note, e.event, seq!["data"@, "note"@])
            &&& is_logged(t, r, e, alias, n, "alias_bound"@)
            &&& r == Tables { aliases: r.aliases, alias_log: r.alias_log, ..t }
        },
        applied(t, name, e) is Err <==> says_no_card(e.event),
        applied(t, name, e) is Err ==> applied(t, name, e) == Err::<Tables, FaultView>(
            FaultView::BindsNothing { name: alias },
        ),
{
    let f = facts_of(e.position, e.event);
    lemma_kinds_differ();
    lemma_on_alias(t, name, e, alias, "alias_bound"@);
    lemma_filed_once(e, n);
    lemma_card_said(e.event);
    law_a_text_is_what_is_said(e.event, "meta"@, "card_id"@, card);
    law_a_column_of_a_member(e.event, "meta"@, "card_id"@);
    law_a_column_of_a_member(e.event, "meta"@, "pkg"@);
    law_a_column_of_a_member(e.event, "data"@, "note"@);
    law_a_column_of_a_field(e.event, "epoch_ms"@);
    if alias_ops("alias_bound"@, alias, f) is Ok {
        lemma_alias_event(t, "alias_bound"@, alias, f);
        let r = applied(t, name, e)->Ok_0;
        assert(r =~= Tables { aliases: r.aliases, alias_log: r.alias_log, ..t });
    }
}

/// Where the card of an alias event is said.
pub open spec fn card_said() -> Seq<Seq<char>> {
    seq!["meta"@, "card_id"@]
}

/// Whether an event says no card.
pub open spec fn says_no_card(event: Fields) -> bool {
    forall|card: Seq<char>| !(#[trigger] reaches(event, card_said(), Tree::String(card)))
}

proof fn lemma_card_said(event: Fields)
    ensures
        says_no_card(event) <==> text_of(lookup(event, "meta"@), "card_id"@) is None,
{
    assert forall|card: Seq<char>| #[trigger]
        reaches(event, card_said(), Tree::String(card)) <==> text_of(
            lookup(event, "meta"@),
            "card_id"@,
        ) == Some(card) by {
        law_a_text_is_what_is_said(event, "meta"@, "card_id"@, card);
    }
    match text_of(lookup(event, "meta"@), "card_id"@) {
        Some(card) => {
            assert(reaches(event, card_said(), Tree::String(card)));
        },
        None => {},
    }
}

/// A release takes the row of its name away, leaves a line of history, and changes nothing else.
pub proof fn law_a_release_is_written_down(
    t: Tables,
    name: Seq<char>,
    e: Placed,
    alias: Seq<char>,
    n: int,
)
    requires
        on_alias(e, alias, "alias_released"@),
        filed_under(n, e.event),
    ensures
        applied(t, name, e) is Ok,
        ({
            let r = applied(t, name, e)->Ok_0;
            &&& r.aliases == t.aliases.remove(Cell::Text(alias))
            &&& is_logged(t, r, e, alias, n, "alias_released"@)
            &&& r == Tables { aliases: r.aliases, alias_log: r.alias_log, ..t }
        }),
{
    let f = facts_of(e.position, e.event);
    lemma_kinds_differ();
    lemma_on_alias(t, name, e, alias, "alias_released"@);
    lemma_filed_once(e, n);
    law_a_column_of_a_member(e.event, "meta"@, "card_id"@);
    law_a_column_of_a_member(e.event, "data"@, "note"@);
    law_a_column_of_a_field(e.event, "epoch_ms"@);
    lemma_alias_event(t, "alias_released"@, alias, f);
    let r = applied(t, name, e)->Ok_0;
    assert(r =~= Tables { aliases: r.aliases, alias_log: r.alias_log, ..t });
}

// ------------------------------------------------------------------ the prune journal

/// Whether an entry of the prune journal takes the card with this key: where it is a text, and
/// one of the elements of the entry's list of cards is that text.
pub open spec fn takes(event: Fields, key: Cell) -> bool {
    key is Text && lists(event, seq!["data"@, "cards"@], key->Text_0)
}

/// The rows of a table after the cards an entry takes are gone: every row of any other card is
/// there as it was, and none of those.
pub open spec fn rows_taken<V>(
    before: Map<(Cell, Cell), V>,
    after: Map<(Cell, Cell), V>,
    event: Fields,
) -> bool {
    forall|k: (Cell, Cell)|
        (#[trigger] after.contains_key(k) <==> before.contains_key(k) && !takes(event, k.0)) && (
        after.contains_key(k) ==> after[k] == before[k])
}

/// An event is an entry of the prune journal that names a card exactly where it is of that kind
/// and the card is an element of its list.
pub proof fn law_a_prune_names_its_list(e: Placed, id: Seq<char>)
    ensures
        prunes(e, id) <==> says(e.event, "kind"@, Tree::String("cards_pruned"@)) && lists(
            e.event,
            seq!["data"@, "cards"@],
            id,
        ),
{
    reveal_strlit("cards_pruned");
    assert("cards_pruned"@.len() == 12);
    law_a_list_is_its_texts(e.event, "data"@, "cards"@, id);
    law_the_first_field_is_found(e.event, "kind"@, Tree::String("cards_pruned"@));
}

/// An entry of the prune journal takes every card that is an element of its list, and no other:
/// no row of such a card is left in any table by card, and every row of every other card is there
/// as it was. Each blob is given back one pointer for each row it takes that pointed at it. The
/// aliases and their history are as they were.
pub proof fn law_a_prune_takes_what_is_listed(t: Tables, name: Seq<char>, e: Placed, hash: Cell)
    requires
        on_journal(e),
        finite(t),
    ensures
        applied(t, name, e) is Ok,
        ({
            let r = applied(t, name, e)->Ok_0;
            let samples = Set::new(
                |k: (Cell, Cell)|
                    t.samples.contains_key(k) && t.samples[k].blob == hash && takes(e.event, k.0),
            );
            let checkpoints = Set::new(
                |k: (Cell, Cell)|
                    t.checkpoints.contains_key(k) && t.checkpoints[k].blob == hash && takes(
                        e.event,
                        k.0,
                    ),
            );
            &&& forall|id: Cell|
                (#[trigger] r.cards.contains_key(id) <==> t.cards.contains_key(id) && !takes(
                    e.event,
                    id,
                )) && (r.cards.contains_key(id) ==> r.cards[id] == t.cards[id])
            &&& rows_taken(t.samples, r.samples, e.event)
            &&& rows_taken(t.evals, r.evals, e.event)
            &&& rows_taken(t.checkpoints, r.checkpoints, e.event)
            &&& rows_taken(t.tags, r.tags, e.event)
            &&& forall|line: (Cell, Cell)| #[trigger]
                r.lineage.contains(line) <==> t.lineage.contains(line) && !takes(e.event, line.0)
            &&& r.blobs.contains_key(hash) <==> t.blobs.contains_key(hash)
            &&& t.blobs.contains_key(hash) ==> r.blobs[hash].size == t.blobs[hash].size
                && r.blobs[hash].refs == t.blobs[hash].refs - samples.len() - checkpoints.len()
            &&& r.aliases == t.aliases
            &&& r.alias_log == t.alias_log
        }),
{
    let data = lookup(e.event, "data"@);
    let ids = cards_named(data);
    lemma_kinds_differ();
    law_the_kind_is_what_is_said(e.event, "cards_pruned"@);
    law_a_prune_takes_its_cards(t, name, e, hash);
    lemma_prune_event(t, data);
    assert forall|id: Cell| #[trigger] crate::tables::named(ids, id) == takes(e.event, id) by {
        if id is Text {
            law_a_list_is_its_texts(e.event, "data"@, "cards"@, id->Text_0);
        }
    }
    assert(named_rows(sample_pointers(t, hash), ids) =~= Set::new(
        |k: (Cell, Cell)|
            t.samples.contains_key(k) && t.samples[k].blob == hash && takes(e.event, k.0),
    ));
    assert(named_rows(checkpoint_pointers(t, hash), ids) =~= Set::new(
        |k: (Cell, Cell)|
            t.checkpoints.contains_key(k) && t.checkpoints[k].blob == hash && takes(e.event, k.0),
    ));
}

/// After a prune is folded, wherever in the log it stands, no element of its list has a row: not
/// the first, not the last, not any between.
pub proof fn law_no_listed_card_is_left(
    t: Tables,
    name: Seq<char>,
    log: Seq<Placed>,
    e: Placed,
    data: Fields,
    items: Seq<Tree>,
    i: int,
    id: Seq<char>,
    other: Cell,
)
    requires
        replayed(t, name, log.push(e)) is Ok,
        says(e.event, "kind"@, Tree::String("cards_pruned"@)),
        says(e.event, "data"@, Tree::Object(data)),
        says(data, "cards"@, Tree::Array(items)),
        0 <= i < items.len(),
        items[i] == Tree::String(id),
    ensures
        ({
            let r = replayed(t, name, log.push(e))->Ok_0;
            let key = Cell::Text(id);
            &&& !r.cards.contains_key(key)
            &&& !r.samples.contains_key((key, other))
            &&& !r.evals.contains_key((key, other))
            &&& !r.checkpoints.contains_key((key, other))
            &&& !r.tags.contains_key((key, other))
            &&& !r.lineage.contains((key, other))
        }),
{
    let front = log.push(e).drop_last();
    assert(front =~= log);
    let u = replayed(t, name, log)->Ok_0;
    lemma_kinds_differ();
    law_the_kind_is_what_is_said(e.event, "cards_pruned"@);
    lemma_foldable(name, e);
    lemma_prune_event(u, lookup(e.event, "data"@));
    law_the_first_field_is_found(e.event, "data"@, Tree::Object(data));
    law_the_first_field_is_found(data, "cards"@, Tree::Array(items));
    let path = seq!["data"@, "cards"@];
    law_a_member_is_reached(e.event, "data"@, "cards"@, Tree::Array(items));
    assert(reaches(e.event, path, Tree::Array(items)) && items[i] == Tree::String(id));
    assert(lists(e.event, path, id));
    law_a_list_is_its_texts(e.event, "data"@, "cards"@, id);
    assert(crate::tables::named(cards_named(lookup(e.event, "data"@)), Cell::Text(id)));
}

// ------------------------------------------------------------------ a whole log

/// Whether the tables hold the row of an event of a card, with what the event says in it.
pub open spec fn is_kept(t: Tables, e: Placed, id: Seq<char>, n: int) -> bool {
    let key = (Cell::Text(id), Cell::Integer(n));
    &&& on_card(e, id, "samples_appended"@) ==> {
        let row = t.samples[key];
        &&& t.samples.contains_key(key)
        &&& holds_int(row.n, e.event, seq!["data"@, "n"@])
        &&& holds_json(row.rows_json, e.event, seq!["data"@, "rows"@])
        &&& holds_text(row.blob, e.event, seq!["data"@, "blob"@])
        &&& holds_int(row.size, e.event, seq!["data"@, "size"@])
        &&& holds_time(row.epoch_ms, e.event)
    }
    &&& on_card(e, id, "eval_recorded"@) ==> {
        let row = t.evals[key];
        &&& t.evals.contains_key(key)
        &&& holds_text(row.source, e.event, seq!["meta"@, "source"@])
        &&& holds_json(row.data_json, e.event, seq!["data"@])
        &&& holds_time(row.epoch_ms, e.event)
    }
    &&& on_card(e, id, "checkpoint_saved"@) ==> {
        let row = t.checkpoints[key];
        &&& t.checkpoints.contains_key(key)
        &&& holds_text(row.blob, e.event, seq!["data"@, "blob"@])
        &&& holds_int(row.size, e.event, seq!["data"@, "size"@])
        &&& holds_text(row.format, e.event, seq!["data"@, "format"@])
        &&& holds_text(row.note, e.event, seq!["data"@, "note"@])
        &&& holds_time(row.epoch_ms, e.event)
    }
}

/// Whatever is folded behind it, every batch of samples, every evaluation and every checkpoint has
/// a row of its own, under its card and the number it says, that holds what it says; as long as no
/// event before it on its stream says the same number, and the card is in no list of an entry of
/// the prune journal behind it.
pub proof fn law_nothing_that_was_said_is_lost(
    name: Seq<char>,
    log: Seq<Placed>,
    i: int,
    id: Seq<char>,
    kind: Seq<char>,
    n: int,
)
    requires
        replayed(no_rows(), name, log) is Ok,
        0 <= i < log.len(),
        on_card(log[i], id, kind),
        kind == "samples_appended"@ || kind == "eval_recorded"@ || kind == "checkpoint_saved"@,
        filed_under(n, log[i].event),
        forall|j: int|
            0 <= j < i && (#[trigger] log[j]).stream == log[i].stream ==> !filed_under(
                n,
                log[j].event,
            ),
        forall|j: int|
            i < j < log.len() ==> !(says(
                (#[trigger] log[j]).event,
                "kind"@,
                Tree::String("cards_pruned"@),
            ) && lists(log[j].event, seq!["data"@, "cards"@], id)),
    ensures
        is_kept(replayed(no_rows(), name, log)->Ok_0, log[i], id, n),
{
    let e = log[i];
    lemma_kinds_differ();
    law_the_kind_is_what_is_said(e.event, kind);
    lemma_behind(e.stream, "card-"@, id);
    lemma_filed_once(e, n);
    law_an_event_is_filed_under_its_number(e, e);
    assert(own_seq(log, i)) by {
        assert forall|j: int| 0 <= j < i && (#[trigger] log[j]).stream == log[i].stream implies number_of(
            log[j].event,
        ) != number_of(log[i].event) by {
            lemma_filed(log[j]);
            law_an_event_is_filed_under_its_number(log[j], e);
        }
    }
    assert(!pruned_behind(log, i)) by {
        assert forall|j: int| i < j < log.len() implies !prunes(
            #[trigger] log[j],
            behind(log[i].stream, STREAM_PREFIX@)->0,
        ) by {
            law_a_prune_names_its_list(log[j], id);
        }
    }
    law_every_event_has_its_row(name, log, i);
    law_a_column_of_a_member(e.event, "data"@, "n"@);
    law_a_column_of_a_member(e.event, "data"@, "rows"@);
    law_a_column_of_a_member(e.event, "data"@, "blob"@);
    law_a_column_of_a_member(e.event, "data"@, "size"@);
    law_a_column_of_a_member(e.event, "data"@, "format"@);
    law_a_column_of_a_member(e.event, "data"@, "note"@);
    law_a_column_of_a_member(e.event, "meta"@, "source"@);
    law_a_column_of_a_field(e.event, "data"@);
    law_a_column_of_a_field(e.event, "epoch_ms"@);
    if on_card(e, id, "samples_appended"@) {
        law_the_kind_is_what_is_said(e.event, "samples_appended"@);
    }
    if on_card(e, id, "eval_recorded"@) {
        law_the_kind_is_what_is_said(e.event, "eval_recorded"@);
    }
    if on_card(e, id, "checkpoint_saved"@) {
        law_the_kind_is_what_is_said(e.event, "checkpoint_saved"@);
    }
}

// ------------------------------------------------------------------ what is refused

/// The kinds that are asked for are these ten and no other.
pub proof fn law_these_kinds_are_asked_for(kind: Seq<char>)
    ensures
        all_kinds().contains(kind) <==> {
            ||| kind == "card_opened"@
            ||| kind == "samples_appended"@
            ||| kind == "eval_recorded"@
            ||| kind == "checkpoint_saved"@
            ||| kind == "card_closed"@
            ||| kind == "alias_bound"@
            ||| kind == "alias_released"@
            ||| kind == "cards_pruned"@
            ||| kind == "tag_set"@
            ||| kind == "tag_unset"@
        },
{
    let kinds = all_kinds();
    assert(kinds[0] == "card_opened"@ && kinds[1] == "samples_appended"@ && kinds[2]
        == "eval_recorded"@ && kinds[3] == "checkpoint_saved"@ && kinds[4] == "card_closed"@
        && kinds[5] == "alias_bound"@ && kinds[6] == "alias_released"@ && kinds[7]
        == "cards_pruned"@ && kinds[8] == "tag_set"@ && kinds[9] == "tag_unset"@ && kinds.len()
        == 10);
}

/// An event is refused for what is wrong with it: a kind that was not asked for, one of a card's
/// kinds on a stream that is no card's, one of an alias's on a stream that is no alias's, or an
/// entry of the prune journal that is not on its stream. The refusal holds the kind and the
/// stream as they are.
pub proof fn law_a_refusal_is_for_a_reason(t: Tables, name: Seq<char>, e: Placed, kind: Seq<char>)
    requires
        says(e.event, "kind"@, Tree::String(kind)),
    ensures
        !all_kinds().contains(kind) ==> applied(t, name, e) == Err::<Tables, FaultView>(
            FaultView::UnknownKind { projection: name, kind },
        ),
        (kind == "card_opened"@ || kind == "samples_appended"@ || kind == "eval_recorded"@ || kind
            == "checkpoint_saved"@ || kind == "card_closed"@ || kind == "tag_set"@ || kind
            == "tag_unset"@) && (forall|id: Seq<char>| e.stream != #[trigger] ("card-"@ + id))
            ==> applied(t, name, e) == Err::<Tables, FaultView>(
            FaultView::NotACard { kind, stream: e.stream },
        ),
        (kind == "alias_bound"@ || kind == "alias_released"@) && (forall|id: Seq<char>|
            e.stream != #[trigger] ("alias-"@ + id)) ==> applied(t, name, e) == Err::<
            Tables,
            FaultView,
        >(FaultView::NotAnAlias { kind, stream: e.stream }),
        kind == "cards_pruned"@ && e.stream != "prune"@ ==> applied(t, name, e) == Err::<
            Tables,
            FaultView,
        >(FaultView::NotTheJournal { kind, stream: e.stream }),
{
    lemma_kinds_differ();
    law_the_kind_is_what_is_said(e.event, kind);
    law_these_kinds_are_asked_for(kind);
    match behind(e.stream, STREAM_PREFIX@) {
        Some(id) => {
            lemma_behind(e.stream, STREAM_PREFIX@, id);
            assert(e.stream == "card-"@ + id);
        },
        None => {},
    }
    match behind(e.stream, ALIAS_PREFIX@) {
        Some(id) => {
            lemma_behind(e.stream, ALIAS_PREFIX@, id);
            assert(e.stream == "alias-"@ + id);
        },
        None => {},
    }
}

/// The streams are named by their prefix and the id behind it.
pub proof fn law_streams_are_named(id: Seq<char>)
    ensures
        card_stream_of(id) == "card-"@ + id,
        alias_stream_of(id) == "alias-"@ + id,
        PRUNE_STREAM@ == "prune"@,
{
}

} // verus!
