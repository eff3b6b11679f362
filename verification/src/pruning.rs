//! What a prune leaves: the rows of the cards that stay, a count of what still points at each
//! blob, and read models that a rebuild over the shortened log makes again.
use vstd::prelude::*;
use vstd::set_lib::{lemma_len_subset, lemma_set_disjoint_lens};
use vstd::string::*;

use crate::json::lookup;
use crate::projection::{
    FaultView, alias_kind, card_kind, cards_named, facts_of, folded, lemma_kinds_differ,
    parents_of, prune_kind,
};
use crate::record::{ALIAS_PREFIX, Placed, STREAM_PREFIX, kind_of, wrapped};
use crate::sql::Cell;
use crate::tables::{
    Tables, applied, but_blobs, checkpoint_pointers, law_an_event_is_filed_under_its_number,
    law_batches_are_one_fold, left, lemma_alias_event, lemma_card_event, lemma_card_rows, lemma_foldable, lemma_named_last,
    lemma_prune_event, lemma_pruned_cards, lemma_row_has_an_event, lemma_stream_names, lines_left,
    named, no_rows, number_of, of_one, pointed_at, pruned_cards, replayed, sample_pointers,
};
use crate::text::behind;

verus! {

// ------------------------------------------------------------------ counting rows

/// Those of `rows` that are of a card of a list.
pub open spec fn named_rows(rows: Set<(Cell, Cell)>, ids: Seq<Seq<char>>) -> Set<(Cell, Cell)> {
    Set::new(|k: (Cell, Cell)| rows.contains(k) && named(ids, k.0))
}

/// Those of `rows` that are of no card of a list.
pub open spec fn other_rows(rows: Set<(Cell, Cell)>, ids: Seq<Seq<char>>) -> Set<(Cell, Cell)> {
    Set::new(|k: (Cell, Cell)| rows.contains(k) && !named(ids, k.0))
}

/// How many rows point at a blob.
pub open spec fn rows_at(t: Tables, hash: Cell) -> nat {
    sample_pointers(t, hash).len() + checkpoint_pointers(t, hash).len()
}

/// How many rows of the cards of a list point at a blob.
pub open spec fn named_at(t: Tables, ids: Seq<Seq<char>>, hash: Cell) -> nat {
    named_rows(sample_pointers(t, hash), ids).len() + named_rows(
        checkpoint_pointers(t, hash),
        ids,
    ).len()
}

/// The count of a blob: 0 where it has no row.
pub open spec fn refs_of(t: Tables, hash: Cell) -> int {
    if t.blobs.contains_key(hash) {
        t.blobs[hash].refs
    } else {
        0
    }
}

/// Tables hold finitely many rows.
pub open spec fn finite(t: Tables) -> bool {
    t.samples.dom().finite() && t.checkpoints.dom().finite()
}

/// The count of a blob is the number of rows that point at it.
pub open spec fn counted_at(t: Tables, hash: Cell) -> bool {
    refs_of(t, hash) == rows_at(t, hash)
}

proof fn lemma_split(rows: Set<(Cell, Cell)>, ids: Seq<Seq<char>>)
    requires
        rows.finite(),
    ensures
        named_rows(rows, ids).finite(),
        other_rows(rows, ids).finite(),
        rows.len() == named_rows(rows, ids).len() + other_rows(rows, ids).len(),
{
    lemma_len_subset(named_rows(rows, ids), rows);
    lemma_len_subset(other_rows(rows, ids), rows);
    lemma_set_disjoint_lens(named_rows(rows, ids), other_rows(rows, ids));
    assert(named_rows(rows, ids) + other_rows(rows, ids) =~= rows);
}

proof fn lemma_one_more(rows: Set<(Cell, Cell)>, ids: Seq<Seq<char>>)
    requires
        rows.finite(),
        ids.len() > 0,
    ensures
        named_rows(rows, ids).len() == named_rows(rows, ids.drop_last()).len() + of_one(
            other_rows(rows, ids.drop_last()),
            Cell::Text(ids.last()),
        ).len(),
{
    let front = ids.drop_last();
    let a = named_rows(rows, front);
    let b = of_one(other_rows(rows, front), Cell::Text(ids.last()));
    lemma_len_subset(a, rows);
    lemma_len_subset(b, rows);
    lemma_set_disjoint_lens(a, b);
    assert forall|k: (Cell, Cell)| #[trigger] named_rows(rows, ids).contains(k) == (a + b).contains(
        k,
    ) by {
        lemma_named_last(ids, k.0);
    }
    assert(a + b =~= named_rows(rows, ids));
}

/// The rows a blob is pointed at by, in finite tables, are finitely many.
proof fn lemma_finite_rows(t: Tables, hash: Cell)
    requires
        finite(t),
    ensures
        sample_pointers(t, hash).finite(),
        checkpoint_pointers(t, hash).finite(),
{
    lemma_len_subset(sample_pointers(t, hash), t.samples.dom());
    lemma_len_subset(checkpoint_pointers(t, hash), t.checkpoints.dom());
}

proof fn lemma_rows_left(t: Tables, ids: Seq<Seq<char>>, hash: Cell)
    ensures
        sample_pointers(pruned_cards(t, ids), hash) == other_rows(sample_pointers(t, hash), ids),
        checkpoint_pointers(pruned_cards(t, ids), hash) == other_rows(
            checkpoint_pointers(t, hash),
            ids,
        ),
        pruned_cards(t, ids).samples.dom().subset_of(t.samples.dom()),
        pruned_cards(t, ids).checkpoints.dom().subset_of(t.checkpoints.dom()),
{
    lemma_pruned_cards(t, ids);
    let r = pruned_cards(t, ids);
    assert(sample_pointers(r, hash) =~= other_rows(sample_pointers(t, hash), ids));
    assert(checkpoint_pointers(r, hash) =~= other_rows(checkpoint_pointers(t, hash), ids));
}

/// A prune gives back what the rows of the pruned cards pointed at, once for each row.
proof fn lemma_given_back(t: Tables, ids: Seq<Seq<char>>, hash: Cell)
    requires
        finite(t),
        t.blobs.contains_key(hash),
    ensures
        pruned_cards(t, ids).blobs.contains_key(hash),
        pruned_cards(t, ids).blobs[hash].refs == t.blobs[hash].refs - named_at(t, ids, hash),
        pruned_cards(t, ids).blobs[hash].size == t.blobs[hash].size,
    decreases ids.len(),
{
    lemma_finite_rows(t, hash);
    if ids.len() == 0 {
        assert(named_rows(sample_pointers(t, hash), ids) =~= Set::empty());
        assert(named_rows(checkpoint_pointers(t, hash), ids) =~= Set::empty());
    } else {
        let front = ids.drop_last();
        lemma_given_back(t, front, hash);
        lemma_rows_left(t, front, hash);
        lemma_one_more(sample_pointers(t, hash), ids);
        lemma_one_more(checkpoint_pointers(t, hash), ids);
    }
}

/// What an entry of the prune journal does. No row of a card it names is left, in any table by
/// card, and every row of every other card is as it was. Each blob is given back one pointer for
/// each row of those cards that pointed at it. The aliases and their history are as they were.
pub proof fn law_a_prune_takes_its_cards(t: Tables, name: Seq<char>, e: Placed, hash: Cell)
    requires
        applied(t, name, e) is Ok,
        prune_kind(kind_of(e.event)),
        finite(t),
    ensures
        ({
            let r = applied(t, name, e)->Ok_0;
            let ids = cards_named(lookup(e.event, "data"@));
            &&& same_rows(r, left(t, ids))
            &&& r.blobs.contains_key(hash) <==> t.blobs.contains_key(hash)
            &&& t.blobs.contains_key(hash) ==> r.blobs[hash].refs == t.blobs[hash].refs - named_at(
                t,
                ids,
                hash,
            ) && r.blobs[hash].size == t.blobs[hash].size
            &&& finite(r)
        }),
{
    lemma_kinds_differ();
    lemma_foldable(name, e);
    let ids = cards_named(lookup(e.event, "data"@));
    lemma_prune_event(t, lookup(e.event, "data"@));
    if t.blobs.contains_key(hash) {
        lemma_given_back(t, ids, hash);
    }
    lemma_rows_left(t, ids, hash);
    lemma_len_subset(pruned_cards(t, ids).samples.dom(), t.samples.dom());
    lemma_len_subset(pruned_cards(t, ids).checkpoints.dom(), t.checkpoints.dom());
}

/// Whether the tables hold no row yet under the card and the seq of an event.
pub open spec fn fresh_in(t: Tables, e: Placed) -> bool {
    let key = (
        Cell::Text(behind(e.stream, STREAM_PREFIX@)->0),
        Cell::Integer(wrapped(number_of(e.event))),
    );
    card_kind(kind_of(e.event)) ==> !t.samples.contains_key(key) && !t.checkpoints.contains_key(key)
}

/// The count of a blob stays the number of rows that point at it, whatever is folded: a batch of
/// samples or a checkpoint that names it adds one to both, a prune takes from both what the
/// pruned cards held, and nothing else touches either.
pub proof fn law_the_count_is_kept(t: Tables, name: Seq<char>, e: Placed, hash: Seq<char>)
    requires
        applied(t, name, e) is Ok,
        finite(t),
        counted_at(t, Cell::Text(hash)),
        fresh_in(t, e),
    ensures
        finite(applied(t, name, e)->Ok_0),
        counted_at(applied(t, name, e)->Ok_0, Cell::Text(hash)),
        applied(t, name, e)->Ok_0.blobs.contains_key(Cell::Text(hash)) <==> (t.blobs.contains_key(
            Cell::Text(hash),
        ) || pointed_at(kind_of(e.event), lookup(e.event, "data"@)) == Some(hash)),
{
    lemma_kinds_differ();
    lemma_foldable(name, e);
    let r = applied(t, name, e)->Ok_0;
    let h = Cell::Text(hash);
    let kind = kind_of(e.event);
    let f = facts_of(e.position, e.event);
    lemma_finite_rows(t, h);
    if card_kind(kind) {
        let id = behind(e.stream, STREAM_PREFIX@)->0;
        lemma_card_event(t, kind, id, f);
        lemma_card_rows(t, kind, id, f);
        let key = (Cell::Text(id), Cell::Integer(f.seq));
        if pointed_at(kind, f.data) == Some(hash) {
            if kind == "samples_appended"@ {
                assert(sample_pointers(r, h) =~= sample_pointers(t, h).insert(key));
                assert(checkpoint_pointers(r, h) =~= checkpoint_pointers(t, h));
            } else {
                assert(sample_pointers(r, h) =~= sample_pointers(t, h));
                assert(checkpoint_pointers(r, h) =~= checkpoint_pointers(t, h).insert(key));
            }
        } else {
            assert(sample_pointers(r, h) =~= sample_pointers(t, h));
            assert(checkpoint_pointers(r, h) =~= checkpoint_pointers(t, h));
        }
    } else if alias_kind(kind) {
        lemma_alias_event(t, kind, behind(e.stream, ALIAS_PREFIX@)->0, f);
        assert(sample_pointers(r, h) =~= sample_pointers(t, h));
        assert(checkpoint_pointers(r, h) =~= checkpoint_pointers(t, h));
    } else {
        let ids = cards_named(f.data);
        law_a_prune_takes_its_cards(t, name, e, h);
        lemma_prune_event(t, f.data);
        lemma_rows_left(t, ids, h);
        lemma_split(sample_pointers(t, h), ids);
        lemma_split(checkpoint_pointers(t, h), ids);
    }
}

// ------------------------------------------------------------------ counting events

/// Each event has a seq of its own on its stream: what a log holds that numbers each stream
/// from 1.
pub open spec fn numbered(log: Seq<Placed>) -> bool
    decreases log.len(),
{
    log.len() == 0 || (numbered(log.drop_last()) && own_number(log.drop_last(), log.last()))
}

/// No event of `log` has the stream and the seq of `e`.
pub open spec fn own_number(log: Seq<Placed>, e: Placed) -> bool {
    forall|x: Placed| #[trigger]
        log.contains(x) && x.stream == e.stream ==> number_of(x.event) != number_of(e.event)
}

/// How many events of a log point at a blob, those of the cards in `gone` and of the cards
/// pruned behind them left out.
pub open spec fn pointers_but(log: Seq<Placed>, hash: Seq<char>, gone: Set<Seq<char>>) -> int
    decreases log.len(),
{
    if log.len() == 0 {
        0
    } else {
        let e = log.last();
        let data = lookup(e.event, "data"@);
        if prune_kind(kind_of(e.event)) {
            pointers_but(log.drop_last(), hash, gone.union(cards_named(data).to_set()))
        } else {
            pointers_but(log.drop_last(), hash, gone) + if pointed_at(kind_of(e.event), data)
                == Some(hash) && !gone.contains(behind(e.stream, STREAM_PREFIX@)->0) {
                1int
            } else {
                0int
            }
        }
    }
}

/// How many events of a log point at a blob, of cards that were not pruned since.
pub open spec fn pointers(log: Seq<Placed>, hash: Seq<char>) -> int {
    pointers_but(log, hash, Set::empty())
}

/// Whether an event of a log points at a blob, its card pruned since or not.
pub open spec fn pointed_in(log: Seq<Placed>, hash: Seq<char>) -> bool
    decreases log.len(),
{
    log.len() > 0 && (pointed_in(log.drop_last(), hash) || pointed_at(
        kind_of(log.last().event),
        lookup(log.last().event, "data"@),
    ) == Some(hash))
}

/// Those of `rows` that are of no card in `gone`.
spec fn rows_but(rows: Set<(Cell, Cell)>, gone: Set<Seq<char>>) -> Set<(Cell, Cell)> {
    Set::new(|k: (Cell, Cell)| rows.contains(k) && !(k.0 is Text && gone.contains(k.0->Text_0)))
}

/// An event of a numbered log finds no row under its key.
proof fn lemma_fresh(name: Seq<char>, log: Seq<Placed>)
    requires
        log.len() > 0,
        replayed(no_rows(), name, log) is Ok,
        numbered(log),
    ensures
        fresh_in(replayed(no_rows(), name, log.drop_last())->Ok_0, log.last()),
{
    let front = log.drop_last();
    let e = log.last();
    let t = replayed(no_rows(), name, front)->Ok_0;
    let id = behind(e.stream, STREAM_PREFIX@)->0;
    let n = facts_of(e.position, e.event).seq;
    let key = (Cell::Text(id), Cell::Integer(n));
    lemma_foldable(name, e);
    if card_kind(kind_of(e.event)) && (t.samples.contains_key(key) || t.checkpoints.contains_key(
        key,
    )) {
        let j = lemma_row_has_an_event(name, front, id, n);
        assert(front.contains(front[j]));
        law_an_event_is_filed_under_its_number(front[j], e);
    }
}

/// The rows that point at a blob are as many as the events that do.
proof fn lemma_rows_are_pointers(
    name: Seq<char>,
    log: Seq<Placed>,
    hash: Seq<char>,
    gone: Set<Seq<char>>,
)
    requires
        replayed(no_rows(), name, log) is Ok,
        numbered(log),
    ensures
        ({
            let t = replayed(no_rows(), name, log)->Ok_0;
            let h = Cell::Text(hash);
            &&& finite(t)
            &&& rows_but(sample_pointers(t, h), gone).finite()
            &&& rows_but(checkpoint_pointers(t, h), gone).finite()
            &&& rows_but(sample_pointers(t, h), gone).len() + rows_but(
                checkpoint_pointers(t, h),
                gone,
            ).len() == pointers_but(log, hash, gone)
        }),
    decreases log.len(),
{
    let h = Cell::Text(hash);
    if log.len() == 0 {
        assert(rows_but(sample_pointers(no_rows(), h), gone) =~= Set::empty());
        assert(rows_but(checkpoint_pointers(no_rows(), h), gone) =~= Set::empty());
    } else {
        let front = log.drop_last();
        let e = log.last();
        let t = replayed(no_rows(), name, front)->Ok_0;
        let r = replayed(no_rows(), name, log)->Ok_0;
        let kind = kind_of(e.event);
        let f = facts_of(e.position, e.event);
        lemma_kinds_differ();
        lemma_foldable(name, e);
        lemma_fresh(name, log);
        if card_kind(kind) {
            lemma_rows_are_pointers(name, front, hash, gone);
            let id = behind(e.stream, STREAM_PREFIX@)->0;
            lemma_card_event(t, kind, id, f);
            lemma_card_rows(t, kind, id, f);
            let key = (Cell::Text(id), Cell::Integer(f.seq));
            let samples = rows_but(sample_pointers(t, h), gone);
            let checkpoints = rows_but(checkpoint_pointers(t, h), gone);
            if pointed_at(kind, f.data) == Some(hash) && !gone.contains(id) {
                if kind == "samples_appended"@ {
                    assert(rows_but(sample_pointers(r, h), gone) =~= samples.insert(key));
                    assert(rows_but(checkpoint_pointers(r, h), gone) =~= checkpoints);
                } else {
                    assert(rows_but(sample_pointers(r, h), gone) =~= samples);
                    assert(rows_but(checkpoint_pointers(r, h), gone) =~= checkpoints.insert(key));
                }
            } else {
                assert(rows_but(sample_pointers(r, h), gone) =~= samples);
                assert(rows_but(checkpoint_pointers(r, h), gone) =~= checkpoints);
            }
        } else if alias_kind(kind) {
            lemma_rows_are_pointers(name, front, hash, gone);
            lemma_alias_event(t, kind, behind(e.stream, ALIAS_PREFIX@)->0, f);
            assert(sample_pointers(r, h) =~= sample_pointers(t, h));
            assert(checkpoint_pointers(r, h) =~= checkpoint_pointers(t, h));
        } else {
            let ids = cards_named(f.data);
            let more = gone.union(ids.to_set());
            lemma_rows_are_pointers(name, front, hash, more);
            law_a_prune_takes_its_cards(t, name, e, h);
            lemma_prune_event(t, f.data);
            lemma_rows_left(t, ids, h);
            assert forall|id: Seq<char>| #[trigger] more.contains(id) == (gone.contains(id)
                || ids.contains(id)) by {
                assert(ids.to_set().contains(id) == ids.contains(id));
            }
            assert(rows_but(sample_pointers(r, h), gone) =~= rows_but(sample_pointers(t, h), more));
            assert(rows_but(checkpoint_pointers(r, h), gone) =~= rows_but(
                checkpoint_pointers(t, h),
                more,
            ));
        }
    }
}

/// A replay keeps the count of every blob.
proof fn lemma_counted(name: Seq<char>, log: Seq<Placed>, hash: Seq<char>)
    requires
        replayed(no_rows(), name, log) is Ok,
        numbered(log),
    ensures
        ({
            let t = replayed(no_rows(), name, log)->Ok_0;
            &&& finite(t)
            &&& counted_at(t, Cell::Text(hash))
            &&& t.blobs.contains_key(Cell::Text(hash)) <==> pointed_in(log, hash)
        }),
    decreases log.len(),
{
    let h = Cell::Text(hash);
    if log.len() == 0 {
        assert(sample_pointers(no_rows(), h) =~= Set::empty());
        assert(checkpoint_pointers(no_rows(), h) =~= Set::empty());
    } else {
        let front = log.drop_last();
        lemma_counted(name, front, hash);
        lemma_fresh(name, log);
        law_the_count_is_kept(replayed(no_rows(), name, front)->Ok_0, name, log.last(), hash);
    }
}

/// `cb_blobs.refs` counts what points at each blob: one for every `samples_appended` and every
/// `checkpoint_saved` that names its hash, of cards that were not pruned since. A blob that
/// nothing ever named has no row; one that only pruned cards named has a row that counts 0,
/// until it is collected.
pub proof fn law_refs_count_the_pointers(name: Seq<char>, log: Seq<Placed>, hash: Seq<char>)
    requires
        replayed(no_rows(), name, log) is Ok,
        numbered(log),
    ensures
        ({
            let blobs = replayed(no_rows(), name, log)->Ok_0.blobs;
            &&& blobs.contains_key(Cell::Text(hash)) <==> pointed_in(log, hash)
            &&& blobs.contains_key(Cell::Text(hash)) ==> blobs[Cell::Text(hash)].refs == pointers(
                log,
                hash,
            )
            &&& pointers(log, hash) > 0 ==> blobs.contains_key(Cell::Text(hash))
        }),
        pointers(log, hash) >= 0,
{
    let t = replayed(no_rows(), name, log)->Ok_0;
    let h = Cell::Text(hash);
    lemma_counted(name, log, hash);
    lemma_rows_are_pointers(name, log, hash, Set::empty());
    assert(rows_but(sample_pointers(t, h), Set::empty()) =~= sample_pointers(t, h));
    assert(rows_but(checkpoint_pointers(t, h), Set::empty()) =~= checkpoint_pointers(t, h));
}

// ------------------------------------------------------------------ a rebuild after a prune

/// Whether a stream is that of a card of a list.
pub open spec fn stream_of_one(stream: Seq<char>, ids: Seq<Seq<char>>) -> bool {
    match behind(stream, STREAM_PREFIX@) {
        Some(id) => ids.contains(id),
        None => false,
    }
}

/// A log after the streams of the cards of a list are removed from it.
pub open spec fn removed(log: Seq<Placed>, ids: Seq<Seq<char>>) -> Seq<Placed>
    decreases log.len(),
{
    if log.len() == 0 {
        seq![]
    } else if stream_of_one(log.last().stream, ids) {
        removed(log.drop_last(), ids)
    } else {
        removed(log.drop_last(), ids).push(log.last())
    }
}

/// Tables that hold the same rows, the counts of the blobs aside.
pub open spec fn same_rows(a: Tables, b: Tables) -> bool {
    but_blobs(a) == but_blobs(b)
}

/// An event on the stream of a card of the list changes none of the other rows.
proof fn lemma_event_removed(u: Tables, t: Tables, name: Seq<char>, e: Placed, ids: Seq<Seq<char>>)
    requires
        same_rows(u, left(t, ids)),
        applied(t, name, e) is Ok,
        stream_of_one(e.stream, ids),
    ensures
        same_rows(u, left(applied(t, name, e)->Ok_0, ids)),
{
    let r = applied(t, name, e)->Ok_0;
    let kind = kind_of(e.event);
    let f = facts_of(e.position, e.event);
    let id = behind(e.stream, STREAM_PREFIX@)->0;
    lemma_foldable(name, e);
    lemma_kinds_differ();
    crate::text::lemma_behind(e.stream, STREAM_PREFIX@, id);
    lemma_stream_names(id, behind(e.stream, ALIAS_PREFIX@)->0);
    assert(card_kind(kind));
    lemma_card_event(t, kind, id, f);
    lemma_card_rows(t, kind, id, f);
    assert(named(ids, Cell::Text(id)));
    assert(but_blobs(u) =~= but_blobs(left(r, ids)));
}

/// Any other event does to the rows of the others what it does with the card there.
proof fn lemma_event_kept(u: Tables, t: Tables, name: Seq<char>, e: Placed, ids: Seq<Seq<char>>)
    requires
        same_rows(u, left(t, ids)),
        applied(t, name, e) is Ok,
        !stream_of_one(e.stream, ids),
    ensures
        applied(u, name, e) is Ok,
        same_rows(applied(u, name, e)->Ok_0, left(applied(t, name, e)->Ok_0, ids)),
{
    let r = applied(t, name, e)->Ok_0;
    let w = applied(u, name, e)->Ok_0;
    let kind = kind_of(e.event);
    let f = facts_of(e.position, e.event);
    lemma_foldable(name, e);
    lemma_kinds_differ();
    if card_kind(kind) {
        let id = behind(e.stream, STREAM_PREFIX@)->0;
        lemma_card_event(t, kind, id, f);
        lemma_card_rows(t, kind, id, f);
        lemma_card_event(u, kind, id, f);
        lemma_card_rows(u, kind, id, f);
        assert(!named(ids, Cell::Text(id)));
        if kind == "card_opened"@ {
            assert forall|line: (Cell, Cell)| #[trigger] w.lineage.contains(line) == lines_left(
                r.lineage,
                ids,
            ).contains(line) by {
                let from = line.0 == Cell::Text(id) && line.1 is Text && parents_of(
                    f.data,
                ).contains(line.1->Text_0);
                if from {
                    assert(line == (Cell::Text(id), Cell::Text(line.1->Text_0)));
                    assert(r.lineage.contains((Cell::Text(id), Cell::Text(line.1->Text_0))));
                    assert(w.lineage.contains((Cell::Text(id), Cell::Text(line.1->Text_0))));
                }
            }
        }
    } else if alias_kind(kind) {
        let name = behind(e.stream, ALIAS_PREFIX@)->0;
        lemma_alias_event(t, kind, name, f);
        lemma_alias_event(u, kind, name, f);
    } else {
        lemma_prune_event(t, f.data);
        lemma_prune_event(u, f.data);
    }
    assert(but_blobs(w) =~= but_blobs(left(r, ids)));
}

/// A replay of a log without the streams of some cards makes the rows of all the others.
proof fn lemma_replay_removed(name: Seq<char>, log: Seq<Placed>, ids: Seq<Seq<char>>)
    requires
        replayed(no_rows(), name, log) is Ok,
    ensures
        replayed(no_rows(), name, removed(log, ids)) is Ok,
        same_rows(
            replayed(no_rows(), name, removed(log, ids))->Ok_0,
            left(replayed(no_rows(), name, log)->Ok_0, ids),
        ),
    decreases log.len(),
{
    if log.len() == 0 {
        let t = no_rows();
        assert(left(t, ids) =~= t);
    } else {
        let front = log.drop_last();
        let e = log.last();
        lemma_replay_removed(name, front, ids);
        let t = replayed(no_rows(), name, front)->Ok_0;
        let u = replayed(no_rows(), name, removed(front, ids))->Ok_0;
        if stream_of_one(e.stream, ids) {
            lemma_event_removed(u, t, name, e, ids);
        } else {
            lemma_event_kept(u, t, name, e, ids);
            assert(removed(log, ids).drop_last() =~= removed(front, ids));
        }
    }
}

proof fn lemma_removed_contains(log: Seq<Placed>, ids: Seq<Seq<char>>, x: Placed)
    requires
        removed(log, ids).contains(x),
    ensures
        log.contains(x),
    decreases log.len(),
{
    if log.len() > 0 {
        let front = log.drop_last();
        let i = removed(log, ids).index_of(x);
        if stream_of_one(log.last().stream, ids) || i < removed(front, ids).len() {
            assert(removed(front, ids)[i] == x);
            lemma_removed_contains(front, ids, x);
            let j = front.index_of(x);
            assert(log[j] == x);
        } else {
            assert(log[log.len() - 1] == x);
        }
    }
}

proof fn lemma_removed_numbered(log: Seq<Placed>, ids: Seq<Seq<char>>)
    requires
        numbered(log),
    ensures
        numbered(removed(log, ids)),
    decreases log.len(),
{
    if log.len() > 0 {
        let front = log.drop_last();
        lemma_removed_numbered(front, ids);
        if !stream_of_one(log.last().stream, ids) {
            let cut = removed(log, ids);
            assert(cut.drop_last() =~= removed(front, ids));
            assert(own_number(cut.drop_last(), log.last())) by {
                assert forall|x: Placed| #[trigger]
                    cut.drop_last().contains(x) && x.stream == log.last().stream implies number_of(
                    x.event,
                ) != number_of(log.last().event) by {
                    lemma_removed_contains(front, ids, x);
                }
            }
        }
    }
}

/// What follows stays numbered when the log before it is shortened.
proof fn lemma_tail_numbered(log: Seq<Placed>, ids: Seq<Seq<char>>, tail: Seq<Placed>)
    requires
        numbered(log + tail),
    ensures
        numbered(removed(log, ids) + tail),
    decreases tail.len(),
{
    if tail.len() == 0 {
        assert(log + tail =~= log);
        assert(removed(log, ids) + tail =~= removed(log, ids));
        lemma_removed_numbered(log, ids);
    } else {
        let front = tail.drop_last();
        let cut = removed(log, ids) + tail;
        assert((log + tail).drop_last() =~= log + front);
        assert(cut.drop_last() =~= removed(log, ids) + front);
        lemma_tail_numbered(log, ids, front);
        assert forall|x: Placed| #[trigger]
            cut.drop_last().contains(x) && x.stream == tail.last().stream implies number_of(
            x.event,
        ) != number_of(tail.last().event) by {
            let i = cut.drop_last().index_of(x);
            let m = removed(log, ids).len();
            if i < m {
                assert(removed(log, ids)[i] == x);
                lemma_removed_contains(log, ids, x);
                let j = log.index_of(x);
                assert((log + front)[j] == x);
            } else {
                assert((log + front)[log.len() + (i - m)] == x);
            }
            assert((log + tail).drop_last().contains(x));
        }
    }
}

/// What is folded on top of the same rows makes the same rows.
proof fn lemma_same_rows(a: Tables, b: Tables, name: Seq<char>, log: Seq<Placed>)
    requires
        same_rows(a, b),
    ensures
        replayed(a, name, log) is Ok <==> replayed(b, name, log) is Ok,
        replayed(a, name, log) is Ok ==> same_rows(
            replayed(a, name, log)->Ok_0,
            replayed(b, name, log)->Ok_0,
        ),
    decreases log.len(),
{
    if log.len() > 0 {
        let e = log.last();
        lemma_same_rows(a, b, name, log.drop_last());
        if replayed(a, name, log.drop_last()) is Ok && folded(name, e) is Ok {
            let t = replayed(a, name, log.drop_last())->Ok_0;
            let u = replayed(b, name, log.drop_last())->Ok_0;
            let none = Seq::<Seq<char>>::empty();
            assert(!stream_of_one(e.stream, none));
            assert(left(t, none) =~= t);
            lemma_event_kept(u, t, name, e, none);
            let r = applied(t, name, e)->Ok_0;
            assert(left(r, none) =~= r);
        }
    }
}

/// The entry of the prune journal makes two tables of the same rows: the ones it is folded into
/// with the cards there, and the ones they are already missing from.
proof fn lemma_entry(u: Tables, t: Tables, name: Seq<char>, entry: Placed)
    requires
        same_rows(u, left(t, cards_named(lookup(entry.event, "data"@)))),
        prune_kind(kind_of(entry.event)),
        applied(t, name, entry) is Ok,
    ensures
        applied(u, name, entry) is Ok,
        same_rows(applied(t, name, entry)->Ok_0, applied(u, name, entry)->Ok_0),
{
    let data = lookup(entry.event, "data"@);
    let ids = cards_named(data);
    let w = applied(u, name, entry)->Ok_0;
    lemma_kinds_differ();
    lemma_foldable(name, entry);
    lemma_prune_event(t, data);
    lemma_prune_event(u, data);
    assert(but_blobs(w) =~= but_blobs(u));
}

/// A rebuild after a prune reads the same. A log in which an entry of the prune journal names
/// cards, and that log without what stood on their streams before the entry, make the same rows
/// in every table, whatever follows; and each blob is counted the same, one without a row
/// counting 0. So a model that saw the cards come and go and one rebuilt from what was kept of
/// the log agree, and no count is given back twice.
pub proof fn law_a_rebuild_after_a_prune_reads_the_same(
    name: Seq<char>,
    log: Seq<Placed>,
    entry: Placed,
    tail: Seq<Placed>,
    hash: Seq<char>,
)
    requires
        replayed(no_rows(), name, log + (seq![entry] + tail)) is Ok,
        numbered(log + (seq![entry] + tail)),
        prune_kind(kind_of(entry.event)),
    ensures
        ({
            let ids = cards_named(lookup(entry.event, "data"@));
            let whole = replayed(no_rows(), name, log + (seq![entry] + tail));
            let cut = replayed(no_rows(), name, removed(log, ids) + (seq![entry] + tail));
            &&& cut is Ok
            &&& same_rows(whole->Ok_0, cut->Ok_0)
            &&& refs_of(whole->Ok_0, Cell::Text(hash)) == refs_of(cut->Ok_0, Cell::Text(hash))
        }),
{
    let ids = cards_named(lookup(entry.event, "data"@));
    let one = seq![entry];
    let short = removed(log, ids);
    let h = Cell::Text(hash);
    law_batches_are_one_fold(no_rows(), name, log, one + tail);
    let t = replayed(no_rows(), name, log)->Ok_0;
    law_batches_are_one_fold(t, name, one, tail);
    lemma_replay_removed(name, log, ids);
    let u = replayed(no_rows(), name, short)->Ok_0;
    law_batches_are_one_fold(no_rows(), name, short, one + tail);
    law_batches_are_one_fold(u, name, one, tail);
    lemma_one_event(t, name, entry);
    lemma_one_event(u, name, entry);
    lemma_entry(u, t, name, entry);
    lemma_same_rows(applied(t, name, entry)->Ok_0, applied(u, name, entry)->Ok_0, name, tail);
    let whole = replayed(no_rows(), name, log + (one + tail))->Ok_0;
    let cut = replayed(no_rows(), name, short + (one + tail))->Ok_0;
    lemma_tail_numbered(log, ids, one + tail);
    lemma_counted(name, log + (one + tail), hash);
    lemma_counted(name, short + (one + tail), hash);
    assert(sample_pointers(whole, h) =~= sample_pointers(cut, h));
    assert(checkpoint_pointers(whole, h) =~= checkpoint_pointers(cut, h));
}

proof fn lemma_one_event(t: Tables, name: Seq<char>, e: Placed)
    ensures
        replayed(t, name, seq![e]) == applied(t, name, e),
{
    assert(seq![e].drop_last() =~= seq![]);
    assert(replayed(t, name, seq![]) == Ok::<Tables, FaultView>(t));
}

} // verus!
