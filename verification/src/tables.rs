//! What the fold makes of the tables: the meaning of each statement, and the laws of the read
//! models it builds.
use vstd::prelude::*;
use vstd::string::*;

use crate::history::{Entry, lemma_has_kind_push, on_stream};
use crate::json::{Fields, NumberView, Tree, lookup, member, num_of, real_of, text_of};
use crate::projection::{
    FaultView, Facts, add_parent, alias_kind, alias_ops, all_kinds, blob_ops, card_kind, card_ops,
    cards_named, checkpoint_ops, closed_ops, closing_state, eval_ops, facts_of, folded, json_cell,
    open_card, opened_ops, parents_of, prune_card_ops, prune_kind, pruned_ops, samples_ops,
    tag_set_ops, tag_unset_ops,
};
use crate::record::{
    ALIAS_PREFIX, PRUNE_STREAM, Placed, STREAM_PREFIX, alias_stream_of, card_stream_of, kind_of,
    wrapped,
};
use crate::rule::{RuleView, allowed, binding, has_kind};
use crate::sql::{Cell, OpView, Statement, int_cell, real_cell, text_cell};
use crate::text::{behind, lemma_behind};

verus! {

/// A row of `cb_cards`, without its key.
pub struct CardRow {
    pub pkg: Cell,
    pub scenario: Cell,
    pub source: Cell,
    pub created_by: Cell,
    pub note: Cell,
    pub model: Cell,
    pub trace_id: Cell,
    pub work_url: Cell,
    pub fingerprint: Cell,
    pub params_json: Cell,
    pub state: Cell,
    pub opened_ms: Cell,
    pub closed_ms: Cell,
    pub opened_position: Cell,
    pub error: Cell,
    pub stats_json: Cell,
    pub cost_json: Cell,
    pub mean_score: Cell,
    pub n: Cell,
    pub pass_rate: Cell,
    pub passed: Cell,
    pub elapsed_ms: Cell,
    pub llm_calls: Cell,
    pub sample_batches: int,
    pub sample_rows: int,
    pub eval_count: int,
    pub checkpoint_count: int,
}

/// A row of `cb_samples`, without its key.
pub struct SampleRow {
    pub n: Cell,
    pub rows_json: Cell,
    pub blob: Cell,
    pub size: Cell,
    pub epoch_ms: Cell,
}

/// A row of `cb_evals`, without its key.
pub struct EvalRow {
    pub source: Cell,
    pub data_json: Cell,
    pub epoch_ms: Cell,
}

/// A row of `cb_checkpoints`, without its key.
pub struct CheckpointRow {
    pub blob: Cell,
    pub size: Cell,
    pub format: Cell,
    pub note: Cell,
    pub epoch_ms: Cell,
}

/// A row of `cb_blobs`, without its key.
pub struct BlobRow {
    pub size: Cell,
    pub refs: int,
}

/// A row of `cb_aliases`, without its key.
pub struct AliasRow {
    pub card_id: Cell,
    pub pkg: Cell,
    pub bound_ms: Cell,
    pub note: Cell,
}

/// A row of `cb_alias_log`, without its key.
pub struct AliasLogRow {
    pub kind: Cell,
    pub card_id: Cell,
    pub epoch_ms: Cell,
    pub note: Cell,
}

/// The tables, each by its primary key. The counts are those of numbers without a limit; the
/// database holds them in 64 bits.
#[verifier::ext_equal]
pub struct Tables {
    pub cards: Map<Cell, CardRow>,
    pub samples: Map<(Cell, Cell), SampleRow>,
    pub evals: Map<(Cell, Cell), EvalRow>,
    pub checkpoints: Map<(Cell, Cell), CheckpointRow>,
    pub lineage: Set<(Cell, Cell)>,
    /// The value of each tag, by its card and its key.
    pub tags: Map<(Cell, Cell), Cell>,
    pub blobs: Map<Cell, BlobRow>,
    pub aliases: Map<Cell, AliasRow>,
    pub alias_log: Map<(Cell, Cell), AliasLogRow>,
}

/// The tables as they are created.
pub open spec fn no_rows() -> Tables {
    Tables {
        cards: Map::empty(),
        samples: Map::empty(),
        evals: Map::empty(),
        checkpoints: Map::empty(),
        lineage: Set::empty(),
        tags: Map::empty(),
        blobs: Map::empty(),
        aliases: Map::empty(),
        alias_log: Map::empty(),
    }
}

/// A table after `INSERT .. ON CONFLICT DO NOTHING`.
pub open spec fn inserted<K, V>(table: Map<K, V>, key: K, row: V) -> Map<K, V> {
    if table.contains_key(key) {
        table
    } else {
        table.insert(key, row)
    }
}

/// The integer of a cell.
pub open spec fn int_of(cell: Cell) -> int {
    match cell {
        Cell::Integer(n) => n,
        _ => 0,
    }
}

/// The row [`Statement::OpenCard`] inserts.
pub open spec fn opened_row(p: Seq<Cell>) -> CardRow {
    CardRow {
        pkg: p[1],
        scenario: p[2],
        source: p[3],
        created_by: p[4],
        note: p[5],
        model: p[8],
        trace_id: p[9],
        work_url: p[10],
        fingerprint: p[11],
        params_json: p[12],
        state: Cell::Text("open"@),
        opened_ms: p[6],
        closed_ms: Cell::Null,
        opened_position: p[7],
        error: Cell::Null,
        stats_json: Cell::Null,
        cost_json: Cell::Null,
        mean_score: Cell::Null,
        n: Cell::Null,
        pass_rate: Cell::Null,
        passed: Cell::Null,
        elapsed_ms: Cell::Null,
        llm_calls: Cell::Null,
        sample_batches: 0,
        sample_rows: 0,
        eval_count: 0,
        checkpoint_count: 0,
    }
}

/// A card's row as [`Statement::CloseCard`] sets it.
pub open spec fn closed_row(row: CardRow, p: Seq<Cell>) -> CardRow {
    CardRow {
        state: p[1],
        closed_ms: p[2],
        error: p[3],
        stats_json: p[4],
        cost_json: p[5],
        mean_score: p[6],
        n: p[7],
        pass_rate: p[8],
        passed: p[9],
        elapsed_ms: p[10],
        llm_calls: p[11],
        ..row
    }
}

/// `cb_cards` after `UPDATE .. WHERE id = ?1`: the row of that id, where there is one, as it
/// is set.
pub open spec fn updated(cards: Map<Cell, CardRow>, id: Cell, row: CardRow) -> Map<Cell, CardRow> {
    if cards.contains_key(id) {
        cards.insert(id, row)
    } else {
        cards
    }
}

/// `cb_blobs` after one more pointer at a blob.
pub open spec fn referred(blobs: Map<Cell, BlobRow>, hash: Cell, size: Cell) -> Map<Cell, BlobRow> {
    if blobs.contains_key(hash) {
        blobs.insert(
            hash,
            BlobRow {
                size: if size is Null {
                    blobs[hash].size
                } else {
                    size
                },
                refs: blobs[hash].refs + 1,
            },
        )
    } else {
        blobs.insert(hash, BlobRow { size, refs: 1 })
    }
}

/// The rows of `cb_samples` that point at a blob.
pub open spec fn sample_pointers(t: Tables, hash: Cell) -> Set<(Cell, Cell)> {
    Set::new(|k: (Cell, Cell)| t.samples.contains_key(k) && t.samples[k].blob == hash)
}

/// The rows of `cb_checkpoints` that point at a blob.
pub open spec fn checkpoint_pointers(t: Tables, hash: Cell) -> Set<(Cell, Cell)> {
    Set::new(|k: (Cell, Cell)| t.checkpoints.contains_key(k) && t.checkpoints[k].blob == hash)
}

/// Those of `rows` that are a card's.
pub open spec fn of_one(rows: Set<(Cell, Cell)>, id: Cell) -> Set<(Cell, Cell)> {
    Set::new(|k: (Cell, Cell)| rows.contains(k) && k.0 == id)
}

/// How many rows of a card point at a blob.
pub open spec fn pointers_of(t: Tables, id: Cell, hash: Cell) -> nat {
    of_one(sample_pointers(t, hash), id).len() + of_one(checkpoint_pointers(t, hash), id).len()
}

/// `cb_blobs` after the pointers of a card's rows are given back.
pub open spec fn given_back(t: Tables, id: Cell) -> Map<Cell, BlobRow> {
    Map::new(
        |hash: Cell| t.blobs.contains_key(hash),
        |hash: Cell|
            BlobRow {
                size: t.blobs[hash].size,
                refs: t.blobs[hash].refs - pointers_of(t, id, hash),
            },
    )
}

/// A table whose rows are by card, after `DELETE .. WHERE card_id = ?1`.
pub open spec fn without<V>(table: Map<(Cell, Cell), V>, id: Cell) -> Map<(Cell, Cell), V> {
    Map::new(
        |k: (Cell, Cell)| table.contains_key(k) && k.0 != id,
        |k: (Cell, Cell)| table[k],
    )
}

/// `cb_lineage` after `DELETE .. WHERE child = ?1`.
pub open spec fn without_lines(lineage: Set<(Cell, Cell)>, id: Cell) -> Set<(Cell, Cell)> {
    Set::new(|line: (Cell, Cell)| lineage.contains(line) && line.0 != id)
}

/// The tables after one statement.
pub open spec fn step(t: Tables, op: OpView) -> Tables {
    let p = op.params;
    match op.statement {
        Statement::OpenCard => Tables { cards: inserted(t.cards, p[0], opened_row(p)), ..t },
        Statement::AddParent => Tables { lineage: t.lineage.insert((p[0], p[1])), ..t },
        Statement::AddSamples => Tables {
            samples: inserted(
                t.samples,
                (p[0], p[1]),
                SampleRow { n: p[2], rows_json: p[3], blob: p[4], size: p[5], epoch_ms: p[6] },
            ),
            ..t
        },
        Statement::CountSamples => Tables {
            cards: updated(
                t.cards,
                p[0],
                CardRow {
                    sample_batches: t.cards[p[0]].sample_batches + 1,
                    sample_rows: t.cards[p[0]].sample_rows + int_of(p[1]),
                    ..t.cards[p[0]]
                },
            ),
            ..t
        },
        Statement::AddEval => Tables {
            evals: inserted(
                t.evals,
                (p[0], p[1]),
                EvalRow { source: p[2], data_json: p[3], epoch_ms: p[4] },
            ),
            ..t
        },
        Statement::CountEval => Tables {
            cards: updated(
                t.cards,
                p[0],
                CardRow { eval_count: t.cards[p[0]].eval_count + 1, ..t.cards[p[0]] },
            ),
            ..t
        },
        Statement::AddCheckpoint => Tables {
            checkpoints: inserted(
                t.checkpoints,
                (p[0], p[1]),
                CheckpointRow { blob: p[2], size: p[3], format: p[4], note: p[5], epoch_ms: p[6] },
            ),
            ..t
        },
        Statement::CountCheckpoint => Tables {
            cards: updated(
                t.cards,
                p[0],
                CardRow { checkpoint_count: t.cards[p[0]].checkpoint_count + 1, ..t.cards[p[0]] },
            ),
            ..t
        },
        Statement::CloseCard => Tables {
            cards: updated(t.cards, p[0], closed_row(t.cards[p[0]], p)),
            ..t
        },
        Statement::LogAlias => Tables {
            alias_log: inserted(
                t.alias_log,
                (p[0], p[1]),
                AliasLogRow { kind: p[2], card_id: p[3], epoch_ms: p[4], note: p[5] },
            ),
            ..t
        },
        Statement::BindAlias => Tables {
            aliases: t.aliases.insert(
                p[0],
                AliasRow { card_id: p[1], pkg: p[2], bound_ms: p[3], note: p[4] },
            ),
            ..t
        },
        Statement::ReleaseAlias => Tables { aliases: t.aliases.remove(p[0]), ..t },
        Statement::ReferBlob => Tables { blobs: referred(t.blobs, p[0], p[1]), ..t },
        Statement::SetTag => Tables { tags: t.tags.insert((p[0], p[1]), p[2]), ..t },
        Statement::UnsetTag => Tables { tags: t.tags.remove((p[0], p[1])), ..t },
        Statement::GiveBackBlobs => Tables { blobs: given_back(t, p[0]), ..t },
        Statement::DropCard => Tables { cards: t.cards.remove(p[0]), ..t },
        Statement::DropSamples => Tables { samples: without(t.samples, p[0]), ..t },
        Statement::DropEvals => Tables { evals: without(t.evals, p[0]), ..t },
        Statement::DropCheckpoints => Tables { checkpoints: without(t.checkpoints, p[0]), ..t },
        Statement::DropTags => Tables { tags: without(t.tags, p[0]), ..t },
        Statement::DropLineage => Tables { lineage: without_lines(t.lineage, p[0]), ..t },
    }
}

/// The tables after statements in turn.
pub open spec fn run(t: Tables, ops: Seq<OpView>) -> Tables
    decreases ops.len(),
{
    if ops.len() == 0 {
        t
    } else {
        step(run(t, ops.drop_last()), ops.last())
    }
}

/// The tables after one event is folded into them, or why it cannot be.
pub open spec fn applied(t: Tables, name: Seq<char>, e: Placed) -> Result<Tables, FaultView> {
    match folded(name, e) {
        Ok(ops) => Ok(run(t, ops)),
        Err(fault) => Err(fault),
    }
}

/// The tables after a log is folded into them event by event; a fault ends the fold.
pub open spec fn replayed(t: Tables, name: Seq<char>, log: Seq<Placed>) -> Result<Tables, FaultView>
    decreases log.len(),
{
    if log.len() == 0 {
        Ok(t)
    } else {
        match replayed(t, name, log.drop_last()) {
            Ok(t) => applied(t, name, log.last()),
            Err(fault) => Err(fault),
        }
    }
}

/// A fold in batches is the fold at once: wherever the log is cut, catching up to the cut and
/// then to the end leaves the tables that one replay of all of it leaves.
///
/// So a read model caught up call by call is the one a rebuild makes.
pub proof fn law_batches_are_one_fold(t: Tables, name: Seq<char>, a: Seq<Placed>, b: Seq<Placed>)
    ensures
        replayed(t, name, a + b) == match replayed(t, name, a) {
            Ok(t) => replayed(t, name, b),
            Err(fault) => Err(fault),
        },
    decreases b.len(),
{
    if b.len() == 0 {
        assert(a + b =~= a);
    } else {
        law_batches_are_one_fold(t, name, a, b.drop_last());
        assert((a + b).drop_last() =~= a + b.drop_last());
    }
}

/// The fold does not depend on the name it is run under, but for the name in its refusals.
pub proof fn law_the_name_is_only_a_name(t: Tables, a: Seq<char>, b: Seq<char>, log: Seq<Placed>)
    ensures
        replayed(t, a, log) is Ok <==> replayed(t, b, log) is Ok,
        replayed(t, a, log) is Ok ==> replayed(t, a, log) == replayed(t, b, log),
    decreases log.len(),
{
    if log.len() > 0 {
        law_the_name_is_only_a_name(t, a, b, log.drop_last());
    }
}

// ------------------------------------------------------------------ one event's effect

/// `cb_cards` after an event of a card's kind.
pub open spec fn cards_after(
    cards: Map<Cell, CardRow>,
    kind: Seq<char>,
    id: Cell,
    f: Facts,
) -> Map<Cell, CardRow> {
    let row = cards[id];
    if kind == "card_opened"@ {
        inserted(cards, id, opened_row(open_card(id->Text_0, f).params))
    } else if kind == "samples_appended"@ {
        updated(
            cards,
            id,
            CardRow {
                sample_batches: row.sample_batches + 1,
                sample_rows: row.sample_rows + rows_in(f.data),
                ..row
            },
        )
    } else if kind == "eval_recorded"@ {
        updated(cards, id, CardRow { eval_count: row.eval_count + 1, ..row })
    } else if kind == "checkpoint_saved"@ {
        updated(cards, id, CardRow { checkpoint_count: row.checkpoint_count + 1, ..row })
    } else if kind == "tag_set"@ || kind == "tag_unset"@ {
        cards
    } else {
        updated(cards, id, closed_row(row, closed_ops(id->Text_0, f)[0].params))
    }
}

/// The rows a batch of samples says it holds.
pub open spec fn rows_in(data: Option<Tree>) -> int {
    match num_of(member(data, "n"@)) {
        Some(n) => n,
        None => 0,
    }
}

/// The blob an event of this kind points at.
pub open spec fn pointed_at(kind: Seq<char>, data: Option<Tree>) -> Option<Seq<char>> {
    if kind == "samples_appended"@ || kind == "checkpoint_saved"@ {
        text_of(data, "blob"@)
    } else {
        None
    }
}

/// `cb_blobs` after an event of a card's kind.
pub open spec fn blobs_after(
    blobs: Map<Cell, BlobRow>,
    kind: Seq<char>,
    data: Option<Tree>,
) -> Map<Cell, BlobRow> {
    match pointed_at(kind, data) {
        Some(hash) => referred(blobs, Cell::Text(hash), int_cell(num_of(member(data, "size"@)))),
        None => blobs,
    }
}

/// `cb_tags` after an event of a card's kind.
pub open spec fn tags_after(
    tags: Map<(Cell, Cell), Cell>,
    kind: Seq<char>,
    id: Seq<char>,
    f: Facts,
) -> Map<(Cell, Cell), Cell> {
    match text_of(f.meta, "key"@) {
        Some(key) => match text_of(f.meta, "value"@) {
            Some(value) if kind == "tag_set"@ => tags.insert(
                (Cell::Text(id), Cell::Text(key)),
                Cell::Text(value),
            ),
            _ => if kind == "tag_unset"@ {
                tags.remove((Cell::Text(id), Cell::Text(key)))
            } else {
                tags
            },
        },
        None => tags,
    }
}

/// Lines of descent touch nothing but the lineage.
proof fn lemma_lines(t: Tables, ops: Seq<OpView>)
    requires
        forall|i: int| 0 <= i < ops.len() ==> (#[trigger] ops[i]).statement is AddParent,
    ensures
        run(t, ops) == (Tables { lineage: run(t, ops).lineage, ..t }),
        t.lineage.subset_of(run(t, ops).lineage),
        forall|i: int|
            0 <= i < ops.len() ==> run(t, ops).lineage.contains(
                ((#[trigger] ops[i]).params[0], ops[i].params[1]),
            ),
        forall|line: (Cell, Cell)| #[trigger]
            run(t, ops).lineage.contains(line) && !t.lineage.contains(line) ==> exists|i: int|
                0 <= i < ops.len() && line == ((#[trigger] ops[i]).params[0], ops[i].params[1]),
    decreases ops.len(),
{
    if ops.len() > 0 {
        let front = ops.drop_last();
        lemma_lines(t, front);
        assert(ops[ops.len() - 1].statement is AddParent);
        assert forall|i: int| 0 <= i < ops.len() implies run(t, ops).lineage.contains(
            ((#[trigger] ops[i]).params[0], ops[i].params[1]),
        ) by {
            if i < front.len() {
                assert(front[i] == ops[i]);
            }
        }
        assert forall|line: (Cell, Cell)| #[trigger]
            run(t, ops).lineage.contains(line) && !t.lineage.contains(line) implies exists|i: int|
            0 <= i < ops.len() && line == ((#[trigger] ops[i]).params[0], ops[i].params[1]) by {
            if run(t, front).lineage.contains(line) {
                let i = choose|i: int|
                    0 <= i < front.len() && line == ((#[trigger] front[i]).params[0], front[i].params[1]);
                assert(ops[i] == front[i]);
            } else {
                assert(line == (ops[ops.len() - 1].params[0], ops[ops.len() - 1].params[1]));
            }
        }
    }
}

/// Statements in two parts, one after the other.
proof fn lemma_run_concat(t: Tables, a: Seq<OpView>, b: Seq<OpView>)
    ensures
        run(t, a + b) == run(run(t, a), b),
    decreases b.len(),
{
    if b.len() == 0 {
        assert(a + b =~= a);
    } else {
        lemma_run_concat(t, a, b.drop_last());
        assert((a + b).drop_last() =~= a + b.drop_last());
    }
}

proof fn lemma_run_one(t: Tables, a: OpView)
    ensures
        run(t, seq![a]) == step(t, a),
{
    assert(seq![a].drop_last() =~= seq![]);
    assert(run(t, seq![]) == t);
}

proof fn lemma_run_two(t: Tables, a: OpView, b: OpView)
    ensures
        run(t, seq![a, b]) == step(step(t, a), b),
{
    assert(seq![a, b].drop_last() =~= seq![a]);
    lemma_run_one(t, a);
}

/// What an event of a card's kind does, table by table.
pub proof fn lemma_card_event(t: Tables, kind: Seq<char>, id: Seq<char>, f: Facts)
    requires
        card_kind(kind),
    ensures
        ({
            let r = run(t, card_ops(kind, id, f));
            &&& r.cards == cards_after(t.cards, kind, Cell::Text(id), f)
            &&& r.blobs == blobs_after(t.blobs, kind, f.data)
            &&& r.tags == tags_after(t.tags, kind, id, f)
            &&& r.aliases == t.aliases
            &&& r.alias_log == t.alias_log
            &&& kind != "card_opened"@ ==> r.lineage == t.lineage
            &&& kind != "samples_appended"@ ==> r.samples == t.samples
            &&& kind != "eval_recorded"@ ==> r.evals == t.evals
            &&& kind != "checkpoint_saved"@ ==> r.checkpoints == t.checkpoints
        }),
{
    crate::projection::lemma_kinds_differ();
    if kind == "card_opened"@ {
        let first = open_card(id, f);
        let lines = Seq::new(
            parents_of(f.data).len(),
            |i: int| add_parent(id, parents_of(f.data)[i]),
        );
        lemma_run_concat(t, seq![first], lines);
        lemma_run_one(t, first);
        lemma_lines(step(t, first), lines);
    } else if kind == "samples_appended"@ {
        let ops = samples_ops(id, f);
        let pair = seq![ops[0], ops[1]];
        assert(ops =~= pair + blob_ops(f.data));
        lemma_run_concat(t, pair, blob_ops(f.data));
        lemma_run_two(t, ops[0], ops[1]);
        lemma_blob_ops(run(t, pair), f.data);
    } else if kind == "eval_recorded"@ {
        let ops = eval_ops(id, f);
        lemma_run_two(t, ops[0], ops[1]);
        assert(ops =~= seq![ops[0], ops[1]]);
    } else if kind == "checkpoint_saved"@ {
        let ops = checkpoint_ops(id, f);
        let pair = seq![ops[0], ops[1]];
        assert(ops =~= pair + blob_ops(f.data));
        lemma_run_concat(t, pair, blob_ops(f.data));
        lemma_run_two(t, ops[0], ops[1]);
        lemma_blob_ops(run(t, pair), f.data);
    } else if kind == "card_closed"@ {
        let ops = closed_ops(id, f);
        lemma_run_one(t, ops[0]);
        assert(ops =~= seq![ops[0]]);
    } else if kind == "tag_set"@ {
        let ops = tag_set_ops(id, f);
        if ops.len() > 0 {
            lemma_run_one(t, ops[0]);
            assert(ops =~= seq![ops[0]]);
        }
    } else {
        let ops = tag_unset_ops(id, f);
        if ops.len() > 0 {
            lemma_run_one(t, ops[0]);
            assert(ops =~= seq![ops[0]]);
        }
    }
}

proof fn lemma_blob_ops(t: Tables, data: Option<Tree>)
    ensures
        run(t, blob_ops(data)) == (Tables {
            blobs: match text_of(data, "blob"@) {
                Some(hash) => referred(
                    t.blobs,
                    Cell::Text(hash),
                    int_cell(num_of(member(data, "size"@))),
                ),
                None => t.blobs,
            },
            ..t
        }),
{
    match text_of(data, "blob"@) {
        Some(hash) => {
            lemma_run_one(t, blob_ops(data)[0]);
            assert(blob_ops(data) =~= seq![blob_ops(data)[0]]);
        },
        None => {},
    }
}

/// The row a bind leaves.
pub open spec fn bound_row(card_id: Seq<char>, f: Facts) -> AliasRow {
    AliasRow {
        card_id: Cell::Text(card_id),
        pkg: text_cell(text_of(f.meta, "pkg"@)),
        bound_ms: Cell::Integer(f.epoch_ms),
        note: text_cell(text_of(f.data, "note"@)),
    }
}

/// The line of history an alias event leaves.
pub open spec fn logged_row(kind: Seq<char>, f: Facts) -> AliasLogRow {
    AliasLogRow {
        kind: Cell::Text(kind),
        card_id: text_cell(text_of(f.meta, "card_id"@)),
        epoch_ms: Cell::Integer(f.epoch_ms),
        note: text_cell(text_of(f.data, "note"@)),
    }
}

/// What an event of an alias's kind does, table by table.
pub proof fn lemma_alias_event(t: Tables, kind: Seq<char>, name: Seq<char>, f: Facts)
    requires
        alias_kind(kind),
        alias_ops(kind, name, f) is Ok,
    ensures
        ({
            let r = run(t, alias_ops(kind, name, f)->Ok_0);
            let id = text_of(f.meta, "card_id"@);
            &&& r.aliases == if kind == "alias_bound"@ {
                t.aliases.insert(Cell::Text(name), bound_row(id->0, f))
            } else {
                t.aliases.remove(Cell::Text(name))
            }
            &&& kind == "alias_bound"@ ==> id is Some
            &&& r.alias_log == inserted(
                t.alias_log,
                (Cell::Text(name), Cell::Integer(f.seq)),
                logged_row(kind, f),
            )
            &&& r.cards == t.cards
            &&& r.samples == t.samples
            &&& r.evals == t.evals
            &&& r.checkpoints == t.checkpoints
            &&& r.lineage == t.lineage
            &&& r.tags == t.tags
            &&& r.blobs == t.blobs
        }),
{
    crate::projection::lemma_kinds_differ();
    let ops = alias_ops(kind, name, f)->Ok_0;
    lemma_run_two(t, ops[0], ops[1]);
    assert(ops =~= seq![ops[0], ops[1]]);
}

/// The tables without a card.
pub open spec fn pruned_card(t: Tables, id: Cell) -> Tables {
    Tables {
        cards: t.cards.remove(id),
        samples: without(t.samples, id),
        evals: without(t.evals, id),
        checkpoints: without(t.checkpoints, id),
        lineage: without_lines(t.lineage, id),
        tags: without(t.tags, id),
        blobs: given_back(t, id),
        ..t
    }
}

/// The tables without the cards of a list.
pub open spec fn pruned_cards(t: Tables, ids: Seq<Seq<char>>) -> Tables
    decreases ids.len(),
{
    if ids.len() == 0 {
        t
    } else {
        pruned_card(pruned_cards(t, ids.drop_last()), Cell::Text(ids.last()))
    }
}

proof fn lemma_run_push(t: Tables, ops: Seq<OpView>, last: OpView)
    ensures
        run(t, ops.push(last)) == step(run(t, ops), last),
{
    assert(ops.push(last).drop_last() =~= ops);
}

proof fn lemma_prune_card(t: Tables, id: Seq<char>)
    ensures
        run(t, prune_card_ops(id)) == pruned_card(t, Cell::Text(id)),
{
    let ops = prune_card_ops(id);
    let none = Seq::<OpView>::empty();
    assert(run(t, none) == t);
    lemma_run_push(t, none, ops[0]);
    lemma_run_push(t, none.push(ops[0]), ops[1]);
    lemma_run_push(t, none.push(ops[0]).push(ops[1]), ops[2]);
    lemma_run_push(t, none.push(ops[0]).push(ops[1]).push(ops[2]), ops[3]);
    lemma_run_push(t, none.push(ops[0]).push(ops[1]).push(ops[2]).push(ops[3]), ops[4]);
    lemma_run_push(
        t,
        none.push(ops[0]).push(ops[1]).push(ops[2]).push(ops[3]).push(ops[4]),
        ops[5],
    );
    lemma_run_push(
        t,
        none.push(ops[0]).push(ops[1]).push(ops[2]).push(ops[3]).push(ops[4]).push(ops[5]),
        ops[6],
    );
    assert(ops =~= none.push(ops[0]).push(ops[1]).push(ops[2]).push(ops[3]).push(ops[4]).push(
        ops[5],
    ).push(ops[6]));
}

/// An entry of the prune journal takes the cards it names, one by one.
pub proof fn lemma_pruned_ops(t: Tables, ids: Seq<Seq<char>>)
    ensures
        run(t, pruned_ops(ids)) == pruned_cards(t, ids),
    decreases ids.len(),
{
    if ids.len() > 0 {
        let front = ids.drop_last();
        lemma_pruned_ops(t, front);
        lemma_run_concat(t, pruned_ops(front), prune_card_ops(ids.last()));
        lemma_prune_card(pruned_cards(t, front), ids.last());
    }
}

/// Whether a list names the card with this key.
pub open spec fn named(ids: Seq<Seq<char>>, id: Cell) -> bool {
    id is Text && ids.contains(id->Text_0)
}

/// The rows of a table that are of none of the cards of a list.
pub open spec fn rows_left<V>(table: Map<(Cell, Cell), V>, ids: Seq<Seq<char>>) -> Map<
    (Cell, Cell),
    V,
> {
    Map::new(
        |k: (Cell, Cell)| table.contains_key(k) && !named(ids, k.0),
        |k: (Cell, Cell)| table[k],
    )
}

/// The rows of `cb_cards` that are of none of the cards of a list.
pub open spec fn cards_left(cards: Map<Cell, CardRow>, ids: Seq<Seq<char>>) -> Map<Cell, CardRow> {
    Map::new(|id: Cell| cards.contains_key(id) && !named(ids, id), |id: Cell| cards[id])
}

/// The lines of descent whose child is none of the cards of a list.
pub open spec fn lines_left(lineage: Set<(Cell, Cell)>, ids: Seq<Seq<char>>) -> Set<(Cell, Cell)> {
    Set::new(|line: (Cell, Cell)| lineage.contains(line) && !named(ids, line.0))
}

/// The tables without the rows of the cards of a list. The blobs are as they are.
pub open spec fn left(t: Tables, ids: Seq<Seq<char>>) -> Tables {
    Tables {
        cards: cards_left(t.cards, ids),
        samples: rows_left(t.samples, ids),
        evals: rows_left(t.evals, ids),
        checkpoints: rows_left(t.checkpoints, ids),
        tags: rows_left(t.tags, ids),
        lineage: lines_left(t.lineage, ids),
        ..t
    }
}

/// The tables but that of the blobs.
pub open spec fn but_blobs(t: Tables) -> Tables {
    Tables { blobs: Map::empty(), ..t }
}

/// A list names what its front names, and its last.
pub proof fn lemma_named_last(ids: Seq<Seq<char>>, id: Cell)
    requires
        ids.len() > 0,
    ensures
        named(ids, id) == (named(ids.drop_last(), id) || id == Cell::Text(ids.last())),
{
    let front = ids.drop_last();
    if id is Text && ids.contains(id->Text_0) {
        let i = ids.index_of(id->Text_0);
        if i < front.len() {
            assert(front[i] == ids[i]);
        }
    }
    if id is Text && front.contains(id->Text_0) {
        let i = front.index_of(id->Text_0);
        assert(ids[i] == front[i]);
    }
    assert(ids[ids.len() - 1] == ids.last());
}

/// What an entry of the prune journal does, table by table. What it does to the counts of the
/// blobs is said in [`crate::pruning`].
pub proof fn lemma_pruned_cards(t: Tables, ids: Seq<Seq<char>>)
    ensures
        but_blobs(pruned_cards(t, ids)) == but_blobs(left(t, ids)),
        pruned_cards(t, ids).blobs.dom() == t.blobs.dom(),
    decreases ids.len(),
{
    let r = pruned_cards(t, ids);
    if ids.len() > 0 {
        let front = ids.drop_last();
        lemma_pruned_cards(t, front);
        assert forall|id: Cell| #[trigger] named(ids, id) == (named(front, id) || id == Cell::Text(
            ids.last(),
        )) by {
            lemma_named_last(ids, id);
        }
        assert(r.blobs.dom() =~= t.blobs.dom());
    }
    assert(but_blobs(r) =~= but_blobs(left(t, ids)));
}

/// What an entry of the prune journal does to the tables.
pub proof fn lemma_prune_event(t: Tables, data: Option<Tree>)
    ensures
        ({
            let r = run(t, pruned_ops(cards_named(data)));
            let ids = cards_named(data);
            &&& r == pruned_cards(t, ids)
            &&& r == Tables { blobs: r.blobs, ..left(t, ids) }
            &&& r.blobs.dom() == t.blobs.dom()
        }),
{
    let ids = cards_named(data);
    let r = pruned_cards(t, ids);
    lemma_pruned_ops(t, ids);
    lemma_pruned_cards(t, ids);
    assert(r == Tables { blobs: r.blobs, ..but_blobs(r) });
}

/// Whether an event is an entry of the prune journal that names a card.
pub open spec fn prunes(e: Placed, id: Seq<char>) -> bool {
    prune_kind(kind_of(e.event)) && cards_named(lookup(e.event, "data"@)).contains(id)
}

/// Whether an entry of the prune journal in a log names a card.
pub open spec fn pruned_in(log: Seq<Placed>, id: Seq<char>) -> bool
    decreases log.len(),
{
    log.len() > 0 && (pruned_in(log.drop_last(), id) || prunes(log.last(), id))
}

// ------------------------------------------------------------------ the laws of the tables

/// A log without its coordinates.
pub open spec fn entries(log: Seq<Placed>) -> Seq<Entry> {
    Seq::new(log.len(), |i: int| Entry { stream: log[i].stream, event: log[i].event })
}

/// What one event that folds is: one of a card's kinds on a card's stream, one of an alias's on
/// an alias's, or an entry of the prune journal.
pub proof fn lemma_foldable(name: Seq<char>, e: Placed)
    requires
        folded(name, e) is Ok,
    ensures
        ({
            let kind = kind_of(e.event);
            let f = facts_of(e.position, e.event);
            let ops = folded(name, e)->Ok_0;
            ||| card_kind(kind) && !alias_kind(kind) && !prune_kind(kind) && behind(e.stream, STREAM_PREFIX@) is Some
                && e.stream == card_stream_of(behind(e.stream, STREAM_PREFIX@)->0) && ops
                == card_ops(kind, behind(e.stream, STREAM_PREFIX@)->0, f)
            ||| alias_kind(kind) && !card_kind(kind) && !prune_kind(kind) && behind(e.stream, ALIAS_PREFIX@) is Some
                && e.stream == alias_stream_of(behind(e.stream, ALIAS_PREFIX@)->0) && alias_ops(
                kind,
                behind(e.stream, ALIAS_PREFIX@)->0,
                f,
            ) == Ok::<Seq<OpView>, FaultView>(ops)
            ||| prune_kind(kind) && !card_kind(kind) && !alias_kind(kind) && e.stream
                == PRUNE_STREAM@ && ops == pruned_ops(cards_named(f.data))
        }),
{
    crate::projection::lemma_kinds_differ();
    let kind = kind_of(e.event);
    if card_kind(kind) {
        lemma_behind(e.stream, STREAM_PREFIX@, behind(e.stream, STREAM_PREFIX@)->0);
    } else if alias_kind(kind) {
        lemma_behind(e.stream, ALIAS_PREFIX@, behind(e.stream, ALIAS_PREFIX@)->0);
    }
}

/// Two names of streams of one shape are the same stream only if they are the same name.
pub proof fn lemma_stream_names(a: Seq<char>, b: Seq<char>)
    ensures
        card_stream_of(a) == card_stream_of(b) <==> a == b,
        alias_stream_of(a) == alias_stream_of(b) <==> a == b,
        card_stream_of(a) != alias_stream_of(b),
        card_stream_of(a) != PRUNE_STREAM@,
        alias_stream_of(b) != PRUNE_STREAM@,
{
    lemma_behind(card_stream_of(a), STREAM_PREFIX@, a);
    lemma_behind(card_stream_of(a), STREAM_PREFIX@, b);
    lemma_behind(alias_stream_of(a), ALIAS_PREFIX@, a);
    lemma_behind(alias_stream_of(a), ALIAS_PREFIX@, b);
    reveal_strlit("card-");
    reveal_strlit("alias-");
    reveal_strlit("prune");
    assert(PRUNE_STREAM@[0] == 'p');
    assert(card_stream_of(a)[0] == 'c');
    assert(alias_stream_of(b)[0] == 'a');
}

proof fn lemma_entries(log: Seq<Placed>, stream: Seq<char>)
    requires
        log.len() > 0,
    ensures
        on_stream(entries(log), stream) == if log.last().stream == stream {
            on_stream(entries(log.drop_last()), stream).push(log.last().event)
        } else {
            on_stream(entries(log.drop_last()), stream)
        },
{
    assert(entries(log).drop_last() =~= entries(log.drop_last()));
}

/// `cb_aliases` is the fold of the alias streams: a name has a row exactly when its stream
/// leaves it bound, and the row points at the card it is bound to.
pub proof fn law_aliases_are_the_bindings(name: Seq<char>, log: Seq<Placed>, alias: Seq<char>)
    requires
        replayed(no_rows(), name, log) is Ok,
    ensures
        ({
            let aliases = replayed(no_rows(), name, log)->Ok_0.aliases;
            match binding(on_stream(entries(log), alias_stream_of(alias))) {
                Some(id) => aliases.contains_key(Cell::Text(alias)) && aliases[Cell::Text(
                    alias,
                )].card_id == Cell::Text(id),
                None => !aliases.contains_key(Cell::Text(alias)),
            }
        }),
    decreases log.len(),
{
    if log.len() > 0 {
        let front = log.drop_last();
        let e = log.last();
        let t = replayed(no_rows(), name, front)->Ok_0;
        let kind = kind_of(e.event);
        let f = facts_of(e.position, e.event);
        law_aliases_are_the_bindings(name, front, alias);
        lemma_entries(log, alias_stream_of(alias));
        lemma_foldable(name, e);
        crate::projection::lemma_kinds_differ();
        let before = on_stream(entries(front), alias_stream_of(alias));
        assert(before.push(e.event).drop_last() =~= before);
        if card_kind(kind) {
            let id = behind(e.stream, STREAM_PREFIX@)->0;
            lemma_card_event(t, kind, id, f);
            lemma_stream_names(id, alias);
        } else if alias_kind(kind) {
            let other = behind(e.stream, ALIAS_PREFIX@)->0;
            lemma_alias_event(t, kind, other, f);
            lemma_stream_names(other, alias);
        } else {
            lemma_prune_event(t, f.data);
            lemma_stream_names(alias, alias);
        }
    }
}

/// Whether a card was opened in a log, and not pruned since.
pub open spec fn opened_in(log: Seq<Placed>, id: Seq<char>) -> bool
    decreases log.len(),
{
    log.len() > 0 && !prunes(log.last(), id) && (opened_in(log.drop_last(), id) || (log.last().stream == card_stream_of(id)
        && kind_of(log.last().event) == "card_opened"@))
}

/// How many events of a kind stand on a card's stream behind its opening.
pub open spec fn count_since_open(log: Seq<Placed>, id: Seq<char>, kind: Seq<char>) -> int
    decreases log.len(),
{
    if log.len() == 0 || prunes(log.last(), id) {
        0
    } else {
        let e = log.last();
        count_since_open(log.drop_last(), id, kind) + if opened_in(log.drop_last(), id) && e.stream
            == card_stream_of(id) && kind_of(e.event) == kind {
            1int
        } else {
            0int
        }
    }
}

/// How many sample rows the batches on a card's stream behind its opening say they hold.
pub open spec fn rows_since_open(log: Seq<Placed>, id: Seq<char>) -> int
    decreases log.len(),
{
    if log.len() == 0 || prunes(log.last(), id) {
        0
    } else {
        let e = log.last();
        rows_since_open(log.drop_last(), id) + if opened_in(log.drop_last(), id) && e.stream
            == card_stream_of(id) && kind_of(e.event) == "samples_appended"@ {
            rows_in(lookup(e.event, "data"@))
        } else {
            0
        }
    }
}

/// The state a log leaves a card in: none before it was opened, `open` until it is closed,
/// then what its last close says, and none again when it is pruned.
pub open spec fn state_in(log: Seq<Placed>, id: Seq<char>) -> Option<Seq<char>>
    decreases log.len(),
{
    if log.len() == 0 || prunes(log.last(), id) {
        None
    } else {
        let e = log.last();
        let before = state_in(log.drop_last(), id);
        if e.stream != card_stream_of(id) {
            before
        } else if kind_of(e.event) == "card_opened"@ && before is None {
            Some("open"@)
        } else if kind_of(e.event) == "card_closed"@ && before is Some {
            Some(closing_state(lookup(e.event, "meta"@)))
        } else {
            before
        }
    }
}

/// `cb_cards` has one row for each card that was opened and not pruned since. Its counters count what stands on
/// the card's stream behind the opening, its state is the one the stream leaves it in.
pub proof fn law_cards_are_counted(name: Seq<char>, log: Seq<Placed>, id: Seq<char>)
    requires
        replayed(no_rows(), name, log) is Ok,
    ensures
        ({
            let cards = replayed(no_rows(), name, log)->Ok_0.cards;
            let row = cards[Cell::Text(id)];
            &&& cards.contains_key(Cell::Text(id)) <==> opened_in(log, id)
            &&& state_in(log, id) is Some <==> opened_in(log, id)
            &&& opened_in(log, id) ==> {
                &&& row.sample_batches == count_since_open(log, id, "samples_appended"@)
                &&& row.sample_rows == rows_since_open(log, id)
                &&& row.eval_count == count_since_open(log, id, "eval_recorded"@)
                &&& row.checkpoint_count == count_since_open(log, id, "checkpoint_saved"@)
                &&& row.state == Cell::Text(state_in(log, id)->0)
            }
        }),
        !opened_in(log, id) ==> count_since_open(log, id, "samples_appended"@) == 0
            && count_since_open(log, id, "eval_recorded"@) == 0 && count_since_open(
            log,
            id,
            "checkpoint_saved"@,
        ) == 0 && rows_since_open(log, id) == 0,
    decreases log.len(),
{
    if log.len() > 0 {
        let front = log.drop_last();
        let e = log.last();
        let t = replayed(no_rows(), name, front)->Ok_0;
        let kind = kind_of(e.event);
        let f = facts_of(e.position, e.event);
        law_cards_are_counted(name, front, id);
        lemma_foldable(name, e);
        crate::projection::lemma_kinds_differ();
        if card_kind(kind) {
            let other = behind(e.stream, STREAM_PREFIX@)->0;
            lemma_card_event(t, kind, other, f);
            lemma_stream_names(other, id);
        } else if alias_kind(kind) {
            let other = behind(e.stream, ALIAS_PREFIX@)->0;
            lemma_alias_event(t, kind, other, f);
            lemma_stream_names(id, other);
        } else {
            lemma_prune_event(t, f.data);
            lemma_stream_names(id, id);
            assert(named(cards_named(f.data), Cell::Text(id)) == prunes(e, id));
        }
    }
}

/// The columns of a card that its opening sets.
pub open spec fn same_opening(a: CardRow, b: CardRow) -> bool {
    a.pkg == b.pkg && a.scenario == b.scenario && a.source == b.source && a.created_by
        == b.created_by && a.note == b.note && a.opened_ms == b.opened_ms && a.opened_position
        == b.opened_position && a.model == b.model && a.trace_id == b.trace_id && a.work_url
        == b.work_url && a.fingerprint == b.fingerprint && a.params_json == b.params_json
}

/// The first open stays the card's opening: once a card has a row, no event but its removal
/// takes it away or changes what the opening set, a second `card_opened` no more than any other.
pub proof fn law_first_open_stays(t: Tables, name: Seq<char>, log: Seq<Placed>, id: Seq<char>)
    requires
        t.cards.contains_key(Cell::Text(id)),
        replayed(t, name, log) is Ok,
        !pruned_in(log, id),
    ensures
        replayed(t, name, log)->Ok_0.cards.contains_key(Cell::Text(id)),
        same_opening(replayed(t, name, log)->Ok_0.cards[Cell::Text(id)], t.cards[Cell::Text(id)]),
    decreases log.len(),
{
    if log.len() > 0 {
        let e = log.last();
        law_first_open_stays(t, name, log.drop_last(), id);
        let u = replayed(t, name, log.drop_last())->Ok_0;
        lemma_foldable(name, e);
        let kind = kind_of(e.event);
        let f = facts_of(e.position, e.event);
        if card_kind(kind) {
            lemma_card_event(u, kind, behind(e.stream, STREAM_PREFIX@)->0, f);
        } else if alias_kind(kind) {
            lemma_alias_event(u, kind, behind(e.stream, ALIAS_PREFIX@)->0, f);
        } else {
            lemma_prune_event(u, f.data);
            assert(named(cards_named(f.data), Cell::Text(id)) == prunes(e, id));
        }
    }
}

/// A second opening changes nothing in `cb_cards`: once a card was opened, another opening of
/// it leaves its row as it is in every column, and every other row too.
pub proof fn law_a_second_opening_changes_nothing(
    t: Tables,
    id: Seq<char>,
    first: Facts,
    second: Facts,
)
    ensures
        ({
            let once = run(t, opened_ops(id, first));
            let twice = run(once, opened_ops(id, second));
            &&& once.cards.contains_key(Cell::Text(id))
            &&& twice.cards == once.cards
        }),
{
    lemma_card_event(t, "card_opened"@, id, first);
    lemma_card_event(run(t, opened_ops(id, first)), "card_opened"@, id, second);
}

/// An event of one card or alias leaves every other card and every other alias as it was. An
/// entry of the prune journal leaves every alias as it was, and every card it does not name.
pub proof fn law_an_event_is_its_own_streams(t: Tables, name: Seq<char>, e: Placed, other: Seq<char>)
    requires
        applied(t, name, e) is Ok,
    ensures
        ({
            let r = applied(t, name, e)->Ok_0;
            let key = Cell::Text(other);
            &&& e.stream != card_stream_of(other) && !prunes(e, other) ==> (r.cards.contains_key(
                key,
            ) <==> t.cards.contains_key(key)) && (t.cards.contains_key(key) ==> r.cards[key]
                == t.cards[key])
            &&& e.stream != alias_stream_of(other) ==> (r.aliases.contains_key(key)
                <==> t.aliases.contains_key(key)) && (t.aliases.contains_key(key)
                ==> r.aliases[key] == t.aliases[key])
        }),
{
    lemma_foldable(name, e);
    let kind = kind_of(e.event);
    let f = facts_of(e.position, e.event);
    if card_kind(kind) {
        let id = behind(e.stream, STREAM_PREFIX@)->0;
        lemma_card_event(t, kind, id, f);
        lemma_stream_names(id, other);
    } else if alias_kind(kind) {
        let alias = behind(e.stream, ALIAS_PREFIX@)->0;
        lemma_alias_event(t, kind, alias, f);
        lemma_stream_names(alias, other);
    } else {
        lemma_prune_event(t, f.data);
        assert(named(cards_named(f.data), Cell::Text(other)) == prunes(e, other));
    }
}

/// Every row of `a` is in `b`, as it was.
pub open spec fn kept<K, V>(a: Map<K, V>, b: Map<K, V>) -> bool {
    forall|k: K| #[trigger] a.contains_key(k) ==> b.contains_key(k) && b[k] == a[k]
}

/// Every row of `a` is in `b`, as it was, but for those of the cards a log prunes.
pub open spec fn kept_but<V>(
    a: Map<(Cell, Cell), V>,
    b: Map<(Cell, Cell), V>,
    log: Seq<Placed>,
) -> bool {
    forall|k: (Cell, Cell)| #[trigger]
        a.contains_key(k) && !(k.0 is Text && pruned_in(log, k.0->Text_0)) ==> b.contains_key(k)
            && b[k] == a[k]
}

/// Nothing folded later takes a line out of a history or changes one, but that a pruned card
/// takes its own lines with it: the lines of the aliases only grow, and so do, of cards that are
/// not pruned, the samples, the evaluations, the checkpoints and the descent.
pub proof fn law_histories_only_grow(t: Tables, name: Seq<char>, log: Seq<Placed>)
    requires
        replayed(t, name, log) is Ok,
    ensures
        ({
            let r = replayed(t, name, log)->Ok_0;
            &&& kept(t.alias_log, r.alias_log)
            &&& kept_but(t.samples, r.samples, log)
            &&& kept_but(t.evals, r.evals, log)
            &&& kept_but(t.checkpoints, r.checkpoints, log)
            &&& forall|line: (Cell, Cell)| #[trigger]
                t.lineage.contains(line) && !(line.0 is Text && pruned_in(log, line.0->Text_0))
                    ==> r.lineage.contains(line)
        }),
    decreases log.len(),
{
    if log.len() > 0 {
        let e = log.last();
        law_histories_only_grow(t, name, log.drop_last());
        let u = replayed(t, name, log.drop_last())->Ok_0;
        lemma_foldable(name, e);
        let kind = kind_of(e.event);
        let f = facts_of(e.position, e.event);
        if card_kind(kind) {
            let id = behind(e.stream, STREAM_PREFIX@)->0;
            lemma_card_event(u, kind, id, f);
            lemma_card_rows(u, kind, id, f);
        } else if alias_kind(kind) {
            lemma_alias_event(u, kind, behind(e.stream, ALIAS_PREFIX@)->0, f);
        } else {
            lemma_prune_event(u, f.data);
            assert forall|id: Cell| #[trigger] named(cards_named(f.data), id) implies id is Text
                && pruned_in(log, id->Text_0) by {
                assert(prunes(e, id->Text_0));
            }
        }
    }
}

/// The row a batch of samples leaves.
pub open spec fn sample_row(f: Facts) -> SampleRow {
    SampleRow {
        n: int_cell(num_of(member(f.data, "n"@))),
        rows_json: json_cell(member(f.data, "rows"@)),
        blob: text_cell(text_of(f.data, "blob"@)),
        size: int_cell(num_of(member(f.data, "size"@))),
        epoch_ms: Cell::Integer(f.epoch_ms),
    }
}

/// The row an evaluation leaves.
pub open spec fn eval_row(f: Facts) -> EvalRow {
    EvalRow {
        source: text_cell(text_of(f.meta, "source"@)),
        data_json: json_cell(f.data),
        epoch_ms: Cell::Integer(f.epoch_ms),
    }
}

/// The row a checkpoint leaves.
pub open spec fn checkpoint_row(f: Facts) -> CheckpointRow {
    CheckpointRow {
        blob: text_cell(text_of(f.data, "blob"@)),
        size: int_cell(num_of(member(f.data, "size"@))),
        format: text_cell(text_of(f.data, "format"@)),
        note: text_cell(text_of(f.data, "note"@)),
        epoch_ms: Cell::Integer(f.epoch_ms),
    }
}

/// The row each kind of a card's event leaves in its own table, and the lines an opening
/// leaves in the lineage.
pub proof fn lemma_card_rows(t: Tables, kind: Seq<char>, id: Seq<char>, f: Facts)
    requires
        card_kind(kind),
    ensures
        ({
            let r = run(t, card_ops(kind, id, f));
            let key = (Cell::Text(id), Cell::Integer(f.seq));
            &&& kind == "samples_appended"@ ==> r.samples == inserted(t.samples, key, sample_row(f))
            &&& kind == "eval_recorded"@ ==> r.evals == inserted(t.evals, key, eval_row(f))
            &&& kind == "checkpoint_saved"@ ==> r.checkpoints == inserted(
                t.checkpoints,
                key,
                checkpoint_row(f),
            )
            &&& t.lineage.subset_of(r.lineage)
            &&& kind == "card_opened"@ ==> forall|parent: Seq<char>|
                parents_of(f.data).contains(parent) ==> #[trigger] r.lineage.contains(
                    (Cell::Text(id), Cell::Text(parent)),
                )
            &&& kind == "card_opened"@ ==> forall|line: (Cell, Cell)| #[trigger]
                r.lineage.contains(line) && !t.lineage.contains(line) ==> exists|parent: Seq<char>|
                    line == (Cell::Text(id), Cell::Text(parent)) && #[trigger] parents_of(
                        f.data,
                    ).contains(parent)
        }),
{
    crate::projection::lemma_kinds_differ();
    let r = run(t, card_ops(kind, id, f));
    if kind == "card_opened"@ {
        let first = open_card(id, f);
        let named = parents_of(f.data);
        let lines = Seq::new(named.len(), |i: int| add_parent(id, named[i]));
        lemma_run_concat(t, seq![first], lines);
        lemma_run_one(t, first);
        lemma_lines(step(t, first), lines);
        assert(r == run(step(t, first), lines)) by {
            assert(opened_ops(id, f) =~= seq![first] + lines);
        }
        assert forall|parent: Seq<char>| named.contains(parent) implies #[trigger]
            r.lineage.contains((Cell::Text(id), Cell::Text(parent))) by {
            let i = named.index_of(parent);
            assert(lines[i] == add_parent(id, parent));
        }
        assert forall|line: (Cell, Cell)| #[trigger]
            r.lineage.contains(line) && !t.lineage.contains(line) implies exists|parent: Seq<char>|
            line == (Cell::Text(id), Cell::Text(parent)) && #[trigger] named.contains(parent) by {
            let i = choose|i: int|
                0 <= i < lines.len() && line == ((#[trigger] lines[i]).params[0], lines[i].params[1]);
            assert(named.contains(named[i]));
        }
    } else if kind == "samples_appended"@ {
        let ops = samples_ops(id, f);
        let pair = seq![ops[0], ops[1]];
        assert(ops =~= pair + blob_ops(f.data));
        lemma_run_concat(t, pair, blob_ops(f.data));
        lemma_run_two(t, ops[0], ops[1]);
        lemma_blob_ops(run(t, pair), f.data);
    } else if kind == "eval_recorded"@ {
        let ops = eval_ops(id, f);
        lemma_run_two(t, ops[0], ops[1]);
        assert(ops =~= seq![ops[0], ops[1]]);
    } else if kind == "checkpoint_saved"@ {
        let ops = checkpoint_ops(id, f);
        let pair = seq![ops[0], ops[1]];
        assert(ops =~= pair + blob_ops(f.data));
        lemma_run_concat(t, pair, blob_ops(f.data));
        lemma_run_two(t, ops[0], ops[1]);
        lemma_blob_ops(run(t, pair), f.data);
    } else {
        lemma_card_event(t, kind, id, f);
    }
}

/// Whether an opening of a card in a log names a parent, and the card was not pruned since.
pub open spec fn descends(log: Seq<Placed>, id: Seq<char>, parent: Seq<char>) -> bool
    decreases log.len(),
{
    log.len() > 0 && !prunes(log.last(), id) && {
        let e = log.last();
        descends(log.drop_last(), id, parent) || (e.stream == card_stream_of(id) && kind_of(e.event)
            == "card_opened"@ && parents_of(lookup(e.event, "data"@)).contains(parent))
    }
}

/// `cb_lineage` holds a line exactly where an opening of the child names the parent and the
/// child was not pruned since.
pub proof fn law_lineage_is_what_was_named(
    name: Seq<char>,
    log: Seq<Placed>,
    id: Seq<char>,
    parent: Seq<char>,
)
    requires
        replayed(no_rows(), name, log) is Ok,
    ensures
        replayed(no_rows(), name, log)->Ok_0.lineage.contains((Cell::Text(id), Cell::Text(parent)))
            <==> descends(log, id, parent),
    decreases log.len(),
{
    if log.len() > 0 {
        let front = log.drop_last();
        let e = log.last();
        let t = replayed(no_rows(), name, front)->Ok_0;
        let kind = kind_of(e.event);
        let f = facts_of(e.position, e.event);
        law_lineage_is_what_was_named(name, front, id, parent);
        lemma_foldable(name, e);
        crate::projection::lemma_kinds_differ();
        if card_kind(kind) {
            let other = behind(e.stream, STREAM_PREFIX@)->0;
            lemma_card_event(t, kind, other, f);
            lemma_card_rows(t, kind, other, f);
            lemma_stream_names(other, id);
        } else if alias_kind(kind) {
            let other = behind(e.stream, ALIAS_PREFIX@)->0;
            lemma_alias_event(t, kind, other, f);
            lemma_stream_names(id, other);
        } else {
            lemma_prune_event(t, f.data);
            lemma_stream_names(id, id);
            assert(named(cards_named(f.data), Cell::Text(id)) == prunes(e, id));
        }
    }
}

/// The number an event has on its stream: the one it says under `seq`, 0 where it says none.
pub open spec fn number_of(event: Fields) -> u64 {
    match lookup(event, "seq"@) {
        Some(Tree::Number(NumberView::PosInt(n))) => n,
        _ => 0,
    }
}

/// No event before `i` stands on the stream of event `i` under the same seq: what a log that
/// numbers each stream from 1 holds of every event.
pub open spec fn own_seq(log: Seq<Placed>, i: int) -> bool {
    forall|j: int|
        0 <= j < i && (#[trigger] log[j]).stream == log[i].stream ==> number_of(log[j].event)
            != number_of(log[i].event)
}

/// What an event is filed under is the number it says: two events with different numbers are
/// filed apart, and one up to the largest signed number is filed as itself.
pub proof fn law_an_event_is_filed_under_its_number(a: Placed, b: Placed)
    ensures
        number_of(a.event) <= 0x7fff_ffff_ffff_ffff ==> facts_of(a.position, a.event).seq
            == number_of(a.event),
        facts_of(a.position, a.event).seq == facts_of(b.position, b.event).seq <==> number_of(
            a.event,
        ) == number_of(b.event),
        facts_of(a.position, a.event).seq == wrapped(number_of(a.event)),
{
}

/// Everywhere a name has been is in its history: each bind and each release left its line,
/// under the seq it has on its stream, and the line is still what the event said.
pub proof fn law_alias_history_is_whole(name: Seq<char>, log: Seq<Placed>, i: int)
    requires
        replayed(no_rows(), name, log) is Ok,
        0 <= i < log.len(),
        alias_kind(kind_of(log[i].event)),
        own_seq(log, i),
    ensures
        ({
            let lines = replayed(no_rows(), name, log)->Ok_0.alias_log;
            let f = facts_of(log[i].position, log[i].event);
            let key = (
                Cell::Text(behind(log[i].stream, ALIAS_PREFIX@)->0),
                Cell::Integer(wrapped(number_of(log[i].event))),
            );
            lines.contains_key(key) && lines[key] == logged_row(kind_of(log[i].event), f)
        }),
    decreases log.len(),
{
    let front = log.drop_last();
    if i < front.len() {
        assert(own_seq(front, i)) by {
            assert forall|j: int| 0 <= j < i && (#[trigger] front[j]).stream
                == front[i].stream implies number_of(front[j].event) != number_of(
                front[i].event,
            ) by {
                assert(log[j] == front[j]);
            }
        }
        law_alias_history_is_whole(name, front, i);
        let t = replayed(no_rows(), name, front)->Ok_0;
        let last = seq![log.last()];
        assert(front + last =~= log);
        law_batches_are_one_fold(no_rows(), name, front, last);
        law_histories_only_grow(t, name, last);
    } else {
        let e = log.last();
        let t = replayed(no_rows(), name, front)->Ok_0;
        let f = facts_of(e.position, e.event);
        lemma_foldable(name, e);
        let alias = behind(e.stream, ALIAS_PREFIX@)->0;
        lemma_alias_event(t, kind_of(e.event), alias, f);
        let key = (Cell::Text(alias), Cell::Integer(f.seq));
        if t.alias_log.contains_key(key) {
            let j = lemma_line_has_an_event(name, front, alias, f.seq);
            assert(log[j] == front[j]);
            law_an_event_is_filed_under_its_number(log[j], e);
        }
    }
}

/// A line of an alias's history was left by an event on the alias's stream.
proof fn lemma_line_has_an_event(name: Seq<char>, log: Seq<Placed>, alias: Seq<char>, n: int) -> (j:
    int)
    requires
        replayed(no_rows(), name, log) is Ok,
        replayed(no_rows(), name, log)->Ok_0.alias_log.contains_key(
            (Cell::Text(alias), Cell::Integer(n)),
        ),
    ensures
        0 <= j < log.len(),
        log[j].stream == alias_stream_of(alias),
        facts_of(log[j].position, log[j].event).seq == n,
    decreases log.len(),
{
    if log.len() == 0 {
        0
    } else {
        let front = log.drop_last();
        let e = log.last();
        let t = replayed(no_rows(), name, front)->Ok_0;
        let key = (Cell::Text(alias), Cell::Integer(n));
        if t.alias_log.contains_key(key) {
            let j = lemma_line_has_an_event(name, front, alias, n);
            assert(log[j] == front[j]);
            j
        } else {
            lemma_foldable(name, e);
            let kind = kind_of(e.event);
            let f = facts_of(e.position, e.event);
            if card_kind(kind) {
                lemma_card_event(t, kind, behind(e.stream, STREAM_PREFIX@)->0, f);
            } else if alias_kind(kind) {
                lemma_alias_event(t, kind, behind(e.stream, ALIAS_PREFIX@)->0, f);
            } else {
                lemma_prune_event(t, f.data);
            }
            log.len() - 1
        }
    }
}

/// A row of a card's own tables was left by an event on the card's stream.
pub proof fn lemma_row_has_an_event(name: Seq<char>, log: Seq<Placed>, id: Seq<char>, n: int) -> (j: int)
    requires
        replayed(no_rows(), name, log) is Ok,
        ({
            let t = replayed(no_rows(), name, log)->Ok_0;
            let key = (Cell::Text(id), Cell::Integer(n));
            t.samples.contains_key(key) || t.evals.contains_key(key) || t.checkpoints.contains_key(
                key,
            )
        }),
    ensures
        0 <= j < log.len(),
        log[j].stream == card_stream_of(id),
        facts_of(log[j].position, log[j].event).seq == n,
    decreases log.len(),
{
    if log.len() == 0 {
        0
    } else {
        let front = log.drop_last();
        let e = log.last();
        let t = replayed(no_rows(), name, front)->Ok_0;
        let key = (Cell::Text(id), Cell::Integer(n));
        if t.samples.contains_key(key) || t.evals.contains_key(key) || t.checkpoints.contains_key(
            key,
        ) {
            let j = lemma_row_has_an_event(name, front, id, n);
            assert(log[j] == front[j]);
            j
        } else {
            lemma_foldable(name, e);
            let kind = kind_of(e.event);
            let f = facts_of(e.position, e.event);
            if card_kind(kind) {
                let other = behind(e.stream, STREAM_PREFIX@)->0;
                lemma_card_event(t, kind, other, f);
                lemma_card_rows(t, kind, other, f);
            } else if alias_kind(kind) {
                lemma_alias_event(t, kind, behind(e.stream, ALIAS_PREFIX@)->0, f);
            } else {
                lemma_prune_event(t, f.data);
            }
            log.len() - 1
        }
    }
}

/// Whether the tables hold the row that event `e` of a card left.
pub open spec fn has_its_row(t: Tables, e: Placed) -> bool {
    let kind = kind_of(e.event);
    let f = facts_of(e.position, e.event);
    let key = (
        Cell::Text(behind(e.stream, STREAM_PREFIX@)->0),
        Cell::Integer(wrapped(number_of(e.event))),
    );
    &&& kind == "samples_appended"@ ==> t.samples.contains_key(key) && t.samples[key]
        == sample_row(f)
    &&& kind == "eval_recorded"@ ==> t.evals.contains_key(key) && t.evals[key] == eval_row(f)
    &&& kind == "checkpoint_saved"@ ==> t.checkpoints.contains_key(key) && t.checkpoints[key]
        == checkpoint_row(f)
}

/// Whether the card of event `i` is pruned behind it.
pub open spec fn pruned_behind(log: Seq<Placed>, i: int) -> bool {
    exists|j: int|
        i < j < log.len() && prunes(#[trigger] log[j], behind(log[i].stream, STREAM_PREFIX@)->0)
}

/// Every batch of samples, every evaluation and every checkpoint of a card that was not pruned
/// since has its row, under its card and the seq it has on the card's stream, and the row is
/// what the event said.
pub proof fn law_every_event_has_its_row(name: Seq<char>, log: Seq<Placed>, i: int)
    requires
        replayed(no_rows(), name, log) is Ok,
        0 <= i < log.len(),
        card_kind(kind_of(log[i].event)),
        own_seq(log, i),
        !pruned_behind(log, i),
    ensures
        has_its_row(replayed(no_rows(), name, log)->Ok_0, log[i]),
    decreases log.len(),
{
    let front = log.drop_last();
    if i < front.len() {
        assert(own_seq(front, i)) by {
            assert forall|j: int| 0 <= j < i && (#[trigger] front[j]).stream
                == front[i].stream implies number_of(front[j].event) != number_of(
                front[i].event,
            ) by {
                assert(log[j] == front[j]);
            }
        }
        assert(!pruned_behind(front, i)) by {
            assert forall|j: int| i < j < front.len() implies !prunes(
                #[trigger] front[j],
                behind(front[i].stream, STREAM_PREFIX@)->0,
            ) by {
                assert(log[j] == front[j]);
            }
        }
        law_every_event_has_its_row(name, front, i);
        let t = replayed(no_rows(), name, front)->Ok_0;
        let last = seq![log.last()];
        let id = behind(log[i].stream, STREAM_PREFIX@)->0;
        assert(log[log.len() - 1] == log.last());
        assert(!pruned_in(last, id)) by {
            reveal_with_fuel(pruned_in, 2);
            assert(last.drop_last() =~= seq![]);
            assert(!prunes(log[log.len() - 1], id));
        }
        assert(front + last =~= log);
        law_batches_are_one_fold(no_rows(), name, front, last);
        law_histories_only_grow(t, name, last);
    } else {
        let e = log.last();
        let t = replayed(no_rows(), name, front)->Ok_0;
        let f = facts_of(e.position, e.event);
        lemma_foldable(name, e);
        let id = behind(e.stream, STREAM_PREFIX@)->0;
        lemma_card_rows(t, kind_of(e.event), id, f);
        let key = (Cell::Text(id), Cell::Integer(f.seq));
        if t.samples.contains_key(key) || t.evals.contains_key(key) || t.checkpoints.contains_key(
            key,
        ) {
            let j = lemma_row_has_an_event(name, front, id, f.seq);
            assert(log[j] == front[j]);
            law_an_event_is_filed_under_its_number(log[j], e);
        }
    }
}

/// Which events can be folded, and what is said of the others. An event of a kind that was not
/// asked for is reported as that; one of a card's kinds or of an alias's has to be on a stream
/// of that shape; a bind has to name its card; and an entry of the prune journal has to be on
/// the journal's stream.
pub proof fn law_what_cannot_be_folded(name: Seq<char>, e: Placed)
    ensures
        ({
            let kind = kind_of(e.event);
            let r = folded(name, e);
            &&& r == Err::<Seq<OpView>, FaultView>(
                FaultView::UnknownKind { projection: name, kind },
            ) <==> !all_kinds().contains(kind)
            &&& r is Ok <==> {
                ||| card_kind(kind) && behind(e.stream, STREAM_PREFIX@) is Some
                ||| kind == "alias_released"@ && behind(e.stream, ALIAS_PREFIX@) is Some
                ||| kind == "alias_bound"@ && behind(e.stream, ALIAS_PREFIX@) is Some && text_of(
                    lookup(e.event, "meta"@),
                    "card_id"@,
                ) is Some
                ||| kind == "cards_pruned"@ && e.stream == PRUNE_STREAM@
            }
        }),
{
    crate::projection::lemma_kinds_differ();
    let kinds = all_kinds();
    let kind = kind_of(e.event);
    assert(kinds[0] == "card_opened"@ && kinds[1] == "samples_appended"@ && kinds[2]
        == "eval_recorded"@ && kinds[3] == "checkpoint_saved"@ && kinds[4] == "card_closed"@
        && kinds[5] == "alias_bound"@ && kinds[6] == "alias_released"@ && kinds[7]
        == "cards_pruned"@ && kinds[8] == "tag_set"@ && kinds[9] == "tag_unset"@ && kinds.len()
        == 10);
    assert(kinds.contains(kind) <==> card_kind(kind) || alias_kind(kind) || prune_kind(kind));
}

/// No close of a card stands in front of its opening.
pub open spec fn closes_follow_the_opening(log: Seq<Placed>, id: Seq<char>) -> bool
    decreases log.len(),
{
    log.len() == 0 || {
        &&& closes_follow_the_opening(log.drop_last(), id)
        &&& log.last().stream == card_stream_of(id) && kind_of(log.last().event)
            == "card_closed"@ ==> opened_in(log.drop_last(), id)
    }
}

/// The state in the tables and the decision on the stream agree: a card's row says `open`
/// exactly as long as `open_unclosed` allows a write. A pruned card is left out: its rows go with
/// the journal's entry, its stream when it is removed.
pub proof fn law_open_means_open(log: Seq<Placed>, id: Seq<char>)
    requires
        !pruned_in(log, id),
        closes_follow_the_opening(log, id),
    ensures
        state_in(log, id) == Some("open"@) <==> allowed(
            RuleView::OpenUnclosed,
            on_stream(entries(log), card_stream_of(id)),
        ),
        opened_in(log, id) <==> allowed(
            RuleView::Opened,
            on_stream(entries(log), card_stream_of(id)),
        ),
        state_in(log, id) is Some <==> opened_in(log, id),
        !opened_in(log, id) ==> !has_kind(
            on_stream(entries(log), card_stream_of(id)),
            "card_closed"@,
        ),
    decreases log.len(),
{
    crate::projection::lemma_kinds_differ();
    reveal_strlit("open");
    reveal_strlit("closed_ok");
    reveal_strlit("closed_failed");
    assert("open"@.len() == 4 && "closed_ok"@.len() == 9 && "closed_failed"@.len() == 13);
    if log.len() > 0 {
        let front = log.drop_last();
        let e = log.last();
        let stream = card_stream_of(id);
        law_open_means_open(front, id);
        lemma_entries(log, stream);
        let before = on_stream(entries(front), stream);
        lemma_has_kind_push(before, e.event, "card_opened"@);
        lemma_has_kind_push(before, e.event, "card_closed"@);
    }
}

/// A close puts in the card's row what it said: the state its outcome is, the error, the JSON as
/// it was written, and the numbers flattened out of it. What the opening set and what was counted
/// stays.
pub proof fn law_a_close_is_recorded(t: Tables, id: Seq<char>, f: Facts)
    requires
        t.cards.contains_key(Cell::Text(id)),
    ensures
        ({
            let row = run(t, card_ops("card_closed"@, id, f)).cards[Cell::Text(id)];
            let before = t.cards[Cell::Text(id)];
            let stats = member(f.data, "stats"@);
            let cost = member(f.data, "cost"@);
            &&& row.state == Cell::Text(closing_state(f.meta))
            &&& row.closed_ms == Cell::Integer(f.epoch_ms)
            &&& row.stats_json == json_cell(stats)
            &&& row.cost_json == json_cell(cost)
            &&& row.error == text_cell(text_of(f.data, "error"@))
            &&& row.mean_score == real_cell(real_of(member(stats, "mean_score"@)))
            &&& row.n == int_cell(num_of(member(stats, "n"@)))
            &&& row.pass_rate == real_cell(real_of(member(stats, "pass_rate"@)))
            &&& row.passed == int_cell(num_of(member(stats, "passed"@)))
            &&& row.elapsed_ms == int_cell(num_of(member(cost, "elapsed_ms"@)))
            &&& row.llm_calls == int_cell(num_of(member(cost, "llm_calls"@)))
            &&& row.sample_batches == before.sample_batches
            &&& row.sample_rows == before.sample_rows
            &&& row.eval_count == before.eval_count
            &&& row.checkpoint_count == before.checkpoint_count
            &&& same_opening(row, before)
        }),
{
    crate::projection::lemma_kinds_differ();
    lemma_card_event(t, "card_closed"@, id, f);
}

/// The value a log leaves a tag of a card with: what the last word on it said, and none where
/// it was taken off or the card pruned.
pub open spec fn tag_in(log: Seq<Placed>, id: Seq<char>, key: Seq<char>) -> Option<Seq<char>>
    decreases log.len(),
{
    if log.len() == 0 || prunes(log.last(), id) {
        None
    } else {
        let e = log.last();
        let before = tag_in(log.drop_last(), id, key);
        let meta = lookup(e.event, "meta"@);
        if e.stream != card_stream_of(id) || text_of(meta, "key"@) != Some(key) {
            before
        } else if kind_of(e.event) == "tag_unset"@ {
            None
        } else if kind_of(e.event) == "tag_set"@ && text_of(meta, "value"@) is Some {
            text_of(meta, "value"@)
        } else {
            before
        }
    }
}

/// `cb_tags` is the fold of the cards' streams: a tag has a row exactly where the stream leaves
/// it a value, and the row says that value.
pub proof fn law_tags_are_the_last_word(
    name: Seq<char>,
    log: Seq<Placed>,
    id: Seq<char>,
    key: Seq<char>,
)
    requires
        replayed(no_rows(), name, log) is Ok,
    ensures
        ({
            let tags = replayed(no_rows(), name, log)->Ok_0.tags;
            let k = (Cell::Text(id), Cell::Text(key));
            match tag_in(log, id, key) {
                Some(value) => tags.contains_key(k) && tags[k] == Cell::Text(value),
                None => !tags.contains_key(k),
            }
        }),
    decreases log.len(),
{
    if log.len() > 0 {
        let front = log.drop_last();
        let e = log.last();
        let t = replayed(no_rows(), name, front)->Ok_0;
        let kind = kind_of(e.event);
        let f = facts_of(e.position, e.event);
        law_tags_are_the_last_word(name, front, id, key);
        lemma_foldable(name, e);
        crate::projection::lemma_kinds_differ();
        if card_kind(kind) {
            let other = behind(e.stream, STREAM_PREFIX@)->0;
            lemma_card_event(t, kind, other, f);
            lemma_stream_names(other, id);
        } else if alias_kind(kind) {
            let other = behind(e.stream, ALIAS_PREFIX@)->0;
            lemma_alias_event(t, kind, other, f);
            lemma_stream_names(id, other);
        } else {
            lemma_prune_event(t, f.data);
            lemma_stream_names(id, id);
            assert(named(cards_named(f.data), Cell::Text(id)) == prunes(e, id));
        }
    }
}

} // verus!
