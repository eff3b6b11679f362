//! The read models: a card's kinds, an alias's and the prune journal's, folded into tables in
//! the same file as the log.
//!
//! # The name is the version
//!
//! [`CardsProjection::NAME`] is `cards_v2`, and the suffix is the migration convention rather
//! than decoration: a projection's name **is** the primary key of its checkpoint, so a shape
//! change old rows cannot be carried into is done by renaming the projection. The new name
//! has no checkpoint, so it starts at the beginning of the log and folds all of it, and
//! nothing has to reason about which of the old rows were still right.
//!
//! A change that old rows *can* be carried into needs no other name: columns that a card may
//! have nothing in are added to the tables that are there, by
//! [`crate::sql::card_columns_to_add`] and [`crate::sql::eval_columns_to_add`]. What an earlier
//! fold passed over in the log is in the tables once the model is rebuilt.
//!
//! # The `cb_` prefix
//!
//! Every table is `cb_`-prefixed because it shares a file with the log's own, whose names are
//! reserved.
//!
//! A fold says which statements one event is, and with which parameters; running them in the
//! transaction that also moves the cursor is the caller's. What the statements make of the
//! tables is in [`crate::tables`].
use vstd::prelude::*;
use vstd::string::*;

use crate::json::{
    Fields, Json, Tree, fields_view, get, lookup, member, member_of, num, num_of, real_number,
    real_of, text, text_of, tree_of,
};
use crate::print::{json_encode, json_text};
use crate::record::{
    ALIAS_PREFIX, PRUNE_STREAM, Placed, STREAM_PREFIX, Stored, event_kind, field, field_of, kind_of, signed_word,
    wrapped,
};
use crate::sql::{
    Cell, Op, OpView, SqlValue, Statement, cells, int_cell, int_param, ops_view, real_cell,
    real_param, text_cell, text_param,
};
use crate::text::{
    behind, debug_quoted, debug_text, in_quotes, joined, plain, same, strip_prefix,
};

verus! {

/// The read model over a card's kinds, an alias's and the prune journal's.
///
/// Stateless apart from the name it answers to: everything it knows is in the tables, which
/// is what makes a rebuild a replay rather than a reconstruction of anything held here.
#[derive(Debug)]
pub struct CardsProjection {
    name: String,
}

impl View for CardsProjection {
    type V = Seq<char>;

    /// The name of the cursor.
    closed spec fn view(&self) -> Seq<char> {
        self.name@
    }
}

impl Default for CardsProjection {
    fn default() -> (r: Self)
        ensures
            r@ == CardsProjection::NAME@,
    {
        CardsProjection::new()
    }
}

/// The kinds these streams carry.
pub open spec fn all_kinds() -> Seq<Seq<char>> {
    seq![
        "card_opened"@,
        "samples_appended"@,
        "eval_recorded"@,
        "checkpoint_saved"@,
        "card_closed"@,
        "alias_bound"@,
        "alias_released"@,
        "cards_pruned"@,
        "tag_set"@,
        "tag_unset"@,
    ]
}

/// The kinds, as a refusal lists them.
pub const KIND_LIST: &'static str =
    "card_opened, samples_appended, eval_recorded, checkpoint_saved, card_closed, alias_bound, alias_released, cards_pruned, tag_set, tag_unset";

/// The list names the kinds, in order.
pub proof fn lemma_kind_list()
    ensures
        KIND_LIST@ == "card_opened"@ + ", "@ + "samples_appended"@ + ", "@ + "eval_recorded"@
            + ", "@ + "checkpoint_saved"@ + ", "@ + "card_closed"@ + ", "@ + "alias_bound"@ + ", "@
            + "alias_released"@ + ", "@ + "cards_pruned"@ + ", "@ + "tag_set"@ + ", "@
            + "tag_unset"@,
{
    reveal_strlit(
        "card_opened, samples_appended, eval_recorded, checkpoint_saved, card_closed, alias_bound, alias_released, cards_pruned, tag_set, tag_unset",
    );
    reveal_strlit("card_opened");
    reveal_strlit("samples_appended");
    reveal_strlit("eval_recorded");
    reveal_strlit("checkpoint_saved");
    reveal_strlit("card_closed");
    reveal_strlit("alias_bound");
    reveal_strlit("alias_released");
    reveal_strlit("cards_pruned");
    reveal_strlit("tag_set");
    reveal_strlit("tag_unset");
    reveal_strlit(", ");
    assert(KIND_LIST@ =~= "card_opened"@ + ", "@ + "samples_appended"@ + ", "@ + "eval_recorded"@
        + ", "@ + "checkpoint_saved"@ + ", "@ + "card_closed"@ + ", "@ + "alias_bound"@ + ", "@
        + "alias_released"@ + ", "@ + "cards_pruned"@ + ", "@ + "tag_set"@ + ", "@
        + "tag_unset"@);
}

/// Why an event could not be folded.
#[derive(Debug)]
pub enum FoldFault {
    /// An event of a kind that was not asked for.
    UnknownKind { projection: String, kind: String },
    /// An event of a card's kind on a stream that is not a card's.
    NotACard { kind: String, stream: String },
    /// An event of an alias's kind on a stream that is not an alias's.
    NotAnAlias { kind: String, stream: String },
    /// An entry of the prune journal on another stream.
    NotTheJournal { kind: String, stream: String },
    /// A bind that names no card.
    BindsNothing { name: String },
}

/// The mathematical reading of a [`FoldFault`].
pub enum FaultView {
    UnknownKind { projection: Seq<char>, kind: Seq<char> },
    NotACard { kind: Seq<char>, stream: Seq<char> },
    NotAnAlias { kind: Seq<char>, stream: Seq<char> },
    NotTheJournal { kind: Seq<char>, stream: Seq<char> },
    BindsNothing { name: Seq<char> },
}

impl View for FoldFault {
    type V = FaultView;

    open spec fn view(&self) -> FaultView {
        match self {
            FoldFault::UnknownKind { projection, kind } => FaultView::UnknownKind {
                projection: projection@,
                kind: kind@,
            },
            FoldFault::NotACard { kind, stream } => FaultView::NotACard {
                kind: kind@,
                stream: stream@,
            },
            FoldFault::NotAnAlias { kind, stream } => FaultView::NotAnAlias {
                kind: kind@,
                stream: stream@,
            },
            FoldFault::NotTheJournal { kind, stream } => FaultView::NotTheJournal {
                kind: kind@,
                stream: stream@,
            },
            FoldFault::BindsNothing { name } => FaultView::BindsNothing { name: name@ },
        }
    }
}

/// What a fault says, with its kind and its stream shown like this.
pub open spec fn fault_said(fault: FaultView, kind: Seq<char>, stream: Seq<char>) -> Seq<char> {
    match fault {
        FaultView::UnknownKind { projection, .. } => "the "@ + projection
            + " projection was handed a "@ + kind
            + " event, which is not one of the kinds it asked for ("@ + KIND_LIST@ + ")"@,
        FaultView::NotACard { .. } => "a "@ + kind + " event is on stream "@ + stream
            + ", which is not a card's: a card's stream is card-<id>"@,
        FaultView::NotAnAlias { .. } => "a "@ + kind + " event is on stream "@ + stream
            + ", which is not an alias's: an alias's stream is alias-<name>"@,
        FaultView::NotTheJournal { .. } => "a "@ + kind + " event is on stream "@ + stream
            + ", which is not the prune journal's: the journal's stream is prune"@,
        FaultView::BindsNothing { name } => "an alias_bound on alias-"@ + name
            + " carries no meta.card_id, so it binds the name to nothing"@,
    }
}

/// The kind and the stream a fault shows; empty where it shows none.
pub open spec fn fault_shows(fault: FaultView) -> (Seq<char>, Seq<char>) {
    match fault {
        FaultView::UnknownKind { kind, .. } => (kind, seq![]),
        FaultView::NotACard { kind, stream } => (kind, stream),
        FaultView::NotAnAlias { kind, stream } => (kind, stream),
        FaultView::NotTheJournal { kind, stream } => (kind, stream),
        FaultView::BindsNothing { .. } => (seq![], seq![]),
    }
}

/// What a fault says.
pub open spec fn fault_text(fault: FaultView) -> Seq<char> {
    let (kind, stream) = fault_shows(fault);
    fault_said(fault, debug_text(kind), debug_text(stream))
}

impl FoldFault {
    /// What the fault says.
    pub fn message(&self) -> (r: String)
        ensures
            r@ == fault_text(self@),
            ({
                let (kind, stream) = fault_shows(self@);
                plain(kind) && plain(stream) ==> r@ == fault_said(
                    self@,
                    in_quotes(kind),
                    in_quotes(stream),
                )
            }),
    {
        match self {
            FoldFault::UnknownKind { projection, kind } => {
                let mut out = joined("the ", projection.as_str());
                out.append(" projection was handed a ");
                out.append(debug_quoted(kind.as_str()).as_str());
                out.append(" event, which is not one of the kinds it asked for (");
                out.append(KIND_LIST);
                out.append(")");
                out
            },
            FoldFault::NotACard { kind, stream } => {
                let mut out = joined("a ", debug_quoted(kind.as_str()).as_str());
                out.append(" event is on stream ");
                out.append(debug_quoted(stream.as_str()).as_str());
                out.append(", which is not a card's: a card's stream is card-<id>");
                out
            },
            FoldFault::NotAnAlias { kind, stream } => {
                let mut out = joined("a ", debug_quoted(kind.as_str()).as_str());
                out.append(" event is on stream ");
                out.append(debug_quoted(stream.as_str()).as_str());
                out.append(", which is not an alias's: an alias's stream is alias-<name>");
                out
            },
            FoldFault::NotTheJournal { kind, stream } => {
                let mut out = joined("a ", debug_quoted(kind.as_str()).as_str());
                out.append(" event is on stream ");
                out.append(debug_quoted(stream.as_str()).as_str());
                out.append(", which is not the prune journal's: the journal's stream is prune");
                out
            },
            FoldFault::BindsNothing { name } => {
                let mut out = joined("an alias_bound on alias-", name.as_str());
                out.append(" carries no meta.card_id, so it binds the name to nothing");
                out
            },
        }
    }
}

// ------------------------------------------------------------------ what one event is

/// An event, cut into what the fold reads of it.
pub struct Facts {
    pub seq: int,
    pub position: int,
    pub epoch_ms: int,
    pub meta: Option<Tree>,
    pub data: Option<Tree>,
}

/// What the fold reads of an event at `position`.
pub open spec fn facts_of(position: u64, event: Fields) -> Facts {
    Facts {
        seq: wrapped(
            match field_of(event, "seq"@).as_u64() {
                Some(n) => n,
                None => 0,
            },
        ),
        position: wrapped(position),
        epoch_ms: match num_of(lookup(event, "epoch_ms"@)) {
            Some(n) => n,
            None => 0,
        },
        meta: lookup(event, "meta"@),
        data: lookup(event, "data"@),
    }
}

/// The texts among `items`, in order.
pub open spec fn texts_among(items: Seq<Tree>) -> Seq<Seq<char>>
    decreases items.len(),
{
    if items.len() == 0 {
        seq![]
    } else {
        let front = texts_among(items.drop_last());
        match items.last().as_str() {
            Some(s) => front.push(s),
            None => front,
        }
    }
}

/// The texts of the list under `key`: none where that is not an array.
pub open spec fn texts_under(data: Option<Tree>, key: Seq<char>) -> Seq<Seq<char>> {
    match member(data, key) {
        Some(Tree::Array(items)) => texts_among(items),
        _ => seq![],
    }
}

/// The parents a card names.
pub open spec fn parents_of(data: Option<Tree>) -> Seq<Seq<char>> {
    texts_under(data, "parents"@)
}

/// The cards an entry of the prune journal names.
pub open spec fn cards_named(data: Option<Tree>) -> Seq<Seq<char>> {
    texts_under(data, "cards"@)
}

/// The row a card starts as.
pub open spec fn open_card(id: Seq<char>, f: Facts) -> OpView {
    OpView {
        statement: Statement::OpenCard,
        params: seq![
            Cell::Text(id),
            text_cell(text_of(f.meta, "pkg"@)),
            text_cell(text_of(f.meta, "scenario"@)),
            text_cell(text_of(f.meta, "source"@)),
            text_cell(text_of(f.meta, "created_by"@)),
            text_cell(text_of(f.data, "note"@)),
            Cell::Integer(f.epoch_ms),
            Cell::Integer(f.position),
            text_cell(text_of(f.meta, "model"@)),
            text_cell(text_of(f.meta, "trace_id"@)),
            text_cell(text_of(f.meta, "work_url"@)),
            text_cell(text_of(f.meta, "fingerprint"@)),
            json_cell(member(f.data, "params"@)),
        ],
    }
}

/// One line of a card's descent.
pub open spec fn add_parent(id: Seq<char>, parent: Seq<char>) -> OpView {
    OpView { statement: Statement::AddParent, params: seq![Cell::Text(id), Cell::Text(parent)] }
}

/// What an opening writes: the card's row, and a line for each parent.
pub open spec fn opened_ops(id: Seq<char>, f: Facts) -> Seq<OpView> {
    seq![open_card(id, f)] + Seq::new(
        parents_of(f.data).len(),
        |i: int| add_parent(id, parents_of(f.data)[i]),
    )
}

/// What a pointer at a blob writes, where there is one.
pub open spec fn blob_ops(data: Option<Tree>) -> Seq<OpView> {
    match text_of(data, "blob"@) {
        Some(hash) => seq![
            OpView {
                statement: Statement::ReferBlob,
                params: seq![Cell::Text(hash), int_cell(num_of(member(data, "size"@)))],
            },
        ],
        None => seq![],
    }
}

/// The text of a value that may be absent, as a cell.
pub open spec fn json_cell(value: Option<Tree>) -> Cell {
    match value {
        Some(v) => Cell::Text(json_text(v)),
        None => Cell::Null,
    }
}

/// What a batch of samples writes.
pub open spec fn samples_ops(id: Seq<char>, f: Facts) -> Seq<OpView> {
    let n = num_of(member(f.data, "n"@));
    seq![
        OpView {
            statement: Statement::AddSamples,
            params: seq![
                Cell::Text(id),
                Cell::Integer(f.seq),
                int_cell(n),
                json_cell(member(f.data, "rows"@)),
                text_cell(text_of(f.data, "blob"@)),
                int_cell(num_of(member(f.data, "size"@))),
                Cell::Integer(f.epoch_ms),
            ],
        },
        OpView {
            statement: Statement::CountSamples,
            params: seq![
                Cell::Text(id),
                Cell::Integer(
                    match n {
                        Some(n) => n,
                        None => 0,
                    },
                ),
            ],
        },
    ] + blob_ops(f.data)
}

/// What an evaluation writes.
pub open spec fn eval_ops(id: Seq<char>, f: Facts) -> Seq<OpView> {
    seq![
        OpView {
            statement: Statement::AddEval,
            params: seq![
                Cell::Text(id),
                Cell::Integer(f.seq),
                text_cell(text_of(f.meta, "source"@)),
                json_cell(f.data),
                Cell::Integer(f.epoch_ms),
            ],
        },
        OpView { statement: Statement::CountEval, params: seq![Cell::Text(id)] },
    ]
}

/// What a checkpoint writes.
pub open spec fn checkpoint_ops(id: Seq<char>, f: Facts) -> Seq<OpView> {
    seq![
        OpView {
            statement: Statement::AddCheckpoint,
            params: seq![
                Cell::Text(id),
                Cell::Integer(f.seq),
                text_cell(text_of(f.data, "blob"@)),
                int_cell(num_of(member(f.data, "size"@))),
                text_cell(text_of(f.data, "format"@)),
                text_cell(text_of(f.data, "note"@)),
                Cell::Integer(f.epoch_ms),
            ],
        },
        OpView { statement: Statement::CountCheckpoint, params: seq![Cell::Text(id)] },
    ] + blob_ops(f.data)
}

/// The state a close leaves a card in: `closed_ok` where its outcome is `ok`.
pub open spec fn closing_state(meta: Option<Tree>) -> Seq<char> {
    if text_of(meta, "outcome"@) == Some("ok"@) {
        "closed_ok"@
    } else {
        "closed_failed"@
    }
}

/// What a close writes: the state, the JSON as written, and the handful of numbers flattened
/// out of it.
pub open spec fn closed_ops(id: Seq<char>, f: Facts) -> Seq<OpView> {
    let stats = member(f.data, "stats"@);
    let cost = member(f.data, "cost"@);
    seq![
        OpView {
            statement: Statement::CloseCard,
            params: seq![
                Cell::Text(id),
                Cell::Text(closing_state(f.meta)),
                Cell::Integer(f.epoch_ms),
                text_cell(text_of(f.data, "error"@)),
                json_cell(stats),
                json_cell(cost),
                real_cell(real_of(member(stats, "mean_score"@))),
                int_cell(num_of(member(stats, "n"@))),
                real_cell(real_of(member(stats, "pass_rate"@))),
                int_cell(num_of(member(stats, "passed"@))),
                int_cell(num_of(member(cost, "elapsed_ms"@))),
                int_cell(num_of(member(cost, "llm_calls"@))),
            ],
        },
    ]
}

/// One line of an alias's history.
pub open spec fn log_alias(name: Seq<char>, kind: Seq<char>, f: Facts) -> OpView {
    OpView {
        statement: Statement::LogAlias,
        params: seq![
            Cell::Text(name),
            Cell::Integer(f.seq),
            Cell::Text(kind),
            text_cell(text_of(f.meta, "card_id"@)),
            Cell::Integer(f.epoch_ms),
            text_cell(text_of(f.data, "note"@)),
        ],
    }
}

/// What a bind writes: a line of history, and the binding. A bind to nothing is a fault.
pub open spec fn bound_ops(name: Seq<char>, f: Facts) -> Result<Seq<OpView>, FaultView> {
    match text_of(f.meta, "card_id"@) {
        Some(card_id) => Ok(
            seq![
                log_alias(name, "alias_bound"@, f),
                OpView {
                    statement: Statement::BindAlias,
                    params: seq![
                        Cell::Text(name),
                        Cell::Text(card_id),
                        text_cell(text_of(f.meta, "pkg"@)),
                        Cell::Integer(f.epoch_ms),
                        text_cell(text_of(f.data, "note"@)),
                    ],
                },
            ],
        ),
        None => Err(FaultView::BindsNothing { name }),
    }
}

/// What a release writes: a line of history, and no binding any more.
pub open spec fn released_ops(name: Seq<char>, f: Facts) -> Seq<OpView> {
    seq![
        log_alias(name, "alias_released"@, f),
        OpView { statement: Statement::ReleaseAlias, params: seq![Cell::Text(name)] },
    ]
}

/// What a tag writes: its value, where the event says which tag and which value.
pub open spec fn tag_set_ops(id: Seq<char>, f: Facts) -> Seq<OpView> {
    match (text_of(f.meta, "key"@), text_of(f.meta, "value"@)) {
        (Some(key), Some(value)) => seq![
            OpView {
                statement: Statement::SetTag,
                params: seq![Cell::Text(id), Cell::Text(key), Cell::Text(value)],
            },
        ],
        _ => seq![],
    }
}

/// What taking a tag off writes, where the event says which tag.
pub open spec fn tag_unset_ops(id: Seq<char>, f: Facts) -> Seq<OpView> {
    match text_of(f.meta, "key"@) {
        Some(key) => seq![
            OpView {
                statement: Statement::UnsetTag,
                params: seq![Cell::Text(id), Cell::Text(key)],
            },
        ],
        None => seq![],
    }
}

/// One statement about one card.
pub open spec fn of_card(statement: Statement, id: Seq<char>) -> OpView {
    OpView { statement, params: seq![Cell::Text(id)] }
}

/// What the journal's removal of one card writes: the pointers of its rows are given back, and
/// then the rows go.
pub open spec fn prune_card_ops(id: Seq<char>) -> Seq<OpView> {
    seq![
        of_card(Statement::GiveBackBlobs, id),
        of_card(Statement::DropCard, id),
        of_card(Statement::DropSamples, id),
        of_card(Statement::DropEvals, id),
        of_card(Statement::DropCheckpoints, id),
        of_card(Statement::DropTags, id),
        of_card(Statement::DropLineage, id),
    ]
}

/// What an entry of the prune journal writes: the removal of each card it names, in turn.
pub open spec fn pruned_ops(ids: Seq<Seq<char>>) -> Seq<OpView>
    decreases ids.len(),
{
    if ids.len() == 0 {
        seq![]
    } else {
        pruned_ops(ids.drop_last()) + prune_card_ops(ids.last())
    }
}

/// A card's kind.
pub open spec fn card_kind(kind: Seq<char>) -> bool {
    kind == "card_opened"@ || kind == "samples_appended"@ || kind == "eval_recorded"@ || kind
        == "checkpoint_saved"@ || kind == "card_closed"@ || kind == "tag_set"@ || kind
        == "tag_unset"@
}

/// The prune journal's kind.
pub open spec fn prune_kind(kind: Seq<char>) -> bool {
    kind == "cards_pruned"@
}

/// An alias's kind.
pub open spec fn alias_kind(kind: Seq<char>) -> bool {
    kind == "alias_bound"@ || kind == "alias_released"@
}

/// What an event of a card's kind writes.
pub open spec fn card_ops(kind: Seq<char>, id: Seq<char>, f: Facts) -> Seq<OpView> {
    if kind == "card_opened"@ {
        opened_ops(id, f)
    } else if kind == "samples_appended"@ {
        samples_ops(id, f)
    } else if kind == "eval_recorded"@ {
        eval_ops(id, f)
    } else if kind == "checkpoint_saved"@ {
        checkpoint_ops(id, f)
    } else if kind == "card_closed"@ {
        closed_ops(id, f)
    } else if kind == "tag_set"@ {
        tag_set_ops(id, f)
    } else {
        tag_unset_ops(id, f)
    }
}

/// What an event of an alias's kind writes.
pub open spec fn alias_ops(kind: Seq<char>, name: Seq<char>, f: Facts) -> Result<
    Seq<OpView>,
    FaultView,
> {
    if kind == "alias_bound"@ {
        bound_ops(name, f)
    } else {
        Ok(released_ops(name, f))
    }
}

/// What one event writes, or why it cannot be folded.
///
/// The kind picks the prefix the stream has to carry, and the identity is the stream's: a
/// card's id and an alias's name come from there and never from `meta`. The prune journal is
/// one stream, and the cards it names are in its data.
pub open spec fn folded(projection: Seq<char>, e: Placed) -> Result<Seq<OpView>, FaultView> {
    let stream = e.stream;
    let kind = kind_of(e.event);
    let f = facts_of(e.position, e.event);
    if card_kind(kind) {
        match behind(stream, STREAM_PREFIX@) {
            Some(id) => Ok(card_ops(kind, id, f)),
            None => Err(FaultView::NotACard { kind, stream }),
        }
    } else if alias_kind(kind) {
        match behind(stream, ALIAS_PREFIX@) {
            Some(name) => alias_ops(kind, name, f),
            None => Err(FaultView::NotAnAlias { kind, stream }),
        }
    } else if prune_kind(kind) {
        if stream == PRUNE_STREAM@ {
            Ok(pruned_ops(cards_named(f.data)))
        } else {
            Err(FaultView::NotTheJournal { kind, stream })
        }
    } else {
        Err(FaultView::UnknownKind { projection, kind })
    }
}

/// The kinds are different kinds.
pub proof fn lemma_kinds_differ()
    ensures
        all_kinds().no_duplicates(),
        "card_opened"@ != "samples_appended"@,
        "card_opened"@ != "eval_recorded"@,
        "card_opened"@ != "checkpoint_saved"@,
        "card_opened"@ != "card_closed"@,
        "card_opened"@ != "alias_bound"@,
        "card_opened"@ != "alias_released"@,
        "card_opened"@ != "cards_pruned"@,
        "card_opened"@ != "tag_set"@,
        "card_opened"@ != "tag_unset"@,
        "samples_appended"@ != "eval_recorded"@,
        "samples_appended"@ != "checkpoint_saved"@,
        "samples_appended"@ != "card_closed"@,
        "samples_appended"@ != "alias_bound"@,
        "samples_appended"@ != "alias_released"@,
        "samples_appended"@ != "cards_pruned"@,
        "samples_appended"@ != "tag_set"@,
        "samples_appended"@ != "tag_unset"@,
        "eval_recorded"@ != "checkpoint_saved"@,
        "eval_recorded"@ != "card_closed"@,
        "eval_recorded"@ != "alias_bound"@,
        "eval_recorded"@ != "alias_released"@,
        "eval_recorded"@ != "cards_pruned"@,
        "eval_recorded"@ != "tag_set"@,
        "eval_recorded"@ != "tag_unset"@,
        "checkpoint_saved"@ != "card_closed"@,
        "checkpoint_saved"@ != "alias_bound"@,
        "checkpoint_saved"@ != "alias_released"@,
        "checkpoint_saved"@ != "cards_pruned"@,
        "checkpoint_saved"@ != "tag_set"@,
        "checkpoint_saved"@ != "tag_unset"@,
        "card_closed"@ != "alias_bound"@,
        "card_closed"@ != "alias_released"@,
        "card_closed"@ != "cards_pruned"@,
        "card_closed"@ != "tag_set"@,
        "card_closed"@ != "tag_unset"@,
        "alias_bound"@ != "alias_released"@,
        "alias_bound"@ != "cards_pruned"@,
        "alias_bound"@ != "tag_set"@,
        "alias_bound"@ != "tag_unset"@,
        "alias_released"@ != "cards_pruned"@,
        "alias_released"@ != "tag_set"@,
        "alias_released"@ != "tag_unset"@,
        "cards_pruned"@ != "tag_set"@,
        "cards_pruned"@ != "tag_unset"@,
        "tag_set"@ != "tag_unset"@,
{
    reveal_strlit("card_opened");
    reveal_strlit("samples_appended");
    reveal_strlit("eval_recorded");
    reveal_strlit("checkpoint_saved");
    reveal_strlit("card_closed");
    reveal_strlit("alias_bound");
    reveal_strlit("alias_released");
    reveal_strlit("cards_pruned");
    reveal_strlit("tag_set");
    reveal_strlit("tag_unset");
    assert("card_opened"@.len() != "samples_appended"@.len());
    assert("card_opened"@.len() != "eval_recorded"@.len());
    assert("card_opened"@.len() != "checkpoint_saved"@.len());
    assert("card_opened"@[5] != "card_closed"@[5]);
    assert("card_opened"@[0] != "alias_bound"@[0]);
    assert("card_opened"@.len() != "alias_released"@.len());
    assert("card_opened"@.len() != "cards_pruned"@.len());
    assert("card_opened"@.len() != "tag_set"@.len());
    assert("card_opened"@.len() != "tag_unset"@.len());
    assert("samples_appended"@.len() != "eval_recorded"@.len());
    assert("samples_appended"@[0] != "checkpoint_saved"@[0]);
    assert("samples_appended"@.len() != "card_closed"@.len());
    assert("samples_appended"@.len() != "alias_bound"@.len());
    assert("samples_appended"@.len() != "alias_released"@.len());
    assert("samples_appended"@.len() != "cards_pruned"@.len());
    assert("samples_appended"@.len() != "tag_set"@.len());
    assert("samples_appended"@.len() != "tag_unset"@.len());
    assert("eval_recorded"@.len() != "checkpoint_saved"@.len());
    assert("eval_recorded"@.len() != "card_closed"@.len());
    assert("eval_recorded"@.len() != "alias_bound"@.len());
    assert("eval_recorded"@.len() != "alias_released"@.len());
    assert("eval_recorded"@.len() != "cards_pruned"@.len());
    assert("eval_recorded"@.len() != "tag_set"@.len());
    assert("eval_recorded"@.len() != "tag_unset"@.len());
    assert("checkpoint_saved"@.len() != "card_closed"@.len());
    assert("checkpoint_saved"@.len() != "alias_bound"@.len());
    assert("checkpoint_saved"@.len() != "alias_released"@.len());
    assert("checkpoint_saved"@.len() != "cards_pruned"@.len());
    assert("checkpoint_saved"@.len() != "tag_set"@.len());
    assert("checkpoint_saved"@.len() != "tag_unset"@.len());
    assert("card_closed"@[0] != "alias_bound"@[0]);
    assert("card_closed"@.len() != "alias_released"@.len());
    assert("card_closed"@.len() != "cards_pruned"@.len());
    assert("card_closed"@.len() != "tag_set"@.len());
    assert("card_closed"@.len() != "tag_unset"@.len());
    assert("alias_bound"@.len() != "alias_released"@.len());
    assert("alias_bound"@.len() != "cards_pruned"@.len());
    assert("alias_bound"@.len() != "tag_set"@.len());
    assert("alias_bound"@.len() != "tag_unset"@.len());
    assert("alias_released"@.len() != "cards_pruned"@.len());
    assert("alias_released"@.len() != "tag_set"@.len());
    assert("alias_released"@.len() != "tag_unset"@.len());
    assert("cards_pruned"@.len() != "tag_set"@.len());
    assert("cards_pruned"@.len() != "tag_unset"@.len());
    assert("tag_set"@.len() != "tag_unset"@.len());
}

// ------------------------------------------------------------------ the fold

/// What the fold reads of an event.
pub struct Read<'a> {
    pub seq: i64,
    pub position: i64,
    pub epoch_ms: i64,
    pub meta: Option<&'a Json>,
    pub data: Option<&'a Json>,
}

impl<'a> View for Read<'a> {
    type V = Facts;

    open spec fn view(&self) -> Facts {
        Facts {
            seq: self.seq as int,
            position: self.position as int,
            epoch_ms: self.epoch_ms as int,
            meta: tree_of(self.meta),
            data: tree_of(self.data),
        }
    }
}

fn op(statement: Statement, params: Vec<SqlValue>) -> (r: Op)
    ensures
        r@ == (OpView { statement, params: cells(params@) }),
{
    Op { statement, params }
}

fn text_value(s: &str) -> (r: SqlValue)
    ensures
        r@ == Cell::Text(s@),
{
    SqlValue::Text(s.to_owned())
}

fn json_value(value: Option<&Json>) -> (r: SqlValue)
    ensures
        r@ == json_cell(tree_of(value)),
{
    match value {
        Some(v) => SqlValue::Text(json_encode(v)),
        None => SqlValue::Null,
    }
}

/// The texts of the list under `key`.
///
/// A list is an array when a run named something and an empty *object* when it named nothing,
/// so what is not an array is the same answer as an empty list.
fn texts(data: Option<&Json>, key: &str) -> (r: Vec<String>)
    ensures
        r@.len() == texts_under(tree_of(data), key@).len(),
        forall|i: int|
            0 <= i < r@.len() ==> (#[trigger] r@[i])@ == texts_under(tree_of(data), key@)[i],
{
    let mut out: Vec<String> = Vec::new();
    match member_of(data, key) {
        Some(Json::Array(items)) => {
            let ghost all = member(tree_of(data), key@)->0->Array_0;
            let mut i: usize = 0;
            proof {
                reveal_with_fuel(<Json as View>::view, 2);
            }
            while i < items.len()
                invariant
                    i <= items@.len(),
                    all.len() == items@.len(),
                    forall|j: int| 0 <= j < items@.len() ==> all[j] == #[trigger] items@[j]@,
                    out@.len() == texts_among(all.take(i as int)).len(),
                    forall|j: int|
                        0 <= j < out@.len() ==> (#[trigger] out@[j])@ == texts_among(
                            all.take(i as int),
                        )[j],
                decreases items@.len() - i,
            {
                assert(all.take(i + 1).drop_last() =~= all.take(i as int));
                assert(all.take(i + 1).last() == items@[i as int]@);
                match items[i].as_str() {
                    Some(s) => {
                        out.push(s.to_owned());
                    },
                    None => {},
                }
                i += 1;
            }
            assert(all.take(items@.len() as int) =~= all);
            out
        },
        _ => out,
    }
}

/// The row a card starts as.
///
/// A stream carries one `card_opened` because `unwritten` is the decision it is written
/// under. If a second is there anyway, the first open stays the card's opening: the
/// alternative is an error that would refuse every later read of the whole model, the rebuild
/// that would be the way out of it among them.
pub fn opened(id: &str, read: &Read) -> (r: Vec<Op>)
    ensures
        ops_view(r@) == opened_ops(id@, read@),
{
    let mut ops: Vec<Op> = Vec::new();
    let first = op(
        Statement::OpenCard,
        vec![
            text_value(id),
            text_param(text(read.meta, "pkg")),
            text_param(text(read.meta, "scenario")),
            text_param(text(read.meta, "source")),
            text_param(text(read.meta, "created_by")),
            text_param(text(read.data, "note")),
            SqlValue::Integer(read.epoch_ms),
            SqlValue::Integer(read.position),
            text_param(text(read.meta, "model")),
            text_param(text(read.meta, "trace_id")),
            text_param(text(read.meta, "work_url")),
            text_param(text(read.meta, "fingerprint")),
            json_value(member_of(read.data, "params")),
        ],
    );
    assert(first@ =~= open_card(id@, read@));
    ops.push(first);
    let named = texts(read.data, "parents");
    let mut i: usize = 0;
    while i < named.len()
        invariant
            i <= named@.len(),
            ops@.len() == i + 1,
            ops@[0]@ == open_card(id@, read@),
            forall|j: int| 0 <= j < i ==> (#[trigger] ops@[j + 1])@ == add_parent(id@, named@[j]@),
        decreases named@.len() - i,
    {
        let line = op(
            Statement::AddParent,
            vec![text_value(id), text_value(named[i].as_str())],
        );
        assert(line@ =~= add_parent(id@, named@[i as int]@));
        ops.push(line);
        i += 1;
    }
    assert forall|j: int| 0 <= j < ops@.len() implies #[trigger] ops_view(ops@)[j] == opened_ops(
        id@,
        read@,
    )[j] by {
        if j > 0 {
            assert(ops@[(j - 1) + 1]@ == add_parent(id@, named@[j - 1]@));
        }
    }
    assert(ops_view(ops@) =~= opened_ops(id@, read@));
    ops
}

/// One more thing points at these bytes: a blob whose count reaches 0 is the only one a
/// collection may remove.
fn reference_blob(ops: &mut Vec<Op>, hash: String, size: Option<i64>)
    ensures
        ops_view(final(ops)@) == ops_view(old(ops)@).push(
            OpView {
                statement: Statement::ReferBlob,
                params: seq![
                    Cell::Text(hash@),
                    match size {
                        Some(n) => Cell::Integer(n as int),
                        None => Cell::Null,
                    },
                ],
            },
        ),
{
    let ghost before = ops_view(ops@);
    let line = op(Statement::ReferBlob, vec![SqlValue::Text(hash), int_param(size)]);
    ops.push(line);
    assert(ops_view(ops@) =~~= before.push(line@));
    assert(line@.params =~= seq![
        Cell::Text(hash@),
        match size {
            Some(n) => Cell::Integer(n as int),
            None => Cell::Null,
        },
    ]);
}

/// One batch of samples.
pub fn samples(id: &str, read: &Read) -> (r: Vec<Op>)
    ensures
        ops_view(r@) == samples_ops(id@, read@),
{
    let n: Option<i64> = num(member_of(read.data, "n"));
    let blob = text(read.data, "blob");
    let size: Option<i64> = num(member_of(read.data, "size"));
    let count: i64 = match n {
        Some(n) => n,
        None => 0,
    };
    let mut ops: Vec<Op> = vec![
        op(
            Statement::AddSamples,
            vec![
                text_value(id),
                SqlValue::Integer(read.seq),
                int_param(n),
                json_value(member_of(read.data, "rows")),
                text_param(text(read.data, "blob")),
                int_param(size),
                SqlValue::Integer(read.epoch_ms),
            ],
        ),
        op(Statement::CountSamples, vec![text_value(id), SqlValue::Integer(count)]),
    ];
    let ghost rows = ops_view(ops@);
    assert(rows =~~= samples_ops(id@, read@).take(2));
    assert(samples_ops(id@, read@) =~= rows + blob_ops(read@.data));
    match blob {
        Some(hash) => {
            reference_blob(&mut ops, hash, size);
        },
        None => {},
    }
    assert(ops_view(ops@) =~~= rows + blob_ops(read@.data));
    ops
}

/// One evaluation, and who made it.
pub fn eval(id: &str, read: &Read) -> (r: Vec<Op>)
    ensures
        ops_view(r@) == eval_ops(id@, read@),
{
    let ops: Vec<Op> = vec![
        op(
            Statement::AddEval,
            vec![
                text_value(id),
                SqlValue::Integer(read.seq),
                text_param(text(read.meta, "source")),
                json_value(read.data),
                SqlValue::Integer(read.epoch_ms),
            ],
        ),
        op(Statement::CountEval, vec![text_value(id)]),
    ];
    assert(ops_view(ops@) =~~= eval_ops(id@, read@));
    ops
}

/// One checkpoint.
pub fn checkpoint(id: &str, read: &Read) -> (r: Vec<Op>)
    ensures
        ops_view(r@) == checkpoint_ops(id@, read@),
{
    let blob = text(read.data, "blob");
    let size: Option<i64> = num(member_of(read.data, "size"));
    let mut ops: Vec<Op> = vec![
        op(
            Statement::AddCheckpoint,
            vec![
                text_value(id),
                SqlValue::Integer(read.seq),
                text_param(text(read.data, "blob")),
                int_param(size),
                text_param(text(read.data, "format")),
                text_param(text(read.data, "note")),
                SqlValue::Integer(read.epoch_ms),
            ],
        ),
        op(Statement::CountCheckpoint, vec![text_value(id)]),
    ];
    let ghost rows = ops_view(ops@);
    assert(rows =~~= checkpoint_ops(id@, read@).take(2));
    assert(checkpoint_ops(id@, read@) =~= rows + blob_ops(read@.data));
    match blob {
        Some(hash) => {
            reference_blob(&mut ops, hash, size);
        },
        None => {},
    }
    assert(ops_view(ops@) =~~= rows + blob_ops(read@.data));
    ops
}

/// How a card ends: the state, the JSON as written, and the handful of numbers flattened out
/// of it so a filter can compare them.
pub fn closed(id: &str, read: &Read) -> (r: Vec<Op>)
    ensures
        ops_view(r@) == closed_ops(id@, read@),
{
    let state = match text(read.meta, "outcome") {
        Some(outcome) => if same(outcome.as_str(), "ok") {
            "closed_ok"
        } else {
            "closed_failed"
        },
        None => "closed_failed",
    };
    let stats = member_of(read.data, "stats");
    let cost = member_of(read.data, "cost");
    let ops: Vec<Op> = vec![
        op(
            Statement::CloseCard,
            vec![
                text_value(id),
                text_value(state),
                SqlValue::Integer(read.epoch_ms),
                text_param(text(read.data, "error")),
                json_value(stats),
                json_value(cost),
                real_param(real_number(member_of(stats, "mean_score"))),
                int_param(num(member_of(stats, "n"))),
                real_param(real_number(member_of(stats, "pass_rate"))),
                int_param(num(member_of(stats, "passed"))),
                int_param(num(member_of(cost, "elapsed_ms"))),
                int_param(num(member_of(cost, "llm_calls"))),
            ],
        ),
    ];
    assert(ops_view(ops@) =~~= closed_ops(id@, read@));
    ops
}

/// One line of an alias's history, keyed by the seq it has on its own stream.
fn alias_logged(name: &str, kind: &str, read: &Read) -> (r: Op)
    ensures
        r@ == log_alias(name@, kind@, read@),
{
    let line = op(
        Statement::LogAlias,
        vec![
            text_value(name),
            SqlValue::Integer(read.seq),
            text_value(kind),
            text_param(text(read.meta, "card_id")),
            SqlValue::Integer(read.epoch_ms),
            text_param(text(read.data, "note")),
        ],
    );
    assert(line@ =~~= log_alias(name@, kind@, read@));
    line
}

/// An alias now points here.
///
/// The current binding is one row that the rebind overwrites, because "what does this name
/// mean" has one answer. What the overwrite would lose goes to the history first, which keeps
/// every one of them. A bind with no `card_id` is a binding to nothing; one arriving here is
/// reported rather than filed as a row pointing nowhere.
pub fn bound(name: &str, read: &Read) -> (r: Result<Vec<Op>, FoldFault>)
    ensures
        match r {
            Ok(ops) => bound_ops(name@, read@) == Ok::<Seq<OpView>, FaultView>(ops_view(ops@)),
            Err(fault) => bound_ops(name@, read@) == Err::<Seq<OpView>, FaultView>(fault@),
        },
{
    match text(read.meta, "card_id") {
        Some(card_id) => {
            let ops: Vec<Op> = vec![
                alias_logged(name, "alias_bound", read),
                op(
                    Statement::BindAlias,
                    vec![
                        text_value(name),
                        SqlValue::Text(card_id),
                        text_param(text(read.meta, "pkg")),
                        SqlValue::Integer(read.epoch_ms),
                        text_param(text(read.data, "note")),
                    ],
                ),
            ];
            assert(ops_view(ops@) =~~= bound_ops(name@, read@)->Ok_0);
            Ok(ops)
        },
        None => Err(FoldFault::BindsNothing { name: name.to_owned() }),
    }
}

/// The name points at nothing again. The row goes; the history does not.
pub fn released(name: &str, read: &Read) -> (r: Vec<Op>)
    ensures
        ops_view(r@) == released_ops(name@, read@),
{
    let ops: Vec<Op> = vec![
        alias_logged(name, "alias_released", read),
        op(Statement::ReleaseAlias, vec![text_value(name)]),
    ];
    assert(ops_view(ops@) =~~= released_ops(name@, read@));
    ops
}

/// A tag now has this value.
pub fn tag_set(id: &str, read: &Read) -> (r: Vec<Op>)
    ensures
        ops_view(r@) == tag_set_ops(id@, read@),
{
    let mut ops: Vec<Op> = Vec::new();
    match (text(read.meta, "key"), text(read.meta, "value")) {
        (Some(key), Some(value)) => {
            ops.push(
                op(
                    Statement::SetTag,
                    vec![text_value(id), SqlValue::Text(key), SqlValue::Text(value)],
                ),
            );
        },
        _ => {},
    }
    assert(ops_view(ops@) =~~= tag_set_ops(id@, read@));
    ops
}

/// A tag is taken off.
pub fn tag_unset(id: &str, read: &Read) -> (r: Vec<Op>)
    ensures
        ops_view(r@) == tag_unset_ops(id@, read@),
{
    let mut ops: Vec<Op> = Vec::new();
    match text(read.meta, "key") {
        Some(key) => {
            ops.push(op(Statement::UnsetTag, vec![text_value(id), SqlValue::Text(key)]));
        },
        None => {},
    }
    assert(ops_view(ops@) =~~= tag_unset_ops(id@, read@));
    ops
}

fn about(statement: Statement, id: &str) -> (r: Op)
    ensures
        r@ == of_card(statement, id@),
{
    let r = op(statement, vec![text_value(id)]);
    assert(r@ =~~= of_card(statement, id@));
    r
}

/// The cards the journal says were removed go out of the read models, and what their rows
/// pointed at is given back.
///
/// The rows are what is counted, so an entry that is folded again over a log its cards are no
/// longer in gives nothing back a second time.
pub fn pruned(read: &Read) -> (r: Vec<Op>)
    ensures
        ops_view(r@) == pruned_ops(cards_named(read@.data)),
{
    let ids = texts(read.data, "cards");
    let ghost named = cards_named(read@.data);
    let mut ops: Vec<Op> = Vec::new();
    let mut i: usize = 0;
    assert(ops_view(ops@) =~= pruned_ops(named.take(0)));
    while i < ids.len()
        invariant
            i <= ids@.len(),
            named.len() == ids@.len(),
            forall|j: int| 0 <= j < ids@.len() ==> (#[trigger] ids@[j])@ == named[j],
            ops_view(ops@) == pruned_ops(named.take(i as int)),
        decreases ids@.len() - i,
    {
        let ghost before = ops_view(ops@);
        let id = ids[i].as_str();
        ops.push(about(Statement::GiveBackBlobs, id));
        ops.push(about(Statement::DropCard, id));
        ops.push(about(Statement::DropSamples, id));
        ops.push(about(Statement::DropEvals, id));
        ops.push(about(Statement::DropCheckpoints, id));
        ops.push(about(Statement::DropTags, id));
        ops.push(about(Statement::DropLineage, id));
        proof {
            assert(ops_view(ops@) =~= before + prune_card_ops(id@));
            assert(named.take(i + 1).drop_last() =~= named.take(i as int));
            assert(named.take(i + 1).last() == id@);
        }
        i += 1;
    }
    assert(named.take(ids@.len() as int) =~= named);
    ops
}

/// `card-<id>` → `<id>`.
fn card_id(stream: &str, kind: &str) -> (r: Result<String, FoldFault>)
    ensures
        match r {
            Ok(id) => behind(stream@, STREAM_PREFIX@) == Some(id@),
            Err(fault) => behind(stream@, STREAM_PREFIX@) is None && fault@ == (
            FaultView::NotACard { kind: kind@, stream: stream@ }),
        },
{
    match strip_prefix(stream, STREAM_PREFIX) {
        Some(id) => Ok(id),
        None => Err(FoldFault::NotACard { kind: kind.to_owned(), stream: stream.to_owned() }),
    }
}

/// `alias-<name>` → `<name>`.
fn alias_name(stream: &str, kind: &str) -> (r: Result<String, FoldFault>)
    ensures
        match r {
            Ok(name) => behind(stream@, ALIAS_PREFIX@) == Some(name@),
            Err(fault) => behind(stream@, ALIAS_PREFIX@) is None && fault@ == (
            FaultView::NotAnAlias { kind: kind@, stream: stream@ }),
        },
{
    match strip_prefix(stream, ALIAS_PREFIX) {
        Some(name) => Ok(name),
        None => Err(FoldFault::NotAnAlias { kind: kind.to_owned(), stream: stream.to_owned() }),
    }
}

fn is_card_kind(kind: &str) -> (r: bool)
    ensures
        r == card_kind(kind@),
{
    same(kind, "card_opened") || same(kind, "samples_appended") || same(kind, "eval_recorded")
        || same(kind, "checkpoint_saved") || same(kind, "card_closed") || same(kind, "tag_set")
        || same(kind, "tag_unset")
}

impl CardsProjection {
    /// The consumer name, and so the identity of the cursor. See the module doc for what the
    /// `_v2` is for.
    pub const NAME: &'static str = "cards_v2";

    /// The projection this build folds under.
    pub fn new() -> (r: CardsProjection)
        ensures
            r@ == CardsProjection::NAME@,
    {
        CardsProjection { name: CardsProjection::NAME.to_owned() }
    }

    /// The same fold under some other cursor: what writes a database whose checkpoint is
    /// under a name this build has retired.
    pub fn under(name: &str) -> (r: CardsProjection)
        ensures
            r@ == name@,
    {
        CardsProjection { name: name.to_owned() }
    }

    /// The name of the cursor.
    pub fn name(&self) -> (r: &str)
        ensures
            r@ == self@,
    {
        self.name.as_str()
    }

    /// The kinds these streams carry. Naming them is not only a filter: it is what lets a
    /// runner read through an index instead of walking the whole log, and it is the reason
    /// [`CardsProjection::apply`] may treat an unknown kind as a bug.
    pub fn kinds(&self) -> (r: Option<Vec<String>>)
        ensures
            r is Some,
            r->0@.len() == all_kinds().len(),
            forall|i: int| 0 <= i < r->0@.len() ==> (#[trigger] r->0@[i])@ == all_kinds()[i],
    {
        Some(
            vec![
                "card_opened".to_owned(),
                "samples_appended".to_owned(),
                "eval_recorded".to_owned(),
                "checkpoint_saved".to_owned(),
                "card_closed".to_owned(),
                "alias_bound".to_owned(),
                "alias_released".to_owned(),
                "cards_pruned".to_owned(),
                "tag_set".to_owned(),
                "tag_unset".to_owned(),
            ],
        )
    }

    /// Whether the fold is still right where streams of pruned cards are gone from the log.
    ///
    /// It is: a pruned card's rows go with the journal's entry, which stays, so what is replayed
    /// without the card's own events comes to the same rows. See
    /// [`crate::pruning::law_a_rebuild_after_a_prune_reads_the_same`].
    pub fn tolerates_truncation(&self) -> (r: bool)
        ensures
            r,
    {
        true
    }

    /// One event, folded: the statements it is, in order, or why it cannot be folded.
    ///
    /// The card's id comes from the **stream name** rather than from `meta`: the stream is
    /// what the decisions fold over, so it is the identity the invariants are already stated
    /// in terms of. An event of one of these kinds on a stream that is not a card's is a bug
    /// in whatever wrote it, and is reported rather than skipped. So is an unknown kind.
    pub fn apply(&self, event: &Stored) -> (r: Result<Vec<Op>, FoldFault>)
        ensures
            match r {
                Ok(ops) => folded(self@, event@) == Ok::<Seq<OpView>, FaultView>(ops_view(ops@)),
                Err(fault) => folded(self@, event@) == Err::<Seq<OpView>, FaultView>(fault@),
            },
    {
        let kind = event_kind(&event.event);
        let stream = event.stream.as_str();
        let seq: u64 = match field(&event.event, "seq").as_u64() {
            Some(n) => n,
            None => 0,
        };
        let epoch_ms: i64 = match num(get(&event.event, "epoch_ms")) {
            Some(n) => n,
            None => 0,
        };
        let read = Read {
            seq: signed_word(seq),
            position: signed_word(event.position),
            epoch_ms,
            meta: get(&event.event, "meta"),
            data: get(&event.event, "data"),
        };
        assert(read@ == facts_of(event.position, fields_view(event.event@)));
        // Two stream shapes, so the kind picks the prefix before anything is stripped: asking
        // either name to yield the other's identity is how a fold would quietly file an alias
        // under a card.
        if is_card_kind(kind.as_str()) {
            match card_id(stream, kind.as_str()) {
                Ok(id) => if same(kind.as_str(), "card_opened") {
                    Ok(opened(id.as_str(), &read))
                } else if same(kind.as_str(), "samples_appended") {
                    Ok(samples(id.as_str(), &read))
                } else if same(kind.as_str(), "eval_recorded") {
                    Ok(eval(id.as_str(), &read))
                } else if same(kind.as_str(), "checkpoint_saved") {
                    Ok(checkpoint(id.as_str(), &read))
                } else if same(kind.as_str(), "card_closed") {
                    Ok(closed(id.as_str(), &read))
                } else if same(kind.as_str(), "tag_set") {
                    Ok(tag_set(id.as_str(), &read))
                } else {
                    Ok(tag_unset(id.as_str(), &read))
                },
                Err(fault) => Err(fault),
            }
        } else if same(kind.as_str(), "alias_bound") {
            match alias_name(stream, kind.as_str()) {
                Ok(name) => bound(name.as_str(), &read),
                Err(fault) => Err(fault),
            }
        } else if same(kind.as_str(), "alias_released") {
            match alias_name(stream, kind.as_str()) {
                Ok(name) => Ok(released(name.as_str(), &read)),
                Err(fault) => Err(fault),
            }
        } else if same(kind.as_str(), "cards_pruned") {
            if same(stream, PRUNE_STREAM) {
                Ok(pruned(&read))
            } else {
                Err(FoldFault::NotTheJournal { kind, stream: stream.to_owned() })
            }
        } else {
            Err(FoldFault::UnknownKind { projection: self.name.clone(), kind })
        }
    }
}

} // verus!
