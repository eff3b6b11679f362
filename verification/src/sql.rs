//! The tables, and the statements the fold writes them with.
use vstd::prelude::*;
use vstd::string::*;

use crate::json::{Number, NumberView};
use crate::text::same;

verus! {

/// The tables, and the indexes for the questions that are asked of them: which cards are in
/// this pkg, which are in this state, which are the newest, and who descends from this one.
///
/// `cb_aliases` is the *current* binding, one row per name, and `cb_alias_log` is every
/// binding there has been. The first is a fold that forgets — a rebind overwrites the row,
/// a release deletes it — and the second is the fold that does not, which is what makes
/// "what did this alias point at in March" a question with an answer. Neither is the
/// authority: `alias-<name>` in the log is, and both of these are replayed out of it.
///
/// `cb_cards` carries `stats` and `cost` twice — once as the JSON that was written, once
/// flattened into columns. The JSON is what is handed back unchanged, so a card reads the
/// same whatever a run chose to put in there; the columns are what a `WHERE mean_score >
/// 0.5` compares without `json_extract` on every row. A key the writer left out is NULL,
/// and NULL compares false, which is the answer a filter on a card that never recorded a
/// score should give. What a run was given, `params`, is there as its JSON, and the identity it
/// ran under is in columns: `model`, `trace_id`, `work_url`, and the `fingerprint` of the
/// params.
///
/// `cb_tags` is the *current* value of each tag of a card, which a later one overwrites. The
/// history is the card's stream.
pub const CREATE: &'static str = "\
CREATE TABLE IF NOT EXISTS cb_cards (
    id               TEXT PRIMARY KEY,
    pkg              TEXT,
    scenario         TEXT,
    source           TEXT,
    created_by       TEXT,
    note             TEXT,
    model            TEXT,
    trace_id         TEXT,
    work_url         TEXT,
    fingerprint      TEXT,
    params_json      TEXT,
    state            TEXT NOT NULL,
    opened_ms        INTEGER,
    closed_ms        INTEGER,
    opened_position  INTEGER,
    error            TEXT,
    stats_json       TEXT,
    cost_json        TEXT,
    mean_score       REAL,
    n                INTEGER,
    pass_rate        REAL,
    passed           INTEGER,
    elapsed_ms       INTEGER,
    llm_calls        INTEGER,
    sample_batches   INTEGER NOT NULL DEFAULT 0,
    sample_rows      INTEGER NOT NULL DEFAULT 0,
    eval_count       INTEGER NOT NULL DEFAULT 0,
    checkpoint_count INTEGER NOT NULL DEFAULT 0
);
CREATE INDEX IF NOT EXISTS cb_cards_pkg       ON cb_cards (pkg);
CREATE INDEX IF NOT EXISTS cb_cards_state     ON cb_cards (state);
CREATE INDEX IF NOT EXISTS cb_cards_opened_ms ON cb_cards (opened_ms);

CREATE TABLE IF NOT EXISTS cb_samples (
    card_id   TEXT    NOT NULL,
    seq       INTEGER NOT NULL,
    n         INTEGER,
    rows_json TEXT,
    blob      TEXT,
    size      INTEGER,
    epoch_ms  INTEGER,
    PRIMARY KEY (card_id, seq)
);

CREATE TABLE IF NOT EXISTS cb_evals (
    card_id   TEXT    NOT NULL,
    seq       INTEGER NOT NULL,
    source    TEXT,
    data_json TEXT,
    epoch_ms  INTEGER,
    PRIMARY KEY (card_id, seq)
);

CREATE TABLE IF NOT EXISTS cb_checkpoints (
    card_id  TEXT    NOT NULL,
    seq      INTEGER NOT NULL,
    blob     TEXT,
    size     INTEGER,
    format   TEXT,
    note     TEXT,
    epoch_ms INTEGER,
    PRIMARY KEY (card_id, seq)
);

CREATE TABLE IF NOT EXISTS cb_lineage (
    child  TEXT NOT NULL,
    parent TEXT NOT NULL,
    PRIMARY KEY (child, parent)
);
CREATE INDEX IF NOT EXISTS cb_lineage_parent ON cb_lineage (parent);

CREATE TABLE IF NOT EXISTS cb_tags (
    card_id TEXT NOT NULL,
    key     TEXT NOT NULL,
    value   TEXT NOT NULL,
    PRIMARY KEY (card_id, key)
);

CREATE TABLE IF NOT EXISTS cb_blobs (
    hash TEXT PRIMARY KEY,
    size INTEGER,
    refs INTEGER NOT NULL DEFAULT 0
);

CREATE TABLE IF NOT EXISTS cb_aliases (
    name     TEXT PRIMARY KEY,
    card_id  TEXT NOT NULL,
    pkg      TEXT,
    bound_ms INTEGER,
    note     TEXT
);
CREATE INDEX IF NOT EXISTS cb_aliases_card ON cb_aliases (card_id);

CREATE TABLE IF NOT EXISTS cb_alias_log (
    name     TEXT    NOT NULL,
    seq      INTEGER NOT NULL,
    kind     TEXT    NOT NULL,
    card_id  TEXT,
    epoch_ms INTEGER,
    note     TEXT,
    PRIMARY KEY (name, seq)
);
";

/// The columns `cb_cards` has.
pub const CARD_COLUMNS: &'static str = "SELECT name FROM pragma_table_info('cb_cards')";

/// The columns `cb_evals` has.
pub const EVAL_COLUMNS: &'static str = "SELECT name FROM pragma_table_info('cb_evals')";

/// The columns a `cb_cards` of an earlier shape may lack, each with the statement that adds it.
pub open spec fn later_card_columns() -> Seq<(Seq<char>, Seq<char>)> {
    seq![
        ("model"@, "ALTER TABLE cb_cards ADD COLUMN model TEXT"@),
        ("trace_id"@, "ALTER TABLE cb_cards ADD COLUMN trace_id TEXT"@),
        ("work_url"@, "ALTER TABLE cb_cards ADD COLUMN work_url TEXT"@),
        ("fingerprint"@, "ALTER TABLE cb_cards ADD COLUMN fingerprint TEXT"@),
        ("params_json"@, "ALTER TABLE cb_cards ADD COLUMN params_json TEXT"@),
    ]
}

/// The columns a `cb_evals` of an earlier shape may lack, each with the statement that adds it.
pub open spec fn later_eval_columns() -> Seq<(Seq<char>, Seq<char>)> {
    seq![("source"@, "ALTER TABLE cb_evals ADD COLUMN source TEXT"@)]
}

/// The statements for those of the `later` columns that are not `present`, in order.
pub open spec fn missing(later: Seq<(Seq<char>, Seq<char>)>, present: Seq<Seq<char>>) -> Seq<
    Seq<char>,
>
    decreases later.len(),
{
    if later.len() == 0 {
        seq![]
    } else if present.contains(later.last().0) {
        missing(later.drop_last(), present)
    } else {
        missing(later.drop_last(), present).push(later.last().1)
    }
}

/// The reading of a list of texts.
pub open spec fn texts_view(texts: Seq<String>) -> Seq<Seq<char>> {
    Seq::new(texts.len(), |i: int| texts[i]@)
}

/// The reading of a list of statements.
pub open spec fn statements_view(statements: Seq<&'static str>) -> Seq<Seq<char>> {
    Seq::new(statements.len(), |i: int| statements[i]@)
}

/// The reading of a list of columns.
spec fn columns_view(columns: Seq<(&'static str, &'static str)>) -> Seq<(Seq<char>, Seq<char>)> {
    Seq::new(columns.len(), |i: int| (columns[i].0@, columns[i].1@))
}

fn is_among(name: &str, present: &Vec<String>) -> (r: bool)
    ensures
        r == texts_view(present@).contains(name@),
{
    let ghost all = texts_view(present@);
    let mut i: usize = 0;
    while i < present.len()
        invariant
            i <= present@.len(),
            all == texts_view(present@),
            forall|j: int| 0 <= j < i ==> #[trigger] all[j] != name@,
        decreases present@.len() - i,
    {
        if same(present[i].as_str(), name) {
            assert(all[i as int] == name@);
            return true;
        }
        i += 1;
    }
    false
}

fn not_present(later: Vec<(&'static str, &'static str)>, present: &Vec<String>) -> (r: Vec<
    &'static str,
>)
    ensures
        statements_view(r@) == missing(columns_view(later@), texts_view(present@)),
{
    let ghost all = columns_view(later@);
    let ghost there = texts_view(present@);
    let mut out: Vec<&'static str> = Vec::new();
    let mut i: usize = 0;
    assert(all.take(0) =~= seq![]);
    assert(statements_view(out@) =~= missing(all.take(0), there));
    while i < later.len()
        invariant
            i <= later@.len(),
            all == columns_view(later@),
            there == texts_view(present@),
            statements_view(out@) == missing(all.take(i as int), there),
        decreases later@.len() - i,
    {
        let ghost before = statements_view(out@);
        assert(all.take(i + 1).drop_last() =~= all.take(i as int));
        assert(all.take(i + 1).last() == all[i as int]);
        if !is_among(later[i].0, present) {
            out.push(later[i].1);
            assert(statements_view(out@) =~= before.push(all[i as int].1));
        }
        i += 1;
    }
    assert(all.take(later@.len() as int) =~= all);
    out
}

/// The statements that bring a `cb_cards` with the columns `present` to the shape of
/// [`CREATE`], which leaves a table that is already there as it is.
///
/// A row that is already there keeps what it says and has nothing in the columns it gains, as a
/// card has that was opened without them; so the model needs no other name for the change.
pub fn card_columns_to_add(present: &Vec<String>) -> (r: Vec<&'static str>)
    ensures
        statements_view(r@) == missing(later_card_columns(), texts_view(present@)),
{
    let later = vec![
        ("model", "ALTER TABLE cb_cards ADD COLUMN model TEXT"),
        ("trace_id", "ALTER TABLE cb_cards ADD COLUMN trace_id TEXT"),
        ("work_url", "ALTER TABLE cb_cards ADD COLUMN work_url TEXT"),
        ("fingerprint", "ALTER TABLE cb_cards ADD COLUMN fingerprint TEXT"),
        ("params_json", "ALTER TABLE cb_cards ADD COLUMN params_json TEXT"),
    ];
    assert(columns_view(later@) =~= later_card_columns());
    not_present(later, present)
}

/// The statements that bring a `cb_evals` with the columns `present` to the shape of
/// [`CREATE`].
pub fn eval_columns_to_add(present: &Vec<String>) -> (r: Vec<&'static str>)
    ensures
        statements_view(r@) == missing(later_eval_columns(), texts_view(present@)),
{
    let later = vec![("source", "ALTER TABLE cb_evals ADD COLUMN source TEXT")];
    assert(columns_view(later@) =~= later_eval_columns());
    not_present(later, present)
}

/// No column is added that is there, and none is left out that is not: a statement stands in the
/// list exactly where its column is missing. So a table of the present shape is not altered.
pub proof fn law_what_is_missing_is_added(
    later: Seq<(Seq<char>, Seq<char>)>,
    present: Seq<Seq<char>>,
    statement: Seq<char>,
)
    ensures
        missing(later, present).contains(statement) <==> exists|i: int|
            0 <= i < later.len() && (#[trigger] later[i]).1 == statement && !present.contains(
                later[i].0,
            ),
    decreases later.len(),
{
    if later.len() > 0 {
        let front = later.drop_last();
        let before = missing(front, present);
        law_what_is_missing_is_added(front, present, statement);
        if before.contains(statement) {
            let i = choose|i: int|
                0 <= i < front.len() && (#[trigger] front[i]).1 == statement && !present.contains(
                    front[i].0,
                );
            assert(later[i] == front[i]);
            let j = before.index_of(statement);
            assert(missing(later, present)[j] == statement);
        }
        if missing(later, present).contains(statement) && !before.contains(statement) {
            let j = missing(later, present).index_of(statement);
            assert(j < before.len() ==> before[j] == statement);
            assert(later[later.len() - 1].1 == statement);
        }
        if exists|i: int|
            0 <= i < later.len() && (#[trigger] later[i]).1 == statement && !present.contains(
                later[i].0,
            ) {
            let i = choose|i: int|
                0 <= i < later.len() && (#[trigger] later[i]).1 == statement && !present.contains(
                    later[i].0,
                );
            if i < front.len() {
                assert(front[i] == later[i]);
            } else {
                assert(missing(later, present).last() == statement);
            }
        }
    }
}

/// What `reset` undoes. Dropping a table takes its indexes with it, so they are not listed.
pub const DROP: &'static str = "\
DROP TABLE IF EXISTS cb_cards;
DROP TABLE IF EXISTS cb_samples;
DROP TABLE IF EXISTS cb_evals;
DROP TABLE IF EXISTS cb_checkpoints;
DROP TABLE IF EXISTS cb_lineage;
DROP TABLE IF EXISTS cb_tags;
DROP TABLE IF EXISTS cb_blobs;
DROP TABLE IF EXISTS cb_aliases;
DROP TABLE IF EXISTS cb_alias_log;
";

pub const OPEN_CARD: &'static str = "INSERT INTO cb_cards (id, pkg, scenario, source, created_by, note, state,
                               opened_ms, opened_position, model, trace_id, work_url,
                               fingerprint, params_json)
         VALUES (?1, ?2, ?3, ?4, ?5, ?6, 'open', ?7, ?8, ?9, ?10, ?11, ?12, ?13)
         ON CONFLICT (id) DO NOTHING";

pub const ADD_PARENT: &'static str = "INSERT INTO cb_lineage (child, parent) VALUES (?1, ?2)
             ON CONFLICT (child, parent) DO NOTHING";

pub const ADD_SAMPLES: &'static str = "INSERT INTO cb_samples (card_id, seq, n, rows_json, blob, size, epoch_ms)
         VALUES (?1, ?2, ?3, ?4, ?5, ?6, ?7)
         ON CONFLICT (card_id, seq) DO NOTHING";

pub const COUNT_SAMPLES: &'static str = "UPDATE cb_cards SET sample_batches = sample_batches + 1,
                             sample_rows = sample_rows + ?2
         WHERE id = ?1";

pub const ADD_EVAL: &'static str = "INSERT INTO cb_evals (card_id, seq, source, data_json, epoch_ms)
         VALUES (?1, ?2, ?3, ?4, ?5)
         ON CONFLICT (card_id, seq) DO NOTHING";

pub const COUNT_EVAL: &'static str = "UPDATE cb_cards SET eval_count = eval_count + 1 WHERE id = ?1";

pub const ADD_CHECKPOINT: &'static str = "INSERT INTO cb_checkpoints (card_id, seq, blob, size, format, note, epoch_ms)
         VALUES (?1, ?2, ?3, ?4, ?5, ?6, ?7)
         ON CONFLICT (card_id, seq) DO NOTHING";

pub const COUNT_CHECKPOINT: &'static str = "UPDATE cb_cards SET checkpoint_count = checkpoint_count + 1 WHERE id = ?1";

pub const CLOSE_CARD: &'static str = "UPDATE cb_cards SET state = ?2, closed_ms = ?3, error = ?4,
                             stats_json = ?5, cost_json = ?6,
                             mean_score = ?7, n = ?8, pass_rate = ?9, passed = ?10,
                             elapsed_ms = ?11, llm_calls = ?12
         WHERE id = ?1";

pub const LOG_ALIAS: &'static str = "INSERT INTO cb_alias_log (name, seq, kind, card_id, epoch_ms, note)
         VALUES (?1, ?2, ?3, ?4, ?5, ?6)
         ON CONFLICT (name, seq) DO NOTHING";

pub const BIND_ALIAS: &'static str = "INSERT INTO cb_aliases (name, card_id, pkg, bound_ms, note) VALUES (?1, ?2, ?3, ?4, ?5)
         ON CONFLICT (name) DO UPDATE SET card_id = excluded.card_id, pkg = excluded.pkg,
                                          bound_ms = excluded.bound_ms, note = excluded.note";

pub const RELEASE_ALIAS: &'static str = "DELETE FROM cb_aliases WHERE name = ?1";

pub const REFER_BLOB: &'static str = "INSERT INTO cb_blobs (hash, size, refs) VALUES (?1, ?2, 1)
         ON CONFLICT (hash) DO UPDATE SET refs = refs + 1, size = COALESCE(excluded.size, size)";

pub const SET_TAG: &'static str = "INSERT INTO cb_tags (card_id, key, value) VALUES (?1, ?2, ?3)
         ON CONFLICT (card_id, key) DO UPDATE SET value = excluded.value";

pub const UNSET_TAG: &'static str = "DELETE FROM cb_tags WHERE card_id = ?1 AND key = ?2";

pub const GIVE_BACK_BLOBS: &'static str = "UPDATE cb_blobs SET refs = refs
             - (SELECT COUNT(*) FROM cb_samples
                WHERE cb_samples.card_id = ?1 AND cb_samples.blob = cb_blobs.hash)
             - (SELECT COUNT(*) FROM cb_checkpoints
                WHERE cb_checkpoints.card_id = ?1 AND cb_checkpoints.blob = cb_blobs.hash)";

pub const DROP_CARD: &'static str = "DELETE FROM cb_cards WHERE id = ?1";

pub const DROP_SAMPLES: &'static str = "DELETE FROM cb_samples WHERE card_id = ?1";

pub const DROP_EVALS: &'static str = "DELETE FROM cb_evals WHERE card_id = ?1";

pub const DROP_CHECKPOINTS: &'static str = "DELETE FROM cb_checkpoints WHERE card_id = ?1";

pub const DROP_TAGS: &'static str = "DELETE FROM cb_tags WHERE card_id = ?1";

pub const DROP_LINEAGE: &'static str = "DELETE FROM cb_lineage WHERE child = ?1";

/// The statements of the fold. Each takes its parameters by position.
#[derive(Clone, Copy, Debug, PartialEq, Eq, Structural)]
pub enum Statement {
    /// The row a card starts as. `?1` is its id; the first open stays the card's opening.
    OpenCard,
    /// One line of a card's descent.
    AddParent,
    /// One batch of samples.
    AddSamples,
    /// One more batch, and the rows in it, on the card.
    CountSamples,
    /// One evaluation.
    AddEval,
    /// One more evaluation on the card.
    CountEval,
    /// One checkpoint.
    AddCheckpoint,
    /// One more checkpoint on the card.
    CountCheckpoint,
    /// How a card ends.
    CloseCard,
    /// One line of an alias's history, keyed by the seq it has on its own stream.
    LogAlias,
    /// The current binding of a name, which a rebind overwrites.
    BindAlias,
    /// The name points at nothing again.
    ReleaseAlias,
    /// One more thing points at these bytes.
    ReferBlob,
    /// The current value of a tag, which a later one overwrites.
    SetTag,
    /// The tag is taken off.
    UnsetTag,
    /// Each blob loses the pointers that the rows of a card are.
    GiveBackBlobs,
    /// A card's row goes.
    DropCard,
    /// So do its samples.
    DropSamples,
    /// So do its evaluations.
    DropEvals,
    /// So do its checkpoints.
    DropCheckpoints,
    /// So do its tags.
    DropTags,
    /// So does its descent: the lines it is the child of.
    DropLineage,
}

/// The text of a statement.
pub open spec fn sql_of(statement: Statement) -> Seq<char> {
    match statement {
        Statement::OpenCard => OPEN_CARD@,
        Statement::AddParent => ADD_PARENT@,
        Statement::AddSamples => ADD_SAMPLES@,
        Statement::CountSamples => COUNT_SAMPLES@,
        Statement::AddEval => ADD_EVAL@,
        Statement::CountEval => COUNT_EVAL@,
        Statement::AddCheckpoint => ADD_CHECKPOINT@,
        Statement::CountCheckpoint => COUNT_CHECKPOINT@,
        Statement::CloseCard => CLOSE_CARD@,
        Statement::LogAlias => LOG_ALIAS@,
        Statement::BindAlias => BIND_ALIAS@,
        Statement::ReleaseAlias => RELEASE_ALIAS@,
        Statement::ReferBlob => REFER_BLOB@,
        Statement::SetTag => SET_TAG@,
        Statement::UnsetTag => UNSET_TAG@,
        Statement::GiveBackBlobs => GIVE_BACK_BLOBS@,
        Statement::DropCard => DROP_CARD@,
        Statement::DropSamples => DROP_SAMPLES@,
        Statement::DropEvals => DROP_EVALS@,
        Statement::DropCheckpoints => DROP_CHECKPOINTS@,
        Statement::DropTags => DROP_TAGS@,
        Statement::DropLineage => DROP_LINEAGE@,
    }
}

impl Statement {
    /// The text of the statement.
    pub fn sql(self) -> (r: &'static str)
        ensures
            r@ == sql_of(self),
    {
        match self {
            Statement::OpenCard => OPEN_CARD,
            Statement::AddParent => ADD_PARENT,
            Statement::AddSamples => ADD_SAMPLES,
            Statement::CountSamples => COUNT_SAMPLES,
            Statement::AddEval => ADD_EVAL,
            Statement::CountEval => COUNT_EVAL,
            Statement::AddCheckpoint => ADD_CHECKPOINT,
            Statement::CountCheckpoint => COUNT_CHECKPOINT,
            Statement::CloseCard => CLOSE_CARD,
            Statement::LogAlias => LOG_ALIAS,
            Statement::BindAlias => BIND_ALIAS,
            Statement::ReleaseAlias => RELEASE_ALIAS,
            Statement::ReferBlob => REFER_BLOB,
            Statement::SetTag => SET_TAG,
            Statement::UnsetTag => UNSET_TAG,
            Statement::GiveBackBlobs => GIVE_BACK_BLOBS,
            Statement::DropCard => DROP_CARD,
            Statement::DropSamples => DROP_SAMPLES,
            Statement::DropEvals => DROP_EVALS,
            Statement::DropCheckpoints => DROP_CHECKPOINTS,
            Statement::DropTags => DROP_TAGS,
            Statement::DropLineage => DROP_LINEAGE,
        }
    }
}

/// A parameter of a statement.
#[derive(Debug, PartialEq)]
pub enum SqlValue {
    Null,
    Integer(i64),
    Text(String),
    /// A number, for a column of reals: bound as the double nearest to it.
    Real(Number),
}

/// The mathematical reading of a [`SqlValue`], and of a cell of a row.
pub enum Cell {
    Null,
    Integer(int),
    Text(Seq<char>),
    Real(NumberView),
}

impl View for SqlValue {
    type V = Cell;

    open spec fn view(&self) -> Cell {
        match self {
            SqlValue::Null => Cell::Null,
            SqlValue::Integer(n) => Cell::Integer(*n as int),
            SqlValue::Text(s) => Cell::Text(s@),
            SqlValue::Real(x) => Cell::Real(x@),
        }
    }
}

/// A text that may be absent, as a cell.
pub open spec fn text_cell(text: Option<Seq<char>>) -> Cell {
    match text {
        Some(s) => Cell::Text(s),
        None => Cell::Null,
    }
}

/// An integer that may be absent, as a cell.
pub open spec fn int_cell(n: Option<int>) -> Cell {
    match n {
        Some(n) => Cell::Integer(n),
        None => Cell::Null,
    }
}

/// A number that may be absent, as a cell of a column of reals.
pub open spec fn real_cell(x: Option<NumberView>) -> Cell {
    match x {
        Some(x) => Cell::Real(x),
        None => Cell::Null,
    }
}

/// The reading of a list of parameters.
pub open spec fn cells(params: Seq<SqlValue>) -> Seq<Cell> {
    Seq::new(params.len(), |i: int| params[i]@)
}

/// One statement with its parameters.
#[derive(Debug, PartialEq)]
pub struct Op {
    pub statement: Statement,
    pub params: Vec<SqlValue>,
}

/// The mathematical reading of an [`Op`].
#[verifier::ext_equal]
pub struct OpView {
    pub statement: Statement,
    pub params: Seq<Cell>,
}

impl View for Op {
    type V = OpView;

    open spec fn view(&self) -> OpView {
        OpView { statement: self.statement, params: cells(self.params@) }
    }
}

/// The reading of a list of operations.
pub open spec fn ops_view(ops: Seq<Op>) -> Seq<OpView> {
    Seq::new(ops.len(), |i: int| ops[i]@)
}

/// A text that may be absent, as a parameter.
pub fn text_param(text: Option<String>) -> (r: SqlValue)
    ensures
        r@ == text_cell(crate::json::text_view(text)),
{
    match text {
        Some(s) => SqlValue::Text(s),
        None => SqlValue::Null,
    }
}

/// An integer that may be absent, as a parameter.
pub fn int_param(n: Option<i64>) -> (r: SqlValue)
    ensures
        r@ == match n {
            Some(n) => Cell::Integer(n as int),
            None => Cell::Null,
        },
{
    match n {
        Some(n) => SqlValue::Integer(n),
        None => SqlValue::Null,
    }
}

/// A number that may be absent, as a parameter for a column of reals.
pub fn real_param(x: Option<Number>) -> (r: SqlValue)
    ensures
        r@ == match x {
            Some(x) => Cell::Real(x@),
            None => Cell::Null,
        },
{
    match x {
        Some(x) => SqlValue::Real(x),
        None => SqlValue::Null,
    }
}

} // verus!
