//! The library over a real log: what the decisions write, what the fold leaves in the tables,
//! what an export carries into another log.
use std::cell::RefCell;
use std::collections::HashMap;
use std::path::Path;
use std::sync::{Arc, Mutex};

use cardbox::blobs::{BlobGc, BlobGcReport, FORGET_ORPHANS, GcStep, ORPHANS, Removal, blob_of};
use cardbox::carry::{CarryForward, CarryStep};
use cardbox::command::{Proposal, append_if, bind_alias, opening_read, release_alias};
use cardbox::export::{Begin, ExportReport, Paged, Receipt, begin};
use cardbox::import::{ImportReport, ImportRun, ImportStep, PAGE};
use cardbox::json::{Json, Number, Real};
use cardbox::digest::digest;
use cardbox::print::json_encode;
use cardbox::projection::CardsProjection;
use cardbox::reading::{PageRead, READ_PAGE, Reading, first_of};
use cardbox::record::{Committed, Event, Stored, card_stream, envelope, recorded_of};
use cardbox::retain::{RetainOutcome, Retention};
use cardbox::sql::{
    CARD_COLUMNS, CREATE, DROP, EVAL_COLUMNS, SqlValue, card_columns_to_add, eval_columns_to_add,
};
use cardbox::{Recorded, Value};
use eventsdb::sqlite::rusqlite::types::Value as Param;
use eventsdb::sqlite::rusqlite::{Error as SqlError, Transaction, params_from_iter};
use eventsdb::sqlite::{Guard, Plan, Projection, ProjectionRunner, SqliteEventLog};
use eventsdb::{Error, EventLog, EventStore, Filter, Position};

// ------------------------------------------------------------------ values across the edge

fn json_of(value: &serde_json::Value) -> Json {
    match value {
        serde_json::Value::Null => Json::Null,
        serde_json::Value::Bool(b) => Json::Bool(*b),
        serde_json::Value::Number(n) => Json::Number(if let Some(n) = n.as_u64() {
            Number::PosInt(n)
        } else if let Some(n) = n.as_i64() {
            Number::NegInt(n)
        } else {
            Number::Float(Real {
                bits: n.as_f64().unwrap().to_bits(),
                text: n.to_string(),
            })
        }),
        serde_json::Value::String(s) => Json::String(s.clone()),
        serde_json::Value::Array(items) => Json::Array(items.iter().map(json_of).collect()),
        serde_json::Value::Object(map) => Json::Object(event_of(map)),
    }
}

fn value_of(json: &Json) -> serde_json::Value {
    match json {
        Json::Null => serde_json::Value::Null,
        Json::Bool(b) => serde_json::Value::Bool(*b),
        Json::Number(Number::PosInt(n)) => serde_json::Value::from(*n),
        Json::Number(Number::NegInt(n)) => serde_json::Value::from(*n),
        Json::Number(Number::Float(x)) => serde_json::Value::from(f64::from_bits(x.bits)),
        Json::String(s) => serde_json::Value::String(s.clone()),
        Json::Array(items) => serde_json::Value::Array(items.iter().map(value_of).collect()),
        Json::Object(fields) => serde_json::Value::Object(map_of(fields)),
    }
}

fn event_of(map: &serde_json::Map<String, serde_json::Value>) -> Event {
    map.iter().map(|(k, v)| (k.clone(), json_of(v))).collect()
}

fn map_of(event: &Event) -> serde_json::Map<String, serde_json::Value> {
    event.iter().map(|(k, v)| (k.clone(), value_of(v))).collect()
}

fn stored_of(recorded: &eventsdb::Recorded) -> Stored {
    Stored {
        position: recorded.position.get(),
        stream: recorded.stream.clone(),
        event: event_of(&recorded.event),
    }
}

fn committed_of(at: &eventsdb::Committed) -> Committed {
    Committed {
        seq: at.seq,
        epoch_ms: at.epoch_ms,
        position: at.position.map(|p| p.get()),
    }
}

fn param_of(value: &SqlValue) -> Param {
    match value {
        SqlValue::Null => Param::Null,
        SqlValue::Integer(n) => Param::Integer(*n),
        SqlValue::Text(s) => Param::Text(s.clone()),
        SqlValue::Real(Number::PosInt(n)) => Param::Real(*n as f64),
        SqlValue::Real(Number::NegInt(n)) => Param::Real(*n as f64),
        SqlValue::Real(Number::Float(x)) => Param::Real(f64::from_bits(x.bits)),
    }
}

/// The value a text is.
fn json(text: &str) -> Value {
    Value(json_of(&serde_json::from_str(text).unwrap()))
}

fn null() -> Value {
    Value::default()
}

struct Fold(CardsProjection);

fn storage(e: SqlError) -> Error {
    Error::storage(e.to_string())
}

fn columns(tx: &Transaction<'_>, sql: &str) -> eventsdb::Result<Vec<String>> {
    let mut stmt = tx.prepare(sql).map_err(storage)?;
    let names = stmt
        .query_map([], |row| row.get::<_, String>(0))
        .map_err(storage)?
        .collect::<Result<Vec<_>, _>>()
        .map_err(storage)?;
    Ok(names)
}

impl Projection for Fold {
    fn name(&self) -> &str {
        self.0.name()
    }

    fn kinds(&self) -> Option<Vec<String>> {
        self.0.kinds()
    }

    fn init(&mut self, tx: &Transaction<'_>) -> eventsdb::Result<()> {
        tx.execute_batch(CREATE).map_err(storage)?;
        let mut alter = card_columns_to_add(&columns(tx, CARD_COLUMNS)?);
        alter.extend(eval_columns_to_add(&columns(tx, EVAL_COLUMNS)?));
        for statement in alter {
            tx.execute_batch(statement).map_err(storage)?;
        }
        Ok(())
    }

    fn reset(&mut self, tx: &Transaction<'_>) -> eventsdb::Result<()> {
        tx.execute_batch(DROP).map_err(storage)
    }

    fn tolerates_truncation(&self) -> bool {
        self.0.tolerates_truncation()
    }

    fn apply(&mut self, tx: &Transaction<'_>, event: &eventsdb::Recorded) -> eventsdb::Result<()> {
        let ops = self
            .0
            .apply(&stored_of(event))
            .map_err(|fault| Error::storage(fault.message()))?;
        for op in &ops {
            let params = params_from_iter(op.params.iter().map(param_of));
            tx.execute(op.statement.sql(), params).map_err(storage)?;
        }
        Ok(())
    }
}

// ------------------------------------------------------------------ a store

struct Store {
    rt: tokio::runtime::Runtime,
    log: SqliteEventLog,
    cards: RefCell<ProjectionRunner<Fold>>,
    /// The blob directory: what is stored under each name.
    blobs: RefCell<HashMap<String, Vec<u8>>>,
}

/// What a prune did.
struct Pruned {
    export: String,
    events_removed: u64,
    blobs_deleted: u64,
}

impl Store {
    fn open(root: &Path) -> Store {
        let rt = tokio::runtime::Builder::new_current_thread()
            .enable_time()
            .build()
            .unwrap();
        let log = rt
            .block_on(SqliteEventLog::open(root.join("cards.db")))
            .unwrap();
        let mut cards = log.runner(Fold(CardsProjection::new())).unwrap();
        rt.block_on(cards.init()).unwrap();
        carry_forward(&rt, &log, &mut cards);
        Store {
            rt,
            log,
            cards: RefCell::new(cards),
            blobs: RefCell::default(),
        }
    }

    fn append(&self, stream: &str, kind: &str, meta: Value, data: Value) -> Recorded {
        let event = envelope(kind, meta.0, data.0);
        let mut handle = self.log.stream_handle(stream);
        let committed = self.rt.block_on(handle.append(map_of(&event))).unwrap();
        recorded_of(stream, &event, committed_of(&committed))
    }

    fn decided(&self, proposal: Proposal) -> Option<Recorded> {
        let proposal = Arc::new(proposal);
        let asked = Arc::clone(&proposal);
        let kinds = proposal.rule.kinds();
        let decide: eventsdb::Decision = Box::new(move |seen| {
            let seen: Vec<Event> = seen.iter().map(|e| event_of(e)).collect();
            asked.decide(&seen).map(|event| map_of(&event))
        });
        let mut handle = self.log.stream_handle(&proposal.stream);
        let committed = self
            .rt
            .block_on(handle.append_if(kinds.as_deref(), decide))
            .unwrap();
        proposal.answer(committed.as_ref().map(committed_of))
    }

    fn append_if(
        &self,
        stream: &str,
        decision: &str,
        kind: &str,
        meta: Value,
        data: Value,
    ) -> Result<Option<Recorded>, String> {
        append_if(stream, decision, kind, meta, data)
            .map(|proposal| self.decided(proposal))
            .map_err(|e| e.message())
    }

    fn bind_alias(
        &self,
        name: &str,
        card_id: &str,
        note: Option<&str>,
    ) -> Result<Option<Recorded>, String> {
        let read = opening_read(card_id);
        let filter = Filter::kinds([read.kind]).streams([read.stream.as_str()]);
        let page = self
            .rt
            .block_on(self.log.read_all(Position::BEGINNING, &filter, read.limit))
            .unwrap();
        let opened = first_of(page.iter().map(stored_of).collect());
        bind_alias(name, card_id, note.map(|n| n.to_string()), opened.as_ref())
            .map(|proposal| self.decided(proposal))
            .map_err(|e| e.message())
    }

    fn release_alias(&self, name: &str, note: Option<&str>) -> Option<Recorded> {
        let release = Arc::new(release_alias(name, note.map(|n| n.to_string())));
        let asked = Arc::clone(&release);
        let built: Arc<Mutex<Option<Event>>> = Arc::default();
        let sink = Arc::clone(&built);
        let decide: eventsdb::Decision = Box::new(move |seen| {
            let seen: Vec<Event> = seen.iter().map(|e| event_of(e)).collect();
            let event = asked.decide(&seen)?;
            let map = map_of(&event);
            *sink.lock().unwrap() = Some(event);
            Some(map)
        });
        let kinds = release.rule().kinds();
        let mut handle = self.log.stream_handle(&release.stream);
        let committed = self
            .rt
            .block_on(handle.append_if(kinds.as_deref(), decide))
            .unwrap();
        let built = built.lock().unwrap().take();
        release
            .answer(built, committed.as_ref().map(committed_of))
            .unwrap()
    }

    fn read_stream(&self, stream: &str, kinds: Option<&[&str]>) -> Vec<Recorded> {
        let filter = match kinds {
            Some(k) => Filter::kinds(k.iter().copied()),
            None => Filter::all(),
        }
        .streams([stream]);
        let mut reading = Reading::start();
        loop {
            let from = Position::new(reading.from);
            let page = self
                .rt
                .block_on(self.log.read_all(from, &filter, READ_PAGE))
                .unwrap();
            match reading.page(page.iter().map(stored_of).collect()) {
                PageRead::More(next) => reading = next,
                PageRead::Whole(events) => return events,
            }
        }
    }

    fn catch_up(&self) -> usize {
        self.rt.block_on(self.cards.borrow_mut().catch_up()).unwrap()
    }

    fn rebuild(&self) -> usize {
        self.rt.block_on(self.cards.borrow_mut().rebuild()).unwrap()
    }

    fn query(&self, sql: &str, params: &[&str]) -> Vec<serde_json::Map<String, serde_json::Value>> {
        self.catch_up();
        let bound: Vec<serde_json::Value> =
            params.iter().map(|p| serde_json::Value::from(*p)).collect();
        self.rt.block_on(self.log.query(sql, bound)).unwrap()
    }

    /// The one row of a query.
    fn row(&self, sql: &str, params: &[&str]) -> serde_json::Map<String, serde_json::Value> {
        let rows = self.query(sql, params);
        assert_eq!(rows.len(), 1, "{sql}");
        rows[0].clone()
    }

    /// Exports into a text instead of a file.
    fn export(&self) -> (String, ExportReport) {
        let from = self.rt.block_on(self.log.exported_through()).unwrap();
        let ahead = self
            .rt
            .block_on(self.log.read_all(from, &Filter::all(), 1))
            .unwrap();
        let mut run = match begin(7, from.get(), ahead.len()) {
            Begin::Nothing(report) => return (String::new(), report),
            Begin::Export(run) => run,
        };
        let mut file = String::new();
        let landing = loop {
            let (page, receipt) = self
                .rt
                .block_on(self.log.export_recorded(
                    Position::new(run.at()),
                    &Filter::all(),
                    PAGE,
                ))
                .unwrap();
            let receipt = Receipt {
                id: receipt.id,
                from: receipt.from.get(),
                through: receipt.through.get(),
                whole: receipt.whole,
            };
            match run.page(&page, receipt).unwrap() {
                Paged::More { text, run: next } => {
                    file.push_str(&text);
                    run = next;
                }
                Paged::Last { text, landing } => {
                    file.push_str(&text);
                    break landing;
                }
            }
        };
        let landed = landing.renamed("the file".to_string());
        for receipt in landed.receipts {
            self.rt.block_on(self.log.confirm_export(receipt)).unwrap();
        }
        (file, landed.report)
    }

    fn import(&self, text: &str) -> Result<ImportReport, String> {
        let mut run = ImportRun::new("export.jsonl", text);
        loop {
            match run.next() {
                ImportStep::Import(batch) => {
                    let report = self.rt.block_on(self.log.import(batch)).unwrap();
                    run.landed(report.imported as u64, report.reproduced_coordinates);
                }
                ImportStep::CatchUp => {
                    self.catch_up();
                    return Ok(run.report());
                }
                ImportStep::Failed(fault) => return Err(fault.message()),
            }
        }
    }

    fn retain_streams(&self, streams: &[&str]) -> Result<(u64, u64), String> {
        let streams = streams.iter().map(|s| s.to_string()).collect();
        let mut retention = Retention::new(streams);
        loop {
            retention = match retention {
                Retention::CatchUp { .. } => {
                    self.catch_up();
                    retention.next()
                }
                Retention::CarryForward { .. } => {
                    carry_forward(&self.rt, &self.log, &mut self.cards.borrow_mut());
                    retention.next()
                }
                Retention::Remove { ref streams } => {
                    let plan = Plan::Streams(streams.clone());
                    let outcome = match self.rt.block_on(self.log.retain(plan, Guard::Exported)) {
                        Ok(report) => RetainOutcome::Removed {
                            removed: report.removed as u64,
                            streams: report.streams_affected as u64,
                        },
                        Err(Error::NotExported {
                            up_to,
                            exported_through,
                        }) => RetainOutcome::NotExported {
                            up_to,
                            exported_through,
                        },
                        Err(other) => panic!("{other}"),
                    };
                    retention.answered(outcome)?
                }
                Retention::Reclaim { .. } => {
                    self.rt.block_on(self.log.reclaim()).unwrap();
                    retention.next()
                }
                Retention::Done { report } => return Ok((report.removed, report.streams)),
            };
        }
    }

    fn blob_get(&self, hash: &str) -> Option<Vec<u8>> {
        self.blobs.borrow().get(hash).cloned()
    }

    fn blob_gc(&self) -> BlobGcReport {
        self.catch_up();
        let orphans: Vec<(String, i64)> = self
            .rt
            .block_on(self.log.with_transaction(|tx| {
                let mut stmt = tx.prepare(ORPHANS).map_err(storage)?;
                let rows = stmt
                    .query_map([], |row| Ok((row.get::<_, String>(0)?, row.get::<_, i64>(1)?)))
                    .map_err(storage)?
                    .collect::<Result<Vec<_>, _>>()
                    .map_err(storage)?;
                drop(stmt);
                tx.execute(FORGET_ORPHANS, []).map_err(storage)?;
                Ok(rows)
            }))
            .unwrap();
        let mut gc = BlobGc::new(orphans).unwrap();
        loop {
            match gc.step() {
                GcStep::Remove { hash } => {
                    let how = match self.blobs.borrow_mut().remove(&hash) {
                        Some(_) => Removal::Removed,
                        None => Removal::NotFound,
                    };
                    gc = gc.removed(how).unwrap();
                }
                GcStep::Done(report) => return report,
            }
        }
    }

    /// A prune, in its order: the export, the journal's entry, the removal of the streams, the
    /// collection of the blobs.
    fn prune(&self, ids: &[&str], reason: &str) -> Pruned {
        let (export, report) = self.export();
        let meta = format!(
            r#"{{"count":{},"reason":"{reason}","export_file":"{}"}}"#,
            ids.len(),
            report.file.unwrap()
        );
        let cards: Vec<String> = ids.iter().map(|id| format!("\"{id}\"")).collect();
        let data = format!(r#"{{"cards":[{}]}}"#, cards.join(","));
        self.append("prune", "cards_pruned", json(&meta), json(&data));
        let streams: Vec<String> = ids.iter().map(|id| card_stream(id)).collect();
        let streams: Vec<&str> = streams.iter().map(|s| s.as_str()).collect();
        let (events_removed, _) = self.retain_streams(&streams).unwrap();
        Pruned {
            export,
            events_removed,
            blobs_deleted: self.blob_gc().deleted,
        }
    }

    // A card's life, as its events.

    /// Opens a card, writes one batch of samples, closes it.
    fn a_card(&self, id: &str, pkg: &str) {
        self.open_card(id, pkg);
        self.while_open(id, "samples_appended", r#"{"n":1,"rows":[{"q":1,"a":2}]}"#);
        self.close_card(id, "ok", r#"{"stats":{"mean_score":0.5,"n":1}}"#);
    }

    /// What is said about a card that was opened, closed or not.
    fn about(&self, id: &str, kind: &str, meta: &str, data: &str) -> Option<Recorded> {
        self.append_if(&card_stream(id), "opened", kind, json(meta), json(data))
            .unwrap()
    }

    fn open_card(&self, id: &str, pkg: &str) {
        let meta = format!(
            r#"{{"pkg":"{pkg}","scenario":"arith","source":"eval","created_by":"x"}}"#
        );
        let written = self
            .append_if(&card_stream(id), "unwritten", "card_opened", json(&meta), null())
            .unwrap();
        assert!(written.is_some(), "{id} is opened once");
    }

    fn close_card(&self, id: &str, outcome: &str, data: &str) {
        let meta = format!(r#"{{"outcome":"{outcome}"}}"#);
        let written = self
            .append_if(
                &card_stream(id),
                "closed_absent",
                "card_closed",
                json(&meta),
                json(data),
            )
            .unwrap();
        assert!(written.is_some(), "{id} is closed once");
    }

    fn while_open(&self, id: &str, kind: &str, data: &str) {
        let written = self
            .append_if(&card_stream(id), "open_unclosed", kind, null(), json(data))
            .unwrap();
        assert!(written.is_some(), "{id} is open");
    }

    fn save_checkpoint(&self, id: &str, bytes: &str) -> String {
        let blob = blob_of(bytes.as_bytes());
        let data = format!(
            r#"{{"blob":"{}","size":{},"format":"safetensors","note":"epoch 3"}}"#,
            blob.hash, blob.size
        );
        self.while_open(id, "checkpoint_saved", &data);
        self.blobs
            .borrow_mut()
            .insert(blob.hash.clone(), bytes.as_bytes().to_vec());
        blob.hash
    }
}

fn carry_forward(
    rt: &tokio::runtime::Runtime,
    log: &SqliteEventLog,
    cards: &mut ProjectionRunner<Fold>,
) {
    let (mut state, mut step) = CarryForward::start();
    loop {
        let answer = match step {
            CarryStep::Load { consumer } => {
                rt.block_on(log.checkpoint_load(consumer)).unwrap().get()
            }
            CarryStep::Rebuild => {
                rt.block_on(cards.rebuild()).unwrap();
                0
            }
            CarryStep::LivePosition => rt.block_on(cards.position()).unwrap().get(),
            CarryStep::Save { consumer, position } => {
                rt.block_on(log.checkpoint_save(consumer, Position::new(position)))
                    .unwrap();
                0
            }
            CarryStep::Done => return,
        };
        (state, step) = state.next(answer);
    }
}

fn kinds(events: &[Recorded]) -> Vec<&str> {
    events.iter().map(|e| e.kind.as_str()).collect()
}

fn field<'a>(v: &'a Value, key: &str) -> &'a Json {
    v.0.get(key).unwrap()
}

// ------------------------------------------------------------------ the mechanism

#[test]
fn an_append_comes_back_out_of_the_stream_it_went_into() {
    let dir = tempfile::tempdir().unwrap();
    let store = Store::open(dir.path());
    let rec = store.append("card-1", "card_opened", json(r#"{"pkg":"cot"}"#), json(r#"{"n":3}"#));
    assert_eq!(rec.seq, 1, "the first append is seq 1");
    let all = store.read_stream("card-1", None);
    assert_eq!(all.len(), 1, "one event");
    assert_eq!(all[0].kind, "card_opened");
    assert_eq!(field(&all[0].meta, "pkg"), &Json::String("cot".to_string()));
    assert_eq!(field(&all[0].data, "n"), &Json::Number(Number::PosInt(3)));
    assert_eq!(all[0].stream, "card-1");
    assert_eq!(all[0].seq, 1);
    assert_eq!(all[0].position, rec.position);
    assert_eq!(all[0].epoch_ms, rec.epoch_ms);
}

#[test]
fn open_unclosed_declines_before_the_open_and_after_the_close() {
    let dir = tempfile::tempdir().unwrap();
    let store = Store::open(dir.path());
    let s = "card-2";
    let rec = store.append_if(s, "open_unclosed", "samples_appended", null(), json(r#"{"n":1}"#));
    assert!(rec.unwrap().is_none(), "an empty stream is not open");
    store.append(s, "card_opened", null(), null());
    let rec2 = store.append_if(s, "open_unclosed", "samples_appended", null(), json(r#"{"n":2}"#));
    assert!(rec2.unwrap().is_some(), "an opened card takes a dependent event");
    store.append(s, "card_closed", null(), json(r#"{"outcome":"ok"}"#));
    let rec3 = store.append_if(s, "open_unclosed", "samples_appended", null(), json(r#"{"n":3}"#));
    assert!(rec3.unwrap().is_none(), "a closed card takes nothing more");
    assert_eq!(
        kinds(&store.read_stream(s, None)),
        ["card_opened", "samples_appended", "card_closed"]
    );
}

#[test]
fn unwritten_accepts_once() {
    let dir = tempfile::tempdir().unwrap();
    let store = Store::open(dir.path());
    let first = store.append_if("card-3", "unwritten", "card_opened", null(), null());
    assert_eq!(first.unwrap().unwrap().seq, 1, "the first one writes");
    let second = store.append_if("card-3", "unwritten", "card_opened", null(), null());
    assert!(second.unwrap().is_none(), "the second one declines");
    assert_eq!(store.read_stream("card-3", None).len(), 1);
}

#[test]
fn closed_absent_lets_a_card_close_once() {
    let dir = tempfile::tempdir().unwrap();
    let store = Store::open(dir.path());
    store.append("card-4", "card_opened", null(), null());
    let ok = json(r#"{"outcome":"ok"}"#);
    let first = store.append_if("card-4", "closed_absent", "card_closed", null(), ok);
    assert!(first.unwrap().is_some(), "the first close writes");
    let failed = json(r#"{"outcome":"failed"}"#);
    let second = store.append_if("card-4", "closed_absent", "card_closed", null(), failed);
    assert!(second.unwrap().is_none(), "the second close declines");
    assert_eq!(store.read_stream("card-4", Some(&["card_closed"])).len(), 1);
}

#[test]
fn the_hatch_sees_what_was_appended() {
    let dir = tempfile::tempdir().unwrap();
    let store = Store::open(dir.path());
    store.append("card-5", "card_opened", null(), null());
    store.append("card-5", "card_closed", null(), null());
    let rows = store.query("SELECT stream, kind FROM events ORDER BY position", &[]);
    let mut seen: Vec<&str> = Vec::new();
    for row in &rows {
        assert_eq!(row["stream"], "card-5");
        seen.push(row["kind"].as_str().unwrap());
    }
    assert_eq!(seen, ["card_opened", "card_closed"]);
    let card = store.row("SELECT id, state FROM cb_cards", &[]);
    assert_eq!(card["id"], "5", "and the tables beside it");
    assert_eq!(card["state"], "closed_failed");
}

#[test]
fn an_unknown_decision_says_which_ones_exist() {
    let dir = tempfile::tempdir().unwrap();
    let store = Store::open(dir.path());
    let err = store
        .append_if("card-6", "whenever", "card_opened", null(), null())
        .unwrap_err();
    assert!(store.read_stream("card-6", None).is_empty(), "nothing is written");
    assert!(err.contains("whenever"), "{err}");
    assert!(err.contains("unwritten"), "{err}");
    assert!(err.contains("open_unclosed"), "{err}");
    assert!(err.contains("closed_absent"), "{err}");
}

#[test]
fn a_long_stream_is_read_in_pages_and_comes_back_whole() {
    let dir = tempfile::tempdir().unwrap();
    let store = Store::open(dir.path());
    let n = READ_PAGE + 3;
    for i in 0..n {
        store.append("card-long", "eval_recorded", null(), json(&format!(r#"{{"i":{i}}}"#)));
        store.append("card-other", "eval_recorded", null(), null());
    }
    let all = store.read_stream("card-long", None);
    assert_eq!(all.len(), n);
    for (i, event) in all.iter().enumerate() {
        assert_eq!(event.seq, i as u64 + 1);
        assert_eq!(field(&event.data, "i"), &Json::Number(Number::PosInt(i as u64)));
    }
}

// ------------------------------------------------------------------ two stores on one root

#[test]
fn a_second_store_reads_the_first_ones_writes_and_folds_them_once() {
    let dir = tempfile::tempdir().unwrap();
    let a = Store::open(dir.path());
    let b = Store::open(dir.path());
    let meta = r#"{"pkg":"cot","scenario":"arith","source":"eval"}"#;
    a.append("card-m1", "card_opened", json(meta), json("{}"));
    let rec = b.append_if(
        "card-m1",
        "open_unclosed",
        "samples_appended",
        json("{}"),
        json(r#"{"n":3}"#),
    );
    assert!(rec.unwrap().is_some(), "b sees the card a opened and appends to it");
    let sql = "SELECT sample_batches, sample_rows FROM cb_cards WHERE id = ?1";
    let from_a = a.row(sql, &["m1"]);
    assert_eq!(from_a["sample_batches"], 1);
    assert_eq!(from_a["sample_rows"], 3);
    assert_eq!(b.catch_up(), 0, "nothing left for b to fold");
    let from_b = b.row(sql, &["m1"]);
    assert_eq!(from_b, from_a, "the same row, not a second fold of it");
}

#[test]
fn an_alias_bound_in_one_store_is_the_binding_in_the_other() {
    let dir = tempfile::tempdir().unwrap();
    let a = Store::open(dir.path());
    let b = Store::open(dir.path());
    let meta = r#"{"pkg":"cot","scenario":"arith","source":"eval"}"#;
    a.append("card-m2", "card_opened", json(meta), json("{}"));
    let bound = b.bind_alias("champion", "m2", None).unwrap();
    assert!(bound.is_some(), "b binds to a card only a wrote");
    let row = a.row("SELECT card_id FROM cb_aliases WHERE name = ?1", &["champion"]);
    assert_eq!(row["card_id"], "m2");
    assert!(
        a.bind_alias("champion", "m2", None).unwrap().is_none(),
        "a declines a rebind to the same card b already bound"
    );
    assert!(
        b.bind_alias("champion", "nobody", None).is_err(),
        "a card no store opened is refused"
    );
}

// ------------------------------------------------------------------ aliases

#[test]
fn an_alias_cannot_be_bound_to_a_card_that_was_never_opened() {
    let dir = tempfile::tempdir().unwrap();
    let store = Store::open(dir.path());
    let err = store.bind_alias("champion", "never_opened", None).unwrap_err();
    assert!(
        store.read_stream("alias-champion", None).is_empty(),
        "the reservation stream was never written to"
    );
    assert!(store.bind_alias("champion", "not a card id", None).is_err());
    assert!(
        err.contains("no card never_opened"),
        "the refusal names the card: {err}"
    );
}

#[test]
fn a_bound_alias_resolves_to_the_card_and_the_card_lists_the_name() {
    let dir = tempfile::tempdir().unwrap();
    let store = Store::open(dir.path());
    store.open_card("bind_one", "cot");
    store.close_card("bind_one", "ok", r#"{"stats":{"mean_score":0.8,"n":5}}"#);
    let rec = store
        .bind_alias("champion", "bind_one", Some("the first one"))
        .unwrap()
        .unwrap();
    assert_eq!(rec.kind, "alias_bound");
    assert_eq!(rec.stream, "alias-champion");
    assert_eq!(field(&rec.meta, "card_id"), &Json::String("bind_one".to_string()));
    assert_eq!(field(&rec.meta, "pkg"), &Json::String("cot".to_string()));
    let second = store.bind_alias("baseline", "bind_one", None).unwrap();
    assert!(second.is_some());
    let entries = store.query("SELECT * FROM cb_aliases ORDER BY name", &[]);
    assert_eq!(entries.len(), 2);
    assert_eq!(entries[0]["name"], "baseline");
    assert_eq!(entries[1]["name"], "champion");
    assert_eq!(entries[1]["card_id"], "bind_one");
    assert_eq!(entries[1]["pkg"], "cot");
    assert_eq!(entries[1]["note"], "the first one");
    let names: Vec<serde_json::Value> = store
        .query("SELECT name FROM cb_aliases WHERE card_id = ?1 ORDER BY name", &["bind_one"])
        .iter()
        .map(|r| r["name"].clone())
        .collect();
    assert_eq!(names, ["baseline", "champion"]);
}

#[test]
fn a_rebind_moves_the_name_and_the_history_keeps_both() {
    let dir = tempfile::tempdir().unwrap();
    let store = Store::open(dir.path());
    for id in ["move_from", "move_to"] {
        store.open_card(id, "cot");
        store.close_card(id, "ok", r#"{"stats":{"mean_score":0.5,"n":5}}"#);
    }
    store.bind_alias("champion", "move_from", None).unwrap();
    let rec = store
        .bind_alias("champion", "move_to", Some("a better one"))
        .unwrap();
    assert!(rec.is_some(), "the rebind wrote an event");
    let entry = store.row("SELECT * FROM cb_aliases", &[]);
    assert_eq!(entry["card_id"], "move_to");
    assert_eq!(entry["note"], "a better one");
    let from = store.row("SELECT state FROM cb_cards WHERE id = ?1", &["move_from"]);
    assert_eq!(from["state"], "closed_ok", "and is what it was");
    let history = store.query(
        "SELECT * FROM cb_alias_log WHERE name = ?1 ORDER BY seq",
        &["champion"],
    );
    assert_eq!(history.len(), 2);
    assert_eq!(history[0]["card_id"], "move_from");
    assert_eq!(history[1]["card_id"], "move_to");
    assert_eq!(history[0]["seq"], 1);
    assert_eq!(history[1]["seq"], 2);
    let nobody = store.query(
        "SELECT * FROM cb_alias_log WHERE name = ?1",
        &["nobody_bound_this"],
    );
    assert!(nobody.is_empty(), "no history is not an error");
    let kinds: Vec<serde_json::Value> = history.iter().map(|h| h["kind"].clone()).collect();
    assert_eq!(kinds, ["alias_bound", "alias_bound"]);
}

#[test]
fn rebinding_the_same_card_is_idempotent() {
    let dir = tempfile::tempdir().unwrap();
    let store = Store::open(dir.path());
    store.open_card("same_card", "cot");
    store.bind_alias("champion", "same_card", None).unwrap();
    let rec = store
        .bind_alias("champion", "same_card", Some("again"))
        .unwrap();
    assert!(rec.is_none(), "declined: it already means that card");
    assert_eq!(store.read_stream("alias-champion", None).len(), 1);
    let history = store.query("SELECT * FROM cb_alias_log WHERE name = ?1", &["champion"]);
    assert_eq!(history.len(), 1, "the second bind left no line in the history");
}

#[test]
fn a_released_alias_stops_resolving_and_says_what_it_let_go() {
    let dir = tempfile::tempdir().unwrap();
    let store = Store::open(dir.path());
    store.open_card("let_go", "cot");
    store.bind_alias("champion", "let_go", None).unwrap();
    let rec = store.release_alias("champion", Some("retired")).unwrap();
    assert_eq!(rec.kind, "alias_released");
    assert_eq!(field(&rec.meta, "card_id"), &Json::String("let_go".to_string()));
    assert!(store.query("SELECT * FROM cb_aliases", &[]).is_empty());
    assert!(
        store.release_alias("champion", None).is_none(),
        "releasing an unbound name is a decline"
    );
    let history = store.query("SELECT * FROM cb_alias_log ORDER BY seq", &[]);
    assert_eq!(history.len(), 2);
    assert_eq!(history[1]["kind"], "alias_released");
    assert_eq!(history[1]["card_id"], "let_go");
    assert_eq!(history[1]["note"], "retired");
    store.bind_alias("champion", "let_go", None).unwrap();
    let entry = store.row("SELECT card_id FROM cb_aliases WHERE name = ?1", &["champion"]);
    assert_eq!(entry["card_id"], "let_go", "bound again");
    assert_eq!(store.query("SELECT * FROM cb_alias_log", &[]).len(), 3);
}

#[test]
fn a_rebuild_reproduces_the_bindings_and_their_history() {
    let dir = tempfile::tempdir().unwrap();
    let store = Store::open(dir.path());
    for id in ["re_one", "re_two"] {
        store.open_card(id, "cot");
        store.close_card(id, "ok", r#"{"stats":{"mean_score":0.5,"n":5}}"#);
    }
    store.bind_alias("champion", "re_one", None).unwrap();
    store.bind_alias("champion", "re_two", Some("moved")).unwrap();
    store.bind_alias("baseline", "re_one", None).unwrap();
    store.release_alias("baseline", Some("done with it"));
    let before = (
        store.query("SELECT * FROM cb_aliases ORDER BY name", &[]),
        store.query("SELECT * FROM cb_alias_log ORDER BY name, seq", &[]),
        store.query("SELECT * FROM cb_cards ORDER BY id", &[]),
    );
    let applied = store.rebuild();
    let after = (
        store.query("SELECT * FROM cb_aliases ORDER BY name", &[]),
        store.query("SELECT * FROM cb_alias_log ORDER BY name, seq", &[]),
        store.query("SELECT * FROM cb_cards ORDER BY id", &[]),
    );
    assert_eq!(before, after);
    assert_eq!(after.0.len(), 1);
    assert_eq!(after.0[0]["name"], "champion");
    assert_eq!(after.0[0]["card_id"], "re_two");
    assert_eq!(after.0[0]["note"], "moved");
    assert_eq!(after.1.len(), 4);
    // 2 cards x (card_opened + card_closed), 3 alias_bound, 1 alias_released.
    assert_eq!(applied, 8);
}

#[test]
fn a_database_written_under_the_old_projection_name_is_carried_forward() {
    let dir = tempfile::tempdir().unwrap();
    write_under_the_old_name(dir.path());
    let store = Store::open(dir.path());
    let one = store.row("SELECT * FROM cb_cards WHERE id = ?1", &["mig_one"]);
    assert_eq!(one["state"], "closed_ok");
    assert_eq!(one["pkg"], "cot");
    assert_eq!(one["created_by"], "the old build");
    assert_eq!(one["mean_score"], 0.4, "the close came back");
    assert_eq!(one["sample_batches"], 1);
    assert_eq!(one["sample_rows"], 2);
    let marks = store.query("SELECT consumer, position FROM checkpoints ORDER BY consumer", &[]);
    assert_eq!(marks.len(), 2);
    assert_eq!(marks[0]["consumer"], "cards_v1");
    assert_eq!(marks[1]["consumer"], "cards_v2");
    assert_eq!(
        marks[0]["position"], marks[1]["position"],
        "the retired cursor is not behind"
    );
    let rec = store.bind_alias("champion", "mig_two", None).unwrap();
    assert!(rec.is_some());
    let ids: Vec<serde_json::Value> = store
        .query("SELECT id FROM cb_cards ORDER BY opened_position DESC", &[])
        .iter()
        .map(|r| r["id"].clone())
        .collect();
    assert_eq!(ids, ["mig_two", "mig_one"]);
}

/// The same events, folded by a runner whose checkpoint is under `cards_v1`.
fn write_under_the_old_name(root: &Path) {
    let rt = tokio::runtime::Builder::new_current_thread()
        .enable_time()
        .build()
        .unwrap();
    let log = rt
        .block_on(SqliteEventLog::open(root.join("cards.db")))
        .unwrap();
    let mut runner = log.runner(Fold(CardsProjection::under("cards_v1"))).unwrap();
    rt.block_on(runner.init()).unwrap();
    let opened = r#"{"pkg":"cot","scenario":"arith","source":"eval","created_by":"the old build"}"#;
    let events = [
        ("card-mig_one", "card_opened", opened, r#"{"note":"before"}"#),
        (
            "card-mig_one",
            "samples_appended",
            "null",
            r#"{"n":2,"rows":[{"a":1},{"a":2}]}"#,
        ),
        (
            "card-mig_one",
            "card_closed",
            r#"{"outcome":"ok"}"#,
            r#"{"stats":{"mean_score":0.4,"n":2}}"#,
        ),
        ("card-mig_two", "card_opened", opened, "null"),
        (
            "card-mig_two",
            "card_closed",
            r#"{"outcome":"ok"}"#,
            r#"{"stats":{"mean_score":0.9,"n":6}}"#,
        ),
    ];
    for (stream, kind, meta, data) in events {
        let event = envelope(kind, json(meta).0, json(data).0);
        let mut handle = log.stream_handle(stream);
        rt.block_on(handle.append(map_of(&event))).unwrap();
    }
    rt.block_on(runner.catch_up()).unwrap();
    assert!(rt.block_on(log.checkpoint_load("cards_v1")).unwrap() > Position::BEGINNING);
    assert_eq!(
        rt.block_on(log.checkpoint_load(CardsProjection::NAME)).unwrap(),
        Position::BEGINNING
    );
}

// ------------------------------------------------------------------ read models

#[test]
fn a_read_right_after_a_write_sees_it() {
    let dir = tempfile::tempdir().unwrap();
    let store = Store::open(dir.path());
    store.open_card("fresh_1", "cot");
    let state = "SELECT state, sample_rows FROM cb_cards WHERE id = ?1";
    assert_eq!(store.row(state, &["fresh_1"])["state"], "open");
    store.while_open("fresh_1", "samples_appended", r#"{"n":1,"rows":[{"a":1}]}"#);
    assert_eq!(store.row(state, &["fresh_1"])["sample_rows"], 1);
    store.close_card("fresh_1", "failed", r#"{"error":"nope"}"#);
    assert_eq!(store.row(state, &["fresh_1"])["state"], "closed_failed");
    assert_eq!(
        store.catch_up(),
        0,
        "the reads left nothing for an explicit catch-up"
    );
}

#[test]
fn one_blob_saved_on_two_cards_is_counted_twice() {
    let dir = tempfile::tempdir().unwrap();
    let store = Store::open(dir.path());
    for id in ["ref_one", "ref_two"] {
        store.open_card(id, "cot");
        store.save_checkpoint(id, "the same weights");
        store.close_card(id, "ok", "{}");
    }
    let blob = store.row("SELECT hash, size, refs FROM cb_blobs", &[]);
    assert_eq!(blob["size"], 16);
    let named = store.query(
        "SELECT card_id FROM cb_checkpoints WHERE blob = ?1 ORDER BY card_id",
        &[blob["hash"].as_str().unwrap()],
    );
    assert_eq!(named.len(), 2);
    assert_eq!(named[0]["card_id"], "ref_one", "both cards name it");
    assert_eq!(blob["refs"], 2);
}

#[test]
fn a_rebuild_replays_the_log_and_reads_the_same() {
    let dir = tempfile::tempdir().unwrap();
    let store = Store::open(dir.path());
    let meta = r#"{"pkg":"cot","scenario":"arith","source":"eval","created_by":"x"}"#;
    store
        .append_if(
            "card-rebuilt_1",
            "unwritten",
            "card_opened",
            json(meta),
            json(r#"{"parents":["older_one"]}"#),
        )
        .unwrap();
    store.while_open("rebuilt_1", "samples_appended", r#"{"n":2,"rows":[{"a":1},{"a":2}]}"#);
    store.while_open("rebuilt_1", "eval_recorded", r#"{"mean_score":0.9,"n":2}"#);
    store.save_checkpoint("rebuilt_1", "weights");
    store.close_card(
        "rebuilt_1",
        "ok",
        r#"{"stats":{"mean_score":0.9,"n":2},"cost":{"elapsed_ms":7}}"#,
    );
    let tables = [
        "cb_cards",
        "cb_samples",
        "cb_evals",
        "cb_checkpoints",
        "cb_lineage",
        "cb_blobs",
    ];
    let read = |store: &Store| -> Vec<Vec<serde_json::Map<String, serde_json::Value>>> {
        tables
            .iter()
            .map(|t| store.query(&format!("SELECT * FROM {t}"), &[]))
            .collect()
    };
    let before = read(&store);
    let applied = store.rebuild();
    let after = read(&store);
    assert_eq!(before, after);
    let card = &after[0][0];
    assert_eq!(card["state"], "closed_ok");
    assert_eq!(card["sample_batches"], 1);
    assert_eq!(card["sample_rows"], 2);
    assert_eq!(card["eval_count"], 1);
    assert_eq!(card["checkpoint_count"], 1);
    assert_eq!(card["mean_score"], 0.9);
    assert_eq!(card["elapsed_ms"], 7);
    assert_eq!(after[1][0]["rows_json"], r#"[{"a":1},{"a":2}]"#);
    assert_eq!(after[4][0]["parent"], "older_one");
    assert_eq!(after[5].len(), 1);
    assert_eq!(after[5][0]["refs"], 1, "one reference, not two");
    // card_opened, samples_appended, eval_recorded, checkpoint_saved, card_closed.
    assert_eq!(applied, 5);
}

#[test]
fn a_second_open_leaves_the_first_one_the_cards_opening() {
    let dir = tempfile::tempdir().unwrap();
    let store = Store::open(dir.path());
    store.append("card-twice", "card_opened", json(r#"{"pkg":"first"}"#), null());
    store.append("card-twice", "card_opened", json(r#"{"pkg":"second"}"#), null());
    let row = store.row("SELECT pkg, opened_position FROM cb_cards", &[]);
    assert_eq!(row["pkg"], "first");
    assert_eq!(row["opened_position"], 1);
}

#[test]
fn an_event_on_the_wrong_stream_stops_the_fold() {
    let dir = tempfile::tempdir().unwrap();
    let store = Store::open(dir.path());
    store.append("elsewhere", "card_opened", null(), null());
    let err = store
        .rt
        .block_on(store.cards.borrow_mut().catch_up())
        .unwrap_err()
        .to_string();
    assert!(
        err.contains(
            "a \"card_opened\" event is on stream \"elsewhere\", which is not a card's: a card's stream is card-<id>"
        ),
        "{err}"
    );
}

#[test]
fn the_projection_says_what_the_fold_says() {
    let dir = tempfile::tempdir().unwrap();
    let store = Store::open(dir.path());
    let meta = r#"{"pkg":"cot","scenario":"arith","source":"eval","created_by":"cardbox 0.1.0"}"#;
    let data = r#"{"parents":["older_one","older_two"],"note":"the first one"}"#;
    store
        .append_if("card-both_ways", "unwritten", "card_opened", json(meta), json(data))
        .unwrap();
    store.while_open(
        "both_ways",
        "samples_appended",
        r#"{"n":2,"rows":[{"q":"1+1","a":2},{"q":"2+2","a":4}]}"#,
    );
    store.while_open("both_ways", "samples_appended", r#"{"n":1,"rows":[{"q":"3+3","a":5}]}"#);
    store.while_open("both_ways", "eval_recorded", r#"{"mean_score":0.75,"n":3}"#);
    let hash = store.save_checkpoint("both_ways", "the weights");
    store.close_card(
        "both_ways",
        "ok",
        r#"{"stats":{"mean_score":0.75,"n":3,"pass_rate":0.67,"passed":2},"cost":{"elapsed_ms":1200,"llm_calls":9}}"#,
    );
    let card = store.row("SELECT * FROM cb_cards", &[]);
    assert_eq!(card["id"], "both_ways");
    assert_eq!(card["created_by"], "cardbox 0.1.0");
    assert_eq!(card["note"], "the first one");
    assert_eq!(card["state"], "closed_ok");
    assert_eq!(card["sample_batches"], 2);
    assert_eq!(card["sample_rows"], 3);
    assert_eq!(card["eval_count"], 1);
    assert_eq!(card["checkpoint_count"], 1);
    assert_eq!(card["passed"], 2);
    assert_eq!(card["pass_rate"], 0.67);
    assert_eq!(card["llm_calls"], 9);
    assert_eq!(
        card["stats_json"],
        r#"{"mean_score":0.75,"n":3,"pass_rate":0.67,"passed":2}"#
    );
    let stream = store.read_stream("card-both_ways", None);
    assert_eq!(card["opened_ms"], stream[0].epoch_ms);
    assert_eq!(card["closed_ms"], stream[5].epoch_ms);
    let parents = store.query("SELECT parent FROM cb_lineage ORDER BY parent", &[]);
    assert_eq!(parents[0]["parent"], "older_one");
    assert_eq!(parents[1]["parent"], "older_two");
    let eval = store.row("SELECT seq, data_json FROM cb_evals", &[]);
    assert_eq!(eval["seq"], 4);
    assert_eq!(eval["data_json"], r#"{"mean_score":0.75,"n":3}"#);
    let checkpoint = store.row("SELECT * FROM cb_checkpoints", &[]);
    assert_eq!(checkpoint["blob"], hash);
    assert_eq!(checkpoint["size"], 11);
    assert_eq!(checkpoint["format"], "safetensors");
    assert_eq!(hash, blob_of(b"the weights").hash);
    // The stream, added up event by event, is the same card.
    let of = |kind: &str| -> Vec<&Recorded> { stream.iter().filter(|e| e.kind == kind).collect() };
    assert_eq!(card["sample_batches"], of("samples_appended").len());
    let rows: u64 = of("samples_appended")
        .iter()
        .map(|e| field(&e.data, "n").as_u64().unwrap())
        .sum();
    assert_eq!(card["sample_rows"], rows);
    assert_eq!(card["eval_count"], of("eval_recorded").len());
    assert_eq!(card["checkpoint_count"], of("checkpoint_saved").len());
    let opened = of("card_opened")[0];
    for column in ["pkg", "scenario", "source", "created_by"] {
        assert_eq!(card[column].as_str(), field(&opened.meta, column).as_str(), "{column}");
    }
    let closed = of("card_closed")[0];
    let stats = field(&closed.data, "stats");
    assert_eq!(card["passed"].as_u64(), stats.get("passed").unwrap().as_u64());
    assert_eq!(card["n"].as_u64(), stats.get("n").unwrap().as_u64());
    let cost = field(&closed.data, "cost");
    assert_eq!(card["elapsed_ms"].as_u64(), cost.get("elapsed_ms").unwrap().as_u64());
    assert!(card["error"].is_null());
}

#[test]
fn a_row_says_open_as_long_as_the_decision_does() {
    let dir = tempfile::tempdir().unwrap();
    let store = Store::open(dir.path());
    let is_open = |id: &str| -> bool {
        let probe = append_if(
            &card_stream(id),
            "open_unclosed",
            "samples_appended",
            null(),
            null(),
        )
        .unwrap();
        let seen: Vec<Event> = store
            .read_stream(&card_stream(id), None)
            .into_iter()
            .map(|r| envelope(&r.kind, r.meta.0, r.data.0))
            .collect();
        probe.decide(&seen).is_some()
    };
    store.open_card("a", "cot");
    store.open_card("b", "cot");
    store.close_card("b", "ok", "{}");
    let state = "SELECT state FROM cb_cards WHERE id = ?1";
    assert!(is_open("a"));
    assert_eq!(store.row(state, &["a"])["state"], "open");
    assert!(!is_open("b"));
    assert_eq!(store.row(state, &["b"])["state"], "closed_ok");
    assert!(!is_open("c"));
    assert!(store.query(state, &["c"]).is_empty());
}

#[test]
fn a_later_pointer_keeps_the_size_it_does_not_name() {
    let dir = tempfile::tempdir().unwrap();
    let store = Store::open(dir.path());
    store.open_card("a", "cot");
    store.while_open("a", "checkpoint_saved", r#"{"blob":"h","size":7}"#);
    store.while_open("a", "samples_appended", r#"{"n":1,"blob":"h"}"#);
    let blob = store.row("SELECT * FROM cb_blobs", &[]);
    assert_eq!(blob["size"], 7);
    assert_eq!(blob["refs"], 2);
    store.while_open("a", "samples_appended", r#"{"n":1,"blob":"h","size":8}"#);
    let blob = store.row("SELECT * FROM cb_blobs", &[]);
    assert_eq!(blob["size"], 8);
    assert_eq!(blob["refs"], 3);
}

#[test]
fn a_collection_takes_only_what_nothing_points_at() {
    let dir = tempfile::tempdir().unwrap();
    let store = Store::open(dir.path());
    store.open_card("a", "cot");
    let kept = store.save_checkpoint("a", "the shared weights");
    store.catch_up();
    let orphans: Vec<(String, i64)> = store
        .rt
        .block_on(store.log.with_transaction(|tx| {
            tx.execute(
                "INSERT INTO cb_blobs (hash, size, refs) VALUES ('gone', 5, 0), ('gone too', NULL, -1)",
                [],
            )
            .map_err(storage)?;
            let mut stmt = tx.prepare(ORPHANS).map_err(storage)?;
            let rows = stmt
                .query_map([], |row| Ok((row.get::<_, String>(0)?, row.get::<_, i64>(1)?)))
                .map_err(storage)?
                .collect::<Result<Vec<_>, _>>()
                .map_err(storage)?;
            drop(stmt);
            tx.execute(FORGET_ORPHANS, []).map_err(storage)?;
            Ok(rows)
        }))
        .unwrap();
    let mut gc = BlobGc::new(orphans).unwrap();
    let mut removed: Vec<String> = Vec::new();
    let report = loop {
        match gc.step() {
            GcStep::Remove { hash } => {
                removed.push(hash);
                gc = gc.removed(Removal::Removed).unwrap();
            }
            GcStep::Done(report) => break report,
        }
    };
    removed.sort();
    assert_eq!(removed, ["gone", "gone too"]);
    assert_eq!((report.deleted, report.bytes), (2, 5));
    let left = store.row("SELECT hash, refs FROM cb_blobs", &[]);
    assert_eq!(left["hash"], kept);
    assert_eq!(left["refs"], 1);
}

// ------------------------------------------------------------------ moving the log

#[test]
fn an_export_imports_into_a_fresh_store_as_the_same_log() {
    let dir = tempfile::tempdir().unwrap();
    let store = Store::open(dir.path());
    for id in ["one", "two"] {
        store.open_card(id, "cot");
        store.while_open(id, "samples_appended", r#"{"n":1,"rows":[{"q":1,"a":2}]}"#);
        store.close_card(id, "ok", r#"{"stats":{"mean_score":0.5,"n":1}}"#);
    }
    store.bind_alias("champion", "two", None).unwrap();
    let (text, report) = store.export();
    assert_eq!(report.file.as_deref(), Some("the file"));
    assert_eq!(report.events, 7);
    assert_eq!(report.from, 0, "from the beginning of the log");
    assert_eq!(report.through, 7);

    let fresh = tempfile::tempdir().unwrap();
    let into = Store::open(fresh.path());
    let report = into.import(&text).unwrap();
    assert_eq!(report.events, 7);
    assert!(
        report.reproduced_coordinates,
        "the same log, not merely the same events"
    );
    let one = into.row("SELECT * FROM cb_cards WHERE id = ?1", &["one"]);
    assert_eq!(one["state"], "closed_ok");
    assert_eq!(one["sample_rows"], 1);
    assert_eq!(one["mean_score"], 0.5);
    let champion = into.row("SELECT card_id FROM cb_aliases WHERE name = ?1", &["champion"]);
    assert_eq!(champion["card_id"], "two");
    let ids: Vec<serde_json::Value> = into
        .query("SELECT id FROM cb_cards ORDER BY id", &[])
        .iter()
        .map(|r| r["id"].clone())
        .collect();
    assert_eq!(ids, ["one", "two"]);
    // Exported again, the copy is the text it was made of.
    assert_eq!(into.export().0, text);
}

#[test]
fn a_second_export_with_nothing_new_writes_no_file() {
    let dir = tempfile::tempdir().unwrap();
    let store = Store::open(dir.path());
    store.open_card("once", "cot");
    store.while_open("once", "samples_appended", r#"{"n":1}"#);
    store.close_card("once", "ok", "{}");
    let (_, first) = store.export();
    assert!(first.file.is_some());
    assert_eq!(first.events, 3);
    let (text, again) = store.export();
    assert!(again.file.is_none(), "no file");
    assert_eq!(again.events, 0);
    assert_eq!(again.from, first.through, "and it starts where the first one ended");
    assert_eq!(again.through, first.through, "having gone nowhere");
    assert_eq!(text, "");
}

#[test]
fn retaining_before_exporting_is_refused_and_says_to_export() {
    let dir = tempfile::tempdir().unwrap();
    let store = Store::open(dir.path());
    store.open_card("unexported", "cot");
    store.while_open("unexported", "samples_appended", r#"{"n":1}"#);
    store.close_card("unexported", "ok", "{}");
    let err = store.retain_streams(&["card-unexported"]).unwrap_err();
    assert_eq!(
        store.read_stream("card-unexported", None).len(),
        3,
        "the card is all still there"
    );
    assert!(err.contains("export"), "{err}");
    assert!(err.contains("confirmed exports reach only"), "{err}");
}

#[test]
fn what_was_exported_can_be_removed() {
    let dir = tempfile::tempdir().unwrap();
    let store = Store::open(dir.path());
    store.open_card("gone", "cot");
    store.close_card("gone", "ok", "{}");
    store.open_card("kept", "cot");
    store.export();
    assert_eq!(
        store.retain_streams(&["card-gone", "card-never"]).unwrap(),
        (2, 1)
    );
    assert!(store.read_stream("card-gone", None).is_empty());
    assert_eq!(store.read_stream("card-kept", None).len(), 1);
}

// ------------------------------------------------------------------ prune

#[test]
fn a_pruned_card_leaves_its_stream_its_rows_and_nothing_else() {
    let dir = tempfile::tempdir().unwrap();
    let store = Store::open(dir.path());
    store.a_card("debris_one", "_test_arith");
    store.a_card("keeper", "cot");
    let kept = store.row("SELECT * FROM cb_cards WHERE id = ?1", &["keeper"]);
    let report = store.prune(&["debris_one"], "test debris from the smoke run");
    // card_opened + samples_appended + card_closed
    assert_eq!(report.events_removed, 3);
    assert!(
        store.read_stream("card-debris_one", None).is_empty(),
        "the stream reads empty"
    );
    assert!(
        store
            .query("SELECT id FROM cb_cards WHERE id = ?1", &["debris_one"])
            .is_empty(),
        "the cb_cards row is gone"
    );
    for table in ["cb_samples", "cb_evals", "cb_checkpoints", "cb_tags"] {
        let sql = format!("SELECT card_id FROM {table} WHERE card_id = ?1");
        assert!(store.query(&sql, &["debris_one"]).is_empty(), "{table}");
    }
    assert_eq!(
        store.row("SELECT * FROM cb_cards WHERE id = ?1", &["keeper"]),
        kept,
        "the other card is still here"
    );
    assert_eq!(
        store.query("SELECT seq FROM cb_samples WHERE card_id = ?1", &["keeper"]).len(),
        1
    );
    assert_eq!(store.read_stream("card-keeper", None).len(), 3);
    let log = store.read_stream("prune", None);
    assert_eq!(log.len(), 1);
    assert_eq!(log[0].kind, "cards_pruned");
    assert_eq!(field(&log[0].meta, "count"), &Json::Number(Number::PosInt(1)));
    assert_eq!(
        field(&log[0].meta, "reason"),
        &Json::String("test debris from the smoke run".to_string())
    );
    assert_eq!(
        field(&log[0].data, "cards"),
        &Json::Array(vec![Json::String("debris_one".to_string())])
    );
    // The export is JSON Lines: two cards, three events each.
    let lines: Vec<&str> = report.export.lines().collect();
    assert_eq!(lines.len(), 6, "two cards, three events each");
    for line in lines {
        let value: serde_json::Value = serde_json::from_str(line).unwrap();
        assert!(value.get("stream").and_then(|s| s.as_str()).is_some());
        assert!(value.get("event").and_then(|e| e.get("kind")).is_some());
    }
}

#[test]
fn a_shared_blob_survives_the_first_card_that_used_it() {
    let dir = tempfile::tempdir().unwrap();
    let store = Store::open(dir.path());
    let with_checkpoint = |id: &str, pkg: &str, bytes: &str| -> String {
        store.open_card(id, pkg);
        let hash = store.save_checkpoint(id, bytes);
        store.close_card(id, "ok", "{}");
        hash
    };
    // The same bytes in two cards are one blob, because a blob is named by its bytes.
    with_checkpoint("debris_blob", "_test_blob", "the shared weights");
    let shared = with_checkpoint("keeper_blob", "cot", "the shared weights");
    let refused = store.append_if(
        "card-debris_blob",
        "open_unclosed",
        "checkpoint_saved",
        null(),
        null(),
    );
    assert!(refused.unwrap().is_none(), "the card is closed");
    let alone = with_checkpoint("debris_lonely", "_test_blob", "its own weights");
    assert_ne!(shared, alone, "two different blobs");
    let refs = "SELECT refs FROM cb_blobs WHERE hash = ?1";
    assert_eq!(store.row(refs, &[&shared])["refs"], 2, "two refs");
    let report = store.prune(&["debris_blob", "debris_lonely"], "blob refcount test");
    assert_eq!(report.blobs_deleted, 1);
    assert_eq!(
        store.row(refs, &[&shared])["refs"],
        1,
        "the shared blob kept one reference"
    );
    assert!(store.query(refs, &[&alone]).is_empty(), "the row went");
    assert_eq!(
        store.blob_get(&shared).unwrap(),
        b"the shared weights",
        "and the bytes are still readable"
    );
    assert!(store.blob_get(&alone).is_none(), "the lonely blob is gone");
}

#[test]
fn a_card_that_names_a_blob_twice_gives_both_back() {
    let dir = tempfile::tempdir().unwrap();
    let store = Store::open(dir.path());
    store.open_card("twice", "cot");
    let hash = store.save_checkpoint("twice", "w");
    store.while_open(
        "twice",
        "samples_appended",
        &format!(r#"{{"n":1,"blob":"{hash}","size":1}}"#),
    );
    store.open_card("once", "cot");
    store.save_checkpoint("once", "w");
    let refs = "SELECT refs FROM cb_blobs WHERE hash = ?1";
    assert_eq!(store.row(refs, &[&hash])["refs"], 3);
    store.append("prune", "cards_pruned", null(), json(r#"{"cards":["twice","twice"]}"#));
    assert_eq!(store.row(refs, &[&hash])["refs"], 1, "named twice, given back once");
    store.append("prune", "cards_pruned", null(), json(r#"{"cards":["once"]}"#));
    assert_eq!(store.row(refs, &[&hash])["refs"], 0);
    let report = store.blob_gc();
    assert_eq!((report.deleted, report.bytes), (1, 1));
    assert!(store.query(refs, &[&hash]).is_empty());
    store.open_card("again", "cot");
    store.save_checkpoint("again", "w");
    assert_eq!(store.row(refs, &[&hash])["refs"], 1, "counted on from nothing");
}

#[test]
fn a_rebuild_after_a_prune_reproduces_the_same_read_models() {
    let dir = tempfile::tempdir().unwrap();
    let store = Store::open(dir.path());
    store.a_card("debris_rb", "_test_rb");
    store.a_card("keeper_rb", "cot");
    store.bind_alias("champion", "keeper_rb", None).unwrap();
    store.open_card("debris_blob", "_test_rb");
    store.save_checkpoint("debris_blob", "weights");
    store.close_card("debris_blob", "ok", "{}");
    store.open_card("keeper_blob", "cot");
    store.save_checkpoint("keeper_blob", "weights");
    store.prune(&["debris_rb", "debris_blob"], "rebuild test");
    let tables = [
        "cb_cards",
        "cb_samples",
        "cb_evals",
        "cb_checkpoints",
        "cb_lineage",
        "cb_tags",
        "cb_blobs",
        "cb_aliases",
        "cb_alias_log",
    ];
    let read = |store: &Store| -> Vec<Vec<serde_json::Map<String, serde_json::Value>>> {
        tables
            .iter()
            .map(|t| store.query(&format!("SELECT * FROM {t} ORDER BY 1, 2"), &[]))
            .collect()
    };
    let before = read(&store);
    let applied = store.rebuild();
    assert!(applied > 0, "it replayed something");
    assert_eq!(read(&store), before, "nothing else changed");
    assert!(
        store
            .query("SELECT id FROM cb_cards WHERE id = ?1", &["debris_rb"])
            .is_empty(),
        "still gone"
    );
    let after = store.row("SELECT * FROM cb_cards WHERE id = ?1", &["keeper_rb"]);
    assert_eq!(after["state"], "closed_ok");
    assert_eq!(after["sample_rows"], 1);
    assert_eq!(after["mean_score"], 0.5, "stats survived the replay");
    let alias = store.row("SELECT name FROM cb_aliases WHERE card_id = ?1", &["keeper_rb"]);
    assert_eq!(alias["name"], "champion", "and the alias");
    assert_eq!(store.read_stream("prune", None).len(), 1, "one entry of the journal");
    assert!(
        store.query("SELECT hash FROM cb_blobs WHERE refs < 0", &[]).is_empty(),
        "no reference count went below zero"
    );
    assert_eq!(store.row("SELECT refs FROM cb_blobs", &[])["refs"], 1);
}

#[test]
fn a_prune_takes_the_lines_a_card_is_the_child_of() {
    let dir = tempfile::tempdir().unwrap();
    let store = Store::open(dir.path());
    for (id, parent) in [("child", "gone"), ("gone", "older")] {
        store.append(
            &card_stream(id),
            "card_opened",
            null(),
            json(&format!(r#"{{"parents":["{parent}"]}}"#)),
        );
    }
    store.append("prune", "cards_pruned", null(), json(r#"{"cards":["gone"]}"#));
    let line = store.row("SELECT child, parent FROM cb_lineage", &[]);
    assert_eq!(line["child"], "child");
    assert_eq!(line["parent"], "gone");
}

// ------------------------------------------------------------------ what is said about a run

#[test]
fn params_and_identity_are_written_at_the_open_and_read_back_whole() {
    let dir = tempfile::tempdir().unwrap();
    let store = Store::open(dir.path());
    let params = r#"{"temperature":0.2,"thresholds":[1,2],"variant":"b"}"#;
    let print = digest(&json(params));
    assert_eq!(print.len(), 16);
    let meta = format!(
        r#"{{"pkg":"cot","scenario":"arith","source":"eval","created_by":"x","model":"m-large","trace_id":"tr-9","work_url":"file:///tmp/t9","fingerprint":"{print}"}}"#
    );
    let data = format!(r#"{{"params":{params}}}"#);
    store
        .append_if("card-p1", "unwritten", "card_opened", json(&meta), json(&data))
        .unwrap();
    let view = store.row("SELECT * FROM cb_cards WHERE id = ?1", &["p1"]);
    assert_eq!(view["model"], "m-large");
    assert_eq!(view["trace_id"], "tr-9");
    assert_eq!(view["work_url"], "file:///tmp/t9");
    assert_eq!(view["fingerprint"], print, "the fingerprint is on the card");
    assert_eq!(view["params_json"], params, "params read back");
    // The same knobs in another order print the same; a different value does not.
    let same = digest(&json(r#"{"thresholds":[1,2],"variant":"b","temperature":0.2}"#));
    let other = digest(&json(r#"{"thresholds":[1,2],"variant":"b","temperature":0.3}"#));
    assert_eq!(print, same, "order does not change the fingerprint");
    assert_ne!(print, other, "a value does");
    store.open_card("p4", "cot");
    let bare = store.row("SELECT fingerprint, params_json FROM cb_cards WHERE id = ?1", &["p4"]);
    assert!(bare["fingerprint"].is_null() && bare["params_json"].is_null());
}

#[test]
fn a_card_is_found_by_its_params_its_model_and_its_fingerprint() {
    let dir = tempfile::tempdir().unwrap();
    let store = Store::open(dir.path());
    let adam = r#"{"lr":0.1,"opt":{"name":"adam"}}"#;
    let sgd = r#"{"lr":0.5,"opt":{"name":"sgd"}}"#;
    for (id, params, model) in [("f1", adam, "m-a"), ("f2", sgd, "m-b"), ("f3", adam, "m-b")] {
        let print = digest(&json(params));
        let meta = format!(r#"{{"pkg":"cot","model":"{model}","fingerprint":"{print}"}}"#);
        let data = format!(r#"{{"params":{params}}}"#);
        store
            .append_if(&card_stream(id), "unwritten", "card_opened", json(&meta), json(&data))
            .unwrap();
    }
    let ids = |clause: &str, params: &[&str]| -> String {
        let sql = format!("SELECT id FROM cb_cards WHERE {clause} ORDER BY id");
        let rows = store.query(&sql, params);
        let ids: Vec<&str> = rows.iter().map(|r| r["id"].as_str().unwrap()).collect();
        ids.join(",")
    };
    let print = digest(&json(adam));
    assert_eq!(ids("json_extract(params_json, '$.opt.name') = ?1", &["adam"]), "f1,f3");
    assert_eq!(ids("json_extract(params_json, '$.lr') > 0.2", &[]), "f2");
    assert_eq!(ids("model = ?1", &["m-b"]), "f2,f3");
    assert_eq!(ids("fingerprint = ?1", &[&print]), "f1,f3");
    assert_eq!(ids("fingerprint = ?1 AND model = ?2", &[&print, "m-b"]), "f3");
}

#[test]
fn an_eval_is_taken_on_a_closed_card_and_carries_its_source() {
    let dir = tempfile::tempdir().unwrap();
    let store = Store::open(dir.path());
    store.open_card("e1", "cot");
    let own = store.about("e1", "eval_recorded", r#"{"source":"code"}"#, r#"{"score":0.7}"#);
    assert_eq!(field(&own.unwrap().meta, "source"), &Json::String("code".to_string()));
    store.close_card("e1", "ok", r#"{"stats":{"mean_score":0.7}}"#);
    let judge = r#"{"plugin":"judge","score":0.6}"#;
    let judged = store.about("e1", "eval_recorded", r#"{"source":"llm_judge"}"#, judge);
    assert!(judged.is_some());
    let seen = store.about(
        "e1",
        "eval_recorded",
        r#"{"source":"human"}"#,
        r#"{"verdict":"ship"}"#,
    );
    assert!(seen.is_some());
    let count = store.row("SELECT eval_count FROM cb_cards WHERE id = ?1", &["e1"]);
    assert_eq!(count["eval_count"], 3, "all three counted");
    let none = store.about("nobody", "eval_recorded", r#"{"source":"code"}"#, r#"{"x":1}"#);
    assert!(none.is_none(), "no card was opened");
    let rows = store.append_if(
        "card-e1",
        "open_unclosed",
        "samples_appended",
        null(),
        json(r#"{"n":1,"rows":[{"q":1}]}"#),
    );
    assert!(rows.unwrap().is_none(), "samples are still refused");
    let sources: Vec<serde_json::Value> = store
        .query("SELECT source FROM cb_evals WHERE card_id = ?1 ORDER BY seq", &["e1"])
        .iter()
        .map(|r| r["source"].clone())
        .collect();
    assert_eq!(sources, ["code", "llm_judge", "human"]);
}

#[test]
fn a_tag_moves_and_the_fold_and_the_table_agree() {
    let dir = tempfile::tempdir().unwrap();
    let store = Store::open(dir.path());
    store.open_card("t1", "cot");
    store.open_card("t2", "cot");
    store.close_card("t1", "ok", "{}");
    let tag = |id: &str, key: &str, value: &str| {
        let meta = format!(r#"{{"key":"{key}","value":"{value}"}}"#);
        assert!(store.about(id, "tag_set", &meta, "null").is_some());
    };
    tag("t1", "stage", "staging");
    tag("t1", "stage", "prod");
    tag("t1", "review.verdict", "ship");
    tag("t2", "stage", "staging");
    let tags = |id: &str| -> Vec<String> {
        store
            .query("SELECT key, value FROM cb_tags WHERE card_id = ?1 ORDER BY key", &[id])
            .iter()
            .map(|r| format!("{}={}", r["key"].as_str().unwrap(), r["value"].as_str().unwrap()))
            .collect()
    };
    assert_eq!(tags("t1"), ["review.verdict=ship", "stage=prod"], "current values");
    let found = "SELECT card_id FROM cb_tags WHERE key = 'stage' AND value = ?1";
    assert_eq!(store.row(found, &["prod"])["card_id"], "t1", "found by tag");
    assert!(store.query(found, &["dev"]).is_empty());
    assert!(store.about("t1", "tag_unset", r#"{"key":"stage"}"#, "null").is_some());
    assert_eq!(tags("t1"), ["review.verdict=ship"], "gone from the table");
    assert_eq!(tags("t2"), ["stage=staging"]);
    assert!(
        store.about("nobody", "tag_unset", r#"{"key":"k"}"#, "null").is_none(),
        "no card was opened"
    );
    let events = store.read_stream("card-t1", Some(&["tag_set", "tag_unset"]));
    let said: Vec<String> = events
        .iter()
        .map(|e| {
            let text = |key: &str| match e.meta.0.get(key) {
                Some(Json::String(s)) => s.clone(),
                _ => "nil".to_string(),
            };
            format!("{}:{}={}", e.kind, text("key"), text("value"))
        })
        .collect();
    assert_eq!(
        said,
        [
            "tag_set:stage=staging",
            "tag_set:stage=prod",
            "tag_set:review.verdict=ship",
            "tag_unset:stage=nil",
        ]
    );
}

#[test]
fn a_prune_takes_the_tags_and_a_rebuild_puts_the_rest_back() {
    let dir = tempfile::tempdir().unwrap();
    let store = Store::open(dir.path());
    for (id, stage) in [("pr1", "dev"), ("pr2", "prod")] {
        store.open_card(id, "cot");
        store.close_card(id, "ok", "{}");
        let meta = format!(r#"{{"key":"stage","value":"{stage}"}}"#);
        store.about(id, "tag_set", &meta, "null");
    }
    store.prune(&["pr1"], "test");
    assert!(store.rebuild() > 0, "replayed");
    let left: Vec<String> = store
        .query("SELECT card_id, value FROM cb_tags ORDER BY card_id", &[])
        .iter()
        .map(|r| {
            format!("{}={}", r["card_id"].as_str().unwrap(), r["value"].as_str().unwrap())
        })
        .collect();
    assert_eq!(left, ["pr2=prod"]);
}

#[test]
fn a_read_gives_back_what_each_write_answered() {
    let dir = tempfile::tempdir().unwrap();
    let store = Store::open(dir.path());
    let same = |a: &Recorded, b: &Recorded| {
        a.stream == b.stream
            && a.seq == b.seq
            && a.position == b.position
            && a.epoch_ms == b.epoch_ms
            && a.kind == b.kind
            && a.meta.0 == b.meta.0
            && a.data.0 == b.data.0
    };
    let first = store.append("card-r", "card_opened", json(r#"{"pkg":"cot"}"#), json(r#"{"n":3}"#));
    store.append("card-other", "card_opened", null(), null());
    let second = store.append("card-r", "card_closed", null(), null());
    let all = store.read_stream("card-r", None);
    assert_eq!(all.len(), 2);
    assert!(same(&all[0], &first));
    assert_eq!(all[1].position, second.position);
    assert_eq!(all[1].seq, 2);
    assert_eq!(second.meta.0, Json::Null, "the write answers null where there was nothing");
    assert_eq!(all[1].meta.0, Json::Object(vec![]), "and the read an empty object");
    assert_eq!(all[1].data.0, Json::Object(vec![]));
    let closed = store.read_stream("card-r", Some(&["card_closed"]));
    assert_eq!(closed.len(), 1);
    assert!(same(&closed[0], &all[1]));
    assert!(store.read_stream("card-r", Some(&[])).is_empty());
}

// ------------------------------------------------------------------ a card's life

#[test]
fn a_card_takes_samples_an_eval_and_a_checkpoint_and_then_closes() {
    let dir = tempfile::tempdir().unwrap();
    let store = Store::open(dir.path());
    let id = "cot_arith_one";
    let meta = r#"{"pkg":"cot","scenario":"arith","source":"eval","created_by":"cardbox 0.1.0"}"#;
    let data = r#"{"parents":["cot_arith_20260101T000000_abcdef"],"note":"the first one"}"#;
    let card = store
        .append_if(&card_stream(id), "unwritten", "card_opened", json(meta), json(data))
        .unwrap()
        .unwrap();
    assert_eq!(card.stream, "card-cot_arith_one");
    let view = "SELECT * FROM cb_cards WHERE id = ?1";
    assert_eq!(store.row(view, &[id])["state"], "open");
    store.while_open(
        id,
        "samples_appended",
        r#"{"n":2,"rows":[{"q":"1+1","a":2},{"q":"2+2","a":4}]}"#,
    );
    store.while_open(id, "samples_appended", r#"{"n":1,"rows":[{"q":"3+3","a":5}]}"#);
    store.while_open(
        id,
        "eval_recorded",
        r#"{"mean_score":0.75,"n":3,"failures":["3+3"]}"#,
    );
    let blob = store.save_checkpoint(id, "the weights");
    store.close_card(
        id,
        "ok",
        r#"{"stats":{"mean_score":0.75,"n":3,"pass_rate":0.67,"passed":2},"cost":{"elapsed_ms":1200,"llm_calls":9}}"#,
    );
    let view = store.row(view, &[id]);
    assert_eq!(view["state"], "closed_ok");
    assert_eq!((&view["pkg"], &view["scenario"]), (&"cot".into(), &"arith".into()));
    assert_eq!(view["source"], "eval");
    assert_eq!(view["created_by"], "cardbox 0.1.0");
    assert_eq!(view["note"], "the first one");
    assert_eq!(
        store.query("SELECT parent FROM cb_lineage WHERE child = ?1", &[id]).len(),
        1
    );
    assert_eq!(view["sample_batches"], 2);
    assert_eq!(view["sample_rows"], 3);
    assert_eq!(view["eval_count"], 1);
    let checkpoint = store.row("SELECT * FROM cb_checkpoints WHERE card_id = ?1", &[id]);
    assert_eq!(checkpoint["format"], "safetensors");
    assert_eq!(checkpoint["size"], 11);
    assert_eq!(view["passed"], 2, "the stats came back");
    assert_eq!(view["llm_calls"], 9, "the cost came back");
    assert!(view["error"].is_null(), "a card closed ok carries no error");
    assert!(view["opened_ms"].as_i64().unwrap() > 0);
    assert!(view["closed_ms"].as_i64() >= view["opened_ms"].as_i64());
    assert_eq!(checkpoint["blob"], blob);
    assert_eq!(blob, blob_of(b"the weights").hash);
}

#[test]
fn a_run_that_failed_leaves_a_card_saying_so() {
    let dir = tempfile::tempdir().unwrap();
    let store = Store::open(dir.path());
    store.open_card("failed_run", "cot");
    store.close_card(
        "failed_run",
        "failed",
        r#"{"error":"the provider timed out after 3 retries","cost":{"elapsed_ms":90000,"llm_calls":3}}"#,
    );
    let closed = store.read_stream("card-failed_run", Some(&["card_closed"]));
    assert_eq!(
        field(&closed[0].meta, "outcome"),
        &Json::String("failed".to_string())
    );
    let view = store.row("SELECT * FROM cb_cards WHERE id = ?1", &["failed_run"]);
    assert_eq!(view["state"], "closed_failed");
    assert_eq!(view["sample_batches"], 0, "it produced nothing");
    assert_eq!(view["eval_count"], 0);
    assert_eq!(view["elapsed_ms"], 90000, "what it cost is still recorded");
    assert_eq!(view["error"], "the provider timed out after 3 retries");
}

#[test]
fn samples_are_refused_before_the_open_and_after_the_close_with_different_words() {
    let dir = tempfile::tempdir().unwrap();
    let store = Store::open(dir.path());
    let samples = |id: &str| {
        let data = json(r#"{"n":1,"rows":[{"a":1}]}"#);
        store
            .append_if(&card_stream(id), "open_unclosed", "samples_appended", null(), data)
            .unwrap()
    };
    assert!(samples("nobody_home").is_none(), "nothing is written to a card never opened");
    store.open_card("shut_1", "cot");
    store.close_card("shut_1", "ok", "{}");
    assert!(samples("shut_1").is_none(), "nothing is written to a closed card");
    let view = store.row("SELECT sample_batches FROM cb_cards WHERE id = ?1", &["shut_1"]);
    assert_eq!(view["sample_batches"], 0);
    // The two ways of being outside the open span are told apart by the opening.
    let opened = |id: &str| store.read_stream(&card_stream(id), Some(&["card_opened"])).len();
    assert_eq!(opened("nobody_home"), 0);
    assert_eq!(opened("shut_1"), 1);
}

#[test]
fn opening_the_same_id_twice_is_refused_and_the_message_names_it() {
    let dir = tempfile::tempdir().unwrap();
    let store = Store::open(dir.path());
    store.open_card("only_once", "cot");
    let meta = r#"{"pkg":"cot","scenario":"arith","source":"eval","created_by":"x"}"#;
    let second = store.append_if(
        "card-only_once",
        "unwritten",
        "card_opened",
        json(meta),
        null(),
    );
    assert!(second.unwrap().is_none(), "the second open writes nothing");
    assert_eq!(
        store.read_stream("card-only_once", Some(&["card_opened"])).len(),
        1,
        "one open event"
    );
}

#[test]
fn closing_twice_is_refused() {
    let dir = tempfile::tempdir().unwrap();
    let store = Store::open(dir.path());
    store.open_card("closer_1", "cot");
    store.close_card("closer_1", "ok", "{}");
    let second = store.append_if(
        "card-closer_1",
        "closed_absent",
        "card_closed",
        json(r#"{"outcome":"failed"}"#),
        json(r#"{"error":"no"}"#),
    );
    assert!(second.unwrap().is_none(), "the second close writes nothing");
    assert_eq!(
        store.read_stream("card-closer_1", Some(&["card_closed"])).len(),
        1,
        "one close event"
    );
    let view = store.row("SELECT state FROM cb_cards WHERE id = ?1", &["closer_1"]);
    assert_eq!(view["state"], "closed_ok");
}

#[test]
fn a_batch_over_the_inline_limit_lands_in_a_blob() {
    let dir = tempfile::tempdir().unwrap();
    let store = Store::open(dir.path());
    store.open_card("big_one", "cot");
    let payload = "x".repeat(2000);
    let rows: Vec<Json> = (1..=40u64)
        .map(|i| {
            Json::Object(vec![
                ("i".to_string(), Json::Number(Number::PosInt(i))),
                ("payload".to_string(), Json::String(payload.clone())),
            ])
        })
        .collect();
    let text = json_encode(&Json::Array(rows));
    let blob = blob_of(text.as_bytes());
    assert!(blob.size > 64 * 1024, "{}", blob.size);
    store
        .blobs
        .borrow_mut()
        .insert(blob.hash.clone(), text.clone().into_bytes());
    store.while_open(
        "big_one",
        "samples_appended",
        &format!(r#"{{"n":40,"blob":"{}","size":{}}}"#, blob.hash, blob.size),
    );
    let events = store.read_stream("card-big_one", Some(&["samples_appended"]));
    assert_eq!(events.len(), 1);
    assert!(events[0].data.0.get("rows").is_none(), "the rows are not in the event");
    let view = store.row("SELECT sample_batches, sample_rows FROM cb_cards", &[]);
    assert_eq!(view["sample_batches"], 1);
    assert_eq!(view["sample_rows"], 40);
    let row = store.row("SELECT rows_json, blob, size FROM cb_samples", &[]);
    assert!(row["rows_json"].is_null());
    assert_eq!(row["blob"], blob.hash);
    assert_eq!(row["size"], blob.size);
    let back = store.blob_get(&blob.hash).unwrap();
    assert_eq!(back.len() as u64, blob.size, "the blob is the text that was measured");
}

// ------------------------------------------------------------------ tables of an earlier shape

#[test]
fn tables_of_an_earlier_shape_gain_their_columns_and_keep_their_rows() {
    let dir = tempfile::tempdir().unwrap();
    {
        let store = Store::open(dir.path());
        store.a_card("before", "cot");
        store.catch_up();
        store
            .rt
            .block_on(store.log.with_transaction(|tx| {
                for column in ["model", "trace_id", "work_url", "fingerprint", "params_json"] {
                    tx.execute_batch(&format!("ALTER TABLE cb_cards DROP COLUMN {column}"))
                        .map_err(storage)?;
                }
                tx.execute_batch("ALTER TABLE cb_evals DROP COLUMN source; DROP TABLE cb_tags")
                    .map_err(storage)
            }))
            .unwrap();
    }
    let store = Store::open(dir.path());
    assert_eq!(store.catch_up(), 0, "the cursor stands where it stood");
    let before = store.row("SELECT * FROM cb_cards WHERE id = ?1", &["before"]);
    assert_eq!(before["state"], "closed_ok");
    assert_eq!(before["sample_rows"], 1, "the row is what it was");
    assert!(before["model"].is_null() && before["params_json"].is_null());
    store.about("before", "eval_recorded", r#"{"source":"human"}"#, "{}");
    store.about("before", "tag_set", r#"{"key":"stage","value":"prod"}"#, "null");
    store.append("card-after", "card_opened", json(r#"{"model":"m-a"}"#), null());
    assert_eq!(store.row("SELECT source FROM cb_evals", &[])["source"], "human");
    assert_eq!(store.row("SELECT value FROM cb_tags", &[])["value"], "prod");
    let after = store.row("SELECT model FROM cb_cards WHERE id = ?1", &["after"]);
    assert_eq!(after["model"], "m-a");
}

#[test]
fn only_the_columns_that_are_missing_are_added() {
    let names = |names: &[&str]| -> Vec<String> { names.iter().map(|n| n.to_string()).collect() };
    assert_eq!(
        card_columns_to_add(&names(&["id", "model", "work_url", "fingerprint"])),
        [
            "ALTER TABLE cb_cards ADD COLUMN trace_id TEXT",
            "ALTER TABLE cb_cards ADD COLUMN params_json TEXT"
        ]
    );
    let all = ["model", "trace_id", "work_url", "fingerprint", "params_json"];
    assert!(card_columns_to_add(&names(&all)).is_empty());
    assert_eq!(card_columns_to_add(&names(&[])).len(), 5);
    assert_eq!(
        eval_columns_to_add(&names(&["card_id"])),
        ["ALTER TABLE cb_evals ADD COLUMN source TEXT"]
    );
    assert!(eval_columns_to_add(&names(&["source"])).is_empty());
}

#[test]
fn a_bind_reads_the_opening_first() {
    let read = opening_read("c");
    assert_eq!(read.stream, "card-c");
    assert_eq!((read.kind, read.limit), ("card_opened", 1));
    let dir = tempfile::tempdir().unwrap();
    let store = Store::open(dir.path());
    // Something else on the card's stream is no opening.
    store.append("card-c", "card_closed", null(), null());
    assert!(store.bind_alias("champion", "c", None).is_err());
    store.append("card-c", "card_opened", json(r#"{"pkg":"cot"}"#), null());
    assert!(store.bind_alias("champion", "c", None).unwrap().is_some());
}
