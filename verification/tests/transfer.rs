//! Moving the log: the names and lines of an export, the lines of an import, the refusals of a
//! removal, the collection of blobs, and the carrying forward of cursors.
use cardbox::blobs::{BlobGc, GcStep, Removal};
use cardbox::carry::{CarryForward, CarryStep};
use cardbox::export::{Begin, ExportRun, Paged, Receipt, begin};
use cardbox::import::{ImportRun, ImportStep, PAGE, unreadable};
use cardbox::lines::cut_line;
use cardbox::retain::{RetainOutcome, Retention};
use cardbox::text::chars_of;
use cardbox::wire::{LineFault, export_line, read_line};
use eventsdb::{ExportedEvent, Position};

fn record(i: u64) -> ExportedEvent {
    let mut event = serde_json::Map::new();
    event.insert("kind".to_string(), "k".into());
    event.insert("seq".to_string(), i.into());
    event.insert("epoch_ms".to_string(), 5u64.into());
    event.insert("_schema_version".to_string(), 1u64.into());
    event.insert("meta".to_string(), serde_json::Value::Object(serde_json::Map::new()));
    let mut data = serde_json::Map::new();
    data.insert("text".to_string(), "line\nend \" é".into());
    event.insert("data".to_string(), serde_json::Value::Object(data));
    ExportedEvent {
        stream: "card-1".to_string(),
        position: Some(Position::new(i)),
        event,
    }
}

fn receipt(id: u64, from: u64, through: u64) -> Receipt {
    Receipt {
        id,
        from,
        through,
        whole: true,
    }
}

fn run(from: u64) -> ExportRun {
    match begin(42, from, 1) {
        Begin::Export(run) => run,
        Begin::Nothing(_) => panic!("something is new"),
    }
}

#[test]
fn an_export_of_nothing_is_no_file() {
    match begin(42, 9, 0) {
        Begin::Nothing(report) => {
            assert_eq!(report.file, None);
            assert_eq!((report.from, report.through, report.events), (9, 9, 0));
        }
        Begin::Export(_) => panic!("nothing is new"),
    }
}

#[test]
fn an_export_is_named_by_when_and_what() {
    let started = run(3);
    assert_eq!(started.part(), ".part-42-3.jsonl");
    assert_eq!(started.at(), 3);
    match started.page(&vec![record(4), record(5)], receipt(1, 3, 5)).unwrap() {
        Paged::Last { text, landing } => {
            assert_eq!(
                text,
                format!("{}\n{}\n", export_line(&record(4)), export_line(&record(5)))
            );
            assert_eq!(landing.part(), ".part-42-3.jsonl");
            assert_eq!(
                landing.file_name(1_757_592_000_000),
                "20250911T120000Z-3-5.jsonl"
            );
            let landed = landing.renamed("/root/export/x".to_string());
            assert_eq!(landed.receipts, [1]);
            assert_eq!(landed.report.file.as_deref(), Some("/root/export/x"));
            assert_eq!(
                (landed.report.from, landed.report.through, landed.report.events),
                (3, 5, 2)
            );
        }
        Paged::More { .. } => panic!("the page was short"),
    }
}

#[test]
fn a_full_page_asks_for_another() {
    let page: Vec<ExportedEvent> = (1..=PAGE as u64).map(record).collect();
    let next = match run(0).page(&page, receipt(11, 0, 1000)).unwrap() {
        Paged::More { run, text } => {
            assert_eq!(text.lines().count(), PAGE);
            run
        }
        Paged::Last { .. } => panic!("the page was full"),
    };
    assert_eq!((next.at(), next.events()), (1000, 1000));
    match next.page(&Vec::new(), receipt(12, 1000, 1000)).unwrap() {
        Paged::Last { text, landing } => {
            assert_eq!(text, "");
            let landed = landing.renamed("p".to_string());
            assert_eq!(landed.receipts, [11, 12]);
            assert_eq!(landed.report.events, 1000);
            assert_eq!(landed.report.through, 1000);
        }
        Paged::More { .. } => panic!("the page was empty"),
    }
}

#[test]
fn a_filtered_receipt_vouches_for_nothing() {
    let filtered = Receipt {
        whole: false,
        ..receipt(1, 3, 5)
    };
    let e = run(3).page(&vec![record(4)], filtered).unwrap_err();
    assert_eq!(
        e.message(),
        "the export of positions 3..5 was recorded as filtered, so it cannot vouch for the history it covers"
    );
}

#[test]
fn a_line_gives_back_its_record() {
    let line = export_line(&record(7));
    assert_eq!(
        line,
        r#"{"event":{"_schema_version":1,"data":{"text":"line\nend \" é"},"epoch_ms":5,"kind":"k","meta":{},"seq":7},"position":7,"stream":"card-1"}"#
    );
    assert_eq!(read_line(&line).unwrap(), record(7));
    let unplaced = ExportedEvent {
        position: None,
        ..record(7)
    };
    assert_eq!(read_line(&export_line(&unplaced)).unwrap(), unplaced);
}

#[test]
fn a_line_that_is_no_record_is_refused() {
    assert!(matches!(read_line("{not json"), Err(LineFault::NotJson { .. })));
    for line in [
        "[]",
        "{}",
        r#"{"stream":"","event":{"kind":"k","epoch_ms":1,"_schema_version":1}}"#,
        r#"{"stream":"s","event":{"kind":"k","epoch_ms":1}}"#,
        r#"{"stream":"s","event":{"kind":"","epoch_ms":1,"_schema_version":1}}"#,
        r#"{"stream":"s","event":{"kind":"k","epoch_ms":-1,"_schema_version":1}}"#,
        r#"{"stream":"s","event":{"kind":"k","epoch_ms":1,"_schema_version":1,"other":1}}"#,
        r#"{"stream":"s","event":{"kind":"k","epoch_ms":1,"_schema_version":1,"data":[]}}"#,
        r#"{"stream":"s","event":{"kind":"k","epoch_ms":1,"_schema_version":1,"meta":{"a":null}}}"#,
        r#"{"stream":"s","position":-1,"event":{"kind":"k","epoch_ms":1,"_schema_version":1}}"#,
        r#"{"stream":"s","event":[]}"#,
    ] {
        assert!(
            matches!(read_line(line), Err(LineFault::NotAnEvent { .. })),
            "{line}"
        );
    }
    for line in [
        r#"{"stream":"s","event":{"kind":"k","epoch_ms":1,"_schema_version":1}}"#,
        r#"{"stream":"s","position":null,"event":{"kind":"k","epoch_ms":1,"_schema_version":1}}"#,
        r#"{"stream":"s","more":1,"event":{"kind":"k","epoch_ms":1,"_schema_version":1,"seq":3,"data":{"a":[]},"meta":{"a":1,"b":"x","c":true}}}"#,
    ] {
        assert!(read_line(line).is_ok(), "{line}");
    }
}

#[test]
fn lines_are_cut_as_text_is() {
    for text in [
        "a\nb\r\n\nc",
        "a\r",
        "a\n",
        "\n",
        "\r\n",
        "\u{a0}\n \t\u{3000}\u{85}\nx y\u{200b}\n",
        "one",
        "a\r\r\nb\rc\n",
    ] {
        let chars = chars_of(text);
        let mut at = 0;
        let mut seen: Vec<Option<String>> = Vec::new();
        while at < chars.len() {
            let cut = cut_line(&chars, at);
            seen.push(cut.line);
            at = cut.next;
        }
        let expected: Vec<Option<String>> = text
            .lines()
            .map(|l| (!l.trim().is_empty()).then_some(l.to_string()))
            .collect();
        assert_eq!(seen, expected, "{text:?}");
    }
    for code in 0..=0x11_0000u32 {
        if let Some(c) = char::from_u32(code) {
            if c != '\n' {
                let cut = cut_line(&vec![c, '\n'], 0);
                let line = format!("{c}\n");
                let blank = line.lines().next().unwrap().trim().is_empty();
                assert_eq!(cut.line.is_none(), blank, "{code:x}");
            }
        }
    }
}

#[test]
fn an_import_hands_over_pages_and_then_the_rest() {
    let n = 2 * PAGE as u64 + 5;
    let mut text = String::from("\n   \n");
    for i in 1..=n {
        text.push_str(&export_line(&record(i)));
        text.push_str(if i % 2 == 0 { "\r\n" } else { "\n\n" });
    }
    let mut import = ImportRun::new("file", &text);
    let mut sizes: Vec<usize> = Vec::new();
    let mut next = 1;
    loop {
        match import.next() {
            ImportStep::Import(batch) => {
                sizes.push(batch.len());
                for r in &batch {
                    assert_eq!(*r, record(next));
                    next += 1;
                }
                import.landed(batch.len() as u64, sizes.len() != 2);
            }
            ImportStep::CatchUp => break,
            ImportStep::Failed(f) => panic!("{}", f.message()),
        }
    }
    assert_eq!(sizes, [PAGE, PAGE, 5]);
    assert_eq!(import.report().events, n);
    assert!(
        !import.report().reproduced_coordinates,
        "one false page makes the whole import false"
    );
    assert!(matches!(import.next(), ImportStep::CatchUp));
}

#[test]
fn an_import_of_exactly_a_page_hands_over_one() {
    let mut text = String::new();
    for i in 1..=PAGE as u64 {
        text.push_str(&export_line(&record(i)));
        text.push('\n');
    }
    let mut import = ImportRun::new("file", &text);
    assert!(matches!(import.next(), ImportStep::Import(b) if b.len() == PAGE));
    assert!(matches!(import.next(), ImportStep::CatchUp));
    let mut empty = ImportRun::new("file", "");
    assert!(matches!(empty.next(), ImportStep::CatchUp));
    assert_eq!(empty.report().events, 0);
    assert!(empty.report().reproduced_coordinates);
}

#[test]
fn an_import_stops_at_a_line_that_is_no_record() {
    let mut text = String::new();
    for i in 1..=PAGE as u64 + 1 {
        text.push_str(&export_line(&record(i)));
        text.push('\n');
    }
    let bad = format!("{text}\n{{not json\n");
    let mut import = ImportRun::new("a.jsonl", &bad);
    assert!(matches!(import.next(), ImportStep::Import(b) if b.len() == PAGE));
    match import.next() {
        ImportStep::Failed(fault) => {
            assert_eq!(fault.line, 1003);
            let message = fault.message();
            assert!(message.starts_with("a.jsonl:1003: not JSON: "), "{message}");
            let why = serde_json::from_str::<serde_json::Value>("{not json").unwrap_err();
            assert!(message.ends_with(&why.to_string()), "{message}");
        }
        _ => panic!("the line is not JSON"),
    }
    let mut import = ImportRun::new("a.jsonl", "\n[]");
    match import.next() {
        ImportStep::Failed(fault) => assert_eq!(
            fault.message(),
            "a.jsonl:2: not an exported event: invalid event: an exported record must be an object"
        ),
        _ => panic!("the line is not a record"),
    }
    assert_eq!(
        unreadable("gone.jsonl", "no such file"),
        "cannot read the export gone.jsonl: no such file"
    );
}

#[test]
fn a_removal_catches_up_before_it_removes() {
    let streams = vec!["card-1".to_string()];
    let r = Retention::new(streams.clone());
    assert!(matches!(&r, Retention::CatchUp { .. }));
    let r = r.next();
    assert!(matches!(&r, Retention::CarryForward { .. }));
    let r = r.next();
    assert!(matches!(&r, Retention::Remove { streams: s } if *s == streams));
    let r = r.answered(RetainOutcome::Removed {
        removed: 7,
        streams: 2,
    })
    .unwrap();
    assert!(matches!(&r, Retention::Reclaim { .. }));
    match r.next() {
        Retention::Done { report } => assert_eq!((report.removed, report.streams), (7, 2)),
        _ => panic!("the pages are given back"),
    }
}

/// A removal that waits for its answer.
fn removal() -> Retention {
    Retention::Remove {
        streams: vec!["card-a".to_string()],
    }
}

#[test]
fn a_refused_removal_says_what_to_do() {
    let e = removal().answered(RetainOutcome::NotExported {
        up_to: 12,
        exported_through: 3,
    })
    .unwrap_err();
    assert_eq!(
        e,
        "removing these streams would reach position 12, and confirmed exports reach only 3: run export first (cards.export / store:export()), which writes the whole log to <root>/export and confirms it, and then prune again"
    );
    let e = removal().answered(RetainOutcome::ConsumerBehind {
        consumer: "cards_v1".to_string(),
        cursor: 4,
        up_to: 12,
    })
    .unwrap_err();
    assert_eq!(
        e,
        "removing these streams would reach position 12, and the read model \"cards_v1\" has folded only to 4: what this removes is history it would never see. Catch it up (store:catch_up()) — or, if \"cards_v1\" is a projection this build retired, reopen the store, which drags a retired cursor forward"
    );
}

#[test]
fn a_collection_counts_what_it_deletes() {
    let orphans = vec![
        ("a".to_string(), 10),
        ("b".to_string(), -3),
        ("c".to_string(), 5),
    ];
    let gc = BlobGc::new(orphans).unwrap();
    assert!(matches!(gc.step(), GcStep::Remove { hash } if hash == "a"));
    let gc = gc.removed(Removal::Removed).unwrap();
    assert!(matches!(gc.step(), GcStep::Remove { hash } if hash == "b"));
    let gc = gc.removed(Removal::NotFound).unwrap();
    let gc = gc.removed(Removal::Removed).unwrap();
    match gc.step() {
        GcStep::Done(report) => assert_eq!((report.deleted, report.bytes), (3, 15)),
        GcStep::Remove { hash } => panic!("{hash}"),
    }
    let none = BlobGc::new(Vec::new()).unwrap();
    assert!(matches!(none.step(), GcStep::Done(r) if r.deleted == 0 && r.bytes == 0));
    let most = ("m".to_string(), i64::MAX);
    assert!(BlobGc::new(vec![most.clone(), most.clone()]).is_some());
    assert!(BlobGc::new(vec![most.clone(), most.clone(), most]).is_none());
}

#[test]
fn a_file_that_cannot_be_removed_ends_the_collection() {
    let gc = BlobGc::new(vec![("abc".to_string(), 1)]).unwrap();
    let e = gc
        .removed(Removal::Failed {
            why: "permission denied".to_string(),
        })
        .unwrap_err();
    assert_eq!(e.message(), "cannot remove the blob abc: permission denied");
}

/// Runs a migration over cursors, and says what was done.
fn carry(cursors: &mut Vec<(&'static str, u64)>, head: u64) -> Vec<String> {
    fn at(cursors: &[(&'static str, u64)], name: &str) -> u64 {
        cursors.iter().find(|(n, _)| *n == name).map_or(0, |(_, p)| *p)
    }
    fn set(cursors: &mut Vec<(&'static str, u64)>, name: &'static str, position: u64) {
        cursors.retain(|(n, _)| *n != name);
        cursors.push((name, position));
    }
    let mut did: Vec<String> = Vec::new();
    let (mut state, mut step) = CarryForward::start();
    loop {
        let answer = match step {
            CarryStep::Load { consumer } => at(cursors, consumer),
            CarryStep::Rebuild => {
                did.push("rebuild".to_string());
                set(cursors, "cards_v2", head);
                0
            }
            CarryStep::LivePosition => at(cursors, "cards_v2"),
            CarryStep::Save { consumer, position } => {
                did.push(format!("save {consumer} {position}"));
                set(cursors, consumer, position);
                0
            }
            CarryStep::Done => return did,
        };
        (state, step) = state.next(answer);
    }
}

#[test]
fn a_retired_cursor_is_dragged_and_none_is_made() {
    let mut fresh = vec![];
    assert!(carry(&mut fresh, 9).is_empty());
    assert!(fresh.is_empty());

    let mut live = vec![("cards_v2", 5)];
    assert!(carry(&mut live, 9).is_empty());
    assert_eq!(live, [("cards_v2", 5)]);

    let mut old = vec![("cards_v1", 4)];
    assert_eq!(carry(&mut old, 9), ["rebuild", "save cards_v1 9"]);

    let mut both = vec![("cards_v1", 4), ("cards_v2", 7), ("cards_v3", 6)];
    assert_eq!(carry(&mut both, 9), ["save cards_v1 7", "save cards_v3 7"]);
    assert!(carry(&mut both, 9).is_empty(), "a second time there is nothing to do");

    let mut two = vec![("cards_v1", 4), ("cards_v3", 3)];
    assert_eq!(
        carry(&mut two, 9),
        ["rebuild", "save cards_v1 9", "save cards_v3 9"],
        "rebuilt once"
    );
}
