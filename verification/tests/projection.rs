//! The fold: what each event writes, and what cannot be folded.
use cardbox::json::{Json, Number, Real};
use cardbox::projection::{CardsProjection, FoldFault};
use cardbox::record::{Stored, envelope};
use cardbox::sql::{CREATE, DROP, Op, SqlValue, Statement};

fn string(s: &str) -> Json {
    Json::String(s.to_string())
}

fn count(n: u64) -> Json {
    Json::Number(Number::PosInt(n))
}

fn float(x: f64) -> Json {
    Json::Number(Number::Float(Real {
        bits: x.to_bits(),
        text: format!("{x}"),
    }))
}

fn object(fields: Vec<(&str, Json)>) -> Json {
    Json::Object(fields.into_iter().map(|(k, v)| (k.to_string(), v)).collect())
}

fn stored(stream: &str, kind: &str, meta: Json, data: Json) -> Stored {
    let mut event = envelope(kind, meta, data);
    event.push(("seq".to_string(), count(4)));
    event.push(("epoch_ms".to_string(), count(1000)));
    Stored {
        position: 9,
        stream: stream.to_string(),
        event,
    }
}

fn apply(stream: &str, kind: &str, meta: Json, data: Json) -> Result<Vec<Op>, FoldFault> {
    CardsProjection::new().apply(&stored(stream, kind, meta, data))
}

fn op(statement: Statement, params: Vec<SqlValue>) -> Op {
    Op { statement, params }
}

fn t(s: &str) -> SqlValue {
    SqlValue::Text(s.to_string())
}

fn i(n: i64) -> SqlValue {
    SqlValue::Integer(n)
}

const NULL: SqlValue = SqlValue::Null;

#[test]
fn the_projection_answers_to_its_name() {
    assert_eq!(CardsProjection::NAME, "cards_v2");
    assert_eq!(CardsProjection::new().name(), "cards_v2");
    assert_eq!(CardsProjection::default().name(), "cards_v2");
    assert_eq!(CardsProjection::under("cards_v1").name(), "cards_v1");
    assert_eq!(
        CardsProjection::new().kinds().unwrap(),
        [
            "card_opened",
            "samples_appended",
            "eval_recorded",
            "checkpoint_saved",
            "card_closed",
            "alias_bound",
            "alias_released",
            "cards_pruned",
            "tag_set",
            "tag_unset"
        ]
    );
}

#[test]
fn an_opening_is_a_row_and_its_parents() {
    let meta = object(vec![
        ("pkg", string("cot")),
        ("scenario", string("arith")),
        ("source", string("eval")),
        ("created_by", string("x")),
        ("model", string("m-a")),
        ("trace_id", string("tr-9")),
        ("work_url", string("file:///tmp/t9")),
        ("fingerprint", string("0011223344556677")),
    ]);
    let data = object(vec![
        ("note", string("the first one")),
        ("parents", Json::Array(vec![string("a"), count(1), string("b")])),
        ("params", object(vec![("lr", float(0.1))])),
    ]);
    let ops = apply("card-one", "card_opened", meta, data).unwrap();
    assert_eq!(
        ops,
        vec![
            op(
                Statement::OpenCard,
                vec![
                    t("one"),
                    t("cot"),
                    t("arith"),
                    t("eval"),
                    t("x"),
                    t("the first one"),
                    i(1000),
                    i(9),
                    t("m-a"),
                    t("tr-9"),
                    t("file:///tmp/t9"),
                    t("0011223344556677"),
                    t(r#"{"lr":0.1}"#)
                ]
            ),
            op(Statement::AddParent, vec![t("one"), t("a")]),
            op(Statement::AddParent, vec![t("one"), t("b")]),
        ]
    );
    let data = object(vec![("parents", object(vec![]))]);
    let ops = apply("card-one", "card_opened", Json::Null, data).unwrap();
    assert_eq!(ops.len(), 1, "an empty object is an empty list");
    assert_eq!(ops[0].params[1], NULL);
    assert_eq!(ops[0].params[8..], [NULL, NULL, NULL, NULL, NULL]);
}

#[test]
fn samples_are_a_row_a_count_and_a_pointer() {
    let data = object(vec![
        ("n", count(2)),
        ("rows", Json::Array(vec![object(vec![("a", count(1))])])),
        ("blob", string("abc")),
        ("size", float(7.9)),
    ]);
    let ops = apply("card-one", "samples_appended", Json::Null, data).unwrap();
    assert_eq!(
        ops,
        vec![
            op(
                Statement::AddSamples,
                vec![t("one"), i(4), i(2), t(r#"[{"a":1}]"#), t("abc"), i(7), i(1000)]
            ),
            op(Statement::CountSamples, vec![t("one"), i(2)]),
            op(Statement::ReferBlob, vec![t("abc"), i(7)]),
        ]
    );
    let ops = apply("card-one", "samples_appended", Json::Null, Json::Null).unwrap();
    assert_eq!(
        ops,
        vec![
            op(
                Statement::AddSamples,
                vec![t("one"), i(4), NULL, NULL, NULL, NULL, i(1000)]
            ),
            op(Statement::CountSamples, vec![t("one"), i(0)]),
        ]
    );
}

#[test]
fn an_evaluation_is_a_row_and_a_count() {
    let data = object(vec![("mean_score", float(0.75))]);
    let meta = object(vec![("source", string("llm_judge"))]);
    let ops = apply("card-one", "eval_recorded", meta, data).unwrap();
    assert_eq!(
        ops,
        vec![
            op(
                Statement::AddEval,
                vec![
                    t("one"),
                    i(4),
                    t("llm_judge"),
                    t(r#"{"mean_score":0.75}"#),
                    i(1000)
                ]
            ),
            op(Statement::CountEval, vec![t("one")]),
        ]
    );
    let ops = apply("card-one", "eval_recorded", Json::Null, Json::Null).unwrap();
    assert_eq!(ops[0].params[2], NULL, "nobody said who made it");
}

#[test]
fn a_checkpoint_is_a_row_a_count_and_a_pointer() {
    let data = object(vec![
        ("blob", string("abc")),
        ("format", string("safetensors")),
        ("note", string("epoch 3")),
    ]);
    let ops = apply("card-one", "checkpoint_saved", Json::Null, data).unwrap();
    assert_eq!(
        ops,
        vec![
            op(
                Statement::AddCheckpoint,
                vec![
                    t("one"),
                    i(4),
                    t("abc"),
                    NULL,
                    t("safetensors"),
                    t("epoch 3"),
                    i(1000)
                ]
            ),
            op(Statement::CountCheckpoint, vec![t("one")]),
            op(Statement::ReferBlob, vec![t("abc"), NULL]),
        ]
    );
}

#[test]
fn a_close_keeps_the_json_and_flattens_the_numbers() {
    let stats = object(vec![
        ("mean_score", float(0.75)),
        ("n", count(3)),
        ("pass_rate", count(1)),
        ("passed", float(2.5)),
    ]);
    let cost = object(vec![("elapsed_ms", count(1200)), ("llm_calls", count(9))]);
    let data = object(vec![("stats", stats), ("cost", cost)]);
    let meta = object(vec![("outcome", string("ok"))]);
    let ops = apply("card-one", "card_closed", meta, data).unwrap();
    assert_eq!(
        ops,
        vec![op(
            Statement::CloseCard,
            vec![
                t("one"),
                t("closed_ok"),
                i(1000),
                NULL,
                t(r#"{"mean_score":0.75,"n":3,"pass_rate":1,"passed":2.5}"#),
                t(r#"{"elapsed_ms":1200,"llm_calls":9}"#),
                SqlValue::Real(Number::Float(Real {
                    bits: 0.75f64.to_bits(),
                    text: "0.75".to_string()
                })),
                i(3),
                SqlValue::Real(Number::PosInt(1)),
                i(2),
                i(1200),
                i(9),
            ]
        )]
    );
    for meta in [
        Json::Null,
        object(vec![("outcome", string("OK"))]),
        object(vec![("outcome", count(1))]),
    ] {
        let data = object(vec![("error", string("nope"))]);
        let ops = apply("card-one", "card_closed", meta, data).unwrap();
        assert_eq!(ops[0].params[1], t("closed_failed"));
        assert_eq!(ops[0].params[3], t("nope"));
        assert_eq!(ops[0].params[4], NULL);
    }
}

#[test]
fn a_bind_is_a_line_and_the_binding() {
    let meta = object(vec![("card_id", string("c")), ("pkg", string("cot"))]);
    let data = object(vec![("note", string("best"))]);
    let ops = apply("alias-champion", "alias_bound", meta, data).unwrap();
    assert_eq!(
        ops,
        vec![
            op(
                Statement::LogAlias,
                vec![t("champion"), i(4), t("alias_bound"), t("c"), i(1000), t("best")]
            ),
            op(
                Statement::BindAlias,
                vec![t("champion"), t("c"), t("cot"), i(1000), t("best")]
            ),
        ]
    );
}

#[test]
fn a_release_is_a_line_and_no_binding() {
    let meta = object(vec![("card_id", string("c"))]);
    let ops = apply("alias-champion", "alias_released", meta, Json::Null).unwrap();
    assert_eq!(
        ops,
        vec![
            op(
                Statement::LogAlias,
                vec![t("champion"), i(4), t("alias_released"), t("c"), i(1000), NULL]
            ),
            op(Statement::ReleaseAlias, vec![t("champion")]),
        ]
    );
}

#[test]
fn a_tag_is_a_value_until_it_is_taken_off() {
    let meta = object(vec![("key", string("stage")), ("value", string("prod"))]);
    let ops = apply("card-one", "tag_set", meta, Json::Null).unwrap();
    assert_eq!(ops, vec![op(Statement::SetTag, vec![t("one"), t("stage"), t("prod")])]);
    let meta = object(vec![("key", string("stage"))]);
    let ops = apply("card-one", "tag_unset", meta, Json::Null).unwrap();
    assert_eq!(ops, vec![op(Statement::UnsetTag, vec![t("one"), t("stage")])]);
    let meta = object(vec![("key", string("stage")), ("value", count(1))]);
    assert_eq!(apply("card-one", "tag_set", meta, Json::Null).unwrap(), vec![]);
    assert_eq!(apply("card-one", "tag_unset", Json::Null, Json::Null).unwrap(), vec![]);
}

#[test]
fn an_entry_of_the_journal_takes_each_card_it_names() {
    let data = object(vec![(
        "cards",
        Json::Array(vec![string("a"), count(1), string("b")]),
    )]);
    let ops = apply("prune", "cards_pruned", Json::Null, data).unwrap();
    let statements = [
        Statement::GiveBackBlobs,
        Statement::DropCard,
        Statement::DropSamples,
        Statement::DropEvals,
        Statement::DropCheckpoints,
        Statement::DropTags,
        Statement::DropLineage,
    ];
    let mut expected: Vec<Op> = Vec::new();
    for id in ["a", "b"] {
        for statement in statements {
            expected.push(op(statement, vec![t(id)]));
        }
    }
    assert_eq!(ops, expected);
    assert_eq!(apply("prune", "cards_pruned", Json::Null, Json::Null).unwrap(), vec![]);
    assert!(CardsProjection::new().tolerates_truncation());
}

#[test]
fn what_cannot_be_folded_is_reported() {
    let e = apply("card-one", "note_taken", Json::Null, Json::Null).unwrap_err();
    assert_eq!(
        e.message(),
        "the cards_v2 projection was handed a \"note_taken\" event, which is not one of the kinds it asked for (card_opened, samples_appended, eval_recorded, checkpoint_saved, card_closed, alias_bound, alias_released, cards_pruned, tag_set, tag_unset)"
    );
    let e = apply("alias-one", "card_closed", Json::Null, Json::Null).unwrap_err();
    assert_eq!(
        e.message(),
        "a \"card_closed\" event is on stream \"alias-one\", which is not a card's: a card's stream is card-<id>"
    );
    let e = apply("card-one", "alias_released", Json::Null, Json::Null).unwrap_err();
    assert_eq!(
        e.message(),
        "a \"alias_released\" event is on stream \"card-one\", which is not an alias's: an alias's stream is alias-<name>"
    );
    let e = apply("prune-1", "cards_pruned", Json::Null, Json::Null).unwrap_err();
    assert_eq!(
        e.message(),
        "a \"cards_pruned\" event is on stream \"prune-1\", which is not the prune journal's: the journal's stream is prune"
    );
    let e = apply("alias-champion", "alias_bound", Json::Null, Json::Null).unwrap_err();
    assert_eq!(
        e.message(),
        "an alias_bound on alias-champion carries no meta.card_id, so it binds the name to nothing"
    );
    let e = apply("odd\nstream", "eval_recorded", Json::Null, Json::Null).unwrap_err();
    assert!(e.message().contains(r#"on stream "odd\nstream","#));
}

#[test]
fn every_table_that_is_made_is_dropped() {
    for table in [
        "cb_cards",
        "cb_samples",
        "cb_evals",
        "cb_checkpoints",
        "cb_lineage",
        "cb_blobs",
        "cb_aliases",
        "cb_alias_log",
    ] {
        assert!(CREATE.contains(&format!("CREATE TABLE IF NOT EXISTS {table} (")));
        assert!(DROP.contains(&format!("DROP TABLE IF EXISTS {table};")));
    }
}
