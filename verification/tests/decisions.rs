//! Decisions: what may be written behind what.
use cardbox::command::{NotBuilt, append_if, bind_alias, decided, release_alias};
use cardbox::json::{Json, Value};
use cardbox::record::{Committed, Event, Recorded, envelope, event_kind, field};
use cardbox::rule::{Rule, bound_to};

fn object(fields: Vec<(&str, &str)>) -> Json {
    Json::Object(
        fields
            .into_iter()
            .map(|(k, v)| (k.to_string(), Json::String(v.to_string())))
            .collect(),
    )
}

fn event(kind: &str) -> Event {
    envelope(kind, Json::Null, Json::Null)
}

fn bound(card_id: &str) -> Event {
    envelope("alias_bound", object(vec![("card_id", card_id)]), Json::Null)
}

fn opened(meta: Json) -> Recorded {
    Recorded {
        stream: "card-c".to_string(),
        seq: 1,
        position: 1,
        epoch_ms: 0,
        kind: "card_opened".to_string(),
        meta: Value(meta),
        data: Value::default(),
    }
}

#[test]
fn the_decisions_are_these_four() {
    assert!(matches!(Rule::parse("unwritten"), Ok(Rule::Unwritten)));
    assert!(matches!(Rule::parse("open_unclosed"), Ok(Rule::OpenUnclosed)));
    assert!(matches!(Rule::parse("closed_absent"), Ok(Rule::ClosedAbsent)));
    assert!(matches!(Rule::parse("opened"), Ok(Rule::Opened)));
    for unknown in ["", "Unwritten", "alias_bound", "alias_not", "unwritten "] {
        let e = Rule::parse(unknown).unwrap_err();
        assert_eq!(e.name, unknown);
    }
    assert_eq!(
        Rule::parse("whenever").unwrap_err().message(),
        "unknown decision \"whenever\"; the decisions this store knows are \"unwritten\", \"open_unclosed\", \"closed_absent\", \"opened\""
    );
    assert_eq!(
        Rule::parse("when \"ever\"").unwrap_err().message(),
        "unknown decision \"when \\\"ever\\\"\"; the decisions this store knows are \"unwritten\", \"open_unclosed\", \"closed_absent\", \"opened\""
    );
}

#[test]
fn a_decision_names_the_kinds_it_is_shown() {
    assert_eq!(Rule::Unwritten.kinds(), None);
    assert_eq!(
        Rule::OpenUnclosed.kinds(),
        Some(vec!["card_opened", "card_closed"])
    );
    assert_eq!(Rule::ClosedAbsent.kinds(), Some(vec!["card_closed"]));
    assert_eq!(Rule::Opened.kinds(), Some(vec!["card_opened"]));
    let alias = Some(vec!["alias_bound", "alias_released"]);
    assert_eq!(Rule::AliasNot("c".to_string()).kinds(), alias);
    assert_eq!(Rule::AliasBound.kinds(), alias);
}

#[test]
fn each_decision_is_its_question() {
    let none: [Event; 0] = [];
    let open = [event("card_opened")];
    let closed = [event("card_opened"), event("card_closed")];
    let other = [event("note_taken")];
    assert!(Rule::Unwritten.allows(&none));
    assert!(!Rule::Unwritten.allows(&other));
    assert!(!Rule::OpenUnclosed.allows(&none));
    assert!(Rule::OpenUnclosed.allows(&open));
    assert!(!Rule::OpenUnclosed.allows(&closed));
    assert!(Rule::ClosedAbsent.allows(&none));
    assert!(Rule::ClosedAbsent.allows(&open));
    assert!(!Rule::ClosedAbsent.allows(&closed));
    assert!(!Rule::Opened.allows(&none));
    assert!(Rule::Opened.allows(&open));
    assert!(Rule::Opened.allows(&closed), "a close does not end what is said about a run");
}

#[test]
fn being_shown_fewer_kinds_changes_no_decision() {
    let all = [
        event("card_opened"),
        event("samples_appended"),
        event("card_closed"),
        event("eval_recorded"),
    ];
    for rule in [Rule::OpenUnclosed, Rule::ClosedAbsent, Rule::Opened] {
        let kinds = rule.kinds().unwrap();
        for n in 0..=all.len() {
            let shown: Vec<Event> = all[..n]
                .iter()
                .filter(|e| kinds.contains(&event_kind(e).as_str()))
                .cloned()
                .collect();
            assert_eq!(rule.allows(&shown), rule.allows(&all[..n]));
        }
    }
}

#[test]
fn a_name_means_the_last_card_it_was_bound_to() {
    assert_eq!(bound_to(&[]), None);
    assert_eq!(bound_to(&[bound("a")]).as_deref(), Some("a"));
    assert_eq!(bound_to(&[bound("a"), bound("b")]).as_deref(), Some("b"));
    assert_eq!(bound_to(&[bound("a"), event("alias_released")]), None);
    assert_eq!(
        bound_to(&[bound("a"), event("alias_released"), bound("a")]).as_deref(),
        Some("a")
    );
    assert_eq!(bound_to(&[bound("a"), event("note_taken")]).as_deref(), Some("a"));
    assert_eq!(
        bound_to(&[bound("a"), event("alias_bound")]),
        None,
        "a bind that names no card reads as unbound"
    );
    let a = Rule::AliasNot("a".to_string());
    assert!(a.allows(&[]));
    assert!(!a.allows(&[bound("a")]));
    assert!(a.allows(&[bound("a"), bound("b")]));
    assert!(!Rule::AliasBound.allows(&[]));
    assert!(Rule::AliasBound.allows(&[bound("a")]));
    assert!(!Rule::AliasBound.allows(&[bound("a"), event("alias_released")]));
}

#[test]
fn a_proposal_is_written_or_declined() {
    let p = append_if(
        "card-1",
        "unwritten",
        "card_opened",
        Value(object(vec![("pkg", "cot")])),
        Value::default(),
    )
    .unwrap();
    assert_eq!(p.stream, "card-1");
    let written = p.decide(&[]).unwrap();
    assert_eq!(event_kind(&written), "card_opened");
    assert_eq!(field(&written, "meta"), object(vec![("pkg", "cot")]));
    assert!(p.decide(&[event("anything")]).is_none());
    let at = Committed {
        seq: 1,
        epoch_ms: 5,
        position: Some(3),
    };
    let answer = p.answer(Some(at)).unwrap();
    assert_eq!((answer.seq, answer.position, answer.epoch_ms), (1, 3, 5));
    assert_eq!(answer.kind, "card_opened");
    assert!(p.answer(None).is_none());
    let e = append_if("s", "nope", "k", Value::default(), Value::default()).unwrap_err();
    assert_eq!(e.name, "nope");
    let d = decided("s", Rule::Opened, "k", Json::Null, Json::Null);
    assert!(d.decide(&[]).is_none());
}

#[test]
fn a_bind_carries_the_card_and_its_pkg() {
    let card = opened(object(vec![("pkg", "cot"), ("source", "eval")]));
    let p = bind_alias("champion", "c", Some("best".to_string()), Some(&card)).unwrap();
    assert_eq!(p.stream, "alias-champion");
    let written = p.decide(&[]).unwrap();
    assert_eq!(event_kind(&written), "alias_bound");
    assert_eq!(
        field(&written, "meta"),
        object(vec![("card_id", "c"), ("pkg", "cot")])
    );
    assert_eq!(field(&written, "data"), object(vec![("note", "best")]));
    assert!(p.decide(&[bound("c")]).is_none(), "it already means that card");
    assert!(p.decide(&[bound("d")]).is_some(), "a rebind needs no release");
    assert!(p.decide(&[bound("c"), event("alias_released")]).is_some());

    let without = opened(Json::Null);
    let p = bind_alias("champion", "c", None, Some(&without)).unwrap();
    let written = p.decide(&[]).unwrap();
    assert_eq!(field(&written, "meta"), object(vec![("card_id", "c")]));
    assert_eq!(field(&written, "data"), Json::Null);
}

#[test]
fn a_bind_without_its_card_is_refused() {
    let e = bind_alias("champion", "never_opened", None, None).unwrap_err();
    assert_eq!(e.card_id, "never_opened");
    assert_eq!(e.message(), "no card never_opened");
}

#[test]
fn a_release_says_what_it_released() {
    let r = release_alias("champion", Some("retired".to_string()));
    assert_eq!(r.stream, "alias-champion");
    assert_eq!(r.rule().kinds(), Rule::AliasBound.kinds());
    assert!(r.decide(&[]).is_none());
    assert!(r.decide(&[bound("a"), event("alias_released")]).is_none());
    let written = r.decide(&[bound("a"), bound("b")]).unwrap();
    assert_eq!(event_kind(&written), "alias_released");
    assert_eq!(field(&written, "meta"), object(vec![("card_id", "b")]));
    assert_eq!(field(&written, "data"), object(vec![("note", "retired")]));
    let at = Committed {
        seq: 3,
        epoch_ms: 1,
        position: Some(8),
    };
    let answer = r.answer(Some(written), Some(at)).unwrap().unwrap();
    assert_eq!((answer.kind.as_str(), answer.seq), ("alias_released", 3));
    assert!(r.answer(None, None).unwrap().is_none());
    let e: NotBuilt = r.answer(None, Some(at)).unwrap_err();
    assert_eq!(
        e.message(),
        "an alias_released landed on alias-champion that this store did not build"
    );
}
