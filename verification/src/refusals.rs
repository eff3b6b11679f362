//! What is said where something is refused: every refusal holds what it is about, as it was shown.
use vstd::prelude::*;
use vstd::string::*;

use crate::carry::retired_names;
use crate::import::refusal_text;
use crate::projection::{CardsProjection, FaultView, fault_said, fault_shows};
use crate::retain::{RetainOutcome, Retention, after_done, refusal_said, refusal_shows};
use crate::rule::{RuleView, kinds_of, unknown_said};
use crate::sql::{Statement, later_card_columns, later_eval_columns, sql_of};
use crate::text::decimal;
use crate::wire::{LineFaultView, line_record, parsed};

verus! {

/// Whether `part` stands in `text` as it is, from `at` on.
pub open spec fn stands_at(text: Seq<char>, part: Seq<char>, at: int) -> bool {
    0 <= at && at + part.len() <= text.len() && text.subrange(at, at + part.len() as int) == part
}

/// Whether `part` stands somewhere in `text` as it is.
pub open spec fn within(text: Seq<char>, part: Seq<char>) -> bool {
    exists|at: int| stands_at(text, part, at)
}

proof fn lemma_within(front: Seq<char>, part: Seq<char>, back: Seq<char>)
    ensures
        within(front + part + back, part),
{
    let text = front + part + back;
    assert(text.subrange(front.len() as int, front.len() + part.len() as int) =~= part);
    assert(stands_at(text, part, front.len() as int));
}

/// A fold that is refused says the kind of the event and the stream it is on, as they are shown,
/// or the projection that was handed it, or the name that is bound to nothing.
pub proof fn law_a_refused_fold_says_why(fault: FaultView, kind: Seq<char>, stream: Seq<char>)
    ensures
        !(fault is BindsNothing) ==> within(fault_said(fault, kind, stream), kind),
        fault is NotACard || fault is NotAnAlias || fault is NotTheJournal ==> within(
            fault_said(fault, kind, stream),
            stream,
        ),
        fault is UnknownKind ==> within(
            fault_said(fault, kind, stream),
            fault->UnknownKind_projection,
        ),
        fault is BindsNothing ==> within(fault_said(fault, kind, stream), fault->name),
        fault is UnknownKind ==> fault_shows(fault).0 == fault->UnknownKind_kind,
        fault is NotACard ==> fault_shows(fault) == (fault->NotACard_kind, fault->NotACard_stream),
        fault is NotAnAlias ==> fault_shows(fault) == (
            fault->NotAnAlias_kind,
            fault->NotAnAlias_stream,
        ),
        fault is NotTheJournal ==> fault_shows(fault) == (
            fault->NotTheJournal_kind,
            fault->NotTheJournal_stream,
        ),
{
    let text = fault_said(fault, kind, stream);
    match fault {
        FaultView::UnknownKind { projection, .. } => {
            let tail = " event, which is not one of the kinds it asked for ("@
                + crate::projection::KIND_LIST@ + ")"@;
            let front = "the "@ + projection + " projection was handed a "@;
            assert(text =~= front + kind + tail);
            lemma_within(front, kind, tail);
            let back = " projection was handed a "@ + kind + tail;
            assert(text =~= "the "@ + projection + back);
            lemma_within("the "@, projection, back);
        },
        FaultView::NotACard { .. } => {
            let end = ", which is not a card's: a card's stream is card-<id>"@;
            lemma_kind_and_stream(text, kind, stream, end);
        },
        FaultView::NotAnAlias { .. } => {
            let end = ", which is not an alias's: an alias's stream is alias-<name>"@;
            lemma_kind_and_stream(text, kind, stream, end);
        },
        FaultView::NotTheJournal { .. } => {
            let end = ", which is not the prune journal's: the journal's stream is prune"@;
            lemma_kind_and_stream(text, kind, stream, end);
        },
        FaultView::BindsNothing { name } => {
            let end = " carries no meta.card_id, so it binds the name to nothing"@;
            lemma_within("an alias_bound on alias-"@, name, end);
        },
    }
}

proof fn lemma_kind_and_stream(
    text: Seq<char>,
    kind: Seq<char>,
    stream: Seq<char>,
    end: Seq<char>,
)
    requires
        text == "a "@ + kind + " event is on stream "@ + stream + end,
    ensures
        within(text, kind),
        within(text, stream),
{
    let back = " event is on stream "@ + stream + end;
    assert(text =~= "a "@ + kind + back);
    lemma_within("a "@, kind, back);
    lemma_within("a "@ + kind + " event is on stream "@, stream, end);
}

/// A decision that is not known is named in its refusal, with those that are.
pub proof fn law_an_unknown_decision_is_named(shown: Seq<char>)
    ensures
        within(unknown_said(shown), shown),
        within(unknown_said(shown), crate::rule::Rule::KNOWN@),
{
    let middle = "; the decisions this store knows are "@;
    let known = crate::rule::Rule::KNOWN@;
    assert(unknown_said(shown) =~= "unknown decision "@ + shown + (middle + known));
    lemma_within("unknown decision "@, shown, middle + known);
    assert(unknown_said(shown) =~= ("unknown decision "@ + shown + middle) + known + seq![]);
    lemma_within("unknown decision "@ + shown + middle, known, seq![]);
}

/// A line that cannot be imported is refused under its file and its number, with the reason that
/// was given: the file and a colon in front, and the reason at the end.
pub proof fn law_a_refused_line_says_where(path: Seq<char>, line: nat, fault: LineFaultView)
    ensures
        (path + seq![':'] + decimal(line)).is_prefix_of(refusal_text(path, line, fault)),
        fault is NotJson ==> fault->NotJson_why.is_suffix_of(refusal_text(path, line, fault)),
        fault is NotAnEvent ==> fault->NotAnEvent_why.is_suffix_of(refusal_text(path, line, fault)),
{
    let text = refusal_text(path, line, fault);
    let place = path + seq![':'] + decimal(line);
    assert(text.take(place.len() as int) =~= place);
    match fault {
        LineFaultView::NotJson { why } => {
            assert(text.skip(text.len() - why.len()) =~= why);
        },
        LineFaultView::NotAnEvent { why } => {
            assert(text.skip(text.len() - why.len()) =~= why);
        },
    }
}

/// A line is refused as no JSON exactly where it is none, with what the parser says; where it is
/// JSON it is a record or refused as no event.
pub proof fn law_a_line_is_refused_for_what_it_is(line: Seq<char>)
    ensures
        parsed(line) is Err <==> line_record(line) is Err && line_record(line)->Err_0 is NotJson,
        parsed(line) is Err ==> line_record(line)->Err_0->NotJson_why == parsed(line)->Err_0,
        parsed(line) is Ok && line_record(line) is Err ==> line_record(line)->Err_0 is NotAnEvent,
{
}

/// A removal that is refused says how far it would reach, and how far the exports or the reader it
/// waits for have come, by its name.
pub proof fn law_a_refused_removal_says_how_far(outcome: RetainOutcome, shown: Seq<char>)
    ensures
        outcome is NotExported ==> within(
            refusal_said(outcome, shown),
            decimal(outcome->NotExported_up_to as nat),
        ) && within(refusal_said(outcome, shown), decimal(outcome->exported_through as nat)),
        outcome is ConsumerBehind ==> within(
            refusal_said(outcome, shown),
            decimal(outcome->ConsumerBehind_up_to as nat),
        ) && within(refusal_said(outcome, shown), decimal(outcome->cursor as nat)) && within(
            refusal_said(outcome, shown),
            shown,
        ) && refusal_shows(outcome) == outcome->consumer@,
{
    let text = refusal_said(outcome, shown);
    let start = "removing these streams would reach position "@;
    match outcome {
        RetainOutcome::Removed { .. } => {},
        RetainOutcome::NotExported { up_to, exported_through } => {
            let a = decimal(up_to as nat);
            let b = decimal(exported_through as nat);
            let mid = ", and confirmed exports reach only "@;
            let end =
                ": run export first (cards.export / store:export()), which writes the whole log to <root>/export and confirms it, and then prune again"@;
            assert(text =~= start + a + (mid + b + end));
            lemma_within(start, a, mid + b + end);
            lemma_within(start + a + mid, b, end);
        },
        RetainOutcome::ConsumerBehind { cursor, up_to, .. } => {
            let a = decimal(up_to as nat);
            let b = decimal(cursor as nat);
            let mid = ", and the read model "@;
            let folded = " has folded only to "@;
            let end =
                ": what this removes is history it would never see. Catch it up (store:catch_up()) \u{2014} or, if "@
                + shown
                + " is a projection this build retired, reopen the store, which drags a retired cursor forward"@;
            assert(text =~= start + a + (mid + shown + folded + b + end));
            lemma_within(start, a, mid + shown + folded + b + end);
            assert(text =~= (start + a + mid) + shown + (folded + b + end));
            lemma_within(start + a + mid, shown, folded + b + end);
            assert(text =~= (start + a + mid + shown + folded) + b + end);
            lemma_within(start + a + mid + shown + folded, b, end);
        },
    }
}

/// Whether two sayings are one wording around what they are about: the same text in front of it,
/// and the same behind it.
pub open spec fn worded_alike(a: Seq<char>, x: Seq<char>, b: Seq<char>, y: Seq<char>) -> bool {
    exists|front: Seq<char>, back: Seq<char>|
        a == #[trigger] (front + x + back) && b == front + y + back
}

/// Whether two sayings are one wording around two things they are about.
pub open spec fn worded_around(
    a: Seq<char>,
    x: (Seq<char>, Seq<char>),
    b: Seq<char>,
    y: (Seq<char>, Seq<char>),
) -> bool {
    exists|front: Seq<char>, middle: Seq<char>, back: Seq<char>|
        a == #[trigger] (front + x.0 + middle + x.1 + back) && b == front + y.0 + middle + y.1
            + back
}

proof fn lemma_around(
    front: Seq<char>,
    middle: Seq<char>,
    back: Seq<char>,
    x: (Seq<char>, Seq<char>),
    y: (Seq<char>, Seq<char>),
)
    ensures
        worded_around(
            front + x.0 + middle + x.1 + back,
            x,
            front + y.0 + middle + y.1 + back,
            y,
        ),
{
    let a = front + x.0 + middle + x.1 + back;
    assert(a == front + x.0 + middle + x.1 + back);
}

proof fn lemma_alike(front: Seq<char>, back: Seq<char>, x: Seq<char>, y: Seq<char>)
    ensures
        worded_alike(front + x + back, x, front + y + back, y),
{
    let a = front + x + back;
    assert(a == front + x + back);
}

/// A refusal of one sort is worded one way, whatever it is about.
pub proof fn law_a_refusal_is_worded_one_way(
    f: FaultView,
    g: FaultView,
    kind: Seq<char>,
    stream: Seq<char>,
    other: Seq<char>,
    place: Seq<char>,
)
    ensures
        (f is NotACard && g is NotACard) || (f is NotAnAlias && g is NotAnAlias) || (
        f is NotTheJournal && g is NotTheJournal) ==> worded_around(
            fault_said(f, kind, stream),
            (kind, stream),
            fault_said(g, other, place),
            (other, place),
        ),
        f is UnknownKind && g is UnknownKind ==> worded_around(
            fault_said(f, kind, stream),
            (f->UnknownKind_projection, kind),
            fault_said(g, other, place),
            (g->UnknownKind_projection, other),
        ),
        f is BindsNothing && g is BindsNothing ==> worded_alike(
            fault_said(f, kind, stream),
            f->name,
            fault_said(g, other, place),
            g->name,
        ),
        worded_alike(unknown_said(kind), kind, unknown_said(other), other),
{
    let on = " event is on stream "@;
    match (f, g) {
        (FaultView::NotACard { .. }, FaultView::NotACard { .. }) => {
            let end = ", which is not a card's: a card's stream is card-<id>"@;
            lemma_around("a "@, on, end, (kind, stream), (other, place));
        },
        (FaultView::NotAnAlias { .. }, FaultView::NotAnAlias { .. }) => {
            let end = ", which is not an alias's: an alias's stream is alias-<name>"@;
            lemma_around("a "@, on, end, (kind, stream), (other, place));
        },
        (FaultView::NotTheJournal { .. }, FaultView::NotTheJournal { .. }) => {
            let end = ", which is not the prune journal's: the journal's stream is prune"@;
            lemma_around("a "@, on, end, (kind, stream), (other, place));
        },
        (FaultView::UnknownKind { projection: p, .. }, FaultView::UnknownKind { projection: q, .. },
        ) => {
            let handed = " projection was handed a "@;
            let end = " event, which is not one of the kinds it asked for ("@
                + crate::projection::KIND_LIST@ + ")"@;
            assert(fault_said(f, kind, stream) =~= "the "@ + p + handed + kind + end);
            assert(fault_said(g, other, place) =~= "the "@ + q + handed + other + end);
            lemma_around("the "@, handed, end, (p, kind), (q, other));
        },
        (FaultView::BindsNothing { name: p }, FaultView::BindsNothing { name: q }) => {
            let end = " carries no meta.card_id, so it binds the name to nothing"@;
            lemma_alike("an alias_bound on alias-"@, end, p, q);
        },
        _ => {},
    }
    let end = "; the decisions this store knows are "@ + crate::rule::Rule::KNOWN@;
    assert(unknown_said(kind) =~= "unknown decision "@ + kind + end);
    assert(unknown_said(other) =~= "unknown decision "@ + other + end);
    lemma_alike("unknown decision "@, end, kind, other);
}

/// A line that is refused is refused in one wording, whatever the file, the number and the reason.
pub proof fn law_a_refused_line_is_worded_one_way(
    path: Seq<char>,
    line: nat,
    f: LineFaultView,
    other: Seq<char>,
    number: nat,
    g: LineFaultView,
)
    ensures
        f is NotJson && g is NotJson ==> worded_around(
            refusal_text(path, line, f),
            (path + seq![':'] + decimal(line), f->NotJson_why),
            refusal_text(other, number, g),
            (other + seq![':'] + decimal(number), g->NotJson_why),
        ),
        f is NotAnEvent && g is NotAnEvent ==> worded_around(
            refusal_text(path, line, f),
            (path + seq![':'] + decimal(line), f->NotAnEvent_why),
            refusal_text(other, number, g),
            (other + seq![':'] + decimal(number), g->NotAnEvent_why),
        ),
{
    let none = Seq::<char>::empty();
    let x = path + seq![':'] + decimal(line);
    let y = other + seq![':'] + decimal(number);
    match (f, g) {
        (LineFaultView::NotJson { why: a }, LineFaultView::NotJson { why: b }) => {
            assert(refusal_text(path, line, f) =~= none + x + ": not JSON: "@ + a + none);
            assert(refusal_text(other, number, g) =~= none + y + ": not JSON: "@ + b + none);
            lemma_around(none, ": not JSON: "@, none, (x, a), (y, b));
        },
        (LineFaultView::NotAnEvent { why: a }, LineFaultView::NotAnEvent { why: b }) => {
            assert(refusal_text(path, line, f) =~= none + x + ": not an exported event: "@ + a
                + none);
            assert(refusal_text(other, number, g) =~= none + y + ": not an exported event: "@ + b
                + none);
            lemma_around(none, ": not an exported event: "@, none, (x, a), (y, b));
        },
        _ => {},
    }
}

/// A removal that is refused is refused in one wording, whatever the positions and the reader are.
pub proof fn law_a_refused_removal_is_worded_one_way(
    f: RetainOutcome,
    shown: Seq<char>,
    g: RetainOutcome,
    other: Seq<char>,
)
    ensures
        f is NotExported && g is NotExported ==> worded_around(
            refusal_said(f, shown),
            (decimal(f->NotExported_up_to as nat), decimal(f->exported_through as nat)),
            refusal_said(g, other),
            (decimal(g->NotExported_up_to as nat), decimal(g->exported_through as nat)),
        ),
        f is ConsumerBehind && g is ConsumerBehind && shown == other ==> worded_around(
            refusal_said(f, shown),
            (decimal(f->ConsumerBehind_up_to as nat), decimal(f->cursor as nat)),
            refusal_said(g, other),
            (decimal(g->ConsumerBehind_up_to as nat), decimal(g->cursor as nat)),
        ),
{
    let start = "removing these streams would reach position "@;
    match (f, g) {
        (
            RetainOutcome::NotExported { up_to: a, exported_through: b },
            RetainOutcome::NotExported { up_to: c, exported_through: d },
        ) => {
            let middle = ", and confirmed exports reach only "@;
            let end =
                ": run export first (cards.export / store:export()), which writes the whole log to <root>/export and confirms it, and then prune again"@;
            let x = (decimal(a as nat), decimal(b as nat));
            let y = (decimal(c as nat), decimal(d as nat));
            lemma_around(start, middle, end, x, y);
        },
        (
            RetainOutcome::ConsumerBehind { cursor: b, up_to: a, .. },
            RetainOutcome::ConsumerBehind { cursor: d, up_to: c, .. },
        ) => {
            if shown == other {
                let middle = ", and the read model "@ + shown + " has folded only to "@;
                let end =
                    ": what this removes is history it would never see. Catch it up (store:catch_up()) \u{2014} or, if "@
                    + shown
                    + " is a projection this build retired, reopen the store, which drags a retired cursor forward"@;
                assert(refusal_said(f, shown) =~= start + decimal(a as nat) + middle + decimal(
                    b as nat,
                ) + end);
                assert(refusal_said(g, other) =~= start + decimal(c as nat) + middle + decimal(
                    d as nat,
                ) + end);
                let x = (decimal(a as nat), decimal(b as nat));
                let y = (decimal(c as nat), decimal(d as nat));
                lemma_around(start, middle, end, x, y);
            }
        },
        _ => {},
    }
}

// ------------------------------------------------------------------ orders and names

/// A removal is made only behind a catch-up and a carrying forward, in that order and of the same
/// streams, and its report is what is answered in the end.
pub proof fn law_a_removal_waits_for_the_readers(r: Retention)
    ensures
        after_done(r) is Remove ==> r is CarryForward || r is Remove,
        after_done(r) is CarryForward <==> r is CatchUp,
        !(after_done(r) is CatchUp),
        r is CatchUp ==> after_done(after_done(r)) is Remove && after_done(
            after_done(r),
        )->Remove_streams == r->CatchUp_streams,
        r is Reclaim ==> after_done(r) is Done && after_done(r)->Done_report == r->Reclaim_report,
        r is Done ==> after_done(r) == r,
{
}

/// The names that are retired are these three, and the live one is the second of them.
pub proof fn law_these_names_are_retired(name: Seq<char>)
    ensures
        retired_names().contains(name) <==> name == "cards_v1"@ || name == "cards_v2"@ || name
            == "cards_v3"@,
        CardsProjection::NAME@ == "cards_v2"@,
{
    let names = retired_names();
    assert(names[0] == "cards_v1"@ && names[1] == "cards_v2"@ && names[2] == "cards_v3"@);
    assert(names.len() == 3);
}

/// What a decision is shown: `unwritten` everything, and every other the kinds it asks about and
/// no more.
pub proof fn law_a_decision_is_shown_what_it_asks_about(rule: RuleView, kind: Seq<char>)
    ensures
        rule is Unwritten <==> kinds_of(rule) is None,
        !(rule is Unwritten) ==> (kinds_of(rule)->0.contains(kind) <==> match rule {
            RuleView::Unwritten => true,
            RuleView::OpenUnclosed => kind == "card_opened"@ || kind == "card_closed"@,
            RuleView::ClosedAbsent => kind == "card_closed"@,
            RuleView::Opened => kind == "card_opened"@,
            RuleView::AliasNot(_) => kind == "alias_bound"@ || kind == "alias_released"@,
            RuleView::AliasBound => kind == "alias_bound"@ || kind == "alias_released"@,
        }),
{
    if !(rule is Unwritten) {
        let kinds = kinds_of(rule)->0;
        match rule {
            RuleView::Unwritten => {},
            RuleView::ClosedAbsent => {
                assert(kinds.len() == 1 && kinds[0] == "card_closed"@);
            },
            RuleView::Opened => {
                assert(kinds.len() == 1 && kinds[0] == "card_opened"@);
            },
            RuleView::OpenUnclosed => {
                assert(kinds.len() == 2 && kinds[0] == "card_opened"@ && kinds[1]
                    == "card_closed"@);
            },
            _ => {
                assert(kinds.len() == 2 && kinds[0] == "alias_bound"@ && kinds[1]
                    == "alias_released"@);
            },
        }
    }
}

/// The table each removal of a prune takes rows from, and the column that says whose they are.
pub open spec fn taken_from(statement: Statement) -> (Seq<char>, Seq<char>) {
    match statement {
        Statement::DropCard => ("cb_cards"@, "id"@),
        Statement::DropSamples => ("cb_samples"@, "card_id"@),
        Statement::DropEvals => ("cb_evals"@, "card_id"@),
        Statement::DropCheckpoints => ("cb_checkpoints"@, "card_id"@),
        Statement::DropTags => ("cb_tags"@, "card_id"@),
        Statement::DropLineage => ("cb_lineage"@, "child"@),
        _ => (seq![], seq![]),
    }
}

/// What a prune removes from each table is the rows of the card it is given.
pub proof fn law_a_prune_removes_by_the_card(statement: Statement)
    requires
        taken_from(statement).0.len() > 0,
    ensures
        sql_of(statement) == "DELETE FROM "@ + taken_from(statement).0 + " WHERE "@ + taken_from(
            statement,
        ).1 + " = ?1"@,
{
    reveal_strlit("DELETE FROM ");
    reveal_strlit(" WHERE ");
    reveal_strlit(" = ?1");
    reveal_strlit("id");
    reveal_strlit("card_id");
    reveal_strlit("child");
    let right = "DELETE FROM "@ + taken_from(statement).0 + " WHERE "@ + taken_from(statement).1
        + " = ?1"@;
    match statement {
        Statement::DropCard => {
            reveal_strlit("cb_cards");
            reveal_strlit("DELETE FROM cb_cards WHERE id = ?1");
            assert(sql_of(statement) =~= right);
        },
        Statement::DropSamples => {
            reveal_strlit("cb_samples");
            reveal_strlit("DELETE FROM cb_samples WHERE card_id = ?1");
            assert(sql_of(statement) =~= right);
        },
        Statement::DropEvals => {
            reveal_strlit("cb_evals");
            reveal_strlit("DELETE FROM cb_evals WHERE card_id = ?1");
            assert(sql_of(statement) =~= right);
        },
        Statement::DropCheckpoints => {
            reveal_strlit("cb_checkpoints");
            reveal_strlit("DELETE FROM cb_checkpoints WHERE card_id = ?1");
            assert(sql_of(statement) =~= right);
        },
        Statement::DropTags => {
            reveal_strlit("cb_tags");
            reveal_strlit("DELETE FROM cb_tags WHERE card_id = ?1");
            assert(sql_of(statement) =~= right);
        },
        Statement::DropLineage => {
            reveal_strlit("cb_lineage");
            reveal_strlit("DELETE FROM cb_lineage WHERE child = ?1");
            assert(sql_of(statement) =~= right);
        },
        _ => {},
    }
}

/// What counts an evaluation or a checkpoint adds one to its own column, on the card it is given.
pub proof fn law_a_count_is_its_own_columns()
    ensures
        sql_of(Statement::CountEval) == "UPDATE cb_cards SET "@ + "eval_count"@ + " = "@
            + "eval_count"@ + " + 1 WHERE id = ?1"@,
        sql_of(Statement::CountCheckpoint) == "UPDATE cb_cards SET "@ + "checkpoint_count"@ + " = "@
            + "checkpoint_count"@ + " + 1 WHERE id = ?1"@,
{
    reveal_strlit("UPDATE cb_cards SET ");
    reveal_strlit("eval_count");
    reveal_strlit("checkpoint_count");
    reveal_strlit(" = ");
    reveal_strlit(" + 1 WHERE id = ?1");
    reveal_strlit("UPDATE cb_cards SET eval_count = eval_count + 1 WHERE id = ?1");
    reveal_strlit("UPDATE cb_cards SET checkpoint_count = checkpoint_count + 1 WHERE id = ?1");
    assert(sql_of(Statement::CountEval) =~= "UPDATE cb_cards SET "@ + "eval_count"@ + " = "@
        + "eval_count"@ + " + 1 WHERE id = ?1"@);
    assert(sql_of(Statement::CountCheckpoint) =~= "UPDATE cb_cards SET "@ + "checkpoint_count"@
        + " = "@ + "checkpoint_count"@ + " + 1 WHERE id = ?1"@);
}

/// Each column that an earlier table may lack is added by its own name, to its own table.
pub proof fn law_a_column_is_added_by_its_name(i: int)
    ensures
        0 <= i < later_card_columns().len() ==> later_card_columns()[i].1
            == "ALTER TABLE cb_cards ADD COLUMN "@ + later_card_columns()[i].0 + " TEXT"@,
        0 <= i < later_eval_columns().len() ==> later_eval_columns()[i].1
            == "ALTER TABLE cb_evals ADD COLUMN "@ + later_eval_columns()[i].0 + " TEXT"@,
{
    reveal_strlit("ALTER TABLE cb_cards ADD COLUMN ");
    reveal_strlit("ALTER TABLE cb_evals ADD COLUMN ");
    reveal_strlit(" TEXT");
    reveal_strlit("model");
    reveal_strlit("trace_id");
    reveal_strlit("work_url");
    reveal_strlit("fingerprint");
    reveal_strlit("params_json");
    reveal_strlit("source");
    reveal_strlit("ALTER TABLE cb_cards ADD COLUMN model TEXT");
    reveal_strlit("ALTER TABLE cb_cards ADD COLUMN trace_id TEXT");
    reveal_strlit("ALTER TABLE cb_cards ADD COLUMN work_url TEXT");
    reveal_strlit("ALTER TABLE cb_cards ADD COLUMN fingerprint TEXT");
    reveal_strlit("ALTER TABLE cb_cards ADD COLUMN params_json TEXT");
    reveal_strlit("ALTER TABLE cb_evals ADD COLUMN source TEXT");
    if 0 <= i < later_card_columns().len() {
        let column = later_card_columns()[i];
        assert(column.1 =~= "ALTER TABLE cb_cards ADD COLUMN "@ + column.0 + " TEXT"@);
    }
    if 0 <= i < later_eval_columns().len() {
        let column = later_eval_columns()[i];
        assert(column.1 =~= "ALTER TABLE cb_evals ADD COLUMN "@ + column.0 + " TEXT"@);
    }
}

} // verus!
