//! Reading an export back: the lines of a file as batches for the log.
use vstd::prelude::*;
use vstd::string::*;

use crate::lines::{
    blank, cut_line, first_line, lemma_line_end, lemma_line_end_at, other_lines,
};
use crate::text::{chars_of, decimal, decimal_text, joined};
use crate::wire::{
    LineFault, LineFaultView, Record, carried, carries, lemma_json_one_line, line_of, line_record,
    read_line, reads_back, record_tree,
};

verus! {

/// Events per page, in both directions. A thousand is large enough that a store of a few
/// hundred cards is one or two pages and small enough that a failure costs re-reading one of
/// them.
pub const PAGE: usize = 1000;

/// What one import read back in.
#[derive(Clone, Copy, Debug)]
pub struct ImportReport {
    pub events: u64,
    /// Whether every event landed on the position it carried out of the log it came from.
    /// True for a file imported in order into an empty store, which is what restoring a
    /// backup is; false when it merged into a store that already had history, which renumbers
    /// by design.
    pub reproduced_coordinates: bool,
}

/// Why an export could not be read back.
#[derive(Debug)]
pub struct ImportFault {
    pub path: String,
    /// The line, from 1.
    pub line: u64,
    pub fault: LineFault,
}

/// What a refusal of a line says.
pub open spec fn refusal_text(path: Seq<char>, line: nat, fault: LineFaultView) -> Seq<char> {
    let place = path + seq![':'] + decimal(line);
    match fault {
        LineFaultView::NotJson { why } => place + ": not JSON: "@ + why,
        LineFaultView::NotAnEvent { why } => place + ": not an exported event: "@ + why,
    }
}

impl ImportFault {
    /// What the refusal says.
    pub fn message(&self) -> (r: String)
        ensures
            r@ == refusal_text(self.path@, self.line as nat, self.fault@),
    {
        let mut out = self.path.clone();
        out.push(':');
        out.append(decimal_text(self.line).as_str());
        assert(out@ =~= self.path@ + seq![':'] + decimal(self.line as nat));
        match &self.fault {
            LineFault::NotJson { why } => {
                out.append(": not JSON: ");
                out.append(why.as_str());
            },
            LineFault::NotAnEvent { why } => {
                out.append(": not an exported event: ");
                out.append(why.as_str());
            },
        }
        out
    }
}

/// The refusal of a file that could not be read at all.
pub fn unreadable(path: &str, why: &str) -> (r: String)
    ensures
        r@ == "cannot read the export "@ + path@ + ": "@ + why@,
{
    let mut out = joined("cannot read the export ", path);
    out.append(": ");
    out.append(why);
    out
}

/// What reading on finds: a whole page with the text behind it, the end, or a line that is
/// not a record.
pub enum Gathered {
    Page { records: Seq<Record>, rest: Seq<char>, line: nat },
    End { records: Seq<Record>, line: nat },
    Fault { line: nat, fault: LineFaultView },
}

/// What reading `rest` on finds, with `line` lines and `have` records read so far. A line of
/// nothing but white space is passed over.
pub open spec fn gathered(rest: Seq<char>, line: nat, have: Seq<Record>) -> Gathered
    decreases rest.len(),
{
    if have.len() >= PAGE {
        Gathered::Page { records: have, rest, line }
    } else if rest.len() == 0 {
        Gathered::End { records: have, line }
    } else {
        proof {
            lemma_line_end(rest);
        }
        if blank(first_line(rest)) {
            gathered(other_lines(rest), line + 1, have)
        } else {
            match line_record(first_line(rest)) {
                Ok(record) => gathered(other_lines(rest), line + 1, have.push(record)),
                Err(fault) => Gathered::Fault { line: line + 1, fault },
            }
        }
    }
}

/// The reading of a batch.
pub open spec fn batch_view(batch: Seq<eventsdb::ExportedEvent>) -> Seq<Record> {
    Seq::new(batch.len(), |i: int| carried(batch[i]))
}

/// The text an export of `records` is: a line each.
pub open spec fn export_text(records: Seq<Record>) -> Seq<char>
    decreases records.len(),
{
    if records.len() == 0 {
        seq![]
    } else {
        line_of(records[0]) + seq!['\n'] + export_text(records.drop_first())
    }
}

/// Records that lines carry.
pub open spec fn all_carried(records: Seq<Record>) -> bool {
    forall|i: int| 0 <= i < records.len() ==> carries(#[trigger] records[i])
}

/// The first line of an export is its first record, and the rest of the text the rest of the
/// export.
pub proof fn lemma_export_lines(records: Seq<Record>)
    requires
        records.len() > 0,
        carries(records[0]),
    ensures
        export_text(records).len() > 0,
        first_line(export_text(records)) == line_of(records[0]),
        other_lines(export_text(records)) == export_text(records.drop_first()),
        !blank(line_of(records[0])),
{
    let line = line_of(records[0]);
    let text = export_text(records);
    lemma_json_one_line(record_tree(records[0]), crate::wire::DEEPEST as nat);
    assert(text[line.len() as int] == '\n');
    assert forall|i: int| 0 <= i < line.len() implies text[i] != '\n' by {
        assert(text[i] == line[i]);
    }
    lemma_line_end_at(text, line.len() as int);
    assert(line[0] == '{');
    assert(!crate::lines::white(line[0]));
    assert(text[line.len() - 1] == line[line.len() - 1]);
    assert(text.take(line.len() as int) =~= line);
    assert(text.skip(line.len() as int + 1) =~= export_text(records.drop_first()));
}

/// What an import does next.
#[derive(Debug)]
pub enum ImportStep {
    /// Hand these to the log, in one transaction, and say what it answered.
    Import(Vec<eventsdb::ExportedEvent>),
    /// Every line is in: catch the read models up.
    CatchUp,
    /// Stop here. What was handed over before stays.
    Failed(ImportFault),
}

/// An import under way.
pub struct ImportRun {
    path: String,
    chars: Vec<char>,
    at: usize,
    line: usize,
    ended: bool,
    events: u64,
    reproduced: bool,
}

/// The mathematical reading of an [`ImportRun`].
pub struct ImportView {
    pub path: Seq<char>,
    /// What has not been read yet.
    pub rest: Seq<char>,
    /// How many lines were read.
    pub line: nat,
    /// Whether the last batch was handed over.
    pub ended: bool,
    pub events: u64,
    pub reproduced: bool,
}

impl View for ImportRun {
    type V = ImportView;

    closed spec fn view(&self) -> ImportView {
        ImportView {
            path: self.path@,
            rest: self.chars@.skip(self.at as int),
            line: self.line as nat,
            ended: self.ended,
            events: self.events,
            reproduced: self.reproduced,
        }
    }
}

impl ImportRun {
    /// The cursor is inside the text, and no line is shorter than its end.
    #[verifier::type_invariant]
    spec fn inside(self) -> bool {
        self.line <= self.at <= self.chars@.len()
    }

    /// The import of a file that holds `text`.
    pub fn new(path: &str, text: &str) -> (r: ImportRun)
        ensures
            r@ == (ImportView {
                path: path@,
                rest: text@,
                line: 0,
                ended: false,
                events: 0,
                reproduced: true,
            }),
    {
        let chars = chars_of(text);
        assert(chars@.skip(0) =~= text@);
        ImportRun {
            path: path.to_owned(),
            chars,
            at: 0,
            line: 0,
            ended: false,
            events: 0,
            reproduced: true,
        }
    }

    /// Reads on to the next page of records, to the end, or to a line that is not a record.
    pub fn next(&mut self) -> (r: ImportStep)
        ensures
            ({
                let before = old(self)@;
                let after = final(self)@;
                &&& after.path == before.path
                &&& after.events == before.events
                &&& after.reproduced == before.reproduced
                &&& before.ended ==> r is CatchUp && after == before
                &&& !before.ended ==> match gathered(before.rest, before.line, seq![]) {
                    Gathered::Page { records, rest, line } => {
                        &&& r is Import
                        &&& batch_view(r->Import_0@) == records
                        &&& after.rest == rest
                        &&& after.line == line
                        &&& !after.ended
                    },
                    Gathered::End { records, line } => {
                        &&& records.len() == 0 ==> r is CatchUp
                        &&& records.len() > 0 ==> r is Import && batch_view(r->Import_0@)
                            == records
                        &&& after.rest.len() == 0
                        &&& after.line == line
                        &&& after.ended
                    },
                    Gathered::Fault { line, fault } => {
                        &&& r is Failed
                        &&& r->Failed_0.path@ == before.path
                        &&& r->Failed_0.line == line
                        &&& r->Failed_0.fault@ == fault
                        &&& after == before
                    },
                }
            }),
            forall|records: Seq<Record>| #[trigger]
                all_carried(records) && old(self)@.rest == export_text(records) && !old(self)@.ended
                    ==> {
                    if records.len() >= PAGE {
                        &&& r is Import
                        &&& batch_view(r->Import_0@) == records.take(PAGE as int)
                        &&& final(self)@.rest == export_text(records.skip(PAGE as int))
                        &&& !final(self)@.ended
                    } else if records.len() > 0 {
                        &&& r is Import
                        &&& batch_view(r->Import_0@) == records
                        &&& final(self)@.ended
                    } else {
                        r is CatchUp
                    }
                },
    {
        proof {
            use_type_invariant(&*self);
        }
        if self.ended {
            return ImportStep::CatchUp;
        }
        let ghost start = self@;
        let mut at: usize = self.at;
        let mut line: usize = self.line;
        let mut batch: Vec<eventsdb::ExportedEvent> = Vec::new();
        assert(batch_view(batch@) =~= seq![]);
        assert forall|records: Seq<Record>| #[trigger]
            all_carried(records) && start.rest == export_text(records) implies {
            &&& 0 <= records.len()
            &&& batch_view(batch@) == records.take(0)
            &&& self.chars@.skip(at as int) == export_text(records.skip(0))
        } by {
            assert(records.skip(0) =~= records);
            assert(records.take(0) =~= seq![]);
        }
        while batch.len() < PAGE && at < self.chars.len()
            invariant
                !start.ended,
                *self == *old(self),
                start == self@,
                line <= at <= self.chars@.len(),
                self.line <= self.at <= at,
                batch@.len() <= PAGE,
                gathered(start.rest, start.line, seq![]) == gathered(
                    self.chars@.skip(at as int),
                    line as nat,
                    batch_view(batch@),
                ),
                forall|records: Seq<Record>| #[trigger]
                    all_carried(records) && start.rest == export_text(records) ==> {
                        &&& batch@.len() <= records.len()
                        &&& batch_view(batch@) == records.take(batch@.len() as int)
                        &&& self.chars@.skip(at as int) == export_text(
                            records.skip(batch@.len() as int),
                        )
                    },
            decreases self.chars@.len() - at,
        {
            let ghost rest = self.chars@.skip(at as int);
            let ghost had = batch_view(batch@);
            let cut = cut_line(&self.chars, at);
            at = cut.next;
            line += 1;
            proof {
                assert forall|records: Seq<Record>| #[trigger]
                    all_carried(records) && start.rest == export_text(records) implies {
                    let left = records.skip(had.len() as int);
                    &&& left.len() > 0
                    &&& cut.line is Some
                    &&& cut.line->0@ == line_of(left[0])
                    &&& carries(left[0])
                    &&& self.chars@.skip(at as int) == export_text(left.drop_first())
                } by {
                    let left = records.skip(had.len() as int);
                    assert(left.len() > 0);
                    assert(left[0] == records[had.len() as int]);
                    lemma_export_lines(left);
                }
            }
            match cut.line {
                Some(text) => match read_line(text.as_str()) {
                    Ok(record) => {
                        batch.push(record);
                        assert(batch_view(batch@) =~= had.push(carried(record)));
                        proof {
                            assert forall|records: Seq<Record>| #[trigger]
                                all_carried(records) && start.rest == export_text(records) implies {
                                &&& batch@.len() <= records.len()
                                &&& batch_view(batch@) == records.take(batch@.len() as int)
                                &&& self.chars@.skip(at as int) == export_text(
                                    records.skip(batch@.len() as int),
                                )
                            } by {
                                let left = records.skip(had.len() as int);
                                assert(left.drop_first() =~= records.skip(had.len() as int + 1));
                                assert(carried(record) == left[0]);
                                assert(batch_view(batch@) =~= records.take(batch@.len() as int));
                            }
                        }
                    },
                    Err(fault) => {
                        return ImportStep::Failed(
                            ImportFault { path: self.path.clone(), line: line as u64, fault },
                        );
                    },
                },
                None => {},
            }
        }
        self.at = at;
        self.line = line;
        if batch.len() == PAGE {
            return ImportStep::Import(batch);
        }
        self.ended = true;
        proof {
            assert forall|records: Seq<Record>| #[trigger]
                all_carried(records) && start.rest == export_text(records) implies records.len()
                == batch@.len() by {
                let left = records.skip(batch@.len() as int);
                if left.len() > 0 {
                    assert(left[0] == records[batch@.len() as int]);
                    lemma_export_lines(left);
                }
            }
        }
        if batch.len() == 0 {
            ImportStep::CatchUp
        } else {
            ImportStep::Import(batch)
        }
    }
}

impl ImportRun {
    /// Counts what the log answered to a batch.
    ///
    /// One false page makes the whole import false: the claim is about the run, and a run that
    /// landed on its own coordinates for half of itself did not reproduce the log.
    pub fn landed(&mut self, imported: u64, reproduced_coordinates: bool)
        requires
            old(self)@.events + imported <= u64::MAX,
        ensures
            final(self)@ == (ImportView {
                events: (old(self)@.events + imported) as u64,
                reproduced: old(self)@.reproduced && reproduced_coordinates,
                ..old(self)@
            }),
    {
        proof {
            use_type_invariant(&*self);
        }
        self.events = self.events + imported;
        self.reproduced = self.reproduced && reproduced_coordinates;
    }

    /// How many events have landed.
    pub fn events(&self) -> (r: u64)
        ensures
            r == self@.events,
    {
        self.events
    }

    /// What the import did.
    pub fn report(&self) -> (r: ImportReport)
        ensures
            r.events == self@.events,
            r.reproduced_coordinates == self@.reproduced,
    {
        ImportReport { events: self.events, reproduced_coordinates: self.reproduced }
    }
}

/// The records of a text up to the first line that is none, and that line, where there is one.
pub open spec fn records_of(rest: Seq<char>, line: nat) -> (
    Seq<Record>,
    Option<(nat, LineFaultView)>,
)
    decreases rest.len(),
{
    if rest.len() == 0 {
        (seq![], None)
    } else {
        proof {
            lemma_line_end(rest);
        }
        if blank(first_line(rest)) {
            records_of(other_lines(rest), line + 1)
        } else {
            match line_record(first_line(rest)) {
                Ok(record) => {
                    let more = records_of(other_lines(rest), line + 1);
                    (seq![record] + more.0, more.1)
                },
                Err(fault) => (seq![], Some((line + 1, fault))),
            }
        }
    }
}

/// What reading on finds is what the text holds.
proof fn lemma_gathered(rest: Seq<char>, line: nat, have: Seq<Record>)
    requires
        have.len() <= PAGE,
    ensures
        match gathered(rest, line, have) {
            Gathered::Page { records, rest: left, line: at } => {
                &&& records.len() == PAGE
                &&& have + records_of(rest, line).0 == records + records_of(left, at).0
                &&& records_of(rest, line).1 == records_of(left, at).1
                &&& left.len() <= rest.len()
                &&& have.len() < PAGE ==> left.len() < rest.len()
            },
            Gathered::End { records, .. } => {
                &&& records.len() < PAGE
                &&& have + records_of(rest, line).0 == records
                &&& records_of(rest, line).1 is None
            },
            Gathered::Fault { line: at, fault } => {
                &&& records_of(rest, line).1 == Some((at, fault))
                &&& have.len() + records_of(rest, line).0.len() < PAGE
            },
        },
    decreases rest.len(),
{
    if have.len() < PAGE && rest.len() > 0 {
        lemma_line_end(rest);
        if blank(first_line(rest)) {
            lemma_gathered(other_lines(rest), line + 1, have);
        } else {
            match line_record(first_line(rest)) {
                Ok(record) => {
                    lemma_gathered(other_lines(rest), line + 1, have.push(record));
                    let more = records_of(other_lines(rest), line + 1);
                    assert(have.push(record) + more.0 =~= have + (seq![record] + more.0));
                },
                Err(_) => {},
            }
        }
    } else {
        assert(have + seq![] =~= have);
    }
}

/// The batches an import of a text hands over, in order.
pub open spec fn batches_of(rest: Seq<char>, line: nat) -> Seq<Seq<Record>>
    decreases rest.len(),
{
    match gathered(rest, line, seq![]) {
        Gathered::Page { records, rest: left, line: at } => if left.len() < rest.len() {
            seq![records] + batches_of(left, at)
        } else {
            seq![records]
        },
        Gathered::End { records, .. } => if records.len() > 0 {
            seq![records]
        } else {
            seq![]
        },
        Gathered::Fault { .. } => seq![],
    }
}

/// An import hands over every record of a file, each once and in the order of the lines, in
/// whole pages but for the last. Where a line is not a record, what was handed over is the
/// whole pages in front of it.
pub proof fn law_an_import_is_every_line(text: Seq<char>, line: nat)
    ensures
        ({
            let handed = batches_of(text, line).flatten();
            let (records, fault) = records_of(text, line);
            &&& fault is None ==> handed == records
            &&& fault is Some ==> handed.is_prefix_of(records) && records.len() - handed.len()
                < PAGE
            &&& forall|i: int|
                0 <= i < batches_of(text, line).len() ==> 0 < (#[trigger] batches_of(
                    text,
                    line,
                )[i]).len() <= PAGE
            &&& forall|i: int|
                0 <= i < batches_of(text, line).len() - (if fault is None {
                    1int
                } else {
                    0int
                }) ==> (#[trigger] batches_of(text, line)[i]).len() == PAGE
        }),
    decreases text.len(),
{
    lemma_gathered(text, line, seq![]);
    let batches = batches_of(text, line);
    let (records, fault) = records_of(text, line);
    assert(seq![] + records =~= records);
    match gathered(text, line, seq![]) {
        Gathered::Page { records: page, rest: left, line: at } => {
            law_an_import_is_every_line(left, at);
            let later = batches_of(left, at);
            assert(batches =~= seq![page] + later);
            assert(batches.drop_first() =~= later);
            assert(batches.flatten() == page + later.flatten());
            if fault is Some {
                let (more, _) = records_of(left, at);
                assert(records =~= page + more);
                assert(later.flatten() =~= more.take(later.flatten().len() as int));
                assert(batches.flatten() =~= records.take(batches.flatten().len() as int));
            }
            assert forall|i: int| 0 <= i < batches.len() implies 0 < (#[trigger] batches[i]).len()
                <= PAGE by {
                if i > 0 {
                    assert(batches[i] == later[i - 1]);
                }
            }
            assert forall|i: int|
                0 <= i < batches.len() - (if fault is None {
                    1int
                } else {
                    0int
                }) implies (#[trigger] batches[i]).len() == PAGE by {
                if i > 0 {
                    assert(batches[i] == later[i - 1]);
                }
            }
        },
        Gathered::End { records: last, .. } => {
            if last.len() > 0 {
                assert(batches.drop_first() =~= seq![]);
                assert(batches.drop_first().flatten() =~= seq![]);
                assert(batches.flatten() =~= last);
            }
        },
        Gathered::Fault { .. } => {},
    }
}

/// The records of an export's text are the records that were exported.
pub proof fn law_an_export_reads_back(records: Seq<Record>, line: nat)
    requires
        all_carried(records),
        forall|i: int| 0 <= i < records.len() ==> reads_back(line_of(#[trigger] records[i])),
    ensures
        records_of(export_text(records), line) == (records, None::<(nat, LineFaultView)>),
    decreases records.len(),
{
    if records.len() > 0 {
        lemma_export_lines(records);
        crate::wire::law_a_line_gives_back_its_record(records[0]);
        let rest = records.drop_first();
        assert forall|i: int| 0 <= i < rest.len() implies reads_back(
            line_of(#[trigger] rest[i]),
        ) && carries(rest[i]) by {
            assert(rest[i] == records[i + 1]);
        }
        law_an_export_reads_back(rest, line + 1);
        assert(seq![records[0]] + rest =~= records);
    }
}

} // verus!
