//! Moving the log out: one file of JSON Lines a call, from the end of the confirmed chain to
//! the end of the log.
//!
//! # Why the export is the whole log
//!
//! The guard of a removal chains the **confirmed, unfiltered** receipts of exports from the
//! beginning and refuses any plan that would remove past the chain's end. An export of only
//! the streams about to go would never extend that chain. So an export pages the whole log
//! from where the chain ends, and what the directory ends up being is an append-only backup
//! that grows by one file a call.
//!
//! # Confirm after the rename, not before
//!
//! The pages of one call go to a part file, and the receipts are handed out for confirming
//! only once that file has its final name: [`ExportRun`] becomes a [`Landing`] with its last
//! page, and a [`Landing`] becomes a [`Landed`], which holds the receipts, with the rename. A
//! crash before that costs a second export of the same range, which the next call does on its
//! own.
use vstd::prelude::*;
use vstd::string::*;

use crate::import::{
    PAGE, all_carried, batch_view, batches_of, export_text, law_an_export_reads_back,
    law_an_import_is_every_line, records_of,
};
use crate::stamp::{stamp, utc_stamp};
use crate::text::{decimal, decimal_text, joined};
use crate::wire::{Record, export_line, line_of, reads_back};

verus! {

/// What one export wrote.
///
/// `file` is absent when there was nothing new: no file is created, `from` and `through` are
/// both the chain's end, and `events` is 0. An export of nothing is not a file holding
/// nothing.
#[derive(Debug)]
pub struct ExportReport {
    pub file: Option<String>,
    /// The position the export started after: the end of the confirmed chain.
    pub from: u64,
    /// The position of the last event written, or `from` when none was.
    pub through: u64,
    pub events: u64,
}

impl Clone for ExportReport {
    fn clone(&self) -> (r: Self)
        ensures
            crate::json::text_view(r.file) == crate::json::text_view(self.file),
            r.from == self.from,
            r.through == self.through,
            r.events == self.events,
    {
        ExportReport {
            file: match &self.file {
                Some(file) => Some(file.clone()),
                None => None,
            },
            from: self.from,
            through: self.through,
            events: self.events,
        }
    }
}

/// What the log records of one page: its number, the positions it covers, and whether it was
/// read without a filter.
#[derive(Clone, Copy, Debug)]
pub struct Receipt {
    pub id: u64,
    pub from: u64,
    pub through: u64,
    pub whole: bool,
}

/// A page that was recorded as filtered.
#[derive(Clone, Copy, Debug)]
pub struct NotWhole {
    pub from: u64,
    pub through: u64,
}

impl NotWhole {
    /// What the refusal says.
    pub fn message(&self) -> (r: String)
        ensures
            r@ == "the export of positions "@ + decimal(self.from as nat) + ".."@ + decimal(
                self.through as nat,
            ) + " was recorded as filtered, so it cannot vouch for the history it covers"@,
    {
        let mut out = joined("the export of positions ", decimal_text(self.from).as_str());
        out.append("..");
        out.append(decimal_text(self.through).as_str());
        out.append(" was recorded as filtered, so it cannot vouch for the history it covers");
        out
    }
}

/// The name of the file the pages of a call go to first.
pub open spec fn part_name(pid: nat, from: nat) -> Seq<char> {
    ".part-"@ + decimal(pid) + "-"@ + decimal(from) + ".jsonl"@
}

/// The name an export ends up under: when it was made, and the positions it covers.
pub open spec fn file_name(ms: int, from: nat, through: nat) -> Seq<char> {
    stamp(ms) + "-"@ + decimal(from) + "-"@ + decimal(through) + ".jsonl"@
}

/// An export whose pages are still being written.
#[derive(Debug)]
pub struct ExportRun {
    part: String,
    from: u64,
    at: u64,
    events: u64,
    receipts: Vec<u64>,
}

/// The mathematical reading of an [`ExportRun`].
pub struct ExportView {
    pub part: Seq<char>,
    pub from: u64,
    /// The position the next page starts after.
    pub at: u64,
    pub events: u64,
    pub receipts: Seq<u64>,
}

impl View for ExportRun {
    type V = ExportView;

    closed spec fn view(&self) -> ExportView {
        ExportView {
            part: self.part@,
            from: self.from,
            at: self.at,
            events: self.events,
            receipts: self.receipts@,
        }
    }
}

/// An export whose last page is written, under its part name.
#[derive(Debug)]
pub struct Landing {
    part: String,
    from: u64,
    through: u64,
    events: u64,
    receipts: Vec<u64>,
}

/// The mathematical reading of a [`Landing`].
pub struct LandingView {
    pub part: Seq<char>,
    pub from: u64,
    pub through: u64,
    pub events: u64,
    pub receipts: Seq<u64>,
}

impl View for Landing {
    type V = LandingView;

    closed spec fn view(&self) -> LandingView {
        LandingView {
            part: self.part@,
            from: self.from,
            through: self.through,
            events: self.events,
            receipts: self.receipts@,
        }
    }
}

/// An export under its final name: what to confirm, and what to answer.
#[derive(Debug)]
pub struct Landed {
    pub receipts: Vec<u64>,
    pub report: ExportReport,
}

/// How an export begins.
#[derive(Debug)]
pub enum Begin {
    /// Nothing is new. No receipt is asked for, so that a store with nothing new does not
    /// collect one per poll.
    Nothing(ExportReport),
    Export(ExportRun),
}

/// An export that starts after `from`, the end of the confirmed chain, when the log holds
/// `ahead` events past it, as far as was looked.
pub fn begin(pid: u32, from: u64, ahead: usize) -> (r: Begin)
    ensures
        match r {
            Begin::Nothing(report) => {
                &&& ahead == 0
                &&& report.file is None
                &&& report.from == from
                &&& report.through == from
                &&& report.events == 0
            },
            Begin::Export(run) => {
                &&& ahead > 0
                &&& run@ == (ExportView {
                    part: part_name(pid as nat, from as nat),
                    from,
                    at: from,
                    events: 0,
                    receipts: seq![],
                })
            },
        },
{
    if ahead == 0 {
        return Begin::Nothing(ExportReport { file: None, from, through: from, events: 0 });
    }
    let mut part = joined(".part-", decimal_text(pid as u64).as_str());
    part.append("-");
    part.append(decimal_text(from).as_str());
    part.append(".jsonl");
    Begin::Export(ExportRun { part, from, at: from, events: 0, receipts: Vec::new() })
}

/// A page, written out: what goes to the part file, and what the export is behind it.
#[derive(Debug)]
pub enum Paged {
    /// The page was full, so there may be another.
    More { text: String, run: ExportRun },
    /// The page was short, so it was the last.
    Last { text: String, landing: Landing },
}

impl Paged {
    /// What goes to the part file.
    pub open spec fn text(self) -> Seq<char> {
        match self {
            Paged::More { text, .. } => text@,
            Paged::Last { text, .. } => text@,
        }
    }
}

/// The lines of a page.
fn page_text(page: &Vec<eventsdb::ExportedEvent>) -> (r: String)
    ensures
        r@ == export_text(batch_view(page@)),
{
    let ghost all = batch_view(page@);
    let mut out = String::new();
    let mut i: usize = 0;
    assert(all.skip(0) =~= all);
    assert(export_text(all) =~= out@ + export_text(all.skip(0)));
    while i < page.len()
        invariant
            i <= page@.len(),
            all == batch_view(page@),
            export_text(all) == out@ + export_text(all.skip(i as int)),
        decreases page@.len() - i,
    {
        let ghost had = out@;
        let line = export_line(&page[i]);
        out.append(line.as_str());
        out.push('\n');
        proof {
            let left = all.skip(i as int);
            assert(left[0] == all[i as int]);
            assert(left.drop_first() =~= all.skip(i + 1));
            assert(out@ + export_text(all.skip(i + 1)) =~= had + (line_of(left[0]) + seq!['\n']
                + export_text(left.drop_first())));
        }
        i += 1;
    }
    assert(all.skip(page@.len() as int) =~= seq![]);
    assert(out@ + export_text(seq![]) =~= out@);
    out
}

impl ExportRun {
    /// The name of the file the pages go to.
    pub fn part(&self) -> (r: &str)
        ensures
            r@ == self@.part,
    {
        self.part.as_str()
    }

    /// The position the next page starts after.
    pub fn at(&self) -> (r: u64)
        ensures
            r == self@.at,
    {
        self.at
    }

    /// How many events the pages so far hold.
    pub fn events(&self) -> (r: u64)
        ensures
            r == self@.events,
    {
        self.events
    }

    /// Takes in the page that was read after `at`, and the receipt the log wrote for it.
    ///
    /// The page was asked for without a filter, so that the receipt is whole holds by
    /// construction. It is checked rather than taken for granted because a receipt that is not
    /// whole cannot extend the chain, and a removal refused later with no explanation would be
    /// the symptom.
    pub fn page(self, page: &Vec<eventsdb::ExportedEvent>, receipt: Receipt) -> (r: Result<
        Paged,
        NotWhole,
    >)
        requires
            self@.events + page@.len() <= u64::MAX,
        ensures
            match r {
                Ok(paged) => {
                    &&& receipt.whole
                    &&& paged.text() == export_text(batch_view(page@))
                    &&& match paged {
                        Paged::More { run, .. } => {
                            &&& page@.len() >= PAGE
                            &&& run@ == (ExportView {
                                at: receipt.through,
                                events: (self@.events + page@.len()) as u64,
                                receipts: self@.receipts.push(receipt.id),
                                ..self@
                            })
                        },
                        Paged::Last { landing, .. } => {
                            &&& page@.len() < PAGE
                            &&& landing@ == (LandingView {
                                part: self@.part,
                                from: self@.from,
                                through: receipt.through,
                                events: (self@.events + page@.len()) as u64,
                                receipts: self@.receipts.push(receipt.id),
                            })
                        },
                    }
                },
                Err(e) => !receipt.whole && e.from == receipt.from && e.through
                    == receipt.through,
            },
    {
        if !receipt.whole {
            return Err(NotWhole { from: receipt.from, through: receipt.through });
        }
        let text = page_text(page);
        let mut receipts = self.receipts;
        receipts.push(receipt.id);
        let events: u64 = self.events + page.len() as u64;
        if page.len() < PAGE {
            Ok(
                Paged::Last {
                    text,
                    landing: Landing {
                        part: self.part,
                        from: self.from,
                        through: receipt.through,
                        events,
                        receipts,
                    },
                },
            )
        } else {
            Ok(
                Paged::More {
                    text,
                    run: ExportRun {
                        part: self.part,
                        from: self.from,
                        at: receipt.through,
                        events,
                        receipts,
                    },
                },
            )
        }
    }
}

impl Landing {
    /// The name the file has until it is renamed.
    pub fn part(&self) -> (r: &str)
        ensures
            r@ == self@.part,
    {
        self.part.as_str()
    }

    /// The name the file gets, at the moment `now_ms`.
    pub fn file_name(&self, now_ms: i64) -> (r: String)
        ensures
            r@ == file_name(now_ms as int, self@.from as nat, self@.through as nat),
    {
        let mut out = utc_stamp(now_ms);
        out.append("-");
        out.append(decimal_text(self.from).as_str());
        out.append("-");
        out.append(decimal_text(self.through).as_str());
        out.append(".jsonl");
        out
    }

    /// The export once its file is at `path` and the directory is synced: from here on the
    /// chain may vouch for it.
    pub fn renamed(self, path: String) -> (r: Landed)
        ensures
            r.receipts@ == self@.receipts,
            r.report.file is Some,
            r.report.file->0@ == path@,
            r.report.from == self@.from,
            r.report.through == self@.through,
            r.report.events == self@.events,
    {
        Landed {
            receipts: self.receipts,
            report: ExportReport {
                file: Some(path),
                from: self.from,
                through: self.through,
                events: self.events,
            },
        }
    }
}

/// What a file holds after pages are written to it one after the other.
pub open spec fn written_in(pages: Seq<Seq<Record>>) -> Seq<char>
    decreases pages.len(),
{
    if pages.len() == 0 {
        seq![]
    } else {
        export_text(pages.first()) + written_in(pages.drop_first())
    }
}

/// What a file holds is a record a line, whatever pages it came in.
pub proof fn law_an_export_is_its_records(pages: Seq<Seq<Record>>)
    ensures
        written_in(pages) == export_text(pages.flatten()),
    decreases pages.len(),
{
    if pages.len() > 0 {
        law_an_export_is_its_records(pages.drop_first());
        law_pages_leave_no_mark(pages.first(), pages.drop_first().flatten());
    }
}

/// An import of an exported file hands the log the records that were exported, each once and in
/// order, and finds no line to refuse.
pub proof fn law_what_was_exported_is_imported(pages: Seq<Seq<Record>>)
    requires
        all_carried(pages.flatten()),
        forall|i: int|
            0 <= i < pages.flatten().len() ==> reads_back(line_of(#[trigger] pages.flatten()[i])),
    ensures
        batches_of(written_in(pages), 0).flatten() == pages.flatten(),
        records_of(written_in(pages), 0).1 is None,
{
    law_an_export_is_its_records(pages);
    law_an_export_reads_back(pages.flatten(), 0);
    law_an_import_is_every_line(written_in(pages), 0);
}

/// A file written page by page is the file of all its records: where the pages are cut leaves
/// no mark in it.
pub proof fn law_pages_leave_no_mark(a: Seq<Record>, b: Seq<Record>)
    ensures
        export_text(a + b) == export_text(a) + export_text(b),
    decreases a.len(),
{
    if a.len() == 0 {
        assert(a + b =~= b);
        assert(export_text(a) + export_text(b) =~= export_text(b));
    } else {
        law_pages_leave_no_mark(a.drop_first(), b);
        assert((a + b).drop_first() =~= a.drop_first() + b);
        assert(line_of(a[0]) + seq!['\n'] + (export_text(a.drop_first()) + export_text(b))
            =~= export_text(a) + export_text(b));
    }
}

} // verus!
