//! Reading a stream page by page.
use vstd::prelude::*;
use vstd::string::*;

use crate::json::Fields;
use crate::record::{
    Committed, Placed, Recorded, RecordedView, Stored, kept_as, kind_of, law_a_write_reads_back,
    read_back, recorded_from, recorded_from_spec,
};

verus! {

/// Events per page of a read.
pub const READ_PAGE: usize = 512;

/// The reading of a page of the log.
pub open spec fn page_view(page: Seq<Stored>) -> Seq<Placed> {
    Seq::new(page.len(), |i: int| page[i]@)
}

/// The reading of a list of events.
pub open spec fn recorded_view(events: Seq<Recorded>) -> Seq<RecordedView> {
    Seq::new(events.len(), |i: int| events[i]@)
}

/// Events of the log as they are read.
pub open spec fn as_read(page: Seq<Placed>) -> Seq<RecordedView> {
    Seq::new(page.len(), |i: int| recorded_from_spec(page[i]))
}

/// The first event of a page, if it holds one.
pub fn first_of(page: Vec<Stored>) -> (r: Option<Recorded>)
    ensures
        match r {
            Some(recorded) => page@.len() > 0 && recorded@ == recorded_from_spec(page@[0]@),
            None => page@.len() == 0,
        },
{
    let mut page = page;
    if page.len() == 0 {
        None
    } else {
        Some(recorded_from(page.swap_remove(0)))
    }
}

/// A read under way: what it has, and the position the next page starts after.
#[derive(Debug)]
pub struct Reading {
    pub from: u64,
    pub events: Vec<Recorded>,
}

/// What a page leads to.
#[derive(Debug)]
pub enum PageRead {
    /// The page was full, so there may be another.
    More(Reading),
    /// The page was short, so this is the whole of it.
    Whole(Vec<Recorded>),
}

/// Where a page leaves the cursor.
pub open spec fn cursor_after(from: u64, page: Seq<Placed>) -> u64 {
    if page.len() == 0 {
        from
    } else {
        page.last().position
    }
}

impl Reading {
    /// A read at the beginning of the log.
    pub fn start() -> (r: Reading)
        ensures
            r.from == 0,
            recorded_view(r.events@) == Seq::<RecordedView>::empty(),
    {
        let r = Reading { from: 0, events: Vec::new() };
        assert(recorded_view(r.events@) =~= Seq::<RecordedView>::empty());
        r
    }

    /// Takes in the page that was read after `from`.
    pub fn page(self, page: Vec<Stored>) -> (r: PageRead)
        ensures
            match r {
                PageRead::More(next) => {
                    &&& page@.len() >= READ_PAGE
                    &&& next.from == cursor_after(self.from, page_view(page@))
                    &&& recorded_view(next.events@) == recorded_view(self.events@) + as_read(
                        page_view(page@),
                    )
                },
                PageRead::Whole(events) => {
                    &&& page@.len() < READ_PAGE
                    &&& recorded_view(events@) == recorded_view(self.events@) + as_read(
                        page_view(page@),
                    )
                },
            },
    {
        let short = page.len() < READ_PAGE;
        let ghost all = page_view(page@);
        let ghost had = recorded_view(self.events@);
        let mut from: u64 = self.from;
        let mut events = self.events;
        assert(all.take(0) =~= seq![]);
        assert(recorded_view(events@) =~= had + as_read(all.take(0)));
        for stored in iter: page.into_iter()
            invariant
                iter.seq() == page@,
                all == page_view(page@),
                from == cursor_after(self.from, all.take(iter.index())),
                recorded_view(events@) == had + as_read(all.take(iter.index())),
        {
            let ghost n = iter.index();
            let ghost had_now = recorded_view(events@);
            assert(stored@ == all[n]);
            from = stored.position;
            let recorded = recorded_from(stored);
            events.push(recorded);
            proof {
                assert(all.take(n + 1).last() == all[n]);
                assert(as_read(all.take(n + 1)) =~= as_read(all.take(n)).push(
                    recorded_from_spec(all[n]),
                ));
                assert(recorded_view(events@) =~= had_now.push(recorded@));
                assert(recorded_view(events@) =~= had + as_read(all.take(n + 1)));
            }
        }
        assert(all.take(page@.len() as int) =~= all);
        if short {
            PageRead::Whole(events)
        } else {
            PageRead::More(Reading { from, events })
        }
    }
}

/// Events in the order of their positions, none at 0, where a read begins.
pub open spec fn in_position_order(all: Seq<Placed>) -> bool {
    &&& forall|i: int| 0 <= i < all.len() ==> (#[trigger] all[i]).position > 0
    &&& forall|i: int, j: int|
        0 <= i < j < all.len() ==> (#[trigger] all[i]).position < (#[trigger] all[j]).position
}

/// How many of `all` stand at `from` or before it.
pub open spec fn passed(all: Seq<Placed>, from: u64) -> nat
    decreases all.len(),
{
    if all.len() == 0 || all[0].position > from {
        0
    } else {
        1 + passed(all.drop_first(), from)
    }
}

/// The page of `all` behind `from`.
pub open spec fn page_after(all: Seq<Placed>, from: u64) -> Seq<Placed> {
    let rest = all.skip(passed(all, from) as int);
    if rest.len() <= READ_PAGE {
        rest
    } else {
        rest.take(READ_PAGE as int)
    }
}

/// What reading on from `from` page by page comes to, in at most `pages` pages.
pub open spec fn read_on(all: Seq<Placed>, from: u64, pages: nat) -> Seq<Placed>
    decreases pages,
{
    let page = page_after(all, from);
    if page.len() < READ_PAGE || pages == 0 {
        page
    } else {
        page + read_on(all, cursor_after(from, page), (pages - 1) as nat)
    }
}

proof fn lemma_passed(all: Seq<Placed>, from: u64, n: int)
    requires
        in_position_order(all),
        0 <= n <= all.len(),
        n > 0 ==> all[n - 1].position <= from,
        n < all.len() ==> all[n].position > from,
    ensures
        passed(all, from) == n,
    decreases all.len(),
{
    if all.len() > 0 && n > 0 {
        let rest = all.drop_first();
        assert(all[0].position <= all[n - 1].position);
        assert forall|i: int| 0 <= i < rest.len() implies (#[trigger] rest[i]).position > 0 by {
            assert(rest[i] == all[i + 1]);
        }
        assert forall|i: int, j: int| 0 <= i < j < rest.len() implies (
        #[trigger] rest[i]).position < (#[trigger] rest[j]).position by {
            assert(rest[i] == all[i + 1] && rest[j] == all[j + 1]);
        }
        lemma_passed(rest, from, n - 1);
    }
}

proof fn lemma_read_on(all: Seq<Placed>, n: int, pages: nat)
    requires
        in_position_order(all),
        0 <= n <= all.len(),
        all.len() - n <= pages,
    ensures
        read_on(
            all,
            if n == 0 {
                0
            } else {
                all[n - 1].position
            },
            pages,
        ) == all.skip(n),
    decreases pages,
{
    let from = if n == 0 {
        0
    } else {
        all[n - 1].position
    };
    if n < all.len() {
        assert(all[n].position > from);
    }
    lemma_passed(all, from, n);
    let page = page_after(all, from);
    if page.len() >= READ_PAGE && pages > 0 {
        let m = n + READ_PAGE;
        assert(page =~= all.subrange(n, m));
        assert(page.last() == all[m - 1]);
        lemma_read_on(all, m, (pages - 1) as nat);
        assert(page + all.skip(m) =~= all.skip(n));
    }
}

/// A read in pages is the whole of what there is to read, each event once and in order.
pub proof fn law_pages_are_the_whole(all: Seq<Placed>)
    requires
        in_position_order(all),
    ensures
        read_on(all, 0, all.len()) == all,
{
    lemma_read_on(all, 0, all.len());
    assert(all.skip(0) =~= all);
}

/// Whether a read of `stream`, of `kinds` alone where it names some, takes an event.
pub open spec fn taken(e: Placed, stream: Seq<char>, kinds: Option<Seq<Seq<char>>>) -> bool {
    e.stream == stream && match kinds {
        Some(kinds) => kinds.contains(kind_of(e.event)),
        None => true,
    }
}

/// The events of a log that a read takes, in order.
pub open spec fn selected(
    log: Seq<Placed>,
    stream: Seq<char>,
    kinds: Option<Seq<Seq<char>>>,
) -> Seq<Placed>
    decreases log.len(),
{
    if log.len() == 0 {
        seq![]
    } else if taken(log.last(), stream, kinds) {
        selected(log.drop_last(), stream, kinds).push(log.last())
    } else {
        selected(log.drop_last(), stream, kinds)
    }
}

/// What a read of a stream comes to, page by page.
pub open spec fn read_stream(
    log: Seq<Placed>,
    stream: Seq<char>,
    kinds: Option<Seq<Seq<char>>>,
) -> Seq<RecordedView> {
    let all = selected(log, stream, kinds);
    as_read(read_on(all, 0, all.len()))
}

/// Those of `events` whose kind is one of `kinds`, in order.
pub open spec fn of_these_kinds(events: Seq<RecordedView>, kinds: Seq<Seq<char>>) -> Seq<
    RecordedView,
>
    decreases events.len(),
{
    if events.len() == 0 {
        seq![]
    } else if kinds.contains(events.last().kind) {
        of_these_kinds(events.drop_last(), kinds).push(events.last())
    } else {
        of_these_kinds(events.drop_last(), kinds)
    }
}

/// The events of a stream have rising seqs.
pub open spec fn in_seq_order(log: Seq<Placed>) -> bool {
    forall|i: int, j: int|
        0 <= i < j < log.len() && (#[trigger] log[i]).stream == (#[trigger] log[j]).stream
            ==> recorded_from_spec(log[i]).seq < recorded_from_spec(log[j]).seq
}

/// What a read takes of a log in order is in order, and as far as the log goes.
proof fn lemma_selected(log: Seq<Placed>, stream: Seq<char>, kinds: Option<Seq<Seq<char>>>)
    requires
        in_position_order(log),
    ensures
        in_position_order(selected(log, stream, kinds)),
        forall|i: int|
            0 <= i < selected(log, stream, kinds).len() ==> (#[trigger] selected(
                log,
                stream,
                kinds,
            )[i]).position <= log.last().position,
    decreases log.len(),
{
    if log.len() > 0 {
        let front = log.drop_last();
        assert forall|i: int| 0 <= i < front.len() implies (#[trigger] front[i]).position > 0 by {
            assert(front[i] == log[i]);
        }
        assert forall|i: int, j: int| 0 <= i < j < front.len() implies (
        #[trigger] front[i]).position < (#[trigger] front[j]).position by {
            assert(front[i] == log[i] && front[j] == log[j]);
        }
        lemma_selected(front, stream, kinds);
        if front.len() > 0 {
            assert(front.last() == log[log.len() - 2]);
            assert(front.last().position < log[log.len() - 1].position);
        }
        assert(log[log.len() - 1] == log.last());
    }
}

/// A read comes to what it takes of the log.
proof fn lemma_read_stream(log: Seq<Placed>, stream: Seq<char>, kinds: Option<Seq<Seq<char>>>)
    requires
        in_position_order(log),
    ensures
        read_stream(log, stream, kinds) == as_read(selected(log, stream, kinds)),
{
    lemma_selected(log, stream, kinds);
    law_pages_are_the_whole(selected(log, stream, kinds));
}

proof fn lemma_as_read_push(events: Seq<Placed>, e: Placed)
    ensures
        as_read(events.push(e)) == as_read(events).push(recorded_from_spec(e)),
{
    assert(as_read(events.push(e)) =~= as_read(events).push(recorded_from_spec(e)));
}

/// What a read takes stands in the log, on the stream that is read.
proof fn lemma_taken_from(
    log: Seq<Placed>,
    stream: Seq<char>,
    kinds: Option<Seq<Seq<char>>>,
    i: int,
) -> (j: int)
    requires
        0 <= i < selected(log, stream, kinds).len(),
    ensures
        0 <= j < log.len(),
        log[j] == selected(log, stream, kinds)[i],
        log[j].stream == stream,
    decreases log.len(),
{
    let front = log.drop_last();
    if i < selected(front, stream, kinds).len() {
        let j = lemma_taken_from(front, stream, kinds, i);
        assert(log[j] == front[j]);
        j
    } else {
        log.len() - 1
    }
}

/// A read of a stream is in the order of its seqs.
pub proof fn law_a_read_is_in_seq_order(
    log: Seq<Placed>,
    stream: Seq<char>,
    kinds: Option<Seq<Seq<char>>>,
    i: int,
    j: int,
)
    requires
        in_position_order(log),
        in_seq_order(log),
        0 <= i < j < read_stream(log, stream, kinds).len(),
    ensures
        read_stream(log, stream, kinds)[i].seq < read_stream(log, stream, kinds)[j].seq,
        read_stream(log, stream, kinds)[i].stream == stream,
{
    let all = selected(log, stream, kinds);
    lemma_read_stream(log, stream, kinds);
    lemma_selected(log, stream, kinds);
    let a = lemma_taken_from(log, stream, kinds, i);
    let b = lemma_taken_from(log, stream, kinds, j);
    assert(all[i].position < all[j].position);
    if b < a {
        assert(log[b].position < log[a].position);
    }
}

/// What a read gives back of a write. A read of the stream that was written is the read before
/// the write followed by what the write answered, whatever the length of the stream; a read of
/// any other stream is what it was.
pub proof fn law_a_read_after_a_write(
    log: Seq<Placed>,
    stored: Placed,
    stream: Seq<char>,
    event: Fields,
    at: Committed,
    other: Seq<char>,
    kinds: Option<Seq<Seq<char>>>,
)
    requires
        in_position_order(log.push(stored)),
        kept_as(stored, stream, event, at),
        at.epoch_ms <= i64::MAX,
    ensures
        read_stream(log.push(stored), stream, None) == read_stream(log, stream, None).push(
            read_back(stream, event, at),
        ),
        other != stream ==> read_stream(log.push(stored), other, kinds) == read_stream(
            log,
            other,
            kinds,
        ),
{
    let after = log.push(stored);
    assert(after.drop_last() =~= log);
    assert(in_position_order(log)) by {
        assert forall|i: int| 0 <= i < log.len() implies (#[trigger] log[i]).position > 0 by {
            assert(log[i] == after[i]);
        }
        assert forall|i: int, j: int| 0 <= i < j < log.len() implies (#[trigger] log[i]).position
            < (#[trigger] log[j]).position by {
            assert(log[i] == after[i] && log[j] == after[j]);
        }
    }
    lemma_read_stream(log, stream, None);
    lemma_read_stream(after, stream, None);
    lemma_read_stream(log, other, kinds);
    lemma_read_stream(after, other, kinds);
    lemma_as_read_push(selected(log, stream, None), stored);
    law_a_write_reads_back(stored, stream, event, at);
}

proof fn lemma_kinds_of_read(log: Seq<Placed>, stream: Seq<char>, kinds: Seq<Seq<char>>)
    ensures
        as_read(selected(log, stream, Some(kinds))) == of_these_kinds(
            as_read(selected(log, stream, None)),
            kinds,
        ),
    decreases log.len(),
{
    if log.len() == 0 {
        assert(as_read(selected(log, stream, Some(kinds))) =~= seq![]);
    } else {
        let front = log.drop_last();
        let e = log.last();
        lemma_kinds_of_read(front, stream, kinds);
        lemma_as_read_push(selected(front, stream, None), e);
        lemma_as_read_push(selected(front, stream, Some(kinds)), e);
        let before = as_read(selected(front, stream, None));
        assert(before.push(recorded_from_spec(e)).drop_last() =~= before);
    }
}

/// A read of some kinds is the read of the whole stream with the events of other kinds left
/// out: none missing, none twice, in the same order.
pub proof fn law_a_read_of_kinds_is_a_selection(
    log: Seq<Placed>,
    stream: Seq<char>,
    kinds: Seq<Seq<char>>,
)
    requires
        in_position_order(log),
    ensures
        read_stream(log, stream, Some(kinds)) == of_these_kinds(
            read_stream(log, stream, None),
            kinds,
        ),
{
    lemma_read_stream(log, stream, Some(kinds));
    lemma_read_stream(log, stream, None);
    lemma_kinds_of_read(log, stream, kinds);
}

} // verus!
