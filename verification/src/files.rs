//! What the names of files say, and the lines in them: a moment is read back off its stamp, the
//! positions of an export off its name, and the records of a file off its lines.
use vstd::prelude::*;
use vstd::string::*;

use crate::blobs::{blob_shaped, bytes_in};
use crate::digest::hex_text;
use crate::export::{file_name, part_name};
use crate::import::{batches_of, export_text, law_an_import_is_every_line, records_of};
use crate::lines::{
    first_line, lemma_line_end, lemma_line_end_at, line_end, other_lines, white,
};
use crate::print::hex_digit;
use crate::stamp::{
    Date, date_of, day_number, law_every_day_has_a_date, leap, month_length, month_start, stamp,
    year_start,
};
use crate::text::{decimal, padded};
use crate::texts::{
    digits, hex_value, law_a_decimal_is_its_number, law_a_padded_number_is_its_number,
    read_decimal,
};
use crate::wire::{LineFaultView, Record, line_record};

verus! {

// ------------------------------------------------------------------ the calendar

/// The calendar, day by day. The first of January 1970 is day 0. Behind each day comes the next
/// of its month, behind the last of a month the first of the next month, and behind the last of
/// December the first of January of the year after. A year that can be divided by four is a leap
/// year, but for the hundreds that cannot be divided by four hundred; its February has 29 days.
pub proof fn law_the_calendar(date: Date)
    requires
        date.valid(),
    ensures
        day_number(Date { year: 1970, month: 1, day: 1 }) == 0,
        date.day < month_length(date.year, date.month) ==> day_number(
            Date { day: date.day + 1, ..date },
        ) == day_number(date) + 1,
        date.day == month_length(date.year, date.month) && date.month < 12 ==> day_number(
            Date { month: date.month + 1, day: 1, ..date },
        ) == day_number(date) + 1,
        date.day == month_length(date.year, date.month) && date.month == 12 ==> day_number(
            Date { year: date.year + 1, month: 1, day: 1 },
        ) == day_number(date) + 1,
        date.month == 2 ==> month_length(date.year, date.month) == if (exists|k: int|
            date.year == #[trigger] (4 * k)) && ((forall|k: int|
            date.year != #[trigger] (100 * k)) || (exists|k: int|
            date.year == #[trigger] (400 * k))) {
            29int
        } else {
            28int
        },
        date.month == 4 || date.month == 6 || date.month == 9 || date.month == 11 ==> month_length(
            date.year,
            date.month,
        ) == 30,
        date.month == 1 || date.month == 3 || date.month == 5 || date.month == 7 || date.month == 8
            || date.month == 10 || date.month == 12 ==> month_length(date.year, date.month) == 31,
{
    let year = date.year;
    reveal_with_fuel(month_start, 13);
    if date.month == 2 {
        assert(year % 4 == 0 ==> year == 4 * (year / 4));
        assert(year % 400 == 0 ==> year == 400 * (year / 400));
        assert(year % 100 == 0 ==> year == 100 * (year / 100));
        assert forall|k: int| year == #[trigger] (4 * k) implies year % 4 == 0 by {}
        assert forall|k: int| year == #[trigger] (100 * k) implies year % 100 == 0 by {}
        assert forall|k: int| year == #[trigger] (400 * k) implies year % 400 == 0 by {}
    }
    if date.month == 12 && date.day == 31 {
        lemma_year_length(year);
    }
}

proof fn lemma_year_length(year: int)
    ensures
        year_start(year + 1) == year_start(year) + if leap(year) {
            366int
        } else {
            365int
        },
{
    assert((year + 4) / 4 == (year + 3) / 4 + if year % 4 == 0 {
        1int
    } else {
        0int
    });
    assert((year + 100) / 100 == (year + 99) / 100 + if year % 100 == 0 {
        1int
    } else {
        0int
    });
    assert((year + 400) / 400 == (year + 399) / 400 + if year % 400 == 0 {
        1int
    } else {
        0int
    });
    assert(year % 100 == 0 ==> year % 4 == 0) by {
        assert(year % 100 == 0 ==> year == 4 * (25 * (year / 100)));
    }
    assert(year % 400 == 0 ==> year % 100 == 0) by {
        assert(year % 400 == 0 ==> year == 100 * (4 * (year / 400)));
    }
}

/// A stamp is read back as the moment it was made of, to the second: four digits are the year,
/// two the month, two the day, and behind a `T` two the hour, two the minute and two the second,
/// with a `Z` at the end.
pub proof fn law_a_stamp_is_its_moment(ms: int)
    requires
        0 <= date_of((ms / 1000) / 86_400).year <= 9999,
    ensures
        ({
            let s = stamp(ms);
            let date = Date {
                year: read_decimal(s.subrange(0, 4)),
                month: read_decimal(s.subrange(4, 6)),
                day: read_decimal(s.subrange(6, 8)),
            };
            let hour = read_decimal(s.subrange(9, 11));
            let minute = read_decimal(s.subrange(11, 13));
            let second = read_decimal(s.subrange(13, 15));
            &&& s.len() == 16
            &&& s[8] == 'T' && s[15] == 'Z'
            &&& digits(s.subrange(0, 8)) && digits(s.subrange(9, 15))
            &&& date.valid()
            &&& 0 <= hour < 24 && 0 <= minute < 60 && 0 <= second < 60
            &&& 1000 * (86_400 * day_number(date) + 3600 * hour + 60 * minute + second) <= ms < 1000
                * (86_400 * day_number(date) + 3600 * hour + 60 * minute + second + 1)
        }),
{
    let days = (ms / 1000) / 86_400;
    let tod = (ms / 1000) % 86_400;
    let date = date_of(days);
    law_every_day_has_a_date(days);
    let (h, m, c) = (tod / 3600, (tod % 3600) / 60, tod % 60);
    lemma_two(date.month);
    lemma_two(date.day);
    lemma_two(h);
    lemma_two(m);
    lemma_two(c);
    lemma_four(date.year);
    let s = stamp(ms);
    assert(s.subrange(0, 4) =~= padded(date.year, 4));
    assert(s.subrange(4, 6) =~= padded(date.month, 2));
    assert(s.subrange(6, 8) =~= padded(date.day, 2));
    assert(s.subrange(9, 11) =~= padded(h, 2));
    assert(s.subrange(11, 13) =~= padded(m, 2));
    assert(s.subrange(13, 15) =~= padded(c, 2));
    assert(digits(s.subrange(0, 8))) by {
        assert forall|i: int| 0 <= i < 8 implies '0' <= #[trigger] s.subrange(0, 8)[i] <= '9' by {
            if i < 4 {
                assert(padded(date.year, 4)[i] == s[i]);
            } else if i < 6 {
                assert(padded(date.month, 2)[i - 4] == s[i]);
            } else {
                assert(padded(date.day, 2)[i - 6] == s[i]);
            }
        }
    }
    assert(digits(s.subrange(9, 15))) by {
        assert forall|i: int| 0 <= i < 6 implies '0' <= #[trigger] s.subrange(9, 15)[i] <= '9' by {
            if i < 2 {
                assert(padded(h, 2)[i] == s[i + 9]);
            } else if i < 4 {
                assert(padded(m, 2)[i - 2] == s[i + 9]);
            } else {
                assert(padded(c, 2)[i - 4] == s[i + 9]);
            }
        }
    }
}

proof fn lemma_two(n: int)
    requires
        0 <= n < 100,
    ensures
        padded(n, 2).len() == 2,
        read_decimal(padded(n, 2)) == n,
        digits(padded(n, 2)),
{
    law_a_padded_number_is_its_number(n, 2);
    reveal_with_fuel(decimal, 3);
}

proof fn lemma_four(n: int)
    requires
        0 <= n < 10_000,
    ensures
        padded(n, 4).len() == 4,
        read_decimal(padded(n, 4)) == n,
        digits(padded(n, 4)),
{
    law_a_padded_number_is_its_number(n, 4);
    reveal_with_fuel(decimal, 5);
}

// ------------------------------------------------------------------ names

proof fn lemma_digits_end(u: Seq<char>, v: Seq<char>, x: Seq<char>, y: Seq<char>)
    requires
        digits(u),
        digits(v),
        x.len() > 0 && !('0' <= x[0] <= '9'),
        y.len() > 0 && !('0' <= y[0] <= '9'),
        u + x == v + y,
    ensures
        u == v,
        x == y,
{
    if u.len() < v.len() {
        assert((u + x)[u.len() as int] == x[0]);
        assert((v + y)[u.len() as int] == v[u.len() as int]);
    }
    if v.len() < u.len() {
        assert((v + y)[v.len() as int] == y[0]);
        assert((u + x)[v.len() as int] == u[v.len() as int]);
    }
    assert((u + x).take(u.len() as int) =~= u);
    assert((v + y).take(v.len() as int) =~= v);
    assert((u + x).skip(u.len() as int) =~= x);
    assert((v + y).skip(v.len() as int) =~= y);
}

proof fn lemma_behind_same(a: Seq<char>, x: Seq<char>, y: Seq<char>)
    requires
        a + x == a + y,
    ensures
        x == y,
{
    assert((a + x).skip(a.len() as int) =~= x);
    assert((a + y).skip(a.len() as int) =~= y);
}

proof fn lemma_two_numbers(a: nat, b: nat, c: nat, d: nat)
    requires
        decimal(a) + ("-"@ + (decimal(b) + ".jsonl"@)) == decimal(c) + ("-"@ + (decimal(d)
            + ".jsonl"@)),
    ensures
        a == c,
        b == d,
{
    reveal_strlit("-");
    reveal_strlit(".jsonl");
    law_a_decimal_is_its_number(a);
    law_a_decimal_is_its_number(b);
    law_a_decimal_is_its_number(c);
    law_a_decimal_is_its_number(d);
    let x = "-"@ + (decimal(b) + ".jsonl"@);
    let y = "-"@ + (decimal(d) + ".jsonl"@);
    assert(x[0] == '-' && y[0] == '-');
    lemma_digits_end(decimal(a), decimal(c), x, y);
    lemma_behind_same("-"@, decimal(b) + ".jsonl"@, decimal(d) + ".jsonl"@);
    assert(".jsonl"@[0] == '.');
    lemma_digits_end(decimal(b), decimal(d), ".jsonl"@, ".jsonl"@);
}

/// The name of an export says the positions it covers, and the moment it was made: two exports of
/// one moment have one name only where they cover the same positions. A part file says the process
/// and the position it starts at, begins with a point, and is never named as an export is.
pub proof fn law_names_of_exports_tell_them_apart(ms: int, a: nat, b: nat, c: nat, d: nat)
    ensures
        file_name(ms, a, b) == file_name(ms, c, d) <==> a == c && b == d,
        part_name(a, b) == part_name(c, d) <==> a == c && b == d,
        part_name(a, b)[0] == '.',
        file_name(ms, a, b)[0] != '.',
        says_two_numbers(file_name(ms, a, b), stamp(ms) + "-"@, a, b),
        says_two_numbers(part_name(a, b), ".part-"@, a, b),
{
    reveal_strlit(".part-");
    let x = decimal(a) + ("-"@ + (decimal(b) + ".jsonl"@));
    let y = decimal(c) + ("-"@ + (decimal(d) + ".jsonl"@));
    assert(file_name(ms, a, b) =~= (stamp(ms) + "-"@) + x);
    assert(file_name(ms, c, d) =~= (stamp(ms) + "-"@) + y);
    assert(part_name(a, b) =~= ".part-"@ + x);
    assert(part_name(c, d) =~= ".part-"@ + y);
    if file_name(ms, a, b) == file_name(ms, c, d) {
        lemma_behind_same(stamp(ms) + "-"@, x, y);
        lemma_two_numbers(a, b, c, d);
    }
    if part_name(a, b) == part_name(c, d) {
        lemma_behind_same(".part-"@, x, y);
        lemma_two_numbers(a, b, c, d);
    }
    let year = date_of((ms / 1000) / 86_400).year;
    assert(padded(year, 4).len() > 0 && padded(year, 4)[0] != '.') by {
        if year >= 0 {
            law_a_padded_number_is_its_number(year, 4);
        }
    }
    assert(stamp(ms)[0] == padded(year, 4)[0]);
    assert(file_name(ms, a, b)[0] == stamp(ms)[0]);
    law_a_decimal_is_its_number(a);
    law_a_decimal_is_its_number(b);
    let (p, q) = (decimal(a), decimal(b));
    assert(file_name(ms, a, b) =~= stamp(ms) + "-"@ + p + "-"@ + q + ".jsonl"@);
    assert(part_name(a, b) =~= ".part-"@ + p + "-"@ + q + ".jsonl"@);
}

/// Whether a name is `front`, two numbers in decimal with a dash between them, and the ending of
/// an export.
pub open spec fn says_two_numbers(name: Seq<char>, front: Seq<char>, a: nat, b: nat) -> bool {
    exists|x: Seq<char>, y: Seq<char>|
        name == #[trigger] (front + x + "-"@ + y + ".jsonl"@) && digits(x) && digits(y)
            && read_decimal(x) == a && read_decimal(y) == b
}

/// A name is one a blob can have exactly where it is some 32 bytes in hexadecimal.
pub proof fn law_a_blob_name_is_thirty_two_bytes(name: Seq<char>)
    ensures
        blob_shaped(name) <==> exists|bytes: Seq<u8>|
            bytes.len() == 32 && #[trigger] hex_text(bytes) == name,
{
    if exists|bytes: Seq<u8>| bytes.len() == 32 && #[trigger] hex_text(bytes) == name {
        let bytes = choose|bytes: Seq<u8>| bytes.len() == 32 && #[trigger] hex_text(bytes) == name;
        crate::digest::lemma_hex_text(bytes);
    }
    if blob_shaped(name) {
        let bytes = lemma_unhex(name, 32);
        assert(hex_text(bytes) == name);
    }
}

proof fn lemma_unhex(name: Seq<char>, n: nat) -> (bytes: Seq<u8>)
    requires
        name.len() == 2 * n,
        forall|i: int| 0 <= i < name.len() ==> crate::digest::is_hex(#[trigger] name[i]),
    ensures
        bytes.len() == n,
        hex_text(bytes) == name,
    decreases n,
{
    if n == 0 {
        let none = Seq::<u8>::empty();
        assert(hex_text(none) =~= name);
        none
    } else {
        let front = name.take(name.len() - 2);
        assert forall|i: int| 0 <= i < front.len() implies crate::digest::is_hex(
            #[trigger] front[i],
        ) by {
            assert(front[i] == name[i]);
        }
        let before = lemma_unhex(front, (n - 1) as nat);
        let (a, b) = (name[name.len() - 2], name[name.len() - 1]);
        assert(crate::digest::is_hex(a) && crate::digest::is_hex(b));
        let byte = (16 * hex_value(a) + hex_value(b)) as u8;
        assert(byte as int / 16 == hex_value(a) && byte as int % 16 == hex_value(b));
        assert(hex_digit(hex_value(a)) == a && hex_digit(hex_value(b)) == b);
        let bytes = before.push(byte);
        assert(bytes.drop_last() =~= before);
        assert(hex_text(bytes) =~= name);
        bytes
    }
}

// ------------------------------------------------------------------ sizes

/// What a collection reports is the sum of the sizes: the sizes of two lists of blobs are those of
/// the one and those of the other, and of one blob its size, where that is not negative.
pub proof fn law_sizes_are_summed(a: Seq<(String, i64)>, b: Seq<(String, i64)>, one: (String, i64))
    ensures
        bytes_in(a + b, (a + b).len()) == bytes_in(a, a.len()) + bytes_in(b, b.len()),
        bytes_in(seq![one], 1) == if one.1 >= 0 {
            one.1 as int
        } else {
            0
        },
        bytes_in(seq![], 0) == 0,
{
    lemma_bytes_concat(a, b, b.len());
    reveal_with_fuel(bytes_in, 2);
    assert(seq![one][0] == one);
}

proof fn lemma_bytes_concat(a: Seq<(String, i64)>, b: Seq<(String, i64)>, n: nat)
    requires
        n <= b.len(),
    ensures
        bytes_in(a + b, a.len() + n) == bytes_in(a, a.len()) + bytes_in(b, n),
    decreases n,
{
    if n == 0 {
        lemma_bytes_front(a, b, a.len());
    } else {
        lemma_bytes_concat(a, b, (n - 1) as nat);
        assert((a + b)[a.len() + n - 1] == b[n - 1]);
    }
}

proof fn lemma_bytes_front(a: Seq<(String, i64)>, b: Seq<(String, i64)>, n: nat)
    requires
        n <= a.len(),
    ensures
        bytes_in(a + b, n) == bytes_in(a, n),
    decreases n,
{
    if n > 0 {
        lemma_bytes_front(a, b, (n - 1) as nat);
        assert((a + b)[n - 1] == a[n - 1]);
    }
}

// ------------------------------------------------------------------ lines

/// A text is its first line, the end of that line, and the other lines: the end is a line feed, a
/// carriage return and a line feed, or nothing where the text ends. No line feed stands in a line,
/// and no carriage return is left where one was cut off.
pub proof fn law_a_text_is_its_lines(text: Seq<char>)
    ensures
        ({
            let line = first_line(text);
            let rest = other_lines(text);
            &&& forall|i: int| 0 <= i < line.len() ==> #[trigger] line[i] != '\n'
            &&& {
                ||| text == line + seq!['\n'] + rest && (line.len() > 0 ==> line.last() != '\r')
                ||| text == line + seq!['\r', '\n'] + rest
                ||| text == line && rest.len() == 0
            }
        }),
{
    lemma_line_end(text);
    let end = line_end(text);
    let line = first_line(text);
    let rest = other_lines(text);
    if end < text.len() {
        if end > 0 && text[end - 1] == '\r' {
            assert(text =~= line + seq!['\r', '\n'] + rest);
        } else {
            assert(text =~= line + seq!['\n'] + rest);
        }
    } else {
        assert(text =~= line);
    }
}

/// White space is what Unicode says it is: these 25 characters, no visible one among them.
pub proof fn law_white_space_is_these_characters(c: char)
    ensures
        white(c) <==> {
            let n = c as int;
            ||| n == 9 || n == 10 || n == 11 || n == 12 || n == 13 || n == 32
            ||| n == 133 || n == 160 || n == 5760
            ||| n == 8192 || n == 8193 || n == 8194 || n == 8195 || n == 8196 || n == 8197
            ||| n == 8198 || n == 8199 || n == 8200 || n == 8201 || n == 8202
            ||| n == 8232 || n == 8233 || n == 8239 || n == 8287 || n == 12288
        },
        '!' <= c <= '~' ==> !white(c),
{
}

/// What a line ends with.
pub open spec fn ends_line(end: Seq<char>) -> bool {
    end == seq!['\n'] || end == seq!['\r', '\n']
}

proof fn lemma_cut(line: Seq<char>, end: Seq<char>, rest: Seq<char>)
    requires
        forall|i: int| 0 <= i < line.len() ==> #[trigger] line[i] != '\n',
        ends_line(end),
        line.len() > 0 && end.len() == 1 ==> line.last() != '\r',
    ensures
        first_line(line + end + rest) == line,
        other_lines(line + end + rest) == rest,
        (line + end + rest).len() > 0,
{
    let text = line + end + rest;
    let at = line.len() + end.len() - 1;
    assert(text[at] == '\n');
    assert forall|i: int| 0 <= i < at implies text[i] != '\n' by {
        if i < line.len() {
            assert(text[i] == line[i]);
        }
    }
    lemma_line_end_at(text, at);
    if end.len() == 1 {
        if at > 0 {
            assert(text[at - 1] == line.last());
        }
    } else {
        assert(text[at - 1] == '\r');
    }
    assert(first_line(text) =~= line);
    assert(text.skip(at + 1) =~= rest);
}

/// The records of a text are those of its lines. A line in front of a text that is blank adds
/// nothing; one that is a record adds that record in front; one that is neither is the fault, and
/// nothing behind it is read. Lines are counted from the one behind `before`, and the blank ones
/// count.
pub proof fn law_a_line_in_front(
    line: Seq<char>,
    end: Seq<char>,
    rest: Seq<char>,
    before: nat,
)
    requires
        forall|i: int| 0 <= i < line.len() ==> #[trigger] line[i] != '\n',
        ends_line(end),
        line.len() > 0 && end.len() == 1 ==> line.last() != '\r',
    ensures
        ({
            let whole = records_of(line + end + rest, before);
            let behind = records_of(rest, before + 1);
            if forall|i: int| 0 <= i < line.len() ==> white(#[trigger] line[i]) {
                whole == behind
            } else {
                match line_record(line) {
                    Ok(record) => whole.0 == seq![record] + behind.0 && whole.1 == behind.1,
                    Err(fault) => whole.0.len() == 0 && whole.1 == Some((before + 1, fault)),
                }
            }
        }),
        records_of(seq![], before) == (Seq::<Record>::empty(), None::<(nat, LineFaultView)>),
{
    lemma_cut(line, end, rest);
}

/// The last line of a text needs no end: it is read as it would be with one.
pub proof fn law_the_last_line_needs_no_end(line: Seq<char>, before: nat)
    requires
        line.len() > 0,
        forall|i: int| 0 <= i < line.len() ==> #[trigger] line[i] != '\n',
        line.last() != '\r',
    ensures
        records_of(line, before) == records_of(line + seq!['\n'], before),
{
    lemma_line_end_at(line, line.len() as int);
    assert(line.take(line.len() as int) =~= line);
    lemma_cut(line, seq!['\n'], seq![]);
    assert(line + seq!['\n'] + seq![] =~= line + seq!['\n']);
}

/// A whole page is a thousand records: an import hands over a thousand at a time, and fewer only
/// at the end.
pub proof fn law_a_page_is_a_thousand(text: Seq<char>, line: nat, i: int)
    requires
        0 <= i < batches_of(text, line).len(),
    ensures
        0 < batches_of(text, line)[i].len() <= 1000,
        i + 1 < batches_of(text, line).len() ==> batches_of(text, line)[i].len() == 1000,
{
    law_an_import_is_every_line(text, line);
}

/// A file of records holds one line a record: behind each record its line, and one line feed.
pub proof fn law_a_record_is_one_line(records: Seq<Record>, record: Record)
    ensures
        export_text(records.push(record)) == export_text(records) + crate::wire::line_of(record)
            + seq!['\n'],
        export_text(seq![]) == Seq::<char>::empty(),
{
    let one = seq![record];
    assert(records.push(record) =~= records + one);
    crate::export::law_pages_leave_no_mark(records, one);
    assert(one.drop_first() =~= seq![]);
    assert(one[0] == record);
    assert(export_text(one.drop_first()) =~= Seq::<char>::empty());
    assert(export_text(one) =~= crate::wire::line_of(record) + seq!['\n']);
    assert(export_text(records.push(record)) =~= export_text(records) + crate::wire::line_of(record)
        + seq!['\n']);
}

} // verus!
