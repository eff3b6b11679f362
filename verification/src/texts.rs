//! What the texts that are written say: a number is read back digit by digit, bytes are read back
//! two digits at a time, and no two values are written as the same text.
use vstd::prelude::*;
use vstd::string::*;

use crate::json::{Fields, NumberView, Tree};
use crate::print::{
    escape, escaped, fields_text, hex_digit, items_text, json_text, number_text, quote,
};
use crate::text::{decimal, digit, padded, signed, zeros};
use crate::wire::number_char;

verus! {

// ------------------------------------------------------------------ numbers

/// The value of a decimal digit.
pub open spec fn digit_value(c: char) -> int {
    c as int - 48
}

/// The number a text of decimal digits is, the first digit the highest.
pub open spec fn read_decimal(s: Seq<char>) -> int
    decreases s.len(),
{
    if s.len() == 0 {
        0
    } else {
        read_decimal(s.drop_last()) * 10 + digit_value(s.last())
    }
}

/// Whether a text is decimal digits.
pub open spec fn digits(s: Seq<char>) -> bool {
    forall|i: int| 0 <= i < s.len() ==> '0' <= #[trigger] s[i] <= '9'
}

/// A number in decimal is read back as that number, is nothing but digits, and has no zero in
/// front unless it is zero.
pub proof fn law_a_decimal_is_its_number(n: nat)
    ensures
        read_decimal(decimal(n)) == n,
        digits(decimal(n)),
        decimal(n).len() > 0,
        n > 0 ==> decimal(n)[0] != '0',
    decreases n,
{
    if n < 10 {
        let s = seq![digit(n as int)];
        assert(s.drop_last() =~= seq![]);
        assert(s.last() == digit(n as int));
        assert(read_decimal(s.drop_last()) == 0);
    } else {
        law_a_decimal_is_its_number(n / 10);
        let s = decimal(n / 10);
        let d = digit((n % 10) as int);
        assert(s.push(d).drop_last() =~= s);
        assert(decimal(n)[0] == s[0]);
    }
}

/// A number with a sign is read back behind it: a minus and the size where it is negative, and
/// the number itself otherwise.
pub proof fn law_a_signed_number_is_its_number(n: int)
    ensures
        n >= 0 ==> read_decimal(signed(n)) == n && digits(signed(n)),
        n < 0 ==> signed(n)[0] == '-' && read_decimal(signed(n).drop_first()) == -n && digits(
            signed(n).drop_first(),
        ),
{
    if n < 0 {
        law_a_decimal_is_its_number((-n) as nat);
        assert(signed(n).drop_first() =~= decimal((-n) as nat));
    } else {
        law_a_decimal_is_its_number(n as nat);
    }
}

proof fn lemma_zeros(k: int, s: Seq<char>)
    requires
        digits(s),
    ensures
        digits(zeros(k) + s),
        read_decimal(zeros(k) + s) == read_decimal(s),
    decreases s.len(), k,
{
    let all = zeros(k) + s;
    if s.len() > 0 {
        assert(all.drop_last() =~= zeros(k) + s.drop_last());
        assert(digits(s.drop_last()));
        lemma_zeros(k, s.drop_last());
    } else if k > 0 {
        assert(all.drop_last() =~= zeros(k - 1) + s);
        lemma_zeros(k - 1, s);
    } else {
        assert(all =~= s);
    }
}

/// A number filled with zeros is still the number, behind its sign where it is negative, and as
/// wide as asked for, or as wide as it is without them where that is wider.
pub proof fn law_a_padded_number_is_its_number(n: int, width: int)
    ensures
        n >= 0 ==> read_decimal(padded(n, width)) == n && digits(padded(n, width)),
        n < 0 ==> padded(n, width)[0] == '-' && read_decimal(padded(n, width).drop_first()) == -n
            && digits(padded(n, width).drop_first()),
        padded(n, width).len() >= width,
        padded(n, width).len() == width || padded(n, width) == signed(n),
        padded(n, width).len() > 0,
{
    let size = (if n < 0 {
        -n
    } else {
        n
    }) as nat;
    let s = decimal(size);
    law_a_decimal_is_its_number(size);
    if n < 0 {
        lemma_zeros(width - 1 - s.len(), s);
        assert(padded(n, width).drop_first() =~= zeros(width - 1 - s.len()) + s);
        if width - 1 - s.len() <= 0 {
            assert(padded(n, width) =~= signed(n));
        }
    } else {
        lemma_zeros(width - s.len(), s);
        if width - s.len() <= 0 {
            assert(padded(n, width) =~= signed(n));
        }
    }
}

// ------------------------------------------------------------------ bytes

/// The value of a hexadecimal digit in lower case.
pub open spec fn hex_value(c: char) -> int {
    if c <= '9' {
        c as int - 48
    } else {
        c as int - 87
    }
}

proof fn lemma_hex_digit(d: int)
    requires
        0 <= d < 16,
    ensures
        hex_value(hex_digit(d)) == d,
        '0' <= hex_digit(d) <= '9' || 'a' <= hex_digit(d) <= 'f',
{
}

/// Bytes in hexadecimal are read back two digits at a time, the high one first: every byte, and
/// nothing else. So no two lists of bytes are written the same.
pub proof fn law_hexadecimal_is_its_bytes(bytes: Seq<u8>)
    ensures
        crate::digest::hex_text(bytes).len() == 2 * bytes.len(),
        forall|i: int|
            0 <= i < bytes.len() ==> #[trigger] bytes[i] == 16 * hex_value(
                crate::digest::hex_text(bytes)[2 * i],
            ) + hex_value(crate::digest::hex_text(bytes)[2 * i + 1]),
    decreases bytes.len(),
{
    let text = crate::digest::hex_text(bytes);
    if bytes.len() > 0 {
        let front = bytes.drop_last();
        let last = bytes.last();
        law_hexadecimal_is_its_bytes(front);
        lemma_hex_digit(last as int / 16);
        lemma_hex_digit(last as int % 16);
        let before = crate::digest::hex_text(front);
        assert forall|i: int| 0 <= i < bytes.len() implies #[trigger] bytes[i] == 16 * hex_value(
            text[2 * i],
        ) + hex_value(text[2 * i + 1]) by {
            if i < front.len() {
                assert(front[i] == bytes[i]);
                assert(text[2 * i] == before[2 * i]);
                assert(text[2 * i + 1] == before[2 * i + 1]);
            } else {
                assert(text[2 * i] == hex_digit(last as int / 16));
                assert(text[2 * i + 1] == hex_digit(last as int % 16));
            }
        }
    }
}

// ------------------------------------------------------------------ JSON texts

/// A text that a number which is no integer can be written as: characters of numbers, with a
/// point or an exponent among them.
pub open spec fn fraction(s: Seq<char>) -> bool {
    &&& s.len() > 0
    &&& forall|i: int| 0 <= i < s.len() ==> number_char(#[trigger] s[i])
    &&& exists|i: int| 0 <= i < s.len() && !('0' <= #[trigger] s[i] <= '9') && s[i] != '-'
}

/// Whether the numbers in a value are written as numbers are: a negative integer is negative, and
/// a number that is no integer is one that its text, read by `reading`, stands for.
pub open spec fn writable(tree: Tree, reading: spec_fn(Seq<char>) -> u64) -> bool
    decreases tree,
{
    match tree {
        Tree::Number(NumberView::NegInt(n)) => n < 0,
        Tree::Number(NumberView::Float { bits, text }) => fraction(text) && bits == reading(text),
        Tree::Array(items) => forall|i: int|
            0 <= i < items.len() ==> writable(#[trigger] items[i], reading),
        Tree::Object(fields) => forall|i: int|
            0 <= i < fields.len() ==> writable((#[trigger] fields[i]).1, reading),
        _ => true,
    }
}

/// What can stand behind a value inside a text.
spec fn stop(s: Seq<char>) -> bool {
    s.len() == 0 || s[0] == ',' || s[0] == ']' || s[0] == '}'
}

proof fn lemma_number_chars(n: NumberView, reading: spec_fn(Seq<char>) -> u64)
    requires
        writable(Tree::Number(n), reading),
    ensures
        number_text(n).len() > 0,
        forall|i: int| 0 <= i < number_text(n).len() ==> number_char(#[trigger] number_text(n)[i]),
{
    match n {
        NumberView::PosInt(m) => {
            law_a_decimal_is_its_number(m as nat);
        },
        NumberView::NegInt(m) => {
            law_a_decimal_is_its_number((-m) as nat);
        },
        _ => {},
    }
}

proof fn lemma_numbers_apart(m: NumberView, n: NumberView, reading: spec_fn(Seq<char>) -> u64)
    requires
        writable(Tree::Number(m), reading),
        writable(Tree::Number(n), reading),
        number_text(m) == number_text(n),
    ensures
        m == n,
{
    lemma_number_shape(m, reading);
    lemma_number_shape(n, reading);
    match (m, n) {
        (NumberView::NegInt(a), NumberView::NegInt(b)) => {
            law_a_signed_number_is_its_number(a as int);
            law_a_signed_number_is_its_number(b as int);
        },
        (NumberView::PosInt(a), NumberView::PosInt(b)) => {
            law_a_decimal_is_its_number(a as nat);
            law_a_decimal_is_its_number(b as nat);
        },
        _ => {},
    }
}

/// The kinds of numbers are told apart by their texts: only a negative integer is a minus and
/// digits, only one that is not is digits alone.
proof fn lemma_number_shape(n: NumberView, reading: spec_fn(Seq<char>) -> u64)
    requires
        writable(Tree::Number(n), reading),
    ensures
        digits(number_text(n)) <==> n is PosInt,
        number_text(n).len() > 0,
        (number_text(n)[0] == '-' && digits(number_text(n).drop_first())) <==> n is NegInt,
{
    let s = number_text(n);
    match n {
        NumberView::PosInt(m) => {
            law_a_decimal_is_its_number(m as nat);
            assert('0' <= s[0] <= '9');
        },
        NumberView::NegInt(m) => {
            law_a_signed_number_is_its_number(m as int);
            assert(!('0' <= s[0] <= '9'));
        },
        NumberView::Float { text, .. } => {
            let i = choose|i: int|
                0 <= i < text.len() && !('0' <= #[trigger] text[i] <= '9') && text[i] != '-';
            if s[0] == '-' {
                assert(i > 0);
                assert(s.drop_first()[i - 1] == s[i]);
            }
        },
    }
}

/// Two texts of number characters, each followed by what can stand behind a value, are the same
/// texts where the whole is the same.
proof fn lemma_munch(u: Seq<char>, v: Seq<char>, x: Seq<char>, y: Seq<char>)
    requires
        forall|i: int| 0 <= i < u.len() ==> number_char(#[trigger] u[i]),
        forall|i: int| 0 <= i < v.len() ==> number_char(#[trigger] v[i]),
        stop(x),
        stop(y),
        u + x == v + y,
    ensures
        u == v,
        x == y,
{
    let whole = u + x;
    if u.len() < v.len() {
        assert(whole[u.len() as int] == v[u.len() as int]);
        assert(whole[u.len() as int] == x[0]);
        assert(number_char(v[u.len() as int]));
    }
    if v.len() < u.len() {
        assert(whole[v.len() as int] == u[v.len() as int]);
        assert((v + y)[v.len() as int] == y[0]);
        assert(number_char(u[v.len() as int]));
    }
    lemma_same_front(u, v, x, y);
}

proof fn lemma_same_front(u: Seq<char>, v: Seq<char>, x: Seq<char>, y: Seq<char>)
    requires
        u.len() == v.len(),
        u + x == v + y,
    ensures
        u == v,
        x == y,
{
    assert((u + x).take(u.len() as int) =~= u);
    assert((v + y).take(v.len() as int) =~= v);
    assert((u + x).skip(u.len() as int) =~= x);
    assert((v + y).skip(v.len() as int) =~= y);
}

proof fn lemma_escape_apart(c: char, d: char, x: Seq<char>, y: Seq<char>)
    requires
        escape(c) + x == escape(d) + y,
    ensures
        c == d,
        x == y,
{
    let a = escape(c) + x;
    let b = escape(d) + y;
    assert(a[0] == escape(c)[0]);
    assert(b[0] == escape(d)[0]);
    if a[0] == '\\' {
        assert(a[1] == escape(c)[1]);
        assert(b[1] == escape(d)[1]);
        if a[1] == 'u' {
            assert(a[4] == escape(c)[4]);
            assert(b[4] == escape(d)[4]);
            assert(a[5] == escape(c)[5]);
            assert(b[5] == escape(d)[5]);
            lemma_hex_digit(c as int / 16);
            lemma_hex_digit(c as int % 16);
            lemma_hex_digit(d as int / 16);
            lemma_hex_digit(d as int % 16);
        }
    }
    lemma_same_front(escape(c), escape(d), x, y);
}

proof fn lemma_escaped_first(s: Seq<char>)
    requires
        s.len() > 0,
    ensures
        escaped(s) == escape(s[0]) + escaped(s.drop_first()),
    decreases s.len(),
{
    if s.len() == 1 {
        assert(s.drop_last() =~= seq![]);
        assert(s.drop_first() =~= seq![]);
        assert(escaped(s) =~= escape(s[0]) + escaped(s.drop_first()));
    } else {
        let front = s.drop_last();
        lemma_escaped_first(front);
        assert(front.drop_first() =~= s.drop_first().drop_last());
        assert(escaped(s) =~= escape(s[0]) + (escaped(front.drop_first()) + escape(s.last())));
    }
}

proof fn lemma_escaped_apart(s: Seq<char>, t: Seq<char>, x: Seq<char>, y: Seq<char>)
    requires
        escaped(s) + (seq!['"'] + x) == escaped(t) + (seq!['"'] + y),
    ensures
        s == t,
        x == y,
    decreases s.len(),
{
    let a = escaped(s) + (seq!['"'] + x);
    let b = escaped(t) + (seq!['"'] + y);
    if s.len() == 0 || t.len() == 0 {
        if s.len() > 0 {
            lemma_escaped_first(s);
            assert(a[0] == escape(s[0])[0]);
            assert(b[0] == '"');
        }
        if t.len() > 0 {
            lemma_escaped_first(t);
            assert(b[0] == escape(t[0])[0]);
            assert(a[0] == '"');
        }
        assert(s =~= t);
        lemma_same_front(escaped(s), escaped(t), seq!['"'] + x, seq!['"'] + y);
        lemma_same_front(seq!['"'], seq!['"'], x, y);
    } else {
        lemma_escaped_first(s);
        lemma_escaped_first(t);
        let p = escaped(s.drop_first()) + (seq!['"'] + x);
        let q = escaped(t.drop_first()) + (seq!['"'] + y);
        assert(a =~= escape(s[0]) + p);
        assert(b =~= escape(t[0]) + q);
        lemma_escape_apart(s[0], t[0], p, q);
        lemma_escaped_apart(s.drop_first(), t.drop_first(), x, y);
        assert(s =~= seq![s[0]] + s.drop_first());
        assert(t =~= seq![t[0]] + t.drop_first());
    }
}

proof fn lemma_quote_apart(s: Seq<char>, t: Seq<char>, x: Seq<char>, y: Seq<char>)
    requires
        quote(s) + x == quote(t) + y,
    ensures
        s == t,
        x == y,
{
    let p = escaped(s) + (seq!['"'] + x);
    let q = escaped(t) + (seq!['"'] + y);
    assert(quote(s) + x =~= seq!['"'] + p);
    assert(quote(t) + y =~= seq!['"'] + q);
    lemma_same_front(seq!['"'], seq!['"'], p, q);
    lemma_escaped_apart(s, t, x, y);
}

/// A text between quotes says the text: two texts are quoted the same only where they are the
/// same, and nothing between the quotes ends them early.
pub proof fn law_a_quoted_text_is_its_text(s: Seq<char>, t: Seq<char>)
    ensures
        quote(s) == quote(t) <==> s == t,
        quote(s)[0] == '"',
        quote(s).last() == '"',
{
    if quote(s) == quote(t) {
        lemma_quote_apart(s, t, seq![], seq![]);
    }
}

proof fn lemma_first_char(tree: Tree, reading: spec_fn(Seq<char>) -> u64)
    requires
        writable(tree, reading),
    ensures
        json_text(tree).len() > 0,
        ({
            let c = json_text(tree)[0];
            match tree {
                Tree::Null => c == 'n',
                Tree::Bool(b) => c == if b {
                    't'
                } else {
                    'f'
                },
                Tree::Number(_) => number_char(c),
                Tree::String(_) => c == '"',
                Tree::Array(_) => c == '[',
                Tree::Object(_) => c == '{',
            }
        }),
{
    reveal_strlit("null");
    reveal_strlit("true");
    reveal_strlit("false");
    match tree {
        Tree::Number(n) => {
            lemma_number_chars(n, reading);
        },
        _ => {},
    }
}

/// The text of a list from element `i` on, with the bracket that ends it.
spec fn rest_items(items: Seq<Tree>, i: int) -> Seq<char>
    decreases items.len() - i,
{
    if i < 0 || i >= items.len() {
        seq![']']
    } else if i == 0 {
        json_text(items[i]) + rest_items(items, i + 1)
    } else {
        seq![','] + (json_text(items[i]) + rest_items(items, i + 1))
    }
}

/// The text of an object from field `i` on, with the brace that ends it.
spec fn rest_fields(fields: Fields, i: int) -> Seq<char>
    decreases fields.len() - i,
{
    if i < 0 || i >= fields.len() {
        seq!['}']
    } else {
        let field = quote(fields[i].0) + (seq![':'] + (json_text(fields[i].1) + rest_fields(
            fields,
            i + 1,
        )));
        if i == 0 {
            field
        } else {
            seq![','] + field
        }
    }
}

proof fn lemma_items_split(items: Seq<Tree>, i: nat)
    requires
        i <= items.len(),
    ensures
        items_text(items, items.len()) + seq![']'] == items_text(items, i) + rest_items(
            items,
            i as int,
        ),
    decreases items.len() - i,
{
    if i < items.len() {
        lemma_items_split(items, i + 1);
        assert(items_text(items, i + 1) + rest_items(items, i as int + 1) =~= items_text(items, i)
            + rest_items(items, i as int));
    }
}

proof fn lemma_fields_split(fields: Fields, i: nat)
    requires
        i <= fields.len(),
    ensures
        fields_text(fields, fields.len()) + seq!['}'] == fields_text(fields, i) + rest_fields(
            fields,
            i as int,
        ),
    decreases fields.len() - i,
{
    if i < fields.len() {
        lemma_fields_split(fields, i + 1);
        assert(fields_text(fields, i + 1) + rest_fields(fields, i as int + 1) =~= fields_text(fields, i)
            + rest_fields(fields, i as int));
    }
}

proof fn lemma_items_apart(
    p: Seq<Tree>,
    q: Seq<Tree>,
    i: int,
    x: Seq<char>,
    y: Seq<char>,
    reading: spec_fn(Seq<char>) -> u64,
)
    requires
        forall|j: int| 0 <= j < p.len() ==> writable(#[trigger] p[j], reading),
        forall|j: int| 0 <= j < q.len() ==> writable(#[trigger] q[j], reading),
        0 <= i <= p.len(),
        i <= q.len(),
        rest_items(p, i) + x == rest_items(q, i) + y,
    ensures
        p.len() == q.len(),
        forall|j: int| i <= j < p.len() ==> p[j] == #[trigger] q[j],
        x == y,
    decreases p, p.len() - i,
{
    let a = rest_items(p, i) + x;
    let b = rest_items(q, i) + y;
    if i < p.len() {
        assert(writable(p[i], reading));
        lemma_first_char(p[i], reading);
        assert(a[0] == rest_items(p, i)[0]);
    }
    if i < q.len() {
        assert(writable(q[i], reading));
        lemma_first_char(q[i], reading);
        assert(b[0] == rest_items(q, i)[0]);
    }
    if i >= p.len() {
        assert(a[0] == ']');
    }
    if i >= q.len() {
        assert(b[0] == ']');
    }
    if i >= p.len() || i >= q.len() {
        lemma_same_front(seq![']'], seq![']'], x, y);
    } else {
        let u = rest_items(p, i + 1) + x;
        let v = rest_items(q, i + 1) + y;
        if i == 0 {
            assert(a =~= json_text(p[i]) + u);
            assert(b =~= json_text(q[i]) + v);
        } else {
            assert(a =~= seq![','] + (json_text(p[i]) + u));
            assert(b =~= seq![','] + (json_text(q[i]) + v));
            lemma_same_front(seq![','], seq![','], json_text(p[i]) + u, json_text(q[i]) + v);
        }
        assert(stop(u));
        assert(stop(v));
        lemma_apart(p[i], q[i], u, v, reading);
        lemma_items_apart(p, q, i + 1, x, y, reading);
    }
}

/// The text of an object from field `i` on, and what follows it, part by part.
proof fn lemma_field_first(fields: Fields, i: int, x: Seq<char>)
    requires
        0 <= i < fields.len(),
    ensures
        rest_fields(fields, i) + x == comma(i as nat) + (quote(fields[i].0) + (seq![':'] + (
        json_text(fields[i].1) + (rest_fields(fields, i + 1) + x)))),
        (rest_fields(fields, i) + x)[0] == if i == 0 {
            '"'
        } else {
            ','
        },
{
    assert(quote(fields[i].0)[0] == '"');
    assert(rest_fields(fields, i) + x =~= comma(i as nat) + (quote(fields[i].0) + (seq![':'] + (
    json_text(fields[i].1) + (rest_fields(fields, i + 1) + x)))));
}

proof fn lemma_field_cut(
    front: Seq<char>,
    a: Seq<char>,
    b: Seq<char>,
    x: Seq<char>,
    y: Seq<char>,
)
    requires
        front + (quote(a) + (seq![':'] + x)) == front + (quote(b) + (seq![':'] + y)),
    ensures
        a == b,
        x == y,
{
    let p = seq![':'] + x;
    let q = seq![':'] + y;
    lemma_same_front(front, front, quote(a) + p, quote(b) + q);
    lemma_quote_apart(a, b, p, q);
    lemma_same_front(seq![':'], seq![':'], x, y);
}

proof fn lemma_fields_apart(
    p: Fields,
    q: Fields,
    i: int,
    x: Seq<char>,
    y: Seq<char>,
    reading: spec_fn(Seq<char>) -> u64,
)
    requires
        forall|j: int| 0 <= j < p.len() ==> writable((#[trigger] p[j]).1, reading),
        forall|j: int| 0 <= j < q.len() ==> writable((#[trigger] q[j]).1, reading),
        0 <= i <= p.len(),
        i <= q.len(),
        rest_fields(p, i) + x == rest_fields(q, i) + y,
    ensures
        p.len() == q.len(),
        forall|j: int| i <= j < p.len() ==> p[j] == #[trigger] q[j],
        x == y,
    decreases p, p.len() - i,
{
    if i < p.len() {
        lemma_field_first(p, i, x);
    } else {
        assert((rest_fields(p, i) + x)[0] == '}');
    }
    if i < q.len() {
        lemma_field_first(q, i, y);
    } else {
        assert((rest_fields(q, i) + y)[0] == '}');
    }
    if i >= p.len() || i >= q.len() {
        lemma_same_front(seq!['}'], seq!['}'], x, y);
    } else {
        let u = rest_fields(p, i + 1) + x;
        let v = rest_fields(q, i + 1) + y;
        lemma_field_cut(
            comma(i as nat),
            p[i].0,
            q[i].0,
            json_text(p[i].1) + u,
            json_text(q[i].1) + v,
        );
        assert(stop(u) && stop(v)) by {
            lemma_stop(p, i + 1, x);
            lemma_stop(q, i + 1, y);
        }
        lemma_apart(p[i].1, q[i].1, u, v, reading);
        lemma_fields_apart(p, q, i + 1, x, y, reading);
        assert(p[i] == q[i]);
    }
}

proof fn lemma_stop(fields: Fields, i: int, x: Seq<char>)
    requires
        0 < i <= fields.len(),
    ensures
        stop(rest_fields(fields, i) + x),
{
    if i < fields.len() {
        lemma_field_first(fields, i, x);
    } else {
        assert((rest_fields(fields, i) + x)[0] == '}');
    }
}

/// Values whose texts, each followed by what can stand behind a value, are one text, are one
/// value.
proof fn lemma_apart(
    a: Tree,
    b: Tree,
    x: Seq<char>,
    y: Seq<char>,
    reading: spec_fn(Seq<char>) -> u64,
)
    requires
        writable(a, reading),
        writable(b, reading),
        stop(x),
        stop(y),
        json_text(a) + x == json_text(b) + y,
    ensures
        a == b,
        x == y,
    decreases a, 0int,
{
    lemma_first_char(a, reading);
    lemma_first_char(b, reading);
    assert((json_text(a) + x)[0] == json_text(a)[0]);
    assert((json_text(b) + y)[0] == json_text(b)[0]);
    match (a, b) {
        (Tree::Number(m), Tree::Number(n)) => {
            lemma_number_chars(m, reading);
            lemma_number_chars(n, reading);
            lemma_munch(number_text(m), number_text(n), x, y);
            lemma_numbers_apart(m, n, reading);
        },
        (Tree::String(s), Tree::String(t)) => {
            lemma_quote_apart(s, t, x, y);
        },
        (Tree::Array(p), Tree::Array(q)) => {
            lemma_items_split(p, 0);
            lemma_items_split(q, 0);
            assert(json_text(a) + x =~= seq!['['] + (rest_items(p, 0) + x));
            assert(json_text(b) + y =~= seq!['['] + (rest_items(q, 0) + y));
            lemma_same_front(seq!['['], seq!['['], rest_items(p, 0) + x, rest_items(q, 0) + y);
            lemma_items_apart(p, q, 0, x, y, reading);
            assert(p =~= q);
        },
        (Tree::Object(p), Tree::Object(q)) => {
            lemma_fields_split(p, 0);
            lemma_fields_split(q, 0);
            assert(json_text(a) + x =~= seq!['{'] + (rest_fields(p, 0) + x));
            assert(json_text(b) + y =~= seq!['{'] + (rest_fields(q, 0) + y));
            lemma_same_front(seq!['{'], seq!['{'], rest_fields(p, 0) + x, rest_fields(q, 0) + y);
            lemma_fields_apart(p, q, 0, x, y, reading);
            assert(p =~= q);
        },
        _ => {
            lemma_same_front(json_text(a), json_text(b), x, y);
        },
    }
}

/// A text is the text of one value: two values are written the same only where they are the same,
/// field by field, in the same order.
pub proof fn law_texts_tell_values_apart(a: Tree, b: Tree, reading: spec_fn(Seq<char>) -> u64)
    requires
        writable(a, reading),
        writable(b, reading),
        json_text(a) == json_text(b),
    ensures
        a == b,
{
    lemma_apart(a, b, seq![], seq![], reading);
}

/// How a value is written: null and the truth values by their names, a number as its text, a text
/// between quotes, a list between brackets and an object between braces, and behind what is there
/// already each further element or field with a comma in front of it, unless it is the first. An
/// empty list is two brackets, an empty object two braces.
pub proof fn law_a_text_grows_with_its_value(
    items: Seq<Tree>,
    item: Tree,
    fields: Fields,
    key: Seq<char>,
)
    ensures
        json_text(Tree::Null) == "null"@,
        json_text(Tree::Bool(true)) == "true"@,
        json_text(Tree::Bool(false)) == "false"@,
        json_text(Tree::Array(seq![])) == seq!['[', ']'],
        json_text(Tree::Object(seq![])) == seq!['{', '}'],
        json_text(Tree::Array(items.push(item))) == json_text(Tree::Array(items)).drop_last()
            + comma(items.len()) + json_text(item) + seq![']'],
        json_text(Tree::Object(fields.push((key, item)))) == json_text(
            Tree::Object(fields),
        ).drop_last() + comma(fields.len()) + json_text(Tree::String(key)) + seq![':']
            + json_text(item) + seq!['}'],
{
    assert(json_text(Tree::Array(seq![])) =~= seq!['[', ']']);
    assert(json_text(Tree::Object(seq![])) =~= seq!['{', '}']);
    let more = items.push(item);
    lemma_items_front(items, item, items.len());
    assert(more[items.len() as int] == item);
    assert(json_text(Tree::Array(more)) =~= json_text(Tree::Array(items)).drop_last() + comma(
        items.len(),
    ) + json_text(item) + seq![']']);
    let wider = fields.push((key, item));
    lemma_fields_front(fields, (key, item), fields.len());
    assert(wider[fields.len() as int] == (key, item));
    assert(json_text(Tree::Object(wider)) =~= json_text(Tree::Object(fields)).drop_last() + comma(
        fields.len(),
    ) + json_text(Tree::String(key)) + seq![':'] + json_text(item) + seq!['}']);
}

/// What stands in front of an element that has `n` before it.
pub open spec fn comma(n: nat) -> Seq<char> {
    if n == 0 {
        seq![]
    } else {
        seq![',']
    }
}

proof fn lemma_items_front(items: Seq<Tree>, item: Tree, n: nat)
    requires
        n <= items.len(),
    ensures
        items_text(items.push(item), n) == items_text(items, n),
    decreases n,
{
    if n > 0 {
        lemma_items_front(items, item, (n - 1) as nat);
        assert(items.push(item)[n - 1] == items[n - 1]);
        assert(items.push(item)[0] == items[0]);
    }
}

proof fn lemma_fields_front(fields: Fields, field: (Seq<char>, Tree), n: nat)
    requires
        n <= fields.len(),
    ensures
        fields_text(fields.push(field), n) == fields_text(fields, n),
    decreases n,
{
    if n > 0 {
        lemma_fields_front(fields, field, (n - 1) as nat);
        assert(fields.push(field)[n - 1] == fields[n - 1]);
    }
}

/// How one character stands in a quoted text: itself, unless it is the quote, the backslash or a
/// control character; those stand behind a backslash, the control characters that have no letter
/// of their own by their number in four hexadecimal digits.
pub proof fn law_a_character_is_quoted(c: char, s: Seq<char>)
    ensures
        quote(s.push(c)) == quote(s).drop_last() + escape(c) + seq!['"'],
        quote(seq![]) == seq!['"', '"'],
        c >= ' ' && c != '"' && c != '\\' ==> escape(c) == seq![c],
        c == '"' || c == '\\' ==> escape(c) == seq!['\\', c],
        c == '\n' ==> escape(c) == seq!['\\', 'n'],
        c == '\t' ==> escape(c) == seq!['\\', 't'],
        c == '\r' ==> escape(c) == seq!['\\', 'r'],
        c == '\u{8}' ==> escape(c) == seq!['\\', 'b'],
        c == '\u{c}' ==> escape(c) == seq!['\\', 'f'],
        !(c >= ' ') && c != '\n' && c != '\t' && c != '\r' && c != '\u{8}' && c != '\u{c}' ==> {
            let e = escape(c);
            &&& e.len() == 6
            &&& e[0] == '\\' && e[1] == 'u' && e[2] == '0' && e[3] == '0'
            &&& 16 * hex_value(e[4]) + hex_value(e[5]) == c as int
        },
{
    assert(s.push(c).drop_last() =~= s);
    assert(quote(s.push(c)) =~= quote(s).drop_last() + escape(c) + seq!['"']);
    assert(quote(seq![]) =~= seq!['"', '"']);
    if !(c >= ' ') {
        lemma_hex_digit(c as int / 16);
        lemma_hex_digit(c as int % 16);
    }
}

} // verus!
