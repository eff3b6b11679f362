//! What an event says, field by field, and what a column makes of it.
//!
//! The other modules read JSON through functions that look a field up, take a text or cut a
//! number. Here is what those functions are for, said of the fields themselves: which field is
//! found, which text is taken, which number a column holds.
use vstd::arithmetic::power2::pow2;
use vstd::prelude::*;
use vstd::string::*;

use crate::json::{
    Fields, NumberView, Tree, lookup, member, num_of, real_of, text_of, truncated, whole_part,
};
use crate::print::json_text;
use crate::projection::{json_cell, texts_among, texts_under};
use crate::record::{field_of, kind_of, wrapped};
use crate::sql::{Cell, int_cell, real_cell, text_cell};

verus! {

// ------------------------------------------------------------------ fields

/// Whether the first field named `key` is field `i`, and holds `value`.
pub open spec fn says_at(fields: Fields, key: Seq<char>, value: Tree, i: int) -> bool {
    &&& 0 <= i < fields.len()
    &&& fields[i].0 == key
    &&& fields[i].1 == value
    &&& forall|j: int| 0 <= j < i ==> (#[trigger] fields[j]).0 != key
}

/// Whether the first field named `key` holds `value`.
pub open spec fn says(fields: Fields, key: Seq<char>, value: Tree) -> bool {
    exists|i: int| says_at(fields, key, value, i)
}

/// Whether no field is named `key`.
pub open spec fn silent(fields: Fields, key: Seq<char>) -> bool {
    forall|i: int| 0 <= i < fields.len() ==> (#[trigger] fields[i]).0 != key
}

/// A field is found where it stands first, with the value it has there, and none is found where
/// none has the name.
pub proof fn law_the_first_field_is_found(fields: Fields, key: Seq<char>, value: Tree)
    ensures
        says(fields, key, value) <==> lookup(fields, key) == Some(value),
        silent(fields, key) <==> lookup(fields, key) is None,
    decreases fields.len(),
{
    if fields.len() > 0 {
        let rest = fields.drop_first();
        law_the_first_field_is_found(rest, key, value);
        if fields[0].0 == key {
            if says(fields, key, value) {
                let i = choose|i: int| says_at(fields, key, value, i);
                assert(i == 0);
            }
            if fields[0].1 == value {
                assert(says_at(fields, key, value, 0));
            }
        } else {
            if says(rest, key, value) {
                let i = choose|i: int| says_at(rest, key, value, i);
                assert forall|j: int| 0 <= j < i + 1 implies (#[trigger] fields[j]).0 != key by {
                    if j > 0 {
                        assert(rest[j - 1] == fields[j]);
                    }
                }
                assert(says_at(fields, key, value, i + 1));
            }
            if says(fields, key, value) {
                let i = choose|i: int| says_at(fields, key, value, i);
                assert forall|j: int| 0 <= j < i - 1 implies (#[trigger] rest[j]).0 != key by {
                    assert(rest[j] == fields[j + 1]);
                }
                assert(says_at(rest, key, value, i - 1));
            }
            if silent(rest, key) {
                assert forall|i: int| 0 <= i < fields.len() implies (#[trigger] fields[i]).0
                    != key by {
                    if i > 0 {
                        assert(rest[i - 1] == fields[i]);
                    }
                }
            }
            if silent(fields, key) {
                assert forall|i: int| 0 <= i < rest.len() implies (#[trigger] rest[i]).0 != key by {
                    assert(rest[i] == fields[i + 1]);
                }
            }
        }
    }
}

/// A value reads as what it is and as nothing else: as a text where it is one, as a count where it
/// is an integer that is not negative, as an integer where 64 signed bits hold it, and under a
/// name as the first field of that name where it is an object.
pub proof fn law_a_value_reads_as_what_it_is(
    value: Tree,
    s: Seq<char>,
    n: u64,
    m: i64,
    key: Seq<char>,
    inner: Tree,
)
    ensures
        value.as_str() == Some(s) <==> value == Tree::String(s),
        value.as_u64() == Some(n) <==> value == Tree::Number(NumberView::PosInt(n)),
        value.as_i64() == Some(m) <==> (m >= 0 && value == Tree::Number(
            NumberView::PosInt(m as u64),
        )) || value == Tree::Number(NumberView::NegInt(m)),
        value.get(key) == Some(inner) <==> value is Object && says(value->Object_0, key, inner),
{
    if value is Object {
        law_the_first_field_is_found(value->Object_0, key, inner);
    }
}

/// Whether `value` is what stands at the end of a path of names, through objects.
pub open spec fn reaches(fields: Fields, path: Seq<Seq<char>>, value: Tree) -> bool
    decreases path.len(),
{
    if path.len() == 0 {
        false
    } else if path.len() == 1 {
        says(fields, path[0], value)
    } else {
        exists|inner: Fields| #[trigger]
            says(fields, path[0], Tree::Object(inner)) && reaches(inner, path.drop_first(), value)
    }
}

proof fn lemma_path_one(fields: Fields, a: Seq<char>, value: Tree)
    ensures
        reaches(fields, seq![a], value) <==> lookup(fields, a) == Some(value),
{
    law_the_first_field_is_found(fields, a, value);
}

/// What stands under a name in an object that stands under a name.
pub proof fn law_a_member_is_reached(fields: Fields, a: Seq<char>, b: Seq<char>, value: Tree)
    ensures
        reaches(fields, seq![a, b], value) <==> member(lookup(fields, a), b) == Some(value),
{
    let path = seq![a, b];
    assert(path.drop_first() =~= seq![b]);
    if reaches(fields, path, value) {
        let inner = choose|inner: Fields| #[trigger]
            says(fields, a, Tree::Object(inner)) && reaches(inner, seq![b], value);
        law_the_first_field_is_found(fields, a, Tree::Object(inner));
        lemma_path_one(inner, b, value);
    }
    if member(lookup(fields, a), b) == Some(value) {
        let inner = lookup(fields, a)->0->Object_0;
        law_the_first_field_is_found(fields, a, Tree::Object(inner));
        lemma_path_one(inner, b, value);
        assert(says(fields, path[0], Tree::Object(inner)));
    }
}

proof fn lemma_path_three(
    fields: Fields,
    a: Seq<char>,
    b: Seq<char>,
    c: Seq<char>,
    value: Tree,
)
    ensures
        reaches(fields, seq![a, b, c], value) <==> member(member(lookup(fields, a), b), c) == Some(
            value,
        ),
{
    let path = seq![a, b, c];
    assert(path.drop_first() =~= seq![b, c]);
    if reaches(fields, path, value) {
        let inner = choose|inner: Fields| #[trigger]
            says(fields, a, Tree::Object(inner)) && reaches(inner, seq![b, c], value);
        law_the_first_field_is_found(fields, a, Tree::Object(inner));
        law_a_member_is_reached(inner, b, c, value);
    }
    if member(member(lookup(fields, a), b), c) == Some(value) {
        let inner = lookup(fields, a)->0->Object_0;
        law_the_first_field_is_found(fields, a, Tree::Object(inner));
        law_a_member_is_reached(inner, b, c, value);
        assert(says(fields, path[0], Tree::Object(inner)));
    }
}

/// The kind of an event is the text its first `kind` says.
pub proof fn law_the_kind_is_what_is_said(event: Fields, kind: Seq<char>)
    requires
        says(event, "kind"@, Tree::String(kind)),
    ensures
        kind_of(event) == kind,
{
    law_the_first_field_is_found(event, "kind"@, Tree::String(kind));
}

/// A field of an event is the value it says, and null where it says nothing.
pub proof fn law_a_field_is_what_is_said(event: Fields, key: Seq<char>, value: Tree)
    ensures
        says(event, key, value) ==> field_of(event, key) == value,
        silent(event, key) ==> field_of(event, key) == Tree::Null,
{
    law_the_first_field_is_found(event, key, value);
}

// ------------------------------------------------------------------ columns

/// Whether a cell holds the text at the end of a path, and nothing where there is no text.
pub open spec fn holds_text(cell: Cell, event: Fields, path: Seq<Seq<char>>) -> bool {
    &&& forall|s: Seq<char>| #[trigger]
        reaches(event, path, Tree::String(s)) ==> cell == Cell::Text(s)
    &&& (forall|s: Seq<char>| !(#[trigger] reaches(event, path, Tree::String(s)))) ==> cell is Null
}

/// Whether a cell holds the value at the end of a path as JSON, and nothing where there is none.
pub open spec fn holds_json(cell: Cell, event: Fields, path: Seq<Seq<char>>) -> bool {
    &&& forall|v: Tree| #[trigger] reaches(event, path, v) ==> cell == Cell::Text(json_text(v))
    &&& (forall|v: Tree| !(#[trigger] reaches(event, path, v))) ==> cell is Null
}

/// Whether a cell holds the number at the end of a path, as it was written, and nothing where
/// there is no number.
pub open spec fn holds_number(cell: Cell, event: Fields, path: Seq<Seq<char>>) -> bool {
    &&& forall|x: NumberView| #[trigger]
        reaches(event, path, Tree::Number(x)) ==> cell == Cell::Real(x)
    &&& (forall|x: NumberView| !(#[trigger] reaches(event, path, Tree::Number(x)))) ==> cell is Null
}

/// Whether `n` is the number `x` as an integer of 64 signed bits: itself where it is one, the
/// nearest end of the range where it is past it, and cut towards zero where it is a fraction.
pub open spec fn is_cut(n: int, x: NumberView) -> bool {
    match x {
        NumberView::PosInt(m) => if m <= 0x7fff_ffff_ffff_ffff {
            n == m
        } else {
            n == 0x7fff_ffff_ffff_ffff
        },
        NumberView::NegInt(m) => n == m,
        NumberView::Float { bits, .. } => cuts(n, bits),
    }
}

/// Whether `n` is a double, given by its bits, cut towards zero and held inside 64 signed bits;
/// 0 where it is not a number. A double of exponent `e` and fraction `f` is `2^52 + f` times two
/// to the power `e - 1075`.
pub open spec fn cuts(n: int, bits: u64) -> bool {
    let sign = bits as int / 0x8000_0000_0000_0000;
    let exponent = (bits as int / 0x10_0000_0000_0000) % 2048;
    let fraction = bits as int % 0x10_0000_0000_0000;
    let significand = 0x10_0000_0000_0000 + fraction;
    let size = if n < 0 {
        -n
    } else {
        n
    };
    if exponent == 2047 {
        if fraction != 0 {
            n == 0
        } else if sign == 1 {
            n == -0x8000_0000_0000_0000
        } else {
            n == 0x7fff_ffff_ffff_ffff
        }
    } else if exponent < 1023 {
        n == 0
    } else {
        &&& n < 0 ==> sign == 1
        &&& n > 0 ==> sign == 0
        &&& -0x8000_0000_0000_0000 <= n <= 0x7fff_ffff_ffff_ffff
        &&& if exponent < 1075 {
            let scale = pow2((1075 - exponent) as nat) as int;
            size * scale <= significand < (size + 1) * scale
        } else {
            let whole = significand * pow2((exponent - 1075) as nat);
            if sign == 1 {
                size == if whole > 0x8000_0000_0000_0000 {
                    0x8000_0000_0000_0000
                } else {
                    whole
                }
            } else {
                size == if whole > 0x7fff_ffff_ffff_ffff {
                    0x7fff_ffff_ffff_ffff
                } else {
                    whole
                }
            }
        }
    }
}

/// Whether a cell holds the number at the end of a path as an integer, and nothing where there
/// is no number.
pub open spec fn holds_int(cell: Cell, event: Fields, path: Seq<Seq<char>>) -> bool {
    &&& forall|x: NumberView| #[trigger]
        reaches(event, path, Tree::Number(x)) ==> cell is Integer && is_cut(cell->Integer_0, x)
    &&& (forall|x: NumberView| !(#[trigger] reaches(event, path, Tree::Number(x)))) ==> cell is Null
}

/// Whether `n` is the number at the end of a path as an integer, and 0 where there is none.
pub open spec fn is_amount(n: int, event: Fields, path: Seq<Seq<char>>) -> bool {
    &&& forall|x: NumberView| #[trigger] reaches(event, path, Tree::Number(x)) ==> is_cut(n, x)
    &&& (forall|x: NumberView| !(#[trigger] reaches(event, path, Tree::Number(x)))) ==> n == 0
}

proof fn lemma_below(exponent: int, fraction: int)
    requires
        0 < exponent < 1075,
        0 <= fraction < 0x10_0000_0000_0000,
    ensures
        ({
            let scale = pow2((1075 - exponent) as nat) as int;
            let significand = 0x10_0000_0000_0000 + fraction;
            let whole = whole_part(exponent as nat, fraction as nat) as int;
            &&& whole * scale <= significand < (whole + 1) * scale
            &&& exponent < 1023 ==> whole == 0
            &&& exponent >= 1023 ==> whole < 0x20_0000_0000_0000
        }),
{
    vstd::arithmetic::power2::lemma2_to64();
    vstd::arithmetic::power2::lemma2_to64_rest();
    let k = (1075 - exponent) as nat;
    let scale = pow2(k) as int;
    vstd::arithmetic::power2::lemma_pow2_pos(k);
    let significand = 0x10_0000_0000_0000 + fraction;
    vstd::arithmetic::div_mod::lemma_fundamental_div_mod(significand, scale);
    let whole = significand / scale;
    assert(whole * scale <= significand < (whole + 1) * scale) by (nonlinear_arith)
        requires
            significand == scale * whole + significand % scale,
            0 <= significand % scale < scale,
    ;
    if exponent < 1023 {
        vstd::arithmetic::power2::lemma_pow2_strictly_increases(52, k);
        if k > 53 {
            vstd::arithmetic::power2::lemma_pow2_strictly_increases(53, k);
        }
        vstd::arithmetic::div_mod::lemma_basic_div(significand, scale);
    } else {
        assert(whole <= significand) by (nonlinear_arith)
            requires
                whole * scale <= significand,
                scale >= 1,
                whole >= 0 || significand >= 0,
                significand >= 0,
        ;
    }
}

/// A double is cut towards zero: to the whole number that its size is not below, and below the
/// next, with its sign.
pub proof fn law_a_double_is_cut(bits: u64)
    ensures
        cuts(truncated(bits), bits),
{
    vstd::arithmetic::power2::lemma2_to64();
    vstd::arithmetic::power2::lemma2_to64_rest();
    let exponent = (bits as int / 0x10_0000_0000_0000) % 2048;
    let fraction = bits as int % 0x10_0000_0000_0000;
    assert(bits as nat / pow2(63) == bits as int / 0x8000_0000_0000_0000);
    assert((bits as nat / pow2(52)) % 2048 == exponent);
    assert(bits as nat % pow2(52) == fraction);
    if 0 < exponent < 1075 {
        lemma_below(exponent, fraction);
    } else if exponent >= 1075 {
        let scale = pow2((exponent - 1075) as nat);
        vstd::arithmetic::power2::lemma_pow2_pos((exponent - 1075) as nat);
        assert((0x10_0000_0000_0000 + fraction) * scale > 0) by (nonlinear_arith)
            requires
                fraction >= 0,
                scale >= 1,
        ;
    }
}

/// A number in a column of integers is the number that was written, cut to one.
pub proof fn law_a_number_is_cut(x: NumberView)
    ensures
        num_of(Some(Tree::Number(x))) is Some,
        is_cut(num_of(Some(Tree::Number(x)))->0, x),
{
    match x {
        NumberView::Float { bits, .. } => {
            law_a_double_is_cut(bits);
        },
        _ => {},
    }
}

/// What is not a number is no integer.
pub proof fn law_only_a_number_is_cut(value: Option<Tree>)
    requires
        value is Some ==> !(value->0 is Number),
    ensures
        num_of(value) is None,
        real_of(value) is None,
{
}

proof fn lemma_text_found(found: Option<Tree>, event: Fields, path: Seq<Seq<char>>)
    requires
        forall|v: Tree| #[trigger] reaches(event, path, v) <==> found == Some(v),
    ensures
        holds_text(
            text_cell(
                match found {
                    Some(v) => v.as_str(),
                    None => None,
                },
            ),
            event,
            path,
        ),
{
    match found {
        Some(Tree::String(s)) => {
            assert(reaches(event, path, Tree::String(s)));
        },
        _ => {},
    }
}

proof fn lemma_number_found(found: Option<Tree>, event: Fields, path: Seq<Seq<char>>)
    requires
        forall|v: Tree| #[trigger] reaches(event, path, v) <==> found == Some(v),
    ensures
        holds_number(real_cell(real_of(found)), event, path),
        holds_int(int_cell(num_of(found)), event, path),
        is_amount(
            match num_of(found) {
                Some(n) => n,
                None => 0,
            },
            event,
            path,
        ),
{
    match found {
        Some(Tree::Number(x)) => {
            assert(reaches(event, path, Tree::Number(x)));
            law_a_number_is_cut(x);
        },
        _ => {},
    }
}

proof fn lemma_json_found(found: Option<Tree>, event: Fields, path: Seq<Seq<char>>)
    requires
        forall|v: Tree| #[trigger] reaches(event, path, v) <==> found == Some(v),
    ensures
        holds_json(json_cell(found), event, path),
{
    match found {
        Some(v) => {
            assert(reaches(event, path, v));
        },
        None => {},
    }
}

/// What the fold takes from a field of an event is what the event says there: its number.
pub proof fn law_a_column_of_a_field(event: Fields, a: Seq<char>)
    ensures
        is_amount(
            match num_of(lookup(event, a)) {
                Some(n) => n,
                None => 0,
            },
            event,
            seq![a],
        ),
        holds_json(json_cell(lookup(event, a)), event, seq![a]),
{
    let path = seq![a];
    let found = lookup(event, a);
    assert forall|v: Tree| #[trigger] reaches(event, path, v) <==> found == Some(v) by {
        lemma_path_one(event, a, v);
    }
    lemma_number_found(found, event, path);
    lemma_json_found(found, event, path);
}

/// What the fold takes from a field of `meta` or `data` is what the event says there: its text,
/// its number, or the JSON it is.
pub proof fn law_a_column_of_a_member(event: Fields, a: Seq<char>, b: Seq<char>)
    ensures
        holds_text(text_cell(text_of(lookup(event, a), b)), event, seq![a, b]),
        holds_number(real_cell(real_of(member(lookup(event, a), b))), event, seq![a, b]),
        holds_int(int_cell(num_of(member(lookup(event, a), b))), event, seq![a, b]),
        is_amount(
            match num_of(member(lookup(event, a), b)) {
                Some(n) => n,
                None => 0,
            },
            event,
            seq![a, b],
        ),
        holds_json(json_cell(member(lookup(event, a), b)), event, seq![a, b]),
{
    let path = seq![a, b];
    let found = member(lookup(event, a), b);
    assert forall|v: Tree| #[trigger] reaches(event, path, v) <==> found == Some(v) by {
        law_a_member_is_reached(event, a, b, v);
    }
    lemma_text_found(found, event, path);
    lemma_number_found(found, event, path);
    lemma_json_found(found, event, path);
}

/// What the fold takes from inside an object of `data` is what the event says there.
pub proof fn law_a_column_of_an_inner_member(
    event: Fields,
    a: Seq<char>,
    b: Seq<char>,
    c: Seq<char>,
)
    ensures
        holds_number(
            real_cell(real_of(member(member(lookup(event, a), b), c))),
            event,
            seq![a, b, c],
        ),
        holds_int(
            int_cell(num_of(member(member(lookup(event, a), b), c))),
            event,
            seq![a, b, c],
        ),
{
    let path = seq![a, b, c];
    let found = member(member(lookup(event, a), b), c);
    assert forall|v: Tree| #[trigger] reaches(event, path, v) <==> found == Some(v) by {
        lemma_path_three(event, a, b, c, v);
    }
    lemma_number_found(found, event, path);
}

/// The text under a name is the one the event says, there and nowhere else.
pub proof fn law_a_text_is_what_is_said(event: Fields, a: Seq<char>, b: Seq<char>, s: Seq<char>)
    ensures
        reaches(event, seq![a, b], Tree::String(s)) <==> text_of(lookup(event, a), b) == Some(s),
{
    law_a_member_is_reached(event, a, b, Tree::String(s));
    match member(lookup(event, a), b) {
        Some(Tree::String(x)) => {
            law_a_member_is_reached(event, a, b, Tree::String(x));
        },
        _ => {},
    }
}

// ------------------------------------------------------------------ lists

/// Whether the list at the end of a path has `s` among its elements.
pub open spec fn lists(event: Fields, path: Seq<Seq<char>>, s: Seq<char>) -> bool {
    exists|items: Seq<Tree>, i: int| #[trigger]
        reaches(event, path, Tree::Array(items)) && 0 <= i < items.len() && #[trigger] items[i]
            == Tree::String(s)
}

proof fn lemma_texts_among(items: Seq<Tree>, s: Seq<char>)
    ensures
        texts_among(items).contains(s) <==> exists|i: int|
            0 <= i < items.len() && #[trigger] items[i] == Tree::String(s),
    decreases items.len(),
{
    if items.len() > 0 {
        let front = items.drop_last();
        let before = texts_among(front);
        lemma_texts_among(front, s);
        if before.contains(s) {
            let i = choose|i: int| 0 <= i < front.len() && #[trigger] front[i] == Tree::String(s);
            assert(items[i] == Tree::String(s));
            let k = before.index_of(s);
            assert(texts_among(items)[k] == s);
        }
        if items.last() == Tree::String(s) {
            assert(items[items.len() - 1] == Tree::String(s));
            assert(texts_among(items)[before.len() as int] == s);
        }
        if texts_among(items).contains(s) && !before.contains(s) {
            let k = texts_among(items).index_of(s);
            assert(k < before.len() ==> before[k] == s);
            assert(items.last() == Tree::String(s));
            assert(items[items.len() - 1] == Tree::String(s));
        }
        if exists|i: int| 0 <= i < items.len() && #[trigger] items[i] == Tree::String(s) {
            let i = choose|i: int| 0 <= i < items.len() && #[trigger] items[i] == Tree::String(s);
            if i < front.len() {
                assert(front[i] == Tree::String(s));
            }
        }
    }
}

/// What is taken from a list is every text among its elements, and nothing else.
pub proof fn law_a_list_is_its_texts(event: Fields, a: Seq<char>, b: Seq<char>, s: Seq<char>)
    ensures
        texts_under(lookup(event, a), b).contains(s) <==> lists(event, seq![a, b], s),
{
    let found = member(lookup(event, a), b);
    match found {
        Some(Tree::Array(items)) => {
            law_a_member_is_reached(event, a, b, Tree::Array(items));
            lemma_texts_among(items, s);
            if texts_among(items).contains(s) {
                let i = choose|i: int| 0 <= i < items.len() && #[trigger] items[i] == Tree::String(s);
                assert(reaches(event, seq![a, b], Tree::Array(items)) && items[i] == Tree::String(s));
            }
        },
        _ => {},
    }
    let path = seq![a, b];
    if lists(event, path, s) {
        let (items, i) = choose|items: Seq<Tree>, i: int| #[trigger]
            reaches(event, path, Tree::Array(items)) && 0 <= i < items.len()
                && #[trigger] items[i] == Tree::String(s);
        law_a_member_is_reached(event, a, b, Tree::Array(items));
        lemma_texts_among(items, s);
    }
}

/// A word of 64 bits read as a signed number is itself up to the largest, and otherwise differs
/// from it by two to the power 64; so no two words read the same.
pub proof fn law_words_read_apart(a: u64, b: u64)
    ensures
        a <= 0x7fff_ffff_ffff_ffff ==> wrapped(a) == a,
        a > 0x7fff_ffff_ffff_ffff ==> wrapped(a) == a - 0x1_0000_0000_0000_0000,
        wrapped(a) == wrapped(b) ==> a == b,
{
}

} // verus!
