//! The fingerprint of a JSON value: a short name made out of what it holds.
use sha2::{Digest, Sha256};
use vstd::prelude::*;
use vstd::slice::slice_subrange;
use vstd::string::*;

use crate::json::{Fields, Json, Tree, Value, distinct, fields_view, lookup, well_formed};
use crate::print::{hex_digit, json_encode, json_text};
use crate::text::{comes_before, lemma_key_total, lemma_key_transitive, key_before};

verus! {

/// `fields` with `field` put in front of the fields at the end whose names it comes before.
pub open spec fn with_field(fields: Fields, field: (Seq<char>, Tree)) -> Fields
    decreases fields.len(),
{
    if fields.len() == 0 || !key_before(field.0, fields.last().0) {
        fields.push(field)
    } else {
        with_field(fields.drop_last(), field).push(fields.last())
    }
}

/// `fields` in the order of their names.
pub open spec fn by_key(fields: Fields) -> Fields
    decreases fields.len(),
{
    if fields.len() == 0 {
        fields
    } else {
        with_field(by_key(fields.drop_last()), fields.last())
    }
}

/// `tree` with the fields of every object in it in the order of their names.
pub open spec fn ordered(tree: Tree) -> Tree
    decreases tree,
{
    match tree {
        Tree::Array(items) => Tree::Array(
            Seq::new(
                items.len(),
                |i: int|
                    if 0 <= i < items.len() {
                        ordered(items[i])
                    } else {
                        Tree::Null
                    },
            ),
        ),
        Tree::Object(fields) => Tree::Object(by_key(ordered_values(fields))),
        other => other,
    }
}

/// `fields` where they stand, each with its value in order.
pub open spec fn ordered_values(fields: Fields) -> Fields
    decreases fields,
{
    Seq::new(
        fields.len(),
        |i: int|
            if 0 <= i < fields.len() {
                (fields[i].0, ordered(fields[i].1))
            } else {
                (Seq::empty(), Tree::Null)
            },
    )
}

/// The text of `tree` that does not depend on the order its fields stand in.
pub open spec fn canonical(tree: Tree) -> Seq<char> {
    json_text(ordered(tree))
}

/// Puts a field where its name belongs among fields that are in order.
fn put_field(fields: &mut Vec<(String, Json)>, name: String, value: Json)
    ensures
        fields_view(final(fields)@) == with_field(fields_view(old(fields)@), (name@, value@)),
{
    let ghost all = fields_view(fields@);
    let ghost field = (name@, value@);
    let mut i: usize = fields.len();
    assert(all.take(i as int) =~= all);
    assert(with_field(all, field) =~= with_field(all.take(i as int), field) + all.skip(i as int));
    while i > 0 && comes_before(name.as_str(), fields[i - 1].0.as_str())
        invariant
            i <= fields@.len(),
            fields@ == old(fields)@,
            all == fields_view(fields@),
            field == (name@, value@),
            with_field(all, field) == with_field(all.take(i as int), field) + all.skip(i as int),
        decreases i,
    {
        assert(all.take(i as int).drop_last() =~= all.take(i - 1));
        i -= 1;
        assert(with_field(all, field) =~= with_field(all.take(i as int), field) + all.skip(
            i as int,
        ));
    }
    fields.insert(i, (name, value));
    assert(fields_view(fields@) =~= all.take(i as int).push(field) + all.skip(i as int));
}

/// A copy of `value` with the fields of every object in it in the order of their names.
fn in_order(value: &Json) -> (r: Json)
    ensures
        r@ == ordered(value@),
    decreases value,
{
    proof {
        reveal_with_fuel(<Json as View>::view, 2);
        reveal_with_fuel(ordered, 2);
    }
    match value {
        Json::Array(items) => {
            let mut out: Vec<Json> = Vec::new();
            let mut i: usize = 0;
            while i < items.len()
                invariant
                    i <= items@.len(),
                    out@.len() == i,
                    forall|j: int| 0 <= j < i ==> out@[j]@ == ordered(#[trigger] items@[j]@),
                    decreases_to!(value => items@),
                decreases items@.len() - i,
            {
                let item = in_order(&items[i]);
                out.push(item);
                i += 1;
            }
            let r = Json::Array(out);
            assert forall|j: int| 0 <= j < out@.len() implies #[trigger] r@->Array_0[j]
                == ordered(value@)->Array_0[j] by {
                assert(value@->Array_0[j] == items@[j]@);
                assert(r@->Array_0[j] == out@[j]@);
            }
            assert(r@->Array_0 =~= ordered(value@)->Array_0);
            r
        },
        Json::Object(fields) => {
            let ghost inner = ordered_values(fields_view(fields@));
            let mut out: Vec<(String, Json)> = Vec::new();
            let mut i: usize = 0;
            assert(fields_view(out@) =~= by_key(inner.take(0)));
            while i < fields.len()
                invariant
                    i <= fields@.len(),
                    inner == ordered_values(fields_view(fields@)),
                    fields_view(out@) == by_key(inner.take(i as int)),
                    decreases_to!(value => fields@),
                decreases fields@.len() - i,
            {
                let item = in_order(&fields[i].1);
                put_field(&mut out, fields[i].0.clone(), item);
                proof {
                    reveal_with_fuel(ordered_values, 2);
                    assert(inner.take(i + 1).drop_last() =~= inner.take(i as int));
                }
                i += 1;
            }
            let r = Json::Object(out);
            proof {
                crate::json::lemma_object_view(r);
                crate::json::lemma_object_view(*value);
                assert(inner.take(fields@.len() as int) =~= inner);
            }
            r
        },
        _ => value.clone(),
    }
}

/// `value` as text with the fields of every object in the order of their names, so that
/// equal values print equal.
pub fn canonical_json(value: &Json) -> (r: String)
    ensures
        r@ == canonical(value@),
{
    json_encode(&in_order(value))
}

/// The SHA-256 of `bytes`.
pub uninterp spec fn sha256(bytes: Seq<u8>) -> Seq<u8>;

/// Trusted: `sha2::Sha256::digest`. The contract names the hash and says that it is 32
/// bytes; what they are is not said.
#[verifier::external_body]
pub(crate) fn sha256_of(bytes: &[u8]) -> (r: Vec<u8>)
    ensures
        r@ == sha256(bytes@),
        r@.len() == 32,
{
    Sha256::digest(bytes).to_vec()
}

/// `bytes` in lower case hexadecimal, two digits to a byte.
pub open spec fn hex_text(bytes: Seq<u8>) -> Seq<char>
    decreases bytes.len(),
{
    if bytes.len() == 0 {
        seq![]
    } else {
        hex_text(bytes.drop_last()) + seq![
            hex_digit(bytes.last() as int / 16),
            hex_digit(bytes.last() as int % 16),
        ]
    }
}

/// Trusted: `hex::encode`, which writes each byte as two digits, the high one first, in
/// lower case.
#[verifier::external_body]
pub(crate) fn hex_encode(bytes: &[u8]) -> (r: String)
    ensures
        r@ == hex_text(bytes@),
{
    hex::encode(bytes)
}

/// The fingerprint of `tree`: the first eight bytes of the SHA-256 of its canonical text, in
/// hexadecimal.
pub open spec fn fingerprint(tree: Tree) -> Seq<char> {
    hex_text(sha256(vstd::utf8::encode_utf8(canonical(tree))).take(8))
}

/// A short, stable fingerprint of a JSON value: the first 16 hex digits of the SHA-256 of
/// its canonical text.
///
/// Canonical because two runs that were given the same params should print the same
/// whatever order their tables happened to be walked in. What goes *into* the fingerprint is
/// the caller's choice; this only answers what those bytes are called.
pub fn digest(v: &Value) -> (r: String)
    ensures
        r@ == fingerprint(v@),
        r@.len() == 16,
        forall|i: int| 0 <= i < 16 ==> is_hex(#[trigger] r@[i]),
{
    let canonical_text = canonical_json(&v.0);
    let hash = sha256_of(canonical_text.as_str().as_bytes());
    let head = slice_subrange(hash.as_slice(), 0, 8);
    assert(head@ =~= hash@.take(8));
    proof {
        lemma_hex_text(head@);
    }
    hex_encode(head)
}

/// A lower case hexadecimal digit.
pub open spec fn is_hex(c: char) -> bool {
    '0' <= c <= '9' || 'a' <= c <= 'f'
}

/// Hexadecimal is two digits to a byte and nothing but digits.
pub proof fn lemma_hex_text(bytes: Seq<u8>)
    ensures
        hex_text(bytes).len() == 2 * bytes.len(),
        forall|i: int| 0 <= i < hex_text(bytes).len() ==> is_hex(#[trigger] hex_text(bytes)[i]),
    decreases bytes.len(),
{
    if bytes.len() > 0 {
        lemma_hex_text(bytes.drop_last());
    }
}

/// Whether `a` and `b` are the same value: equal but for the order in which the fields of
/// their objects stand.
pub open spec fn same_value(a: Tree, b: Tree) -> bool
    decreases a,
{
    match (a, b) {
        (Tree::Array(x), Tree::Array(y)) => {
            &&& x.len() == y.len()
            &&& forall|i: int|
                #![trigger x[i]]
                #![trigger y[i]]
                0 <= i < x.len() ==> same_value(x[i], y[i])
        },
        (Tree::Object(x), Tree::Object(y)) => {
            &&& distinct(x)
            &&& distinct(y)
            &&& forall|i: int|
                0 <= i < x.len() ==> match lookup(y, (#[trigger] x[i]).0) {
                    Some(w) => same_value(x[i].1, w),
                    None => false,
                }
            &&& forall|j: int| 0 <= j < y.len() ==> lookup(x, (#[trigger] y[j]).0) is Some
        },
        _ => a == b,
    }
}

/// Fields in the order of their names, no name twice.
pub open spec fn in_key_order(fields: Fields) -> bool {
    forall|i: int, j: int|
        0 <= i < j < fields.len() ==> key_before((#[trigger] fields[i]).0, (#[trigger] fields[j]).0)
}

proof fn lemma_with_field(fields: Fields, field: (Seq<char>, Tree))
    requires
        in_key_order(fields),
        forall|i: int| 0 <= i < fields.len() ==> (#[trigger] fields[i]).0 != field.0,
    ensures
        in_key_order(with_field(fields, field)),
        forall|f: (Seq<char>, Tree)|
            #[trigger] with_field(fields, field).contains(f) <==> (fields.contains(f) || f
                == field),
    decreases fields.len(),
{
    let r = with_field(fields, field);
    if fields.len() == 0 || !key_before(field.0, fields.last().0) {
        if fields.len() > 0 {
            lemma_key_total(field.0, fields.last().0);
            assert forall|i: int| 0 <= i < fields.len() implies key_before(
                (#[trigger] fields[i]).0,
                field.0,
            ) by {
                if i < fields.len() - 1 {
                    lemma_key_transitive(fields[i].0, fields.last().0, field.0);
                }
            }
        }
        assert forall|f: (Seq<char>, Tree)| #[trigger]
            r.contains(f) <==> (fields.contains(f) || f == field) by {
            if fields.contains(f) {
                let i = fields.index_of(f);
                assert(r[i] == f);
            }
            assert(r[fields.len() as int] == field);
        }
    } else {
        let shorter = with_field(fields.drop_last(), field);
        lemma_with_field(fields.drop_last(), field);
        assert forall|i: int| 0 <= i < shorter.len() implies key_before(
            (#[trigger] shorter[i]).0,
            fields.last().0,
        ) by {
            assert(shorter.contains(shorter[i]));
            if fields.drop_last().contains(shorter[i]) {
                let k = fields.drop_last().index_of(shorter[i]);
                assert(fields[k] == shorter[i]);
            }
        }
        assert forall|f: (Seq<char>, Tree)| #[trigger]
            r.contains(f) <==> (fields.contains(f) || f == field) by {
            if r.contains(f) {
                let i = r.index_of(f);
                if i < shorter.len() {
                    assert(shorter.contains(shorter[i]));
                    if fields.drop_last().contains(f) {
                        let k = fields.drop_last().index_of(f);
                        assert(fields[k] == f);
                    }
                }
            }
            if fields.contains(f) || f == field {
                if fields.contains(f) && fields.index_of(f) == fields.len() - 1 {
                    assert(r[r.len() - 1] == f);
                } else {
                    if fields.contains(f) {
                        assert(fields.drop_last()[fields.index_of(f)] == f);
                    }
                    assert(shorter.contains(f));
                    assert(r[shorter.index_of(f)] == f);
                }
            }
        }
    }
}

/// Fields in order are in order, and are the fields.
pub proof fn lemma_by_key(fields: Fields)
    requires
        distinct(fields),
    ensures
        in_key_order(by_key(fields)),
        forall|f: (Seq<char>, Tree)| #[trigger]
            by_key(fields).contains(f) <==> fields.contains(f),
    decreases fields.len(),
{
    if fields.len() > 0 {
        let front = fields.drop_last();
        lemma_by_key(front);
        assert forall|i: int| 0 <= i < by_key(front).len() implies (#[trigger] by_key(front)[i]).0
            != fields.last().0 by {
            assert(by_key(front).contains(by_key(front)[i]));
            let k = front.index_of(by_key(front)[i]);
            assert(fields[k] == by_key(front)[i]);
            assert(fields[fields.len() - 1] == fields.last());
        }
        lemma_with_field(by_key(front), fields.last());
        assert forall|f: (Seq<char>, Tree)| #[trigger]
            by_key(fields).contains(f) <==> fields.contains(f) by {
            if front.contains(f) {
                assert(fields[front.index_of(f)] == f);
            }
            if fields.contains(f) && f != fields.last() {
                assert(front[fields.index_of(f)] == f);
            }
            assert(fields[fields.len() - 1] == fields.last());
        }
    }
}

proof fn lemma_one_order(a: Fields, b: Fields)
    requires
        in_key_order(a),
        in_key_order(b),
        forall|f: (Seq<char>, Tree)| #[trigger] a.contains(f) <==> b.contains(f),
    ensures
        a == b,
    decreases a.len(),
{
    if a.len() == 0 {
        if b.len() > 0 {
            assert(a.contains(b[0]));
        }
        assert(a =~= b);
    } else {
        assert(a.contains(a.last()));
        let j = b.index_of(a.last());
        assert(b.contains(b.last()));
        assert(a.contains(b.last()));
        let i = a.index_of(b.last());
        lemma_key_total(a.last().0, b.last().0);
        if j < b.len() - 1 {
            assert(key_before(b[j].0, b[b.len() - 1].0));
            assert(i < a.len() - 1);
            assert(key_before(a[i].0, a[a.len() - 1].0));
        }
        let x = a.drop_last();
        let y = b.drop_last();
        assert forall|f: (Seq<char>, Tree)| #[trigger] x.contains(f) <==> y.contains(f) by {
            lemma_key_total(a.last().0, a.last().0);
            if x.contains(f) {
                let k = x.index_of(f);
                assert(a[k] == f);
                assert(a.contains(f));
                assert(f != a.last());
                assert(y[b.index_of(f)] == f);
            }
            if y.contains(f) {
                let k = y.index_of(f);
                assert(b[k] == f);
                assert(a.contains(f));
                assert(f != b.last());
                assert(x[a.index_of(f)] == f);
            }
        }
        lemma_one_order(x, y);
        assert(a =~= x.push(a.last()));
        assert(b =~= y.push(b.last()));
    }
}

/// A field that is found stands somewhere.
pub proof fn lemma_lookup(fields: Fields, key: Seq<char>) -> (i: int)
    ensures
        match lookup(fields, key) {
            Some(v) => 0 <= i < fields.len() && fields[i] == (key, v),
            None => forall|k: int| 0 <= k < fields.len() ==> (#[trigger] fields[k]).0 != key,
        },
    decreases fields.len(),
{
    if fields.len() == 0 {
        0
    } else if fields[0].0 == key {
        0
    } else {
        let rest = fields.drop_first();
        let i = lemma_lookup(rest, key);
        if lookup(fields, key) is None {
            assert forall|k: int| 0 <= k < fields.len() implies (#[trigger] fields[k]).0 != key by {
                if k > 0 {
                    assert(rest[k - 1] == fields[k]);
                }
            }
        }
        i + 1
    }
}

/// A value in which no object names a field twice is the same value as itself.
pub proof fn law_a_value_is_itself(a: Tree)
    requires
        well_formed(a),
    ensures
        same_value(a, a),
    decreases a,
{
    match a {
        Tree::Array(items) => {
            assert forall|i: int| 0 <= i < items.len() implies same_value(
                #[trigger] items[i],
                items[i],
            ) by {
                law_a_value_is_itself(items[i]);
            }
        },
        Tree::Object(fields) => {
            assert forall|i: int| 0 <= i < fields.len() implies match lookup(
                fields,
                (#[trigger] fields[i]).0,
            ) {
                Some(w) => same_value(fields[i].1, w),
                None => false,
            } by {
                let j = lemma_lookup(fields, fields[i].0);
                assert(j == i);
                law_a_value_is_itself(fields[i].1);
            }
        },
        _ => {},
    }
}

/// Two values that differ only in the order of their fields are in order the same value, so
/// their canonical texts, and their fingerprints, are the same.
pub proof fn law_order_does_not_matter(a: Tree, b: Tree)
    requires
        same_value(a, b),
    ensures
        ordered(a) == ordered(b),
        canonical(a) == canonical(b),
        fingerprint(a) == fingerprint(b),
    decreases a,
{
    match (a, b) {
        (Tree::Array(x), Tree::Array(y)) => {
            assert forall|i: int| 0 <= i < x.len() implies ordered(#[trigger] x[i]) == ordered(
                y[i],
            ) by {
                law_order_does_not_matter(x[i], y[i]);
            }
            assert(ordered(a)->Array_0 =~= ordered(b)->Array_0);
        },
        (Tree::Object(x), Tree::Object(y)) => {
            let p = ordered_values(x);
            let q = ordered_values(y);
            assert forall|i: int| 0 <= i < x.len() implies q.contains(#[trigger] p[i]) by {
                let w = lookup(y, x[i].0)->0;
                let j = lemma_lookup(y, x[i].0);
                law_order_does_not_matter(x[i].1, w);
                assert(q[j] == p[i]);
            }
            assert forall|j: int| 0 <= j < y.len() implies p.contains(#[trigger] q[j]) by {
                assert(y[j].0 == y[j].0);
                let i = lemma_lookup(x, y[j].0);
                let k = lemma_lookup(y, x[i].0);
                assert(x[i].0 == y[j].0);
                assert(k == j);
                law_order_does_not_matter(x[i].1, y[j].1);
                assert(p[i] == q[j]);
            }
            assert(distinct(p)) by {
                assert forall|i: int, j: int|
                    #![trigger p[i], p[j]]
                    0 <= i < j < p.len() implies p[i].0 != p[j].0 by {
                    assert(x[i].0 != x[j].0);
                }
            }
            assert(distinct(q)) by {
                assert forall|i: int, j: int|
                    #![trigger q[i], q[j]]
                    0 <= i < j < q.len() implies q[i].0 != q[j].0 by {
                    assert(y[i].0 != y[j].0);
                }
            }
            lemma_by_key(p);
            lemma_by_key(q);
            assert forall|f: (Seq<char>, Tree)| #[trigger]
                by_key(p).contains(f) <==> by_key(q).contains(f) by {
                if p.contains(f) {
                    assert(q.contains(p[p.index_of(f)]));
                }
                if q.contains(f) {
                    assert(p.contains(q[q.index_of(f)]));
                }
            }
            lemma_one_order(by_key(p), by_key(q));
        },
        _ => {},
    }
}

} // verus!
