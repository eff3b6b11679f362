//! What the canonical text of a value says of it: the same value, in one order, and no other
//! value; and so what a fingerprint is a fingerprint of.
use vstd::prelude::*;
use vstd::string::*;

use crate::blobs::blob_name;
use crate::digest::{
    by_key, canonical, fingerprint, in_key_order, law_order_does_not_matter,
    lemma_by_key, lemma_lookup, ordered, ordered_values, same_value, sha256, with_field,
};
use crate::json::{Fields, Tree, distinct, lookup, well_formed};
use crate::print::json_text;
use crate::text::{key_before, lemma_key_total};
use crate::texts::{hex_value, law_hexadecimal_is_its_bytes, law_texts_tell_values_apart, writable};

verus! {

/// Where two texts part: they are the same in front of `k`, and there the first ends and the
/// second goes on, or the first has the smaller character.
pub open spec fn parts_at(a: Seq<char>, b: Seq<char>, k: int) -> bool {
    &&& 0 <= k <= a.len()
    &&& k < b.len()
    &&& forall|i: int| 0 <= i < k ==> a[i] == #[trigger] b[i]
    &&& k == a.len() || a[k] < b[k]
}

/// A name comes before another where they part in its favour.
pub proof fn law_names_are_in_the_order_of_their_characters(a: Seq<char>, b: Seq<char>)
    ensures
        key_before(a, b) <==> exists|k: int| parts_at(a, b, k),
    decreases a.len(),
{
    if b.len() == 0 {
    } else if a.len() == 0 {
        assert(parts_at(a, b, 0));
    } else if a[0] != b[0] {
        if a[0] < b[0] {
            assert(parts_at(a, b, 0));
        }
        if exists|k: int| parts_at(a, b, k) {
            let k = choose|k: int| parts_at(a, b, k);
            if k > 0 {
                assert(a[0] == b[0]);
            }
        }
    } else {
        let x = a.drop_first();
        let y = b.drop_first();
        law_names_are_in_the_order_of_their_characters(x, y);
        if exists|k: int| parts_at(x, y, k) {
            let k = choose|k: int| parts_at(x, y, k);
            assert forall|i: int| 0 <= i < k + 1 implies a[i] == #[trigger] b[i] by {
                if i > 0 {
                    assert(x[i - 1] == y[i - 1]);
                }
            }
            assert(parts_at(a, b, k + 1));
        }
        if exists|k: int| parts_at(a, b, k) {
            let k = choose|k: int| parts_at(a, b, k);
            assert(k > 0);
            assert forall|i: int| 0 <= i < k - 1 implies x[i] == #[trigger] y[i] by {
                assert(a[i + 1] == b[i + 1]);
            }
            assert(parts_at(x, y, k - 1));
        }
    }
}

/// Whether the fields of every object in a value, at any depth, stand in the order of their names.
pub open spec fn sorted(tree: Tree) -> bool
    decreases tree,
{
    match tree {
        Tree::Array(items) => forall|i: int| 0 <= i < items.len() ==> sorted(#[trigger] items[i]),
        Tree::Object(fields) => {
            &&& in_key_order(fields)
            &&& forall|i: int| 0 <= i < fields.len() ==> sorted((#[trigger] fields[i]).1)
        },
        _ => true,
    }
}

proof fn lemma_found(fields: Fields, k: int)
    requires
        distinct(fields),
        0 <= k < fields.len(),
    ensures
        lookup(fields, fields[k].0) == Some(fields[k].1),
{
    let j = lemma_lookup(fields, fields[k].0);
    assert(fields[k].0 == fields[k].0);
}

proof fn lemma_in_order_distinct(fields: Fields)
    requires
        in_key_order(fields),
    ensures
        distinct(fields),
{
    assert forall|i: int, j: int|
        #![trigger fields[i], fields[j]]
        0 <= i < j < fields.len() implies fields[i].0 != fields[j].0 by {
        lemma_key_total(fields[i].0, fields[j].0);
    }
}

proof fn lemma_values_distinct(fields: Fields)
    requires
        distinct(fields),
    ensures
        distinct(ordered_values(fields)),
{
    let p = ordered_values(fields);
    assert forall|i: int, j: int|
        #![trigger p[i], p[j]]
        0 <= i < j < p.len() implies p[i].0 != p[j].0 by {
        assert(fields[i].0 != fields[j].0);
    }
}

/// Putting a value in order keeps the value: what comes out is the same value, with the fields of
/// every object in the order of their names.
pub proof fn law_in_order_is_the_same_value(tree: Tree)
    requires
        well_formed(tree),
    ensures
        same_value(tree, ordered(tree)),
        sorted(ordered(tree)),
    decreases tree,
{
    match tree {
        Tree::Array(items) => {
            let out = ordered(tree)->Array_0;
            assert forall|i: int| 0 <= i < items.len() implies #[trigger] out[i] == ordered(
                items[i],
            ) && same_value(items[i], out[i]) && sorted(out[i]) by {
                assert(well_formed(items[i]));
                law_in_order_is_the_same_value(items[i]);
            }
            assert forall|i: int|
                #![trigger items[i]]
                #![trigger out[i]]
                0 <= i < items.len() implies same_value(items[i], out[i]) by {
                assert(out[i] == out[i]);
            }
        },
        Tree::Object(fields) => {
            let values = ordered_values(fields);
            let out = by_key(values);
            lemma_values_distinct(fields);
            lemma_by_key(values);
            lemma_in_order_distinct(out);
            assert forall|i: int| 0 <= i < fields.len() implies match lookup(
                out,
                (#[trigger] fields[i]).0,
            ) {
                Some(w) => same_value(fields[i].1, w),
                None => false,
            } by {
                assert(well_formed(fields[i].1));
                law_in_order_is_the_same_value(fields[i].1);
                assert(values[i] == (fields[i].0, ordered(fields[i].1)));
                assert(values.contains(values[i]));
                assert(out.contains(values[i]));
                let k = out.index_of(values[i]);
                lemma_found(out, k);
            }
            assert forall|j: int| 0 <= j < out.len() implies lookup(
                fields,
                (#[trigger] out[j]).0,
            ) is Some && sorted(out[j].1) by {
                assert(out.contains(out[j]));
                let i = values.index_of(out[j]);
                assert(values[i] == (fields[i].0, ordered(fields[i].1)));
                lemma_found(fields, i);
                assert(well_formed(fields[i].1));
                law_in_order_is_the_same_value(fields[i].1);
            }
        },
        _ => {},
    }
}

/// Two values that are the same value as a third are the same value.
pub proof fn law_one_value_is_one_value(a: Tree, b: Tree, c: Tree)
    requires
        same_value(a, c),
        same_value(b, c),
    ensures
        same_value(a, b),
    decreases a,
{
    match (a, b, c) {
        (Tree::Array(x), Tree::Array(y), Tree::Array(z)) => {
            assert forall|i: int|
                #![trigger x[i]]
                #![trigger y[i]]
                0 <= i < x.len() implies same_value(x[i], y[i]) by {
                assert(same_value(x[i], z[i]));
                assert(same_value(y[i], z[i]));
                law_one_value_is_one_value(x[i], y[i], z[i]);
            }
        },
        (Tree::Object(x), Tree::Object(y), Tree::Object(z)) => {
            assert forall|i: int| 0 <= i < x.len() implies match lookup(y, (#[trigger] x[i]).0) {
                Some(w) => same_value(x[i].1, w),
                None => false,
            } by {
                let j = lemma_lookup(z, x[i].0);
                assert(lookup(y, z[j].0) is Some);
                let k = lemma_lookup(y, z[j].0);
                assert(y[k].0 == x[i].0);
                law_one_value_is_one_value(x[i].1, y[k].1, z[j].1);
            }
            assert forall|j: int| 0 <= j < y.len() implies lookup(
                x,
                (#[trigger] y[j]).0,
            ) is Some by {
                let k = lemma_lookup(z, y[j].0);
                assert(lookup(x, z[k].0) is Some);
            }
        },
        _ => {},
    }
}

proof fn lemma_writable(tree: Tree, reading: spec_fn(Seq<char>) -> u64)
    requires
        writable(tree, reading),
        well_formed(tree),
    ensures
        writable(ordered(tree), reading),
    decreases tree,
{
    match tree {
        Tree::Array(items) => {
            let out = ordered(tree)->Array_0;
            assert forall|i: int| 0 <= i < out.len() implies writable(#[trigger] out[i], reading) by {
                assert(writable(items[i], reading) && well_formed(items[i]));
                lemma_writable(items[i], reading);
            }
        },
        Tree::Object(fields) => {
            let values = ordered_values(fields);
            let out = by_key(values);
            lemma_values_distinct(fields);
            lemma_by_key(values);
            assert forall|j: int| 0 <= j < out.len() implies writable(
                (#[trigger] out[j]).1,
                reading,
            ) by {
                assert(out.contains(out[j]));
                let i = values.index_of(out[j]);
                assert(values[i] == (fields[i].0, ordered(fields[i].1)));
                assert(writable(fields[i].1, reading) && well_formed(fields[i].1));
                lemma_writable(fields[i].1, reading);
            }
        },
        _ => {},
    }
}

/// Two values have the same canonical text exactly where they are the same value: the order of
/// fields is all that it leaves out.
pub proof fn law_one_canonical_text_is_one_value(
    a: Tree,
    b: Tree,
    reading: spec_fn(Seq<char>) -> u64,
)
    requires
        well_formed(a),
        well_formed(b),
        writable(a, reading),
        writable(b, reading),
    ensures
        canonical(a) == canonical(b) <==> same_value(a, b),
{
    if same_value(a, b) {
        law_order_does_not_matter(a, b);
    }
    if canonical(a) == canonical(b) {
        lemma_writable(a, reading);
        lemma_writable(b, reading);
        law_texts_tell_values_apart(ordered(a), ordered(b), reading);
        law_in_order_is_the_same_value(a);
        law_in_order_is_the_same_value(b);
        law_one_value_is_one_value(a, b, ordered(a));
    }
}

/// Sorting fields keeps every one of them, as often as it is there, and adds none.
pub proof fn law_sorting_keeps_every_field(fields: Fields)
    ensures
        by_key(fields).to_multiset() == fields.to_multiset(),
    decreases fields.len(),
{
    if fields.len() > 0 {
        let front = fields.drop_last();
        law_sorting_keeps_every_field(front);
        lemma_with_field_keeps(by_key(front), fields.last());
        assert(fields =~= front.push(fields.last()));
        vstd::seq_lib::to_multiset_build(front, fields.last());
    }
}

proof fn lemma_with_field_keeps(fields: Fields, field: (Seq<char>, Tree))
    ensures
        with_field(fields, field).to_multiset() == fields.to_multiset().insert(field),
    decreases fields.len(),
{
    if fields.len() == 0 || !key_before(field.0, fields.last().0) {
        vstd::seq_lib::to_multiset_build(fields, field);
    } else {
        let front = fields.drop_last();
        lemma_with_field_keeps(front, field);
        vstd::seq_lib::to_multiset_build(with_field(front, field), fields.last());
        vstd::seq_lib::to_multiset_build(front, fields.last());
        assert(fields =~= front.push(fields.last()));
        assert(front.to_multiset().insert(field).insert(fields.last())
            =~= front.to_multiset().insert(fields.last()).insert(field));
    }
}

/// A fingerprint is read off the hash of a text that says the value: of the text of the same
/// value with its fields in order, as UTF-8, its first eight bytes, two digits to a byte.
pub proof fn law_a_fingerprint_is_of_the_whole_value(tree: Tree)
    requires
        well_formed(tree),
    ensures
        exists|same: Tree| #[trigger]
            same_value(tree, same) && sorted(same) && fingerprint_of(fingerprint(tree), same),
{
    law_in_order_is_the_same_value(tree);
    let same = ordered(tree);
    let hash = sha256(vstd::utf8::encode_utf8(json_text(same)));
    if hash.len() == 32 {
        let head = hash.take(8);
        law_hexadecimal_is_its_bytes(head);
        assert forall|i: int| 0 <= i < 8 implies #[trigger] hash[i] == 16 * hex_value(
            fingerprint(tree)[2 * i],
        ) + hex_value(fingerprint(tree)[2 * i + 1]) by {
            assert(head[i] == hash[i]);
        }
    }
    assert(fingerprint_of(fingerprint(tree), same));
}

/// Whether sixteen digits are the first eight bytes of the hash of the text of a value, which is
/// 32 bytes.
pub open spec fn fingerprint_of(shown: Seq<char>, tree: Tree) -> bool {
    let hash = sha256(vstd::utf8::encode_utf8(json_text(tree)));
    &&& hash.len() == 32 ==> shown.len() == 16
    &&& forall|i: int|
        hash.len() == 32 && 0 <= i < 8 ==> #[trigger] hash[i] == 16 * hex_value(shown[2 * i]) + hex_value(
            shown[2 * i + 1],
        )
}

/// The name of a blob is the whole hash of its bytes, two digits to a byte: two blobs have one
/// name only where their hashes are the same in every byte.
pub proof fn law_a_blob_is_named_by_its_whole_hash(a: Seq<u8>, b: Seq<u8>)
    ensures
        blob_name(a).len() == 2 * sha256(a).len(),
        forall|i: int|
            0 <= i < sha256(a).len() ==> #[trigger] sha256(a)[i] == 16 * hex_value(
                blob_name(a)[2 * i],
            ) + hex_value(blob_name(a)[2 * i + 1]),
        blob_name(a) == blob_name(b) <==> sha256(a) == sha256(b),
{
    law_hexadecimal_is_its_bytes(sha256(a));
    law_hexadecimal_is_its_bytes(sha256(b));
    if blob_name(a) == blob_name(b) {
        let x = sha256(a);
        let y = sha256(b);
        assert forall|i: int| 0 <= i < x.len() implies #[trigger] x[i] == y[i] by {
            assert(x[i] == 16 * hex_value(blob_name(a)[2 * i]) + hex_value(
                blob_name(a)[2 * i + 1],
            ));
        }
        assert(x =~= y);
    }
}

} // verus!
