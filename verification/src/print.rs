//! JSON written out: the compact text of a value, and the text that does not depend on the
//! order its fields happened to stand in.
use vstd::prelude::*;
use vstd::string::*;

use crate::json::{Fields, Json, Number, NumberView, Tree};
use crate::text::{decimal_text, signed_text};

verus! {

/// One hexadecimal digit, in lower case.
pub open spec fn hex_digit(d: int) -> char
    recommends
        0 <= d < 16,
{
    if d < 10 {
        (48 + d) as char
    } else {
        (87 + d) as char
    }
}

/// How one character stands inside a quoted JSON text.
pub open spec fn escape(c: char) -> Seq<char> {
    if c == '"' {
        seq!['\\', '"']
    } else if c == '\\' {
        seq!['\\', '\\']
    } else if c >= ' ' {
        seq![c]
    } else if c == '\u{8}' {
        seq!['\\', 'b']
    } else if c == '\t' {
        seq!['\\', 't']
    } else if c == '\n' {
        seq!['\\', 'n']
    } else if c == '\u{c}' {
        seq!['\\', 'f']
    } else if c == '\r' {
        seq!['\\', 'r']
    } else {
        seq!['\\', 'u', '0', '0', hex_digit(c as int / 16), hex_digit(c as int % 16)]
    }
}

/// A text with every character of it as it stands inside quotes.
pub open spec fn escaped(s: Seq<char>) -> Seq<char>
    decreases s.len(),
{
    if s.len() == 0 {
        seq![]
    } else {
        escaped(s.drop_last()) + escape(s.last())
    }
}

/// A text as JSON writes it.
pub open spec fn quote(s: Seq<char>) -> Seq<char> {
    seq!['"'] + escaped(s) + seq!['"']
}

/// A number as JSON writes it.
pub open spec fn number_text(n: NumberView) -> Seq<char> {
    match n {
        NumberView::PosInt(n) => crate::text::decimal(n as nat),
        NumberView::NegInt(n) => crate::text::signed(n as int),
        NumberView::Float { text, .. } => text,
    }
}

/// The compact text of a value: no space between its parts, the fields of an object in the
/// order they stand in.
pub open spec fn json_text(tree: Tree) -> Seq<char>
    decreases tree, 0nat,
{
    match tree {
        Tree::Null => "null"@,
        Tree::Bool(b) => if b {
            "true"@
        } else {
            "false"@
        },
        Tree::Number(n) => number_text(n),
        Tree::String(s) => quote(s),
        Tree::Array(items) => seq!['['] + items_text(items, items.len()) + seq![']'],
        Tree::Object(fields) => seq!['{'] + fields_text(fields, fields.len()) + seq!['}'],
    }
}

/// The first `n` of `items`, with commas between them.
pub open spec fn items_text(items: Seq<Tree>, n: nat) -> Seq<char>
    decreases items, n,
{
    if n == 0 || n > items.len() {
        seq![]
    } else if n == 1 {
        json_text(items[0])
    } else {
        items_text(items, (n - 1) as nat) + seq![','] + json_text(items[n - 1])
    }
}

/// The first `n` of `fields`, each a name and a value, with commas between them.
pub open spec fn fields_text(fields: Fields, n: nat) -> Seq<char>
    decreases fields, n,
{
    if n == 0 || n > fields.len() {
        seq![]
    } else {
        let field = quote(fields[n - 1].0) + seq![':'] + json_text(fields[n - 1].1);
        if n == 1 {
            field
        } else {
            fields_text(fields, (n - 1) as nat) + seq![','] + field
        }
    }
}

/// Trusted: `serde_json::to_string` on a string, which succeeds on every string and writes
/// it between quotes, escaping the quote, the backslash and the characters below the space.
#[verifier::external_body]
pub(crate) fn quoted(s: &str) -> (r: String)
    ensures
        r@ == quote(s@),
{
    serde_json::to_string(s).unwrap()
}

fn number_string(n: &Number) -> (r: String)
    ensures
        r@ == number_text(n@),
{
    match n {
        Number::PosInt(n) => decimal_text(*n),
        Number::NegInt(n) => signed_text(*n),
        Number::Float(x) => x.text.clone(),
    }
}

/// `value` as compact JSON text.
pub fn json_encode(value: &Json) -> (r: String)
    ensures
        r@ == json_text(value@),
    decreases value,
{
    proof {
        reveal_with_fuel(<Json as View>::view, 2);
    }
    match value {
        Json::Null => "null".to_owned(),
        Json::Bool(b) => if *b {
            "true".to_owned()
        } else {
            "false".to_owned()
        },
        Json::Number(n) => number_string(n),
        Json::String(s) => quoted(s.as_str()),
        Json::Array(items) => {
            let ghost all = value@->Array_0;
            let mut out = String::new();
            out.push('[');
            let mut i: usize = 0;
            assert(out@ =~= seq!['['] + items_text(all, 0));
            while i < items.len()
                invariant
                    i <= items@.len(),
                    all.len() == items@.len(),
                    forall|j: int| 0 <= j < items@.len() ==> all[j] == #[trigger] items@[j]@,
                    out@ == seq!['['] + items_text(all, i as nat),
                    decreases_to!(value => items@),
                decreases items@.len() - i,
            {
                if i > 0 {
                    out.push(',');
                }
                let item = json_encode(&items[i]);
                out.append(item.as_str());
                i += 1;
                assert(out@ =~= seq!['['] + items_text(all, i as nat));
            }
            out.push(']');
            assert(out@ =~= json_text(value@));
            out
        },
        Json::Object(fields) => {
            let ghost all = value@->Object_0;
            let mut out = String::new();
            out.push('{');
            let mut i: usize = 0;
            assert(out@ =~= seq!['{'] + fields_text(all, 0));
            while i < fields.len()
                invariant
                    i <= fields@.len(),
                    all.len() == fields@.len(),
                    forall|j: int|
                        0 <= j < fields@.len() ==> all[j] == ((#[trigger] fields@[j]).0@, fields@[j].1@),
                    out@ == seq!['{'] + fields_text(all, i as nat),
                    decreases_to!(value => fields@),
                decreases fields@.len() - i,
            {
                if i > 0 {
                    out.push(',');
                }
                let name = quoted(fields[i].0.as_str());
                out.append(name.as_str());
                out.push(':');
                let item = json_encode(&fields[i].1);
                out.append(item.as_str());
                i += 1;
                assert(out@ =~= seq!['{'] + fields_text(all, i as nat));
            }
            out.push('}');
            assert(out@ =~= json_text(value@));
            out
        },
    }
}

} // verus!
