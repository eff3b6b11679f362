//! JSON as the store reads it: the values an event carries, and the few questions the
//! decisions and the fold ask of them.
use vstd::arithmetic::power2::pow2;
use vstd::prelude::*;
use vstd::string::*;

use crate::text::same;

verus! {

/// A JSON number that is not an integer.
///
/// `bits` is its IEEE 754 double, bit for bit; `text` is how it is printed. The store
/// compares neither: it cuts the first to an integer, and writes the second back out.
#[derive(Debug, PartialEq)]
pub struct Real {
    pub bits: u64,
    pub text: String,
}

/// A JSON number: an integer that is not negative, one that is, or neither.
#[derive(Debug, PartialEq)]
pub enum Number {
    PosInt(u64),
    NegInt(i64),
    Float(Real),
}

/// A JSON value. An object is its fields in the order they stand in.
#[derive(Debug, PartialEq)]
pub enum Json {
    Null,
    Bool(bool),
    Number(Number),
    String(String),
    Array(Vec<Json>),
    Object(Vec<(String, Json)>),
}

/// The mathematical reading of a [`Number`].
pub enum NumberView {
    PosInt(u64),
    NegInt(i64),
    Float { bits: u64, text: Seq<char> },
}

/// The mathematical reading of a [`Json`].
#[verifier::ext_equal]
pub enum Tree {
    Null,
    Bool(bool),
    Number(NumberView),
    String(Seq<char>),
    Array(Seq<Tree>),
    Object(Seq<(Seq<char>, Tree)>),
}

/// The fields of an object, or of an event.
pub type Fields = Seq<(Seq<char>, Tree)>;

impl View for Number {
    type V = NumberView;

    open spec fn view(&self) -> NumberView {
        match self {
            Number::PosInt(n) => NumberView::PosInt(*n),
            Number::NegInt(n) => NumberView::NegInt(*n),
            Number::Float(r) => NumberView::Float { bits: r.bits, text: r.text@ },
        }
    }
}

impl View for Json {
    type V = Tree;

    open spec fn view(&self) -> Tree
        decreases self,
    {
        match self {
            Json::Null => Tree::Null,
            Json::Bool(b) => Tree::Bool(*b),
            Json::Number(n) => Tree::Number(n@),
            Json::String(s) => Tree::String(s@),
            Json::Array(items) => Tree::Array(
                Seq::new(
                    items@.len(),
                    |i: int|
                        if 0 <= i < items@.len() {
                            items@[i].view()
                        } else {
                            Tree::Null
                        },
                ),
            ),
            Json::Object(fields) => Tree::Object(
                Seq::new(
                    fields@.len(),
                    |i: int|
                        if 0 <= i < fields@.len() {
                            (fields@[i].0@, fields@[i].1.view())
                        } else {
                            (Seq::empty(), Tree::Null)
                        },
                ),
            ),
        }
    }
}

impl Clone for Number {
    fn clone(&self) -> (r: Self)
        ensures
            r@ == self@,
    {
        match self {
            Number::PosInt(n) => Number::PosInt(*n),
            Number::NegInt(n) => Number::NegInt(*n),
            Number::Float(x) => Number::Float(Real { bits: x.bits, text: x.text.clone() }),
        }
    }
}

impl Clone for Json {
    fn clone(&self) -> (r: Self)
        ensures
            r@ == self@,
        decreases self,
    {
        match self {
            Json::Null => Json::Null,
            Json::Bool(b) => Json::Bool(*b),
            Json::Number(n) => Json::Number(n.clone()),
            Json::String(s) => Json::String(s.clone()),
            Json::Array(items) => {
                let mut out: Vec<Json> = Vec::new();
                let mut i: usize = 0;
                while i < items.len()
                    invariant
                        i <= items@.len(),
                        out@.len() == i,
                        forall|j: int| 0 <= j < i ==> out@[j]@ == items@[j]@,
                        decreases_to!(self => items@),
                    decreases items@.len() - i,
                {
                    let item = items[i].clone();
                    out.push(item);
                    i += 1;
                }
                let r = Json::Array(out);
                assert(r@->Array_0 =~= self@->Array_0);
                r
            },
            Json::Object(fields) => {
                let mut out: Vec<(String, Json)> = Vec::new();
                let mut i: usize = 0;
                while i < fields.len()
                    invariant
                        i <= fields@.len(),
                        out@.len() == i,
                        forall|j: int|
                            0 <= j < i ==> out@[j].0@ == fields@[j].0@ && out@[j].1@
                                == fields@[j].1@,
                        decreases_to!(self => fields@),
                    decreases fields@.len() - i,
                {
                    let value = fields[i].1.clone();
                    out.push((fields[i].0.clone(), value));
                    i += 1;
                }
                let r = Json::Object(out);
                assert(r@->Object_0 =~= self@->Object_0);
                r
            },
        }
    }
}

/// The reading of a list of fields.
pub open spec fn fields_view(fields: Seq<(String, Json)>) -> Fields {
    Seq::new(fields.len(), |i: int| (fields[i].0@, fields[i].1@))
}

/// An object reads as its fields do.
pub proof fn lemma_object_view(value: Json)
    requires
        value is Object,
    ensures
        value@ == Tree::Object(fields_view(value->Object_0@)),
{
    reveal_with_fuel(<Json as View>::view, 2);
    assert(value@->Object_0 =~= fields_view(value->Object_0@));
}

/// The reading of a list of events.
pub open spec fn events_view(events: Seq<Vec<(String, Json)>>) -> Seq<Fields> {
    Seq::new(events.len(), |i: int| fields_view(events[i]@))
}

/// The reading of a value that may be absent.
pub open spec fn tree_of(value: Option<&Json>) -> Option<Tree> {
    match value {
        Some(v) => Some(v@),
        None => None,
    }
}

/// The reading of a text that may be absent.
pub open spec fn text_view(value: Option<String>) -> Option<Seq<char>> {
    match value {
        Some(v) => Some(v@),
        None => None,
    }
}

/// What `fields` holds under `key`: the first field of that name.
pub open spec fn lookup(fields: Fields, key: Seq<char>) -> Option<Tree>
    decreases fields.len(),
{
    if fields.len() == 0 {
        None
    } else if fields[0].0 == key {
        Some(fields[0].1)
    } else {
        lookup(fields.drop_first(), key)
    }
}

/// No two fields share a name.
pub open spec fn distinct(fields: Fields) -> bool {
    forall|i: int, j: int|
        #![trigger fields[i], fields[j]]
        0 <= i < j < fields.len() ==> fields[i].0 != fields[j].0
}

/// No object in `tree`, at any depth, names a field twice: what a JSON object is.
pub open spec fn well_formed(tree: Tree) -> bool
    decreases tree,
{
    match tree {
        Tree::Array(items) => forall|i: int| 0 <= i < items.len() ==> well_formed(#[trigger] items[i]),
        Tree::Object(fields) => {
            &&& distinct(fields)
            &&& forall|i: int| 0 <= i < fields.len() ==> well_formed((#[trigger] fields[i]).1)
        },
        _ => true,
    }
}

impl Tree {
    /// The field `key`, where this is an object that has it.
    pub open spec fn get(self, key: Seq<char>) -> Option<Tree> {
        match self {
            Tree::Object(fields) => lookup(fields, key),
            _ => None,
        }
    }

    pub open spec fn as_str(self) -> Option<Seq<char>> {
        match self {
            Tree::String(s) => Some(s),
            _ => None,
        }
    }

    /// The integer, where this is one that is not negative.
    pub open spec fn as_u64(self) -> Option<u64> {
        match self {
            Tree::Number(NumberView::PosInt(n)) => Some(n),
            _ => None,
        }
    }

    /// The integer, where this is one that 64 signed bits hold.
    pub open spec fn as_i64(self) -> Option<i64> {
        match self {
            Tree::Number(NumberView::PosInt(n)) => if n <= i64::MAX {
                Some(n as i64)
            } else {
                None
            },
            Tree::Number(NumberView::NegInt(n)) => Some(n),
            _ => None,
        }
    }
}

/// The field `key` of an object that may be absent.
pub open spec fn member(object: Option<Tree>, key: Seq<char>) -> Option<Tree> {
    match object {
        Some(o) => o.get(key),
        None => None,
    }
}

/// The text under `key`, where it is a text.
pub open spec fn text_of(object: Option<Tree>, key: Seq<char>) -> Option<Seq<char>> {
    match member(object, key) {
        Some(v) => v.as_str(),
        None => None,
    }
}

/// The magnitude of a double with biased exponent `exponent` and fraction `fraction`, cut
/// down to an integer.
pub open spec fn whole_part(exponent: nat, fraction: nat) -> nat {
    if exponent == 0 {
        0
    } else if exponent >= 1075 {
        (pow2(52) + fraction) * pow2((exponent - 1075) as nat)
    } else {
        (pow2(52) + fraction) / pow2((1075 - exponent) as nat)
    }
}

/// A double cut towards zero and held inside 64 signed bits; what is not a number is 0.
pub open spec fn truncated(bits: u64) -> int {
    let negative = bits as nat / pow2(63) == 1;
    let exponent = (bits as nat / pow2(52)) % 2048;
    let fraction = bits as nat % pow2(52);
    let whole = whole_part(exponent, fraction);
    if exponent == 2047 && fraction != 0 {
        0
    } else if negative {
        if exponent == 2047 || whole > 0x8000_0000_0000_0000 {
            i64::MIN as int
        } else {
            -whole
        }
    } else {
        if exponent == 2047 || whole > 0x7fff_ffff_ffff_ffff {
            i64::MAX as int
        } else {
            whole as int
        }
    }
}

/// A number as an integer: itself where it is one, else cut towards zero, and held inside
/// 64 signed bits either way.
pub open spec fn num_of(value: Option<Tree>) -> Option<int> {
    match value {
        Some(Tree::Number(NumberView::PosInt(n))) => Some(
            if n <= i64::MAX {
                n as int
            } else {
                i64::MAX as int
            },
        ),
        Some(Tree::Number(NumberView::NegInt(n))) => Some(n as int),
        Some(Tree::Number(NumberView::Float { bits, .. })) => Some(truncated(bits)),
        _ => None,
    }
}

/// A number, as a column of reals takes it.
pub open spec fn real_of(value: Option<Tree>) -> Option<NumberView> {
    match value {
        Some(Tree::Number(n)) => Some(n),
        _ => None,
    }
}

/// Two to the power `k`.
fn two_to(k: u32) -> (r: u64)
    requires
        k < 64,
    ensures
        r == pow2(k as nat),
{
    let mut p: u64 = 1;
    let mut i: u32 = 0;
    proof {
        vstd::arithmetic::power2::lemma2_to64();
    }
    while i < k
        invariant
            i <= k < 64,
            p == pow2(i as nat),
        decreases k - i,
    {
        proof {
            vstd::arithmetic::power2::lemma_pow2_unfold((i + 1) as nat);
            vstd::arithmetic::power2::lemma_pow2_strictly_increases(i as nat, 63);
            vstd::arithmetic::power2::lemma2_to64();
            vstd::arithmetic::power2::lemma2_to64_rest();
            if i + 1 < 63 {
                vstd::arithmetic::power2::lemma_pow2_strictly_increases((i + 1) as nat, 63);
            }
        }
        p = p * 2;
        i += 1;
    }
    p
}

/// A double, given by its bits, cut towards zero and held inside 64 signed bits.
pub fn truncated_bits(bits: u64) -> (r: i64)
    ensures
        r == truncated(bits),
{
    proof {
        vstd::arithmetic::power2::lemma2_to64();
        vstd::arithmetic::power2::lemma2_to64_rest();
    }
    let negative = bits / 0x8000_0000_0000_0000 == 1;
    let exponent: u64 = (bits / 0x10_0000_0000_0000) % 2048;
    let fraction: u64 = bits % 0x10_0000_0000_0000;
    if exponent == 2047 {
        return if fraction != 0 {
            0
        } else if negative {
            i64::MIN
        } else {
            i64::MAX
        };
    }
    if exponent == 0 {
        return 0;
    }
    let significand: u64 = 0x10_0000_0000_0000 + fraction;
    let ghost whole = whole_part(exponent as nat, fraction as nat);
    if exponent >= 1086 + 1 {
        proof {
            lemma_large(exponent as nat, fraction as nat);
        }
        return if negative {
            i64::MIN
        } else {
            i64::MAX
        };
    }
    let magnitude: u64 = if exponent >= 1075 {
        let shift: u32 = (exponent - 1075) as u32;
        let scale: u64 = two_to(shift);
        proof {
            vstd::arithmetic::power2::lemma2_to64();
            if shift < 11 {
                vstd::arithmetic::power2::lemma_pow2_strictly_increases(shift as nat, 11);
            }
            assert(significand * scale <= 0x1f_ffff_ffff_ffff * 2048) by (nonlinear_arith)
                requires
                    significand <= 0x1f_ffff_ffff_ffff,
                    scale <= 2048,
            ;
        }
        significand * scale
    } else if exponent < 1023 {
        proof {
            lemma_small(exponent as nat, fraction as nat);
        }
        0
    } else {
        let shift: u32 = (1075 - exponent) as u32;
        let scale: u64 = two_to(shift);
        proof {
            vstd::arithmetic::power2::lemma_pow2_pos(shift as nat);
        }
        significand / scale
    };
    assert(magnitude == whole);
    if negative {
        if magnitude >= 0x8000_0000_0000_0000 {
            i64::MIN
        } else {
            -(magnitude as i64)
        }
    } else if magnitude > 0x7fff_ffff_ffff_ffff {
        i64::MAX
    } else {
        magnitude as i64
    }
}

/// A double whose exponent is past 63 is past 64 signed bits.
proof fn lemma_large(exponent: nat, fraction: nat)
    requires
        exponent >= 1087,
    ensures
        whole_part(exponent, fraction) > 0x8000_0000_0000_0000,
{
    vstd::arithmetic::power2::lemma2_to64();
    vstd::arithmetic::power2::lemma2_to64_rest();
    let scale = pow2((exponent - 1075) as nat);
    if exponent > 1087 {
        vstd::arithmetic::power2::lemma_pow2_strictly_increases(12, (exponent - 1075) as nat);
    }
    assert((pow2(52) + fraction) * scale >= 0x10_0000_0000_0000 * 4096) by (nonlinear_arith)
        requires
            pow2(52) == 0x10_0000_0000_0000,
            scale >= 4096,
    ;
}

/// A double whose exponent is below 0 is smaller than 1.
proof fn lemma_small(exponent: nat, fraction: nat)
    requires
        0 < exponent < 1023,
        fraction < 0x10_0000_0000_0000,
    ensures
        whole_part(exponent, fraction) == 0,
{
    vstd::arithmetic::power2::lemma2_to64();
    vstd::arithmetic::power2::lemma2_to64_rest();
    vstd::arithmetic::power2::lemma_pow2_strictly_increases(52, (1075 - exponent) as nat);
    if exponent < 1022 {
        vstd::arithmetic::power2::lemma_pow2_strictly_increases(53, (1075 - exponent) as nat);
    }
    vstd::arithmetic::div_mod::lemma_basic_div(
        (pow2(52) + fraction) as int,
        pow2((1075 - exponent) as nat) as int,
    );
}

/// What `fields` holds under `key`.
pub fn get<'a>(fields: &'a Vec<(String, Json)>, key: &str) -> (r: Option<&'a Json>)
    ensures
        tree_of(r) == lookup(fields_view(fields@), key@),
{
    let ghost all = fields_view(fields@);
    let mut i: usize = 0;
    assert(all.skip(0) =~= all);
    while i < fields.len()
        invariant
            i <= fields@.len(),
            all == fields_view(fields@),
            lookup(all, key@) == lookup(all.skip(i as int), key@),
        decreases fields@.len() - i,
    {
        assert(all.skip(i as int).drop_first() =~= all.skip(i + 1));
        if same(fields[i].0.as_str(), key) {
            return Some(&fields[i].1);
        }
        i += 1;
    }
    None
}

impl Json {
    /// The field `key`, where this is an object that has it.
    pub fn get<'a>(&'a self, key: &str) -> (r: Option<&'a Json>)
        ensures
            tree_of(r) == self@.get(key@),
    {
        match self {
            Json::Object(fields) => {
                proof {
                    lemma_object_view(*self);
                }
                self::get(fields, key)
            },
            _ => None,
        }
    }

    pub fn is_null(&self) -> (r: bool)
        ensures
            r == (self@ is Null),
    {
        match self {
            Json::Null => true,
            _ => false,
        }
    }

    /// The text, where this is one.
    pub fn as_str(&self) -> (r: Option<&str>)
        ensures
            match r {
                Some(s) => self@.as_str() == Some(s@),
                None => self@.as_str() is None,
            },
    {
        match self {
            Json::String(s) => Some(s.as_str()),
            _ => None,
        }
    }

    /// The integer, where this is one that is not negative.
    pub fn as_u64(&self) -> (r: Option<u64>)
        ensures
            r == self@.as_u64(),
    {
        match self {
            Json::Number(Number::PosInt(n)) => Some(*n),
            _ => None,
        }
    }

    /// The integer, where this is one that 64 signed bits hold.
    pub fn as_i64(&self) -> (r: Option<i64>)
        ensures
            r == self@.as_i64(),
    {
        match self {
            Json::Number(Number::PosInt(n)) => if *n <= i64::MAX as u64 {
                Some(*n as i64)
            } else {
                None
            },
            Json::Number(Number::NegInt(n)) => Some(*n),
            _ => None,
        }
    }
}

/// The field `key` of an object that may be absent.
pub fn member_of<'a>(object: Option<&'a Json>, key: &str) -> (r: Option<&'a Json>)
    ensures
        tree_of(r) == member(tree_of(object), key@),
{
    match object {
        Some(o) => o.get(key),
        None => None,
    }
}

/// The text under `key`, where it is a text.
pub fn text(object: Option<&Json>, key: &str) -> (r: Option<String>)
    ensures
        text_view(r) == text_of(tree_of(object), key@),
{
    match member_of(object, key) {
        Some(v) => match v.as_str() {
            Some(s) => Some(s.to_owned()),
            None => None,
        },
        None => None,
    }
}

/// A number as an integer of 64 signed bits, cut towards zero where it is not one.
pub fn num(value: Option<&Json>) -> (r: Option<i64>)
    ensures
        match r {
            Some(n) => num_of(tree_of(value)) == Some(n as int),
            None => num_of(tree_of(value)) is None,
        },
{
    match value {
        Some(Json::Number(Number::PosInt(n))) => if *n <= i64::MAX as u64 {
            Some(*n as i64)
        } else {
            Some(i64::MAX)
        },
        Some(Json::Number(Number::NegInt(n))) => Some(*n),
        Some(Json::Number(Number::Float(r))) => Some(truncated_bits(r.bits)),
        _ => None,
    }
}

/// A number, as a column of reals takes it.
pub fn real_number(value: Option<&Json>) -> (r: Option<Number>)
    ensures
        match r {
            Some(n) => real_of(tree_of(value)) == Some(n@),
            None => real_of(tree_of(value)) is None,
        },
{
    match value {
        Some(Json::Number(n)) => Some(n.clone()),
        _ => None,
    }
}

/// JSON as it crosses the edge of the store: an event's `meta` and `data`, a row, a
/// parameter bound into a statement.
#[derive(Debug, PartialEq)]
pub struct Value(pub Json);

impl View for Value {
    type V = Tree;

    open spec fn view(&self) -> Tree {
        self.0@
    }
}

impl Clone for Value {
    fn clone(&self) -> (r: Self)
        ensures
            r@ == self@,
    {
        Value(self.0.clone())
    }
}

impl Default for Value {
    fn default() -> (r: Self)
        ensures
            r@ == Tree::Null,
    {
        Value(Json::Null)
    }
}

impl From<Json> for Value {
    fn from(j: Json) -> (r: Self) {
        Value(j)
    }
}

impl vstd::std_specs::convert::FromSpecImpl<Json> for Value {
    open spec fn obeys_from_spec() -> bool {
        true
    }

    open spec fn from_spec(j: Json) -> Self {
        Value(j)
    }
}

} // verus!
