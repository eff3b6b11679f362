//! Blobs: bytes stored under the name their content gives them, and the collection of those
//! nothing points at any more.
use vstd::prelude::*;
use vstd::string::*;

use crate::digest::{hex_encode, hex_text, is_hex, lemma_hex_text, sha256, sha256_of};
use crate::pruning::{counted_at, finite, law_refs_count_the_pointers, numbered, pointers};
use crate::record::Placed;
use crate::sql::Cell;
use crate::tables::{Tables, checkpoint_pointers, no_rows, replayed, sample_pointers};
use crate::text::{chars_of, decimal, decimal_text, joined};

verus! {

/// One blob: the name it is stored under and how big it is.
#[derive(Debug)]
pub struct Blob {
    /// Lowercase hex of the SHA-256 of the bytes. The file's name, and its identity.
    pub hash: String,
    pub size: u64,
}

impl Clone for Blob {
    fn clone(&self) -> (r: Self)
        ensures
            r.hash@ == self.hash@,
            r.size == self.size,
    {
        Blob { hash: self.hash.clone(), size: self.size }
    }
}

/// The name `bytes` are stored under.
pub open spec fn blob_name(bytes: Seq<u8>) -> Seq<char> {
    hex_text(sha256(bytes))
}

/// The blob that `bytes` are.
///
/// Content-addressed: the same bytes are the same name, so a second put of them has nothing
/// to write.
pub fn blob_of(bytes: &[u8]) -> (r: Blob)
    ensures
        r.hash@ == blob_name(bytes@),
        r.size == bytes@.len(),
        r.hash@.len() == 64,
        forall|i: int| 0 <= i < 64 ==> is_hex(#[trigger] r.hash@[i]),
{
    let hash = sha256_of(bytes);
    proof {
        lemma_hex_text(hash@);
    }
    Blob { hash: hex_encode(hash.as_slice()), size: bytes.len() as u64 }
}

/// A name a blob can have: 64 digits of lower case hexadecimal.
pub open spec fn blob_shaped(name: Seq<char>) -> bool {
    name.len() == 64 && forall|i: int| 0 <= i < name.len() ==> is_hex(#[trigger] name[i])
}

/// Whether `name` is one a blob can have. No blob has any other, so nothing is stored under it.
pub fn is_blob_name(name: &str) -> (r: bool)
    ensures
        r == blob_shaped(name@),
{
    let chars = chars_of(name);
    if chars.len() != 64 {
        return false;
    }
    let mut i: usize = 0;
    while i < chars.len()
        invariant
            i <= chars@.len(),
            chars@ == name@,
            forall|j: int| 0 <= j < i ==> is_hex(#[trigger] chars@[j]),
        decreases chars@.len() - i,
    {
        let c: char = chars[i];
        if !(('0' <= c && c <= '9') || ('a' <= c && c <= 'f')) {
            assert(!is_hex(name@[i as int]));
            return false;
        }
        i += 1;
    }
    true
}

/// The name bytes are written under before they are renamed into place, so that a reader never
/// sees a half-written blob under a hash that promises the whole of it.
pub fn temporary_name(hash: &str, pid: u32) -> (r: String)
    ensures
        r@ == "."@ + hash@ + "."@ + decimal(pid as nat),
{
    let mut out = joined(".", hash);
    out.append(".");
    out.append(decimal_text(pid as u64).as_str());
    out
}

/// What one collection deleted.
#[derive(Clone, Copy, Debug)]
pub struct BlobGcReport {
    pub deleted: u64,
    /// The sum of the sizes the projection recorded for them, not a measurement of the
    /// filesystem: a blob whose file was already gone still counts the size its row held.
    pub bytes: u64,
}

/// The blobs to collect, each with its size, 0 where none was recorded.
pub const ORPHANS: &'static str = "SELECT hash, COALESCE(size, 0) FROM cb_blobs WHERE refs <= 0";

/// Takes the rows of those blobs away.
pub const FORGET_ORPHANS: &'static str = "DELETE FROM cb_blobs WHERE refs <= 0";

/// Whether [`ORPHANS`] selects this blob.
pub open spec fn orphan(t: Tables, hash: Cell) -> bool {
    t.blobs.contains_key(hash) && t.blobs[hash].refs <= 0
}

/// The tables after [`FORGET_ORPHANS`].
pub open spec fn collected(t: Tables) -> Tables {
    Tables { blobs: t.blobs.remove_keys(Set::new(|hash: Cell| orphan(t, hash))), ..t }
}

/// A collection takes no blob that an event of a card that is still there points at, and leaves
/// the count of each as it was: a blob that two cards share is there as long as one of them is.
pub proof fn law_what_is_pointed_at_stays(name: Seq<char>, log: Seq<Placed>, hash: Seq<char>)
    requires
        replayed(no_rows(), name, log) is Ok,
        numbered(log),
        pointers(log, hash) > 0,
    ensures
        ({
            let t = replayed(no_rows(), name, log)->Ok_0;
            &&& !orphan(t, Cell::Text(hash))
            &&& collected(t).blobs.contains_key(Cell::Text(hash))
            &&& collected(t).blobs[Cell::Text(hash)].refs == pointers(log, hash)
        }),
{
    law_refs_count_the_pointers(name, log, hash);
}

/// A collection takes every blob that only pruned cards pointed at: no row of it is left.
pub proof fn law_what_nothing_points_at_goes(name: Seq<char>, log: Seq<Placed>, hash: Seq<char>)
    requires
        replayed(no_rows(), name, log) is Ok,
        numbered(log),
        pointers(log, hash) == 0,
    ensures
        !collected(replayed(no_rows(), name, log)->Ok_0).blobs.contains_key(Cell::Text(hash)),
{
    law_refs_count_the_pointers(name, log, hash);
}

/// A collection keeps the count of every blob: one that is taken counted 0, and every other
/// stays as it was. So what is folded behind a collection counts on as if there had been none.
pub proof fn law_a_collection_keeps_the_count(t: Tables, hash: Cell)
    requires
        finite(t),
        counted_at(t, hash),
    ensures
        finite(collected(t)),
        counted_at(collected(t), hash),
{
    assert(sample_pointers(collected(t), hash) =~= sample_pointers(t, hash));
    assert(checkpoint_pointers(collected(t), hash) =~= checkpoint_pointers(t, hash));
}

/// How the removal of a blob's file went.
#[derive(Debug)]
pub enum Removal {
    Removed,
    /// Already gone: the row is what was reclaimed, and it is gone too.
    NotFound,
    Failed { why: String },
}

/// A blob whose file could not be removed.
#[derive(Debug)]
pub struct NotRemoved {
    pub hash: String,
    pub why: String,
}

impl NotRemoved {
    pub fn message(&self) -> (r: String)
        ensures
            r@ == "cannot remove the blob "@ + self.hash@ + ": "@ + self.why@,
    {
        let mut out = joined("cannot remove the blob ", self.hash.as_str());
        out.append(": ");
        out.append(self.why.as_str());
        out
    }
}

/// A recorded size as a count of bytes: nothing where it is negative.
pub open spec fn bytes_of(size: i64) -> nat {
    if size < 0 {
        0
    } else {
        size as nat
    }
}

/// The bytes of the first `n` orphans.
pub open spec fn bytes_in(orphans: Seq<(String, i64)>, n: nat) -> nat
    decreases n,
{
    if n == 0 || n > orphans.len() {
        0
    } else {
        bytes_in(orphans, (n - 1) as nat) + bytes_of(orphans[n - 1].1)
    }
}

/// A collection under way: the rows are gone, the files follow one by one.
///
/// The other order would leave a row promising bytes that are not there, which is the failure a
/// reader cannot tell from corruption; this one leaves at worst a file nothing points at.
#[derive(Debug)]
pub struct BlobGc {
    orphans: Vec<(String, i64)>,
    next: usize,
    bytes: u64,
}

/// The mathematical reading of a [`BlobGc`].
pub struct GcView {
    pub orphans: Seq<(String, i64)>,
    pub next: nat,
}

impl View for BlobGc {
    type V = GcView;

    closed spec fn view(&self) -> GcView {
        GcView { orphans: self.orphans@, next: self.next as nat }
    }
}

/// What a collection does next.
#[derive(Debug)]
pub enum GcStep {
    /// Remove the file of this blob, and say how that went.
    Remove { hash: String },
    Done(BlobGcReport),
}

proof fn lemma_bytes_grow(orphans: Seq<(String, i64)>, a: nat, b: nat)
    requires
        a <= b <= orphans.len(),
    ensures
        bytes_in(orphans, a) <= bytes_in(orphans, b),
    decreases b,
{
    if a < b {
        lemma_bytes_grow(orphans, a, (b - 1) as nat);
    }
}

impl BlobGc {
    /// The orphans fit in the report, and so far are counted.
    #[verifier::type_invariant]
    spec fn counted(self) -> bool {
        &&& self.next <= self.orphans@.len()
        &&& self.bytes == bytes_in(self.orphans@, self.next as nat)
        &&& bytes_in(self.orphans@, self.orphans@.len()) <= u64::MAX
    }

    /// The collection of `orphans`, whose rows are gone. Nothing where their sizes together are
    /// more than a report can say.
    pub fn new(orphans: Vec<(String, i64)>) -> (r: Option<BlobGc>)
        ensures
            match r {
                Some(gc) => gc@ == (GcView { orphans: orphans@, next: 0 }) && bytes_in(
                    orphans@,
                    orphans@.len(),
                ) <= u64::MAX,
                None => bytes_in(orphans@, orphans@.len()) > u64::MAX,
            },
    {
        let mut total: u64 = 0;
        let mut i: usize = 0;
        while i < orphans.len()
            invariant
                i <= orphans@.len(),
                total == bytes_in(orphans@, i as nat),
            decreases orphans@.len() - i,
        {
            let size: u64 = if orphans[i].1 < 0 {
                0
            } else {
                orphans[i].1 as u64
            };
            proof {
                lemma_bytes_grow(orphans@, (i + 1) as nat, orphans@.len());
            }
            if size > u64::MAX - total {
                return None;
            }
            total = total + size;
            i += 1;
        }
        Some(BlobGc { orphans, next: 0, bytes: 0 })
    }

    /// What is done next.
    pub fn step(&self) -> (r: GcStep)
        ensures
            match r {
                GcStep::Remove { hash } => self@.next < self@.orphans.len() && hash@
                    == self@.orphans[self@.next as int].0@,
                GcStep::Done(report) => {
                    &&& self@.next == self@.orphans.len()
                    &&& report.deleted == self@.orphans.len()
                    &&& report.bytes == bytes_in(self@.orphans, self@.orphans.len())
                },
            },
    {
        proof {
            use_type_invariant(&*self);
        }
        if self.next < self.orphans.len() {
            GcStep::Remove { hash: self.orphans[self.next].0.clone() }
        } else {
            GcStep::Done(BlobGcReport { deleted: self.next as u64, bytes: self.bytes })
        }
    }

    /// Takes in how the removal of the next file went. A file that could not be removed ends the
    /// collection; one that was already gone counts as removed.
    pub fn removed(self, how: Removal) -> (r: Result<BlobGc, NotRemoved>)
        requires
            self@.next < self@.orphans.len(),
        ensures
            match r {
                Ok(gc) => !(how is Failed) && gc@ == (GcView { next: self@.next + 1, ..self@ }),
                Err(e) => how is Failed && e.why@ == how->why@ && e.hash@
                    == self@.orphans[self@.next as int].0@,
            },
    {
        proof {
            use_type_invariant(&self);
            assert(self.next < self.orphans@.len());
            lemma_bytes_grow(self.orphans@, (self.next + 1) as nat, self.orphans@.len());
        }
        match how {
            Removal::Failed { why } => Err(
                NotRemoved { hash: self.orphans[self.next].0.clone(), why },
            ),
            _ => {
                let next: usize = self.next;
                assert(next < self.orphans.len());
                let size: i64 = self.orphans[next].1;
                let bytes: u64 = if size < 0 {
                    self.bytes
                } else {
                    self.bytes + size as u64
                };
                Ok(BlobGc { orphans: self.orphans, next: next + 1, bytes })
            },
        }
    }
}

} // verus!
