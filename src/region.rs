//! The shared memory that holds an MMV file, and byte-level writers into it.

use vstd::prelude::*;
use memmap::MmapMut;
use crate::layout::{le_bytes, lemma_le_bytes_len};

verus! {

#[verifier::external_type_specification]
#[verifier::external_body]
pub struct ExMmapMut(MmapMut);

/// The bytes that a memory mapping holds.
pub uninterp spec fn mapped_bytes(m: MmapMut) -> Seq<u8>;

/// Relies on `MmapMut`'s `Deref<Target = [u8]>`: the slice spans the whole mapping.
#[verifier::external_body]
fn mapped_len(m: &MmapMut) -> (r: usize)
    ensures
        r == mapped_bytes(*m).len(),
{
    m.len()
}

/// Relies on `MmapMut`'s `Deref<Target = [u8]>`: indexing reads one byte of the mapping.
#[verifier::external_body]
fn mapped_get(m: &MmapMut, i: usize) -> (r: u8)
    requires
        i < mapped_bytes(*m).len(),
    ensures
        r == mapped_bytes(*m)[i as int],
{
    m[i]
}

/// Relies on `MmapMut`'s `DerefMut<Target = [u8]>`: assigning through the slice
/// changes that one byte of the mapping and no other.
#[verifier::external_body]
fn mapped_set(m: &mut MmapMut, i: usize, b: u8)
    requires
        i < mapped_bytes(*old(m)).len(),
    ensures
        mapped_bytes(*final(m)) == mapped_bytes(*old(m)).update(i as int, b),
{
    m[i] = b;
}

/// `s` with the bytes from `pos` on replaced by `t`.
pub open spec fn splice(s: Seq<u8>, pos: int, t: Seq<u8>) -> Seq<u8> {
    s.take(pos) + t + s.skip(pos + t.len())
}

/// `s` followed by zero bytes up to `cap` bytes: a nul-terminated text field
/// when `s` is shorter than `cap`.
pub open spec fn text_field(s: Seq<u8>, cap: nat) -> Seq<u8> {
    s + Seq::new((cap - s.len()) as nat, |i: int| 0u8)
}

/// A writable memory mapping that holds an MMV file, and whether its value
/// slots have been handed out.
pub struct Mapping {
    map: MmapMut,
    handed_out: bool,
}

impl View for Mapping {
    type V = Seq<u8>;

    closed spec fn view(&self) -> Seq<u8> {
        mapped_bytes(self.map)
    }
}

impl Mapping {
    /// Whether the value slots of this mapping have been handed out.
    pub closed spec fn spec_handed_out(&self) -> bool {
        self.handed_out
    }

    /// Takes ownership of a memory mapping whose slots nobody holds.
    pub fn new(map: MmapMut) -> (r: Mapping)
        ensures
            r@ == mapped_bytes(map),
            !r.spec_handed_out(),
    {
        Mapping { map, handed_out: false }
    }

    /// Whether the value slots of this mapping have been handed out.
    pub fn slots_handed_out(&self) -> (r: bool)
        ensures
            r == self.spec_handed_out(),
    {
        self.handed_out
    }

    /// Records that the value slots have been handed out.
    pub(crate) fn mark_handed_out(&mut self)
        ensures
            final(self)@ == old(self)@,
            final(self).spec_handed_out(),
    {
        self.handed_out = true;
    }

    /// Gives the memory mapping back.
    pub fn into_inner(self) -> (r: MmapMut)
        ensures
            mapped_bytes(r) == self@,
    {
        self.map
    }

    /// Number of bytes mapped.
    pub fn len(&self) -> (r: usize)
        ensures
            r == self@.len(),
    {
        mapped_len(&self.map)
    }

    /// The byte at offset `i`.
    pub fn byte(&self, i: usize) -> (r: u8)
        requires
            i < self@.len(),
        ensures
            r == self@[i as int],
    {
        mapped_get(&self.map, i)
    }

    /// Writes the `k` low-order bytes of `x` at `pos`, least significant first.
    pub(crate) fn write_le(&mut self, pos: usize, x: u64, k: usize)
        requires
            pos + k <= old(self)@.len() <= usize::MAX,
        ensures
            final(self)@ == splice(old(self)@, pos as int, le_bytes(x as nat, k as nat)),
            final(self).spec_handed_out() == old(self).spec_handed_out(),
    {
        let ghost start = self@;
        let mut v: u64 = x;
        let mut j: usize = 0;
        while j < k
            invariant
                j <= k,
                pos + k <= start.len() <= usize::MAX,
                self@.len() == start.len(),
                self.handed_out == old(self).handed_out,
                self@.take(pos + j) + le_bytes(v as nat, (k - j) as nat) == start.take(pos as int)
                    + le_bytes(x as nat, k as nat),
                self@.skip(pos + j) == start.skip(pos + j),
            decreases k - j,
        {
            let ghost before = self@;
            let b = (v % 256) as u8;
            mapped_set(&mut self.map, pos + j, b);
            proof {
                let rest = le_bytes(v as nat / 256, (k - j - 1) as nat);
                assert(le_bytes(v as nat, (k - j) as nat) == seq![b] + rest);
                assert(self@.take(pos + j + 1) =~= before.take(pos + j) + seq![b]);
                assert(self@.take(pos + j + 1) + rest =~= before.take(pos + j) + (seq![b] + rest));
                assert(self@.skip(pos + j + 1) =~= start.skip(pos + j + 1)) by {
                    assert forall|t: int| 0 <= t < self@.skip(pos + j + 1).len() implies
                        #[trigger] self@.skip(pos + j + 1)[t] == start.skip(pos + j + 1)[t] by {
                        assert(self@.skip(pos + j + 1)[t] == before.skip(pos + j)[t + 1]);
                    }
                }
            }
            v = v / 256;
            j = j + 1;
        }
        proof {
            lemma_le_bytes_len(x as nat, k as nat);
            assert(le_bytes(v as nat, 0) =~= Seq::<u8>::empty());
            assert(self@.take(pos + k) =~= start.take(pos as int) + le_bytes(x as nat, k as nat));
            assert(self@ =~= self@.take(pos + k) + self@.skip(pos + k));
        }
    }

    /// Writes `text` at `pos`, followed by zero bytes up to `cap` bytes.
    pub(crate) fn write_text(&mut self, pos: usize, text: &[u8], cap: usize)
        requires
            text@.len() < cap,
            pos + cap <= old(self)@.len() <= usize::MAX,
        ensures
            final(self)@ == splice(old(self)@, pos as int, text_field(text@, cap as nat)),
            final(self).spec_handed_out() == old(self).spec_handed_out(),
    {
        let ghost start = self@;
        let ghost field = text_field(text@, cap as nat);
        let mut j: usize = 0;
        while j < cap
            invariant
                j <= cap,
                text@.len() < cap,
                pos + cap <= start.len() <= usize::MAX,
                field == text_field(text@, cap as nat),
                self@.len() == start.len(),
                self.handed_out == old(self).handed_out,
                self@.take(pos + j) == start.take(pos as int) + field.take(j as int),
                self@.skip(pos + j) == start.skip(pos + j),
            decreases cap - j,
        {
            let ghost before = self@;
            let b: u8 = if j < text.len() {
                text[j]
            } else {
                0
            };
            assert(b == field[j as int]);
            mapped_set(&mut self.map, pos + j, b);
            proof {
                assert(self@.take(pos + j + 1) =~= before.take(pos + j) + seq![b]);
                assert(field.take(j + 1) =~= field.take(j as int) + seq![b]);
                assert(self@.take(pos + j + 1) =~= start.take(pos as int) + field.take(j + 1));
                assert(self@.skip(pos + j + 1) =~= start.skip(pos + j + 1)) by {
                    assert forall|t: int| 0 <= t < self@.skip(pos + j + 1).len() implies
                        #[trigger] self@.skip(pos + j + 1)[t] == start.skip(pos + j + 1)[t] by {
                        assert(self@.skip(pos + j + 1)[t] == before.skip(pos + j)[t + 1]);
                    }
                }
            }
            j = j + 1;
        }
        proof {
            assert(field.take(cap as int) =~= field);
            assert(self@ =~= self@.take(pos + cap) + self@.skip(pos + cap));
        }
    }
}

} // verus!
