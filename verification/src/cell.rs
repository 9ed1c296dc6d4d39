//! The cell-tree cursor: a bit channel plus an ordered reference channel.
//!
//! [`BuilderData`] appends big-endian fields and reference sub-trees;
//! [`SliceData`] consumes them in order and reports what is left.  The codec
//! only ever attaches leaf sub-trees (the signature blob and the reserved
//! empty slot), so a reference carries its bit payload alone.
//!
//! `ser_tree` is the canonical byte form of a tree; the content hash of a
//! message body is the digest of this form.

use crate::bits::{
    bits_val, lemma_bits_val_bound, push_uint_bits, read_uint_bits, uint_bits,
};
use vstd::prelude::*;

verus! {

/// One reference sub-tree, carried as its bit payload.
pub struct Cell {
    pub bits: Vec<bool>,
}

impl View for Cell {
    type V = Seq<bool>;

    open spec fn view(&self) -> Seq<bool> {
        self.bits@
    }
}

impl DeepView for Cell {
    type V = Seq<bool>;

    open spec fn deep_view(&self) -> Seq<bool> {
        self.bits@
    }
}

/// The bits of a byte string, each byte most significant bit first.
pub open spec fn bytes_bits(b: Seq<u8>) -> Seq<bool>
    decreases b.len(),
{
    if b.len() == 0 {
        Seq::empty()
    } else {
        bytes_bits(b.drop_last()) + uint_bits(b.last() as nat, 8)
    }
}

impl Cell {
    /// An empty cell: the reserved signature slot.
    pub fn empty() -> (r: Cell)
        ensures
            r@ == Seq::<bool>::empty(),
    {
        Cell { bits: Vec::new() }
    }

    /// A leaf cell holding the bits of `bytes`.
    pub fn from_bytes(bytes: &Vec<u8>) -> (r: Cell)
        ensures
            r@ == bytes_bits(bytes@),
    {
        let mut bits: Vec<bool> = Vec::new();
        let mut i: usize = 0;
        while i < bytes.len()
            invariant
                i <= bytes@.len(),
                bits@ == bytes_bits(bytes@.take(i as int)),
            decreases bytes@.len() - i,
        {
            push_uint_bits(&mut bits, bytes[i] as u128, 8);
            proof {
                assert(bytes@.take(i + 1).drop_last() =~= bytes@.take(i as int));
                assert(bytes@.take(i + 1).last() == bytes@[i as int]);
            }
            i = i + 1;
        }
        assert(bytes@.take(bytes@.len() as int) =~= bytes@);
        Cell { bits }
    }

    /// A copy of this cell.
    pub fn duplicate(&self) -> (r: Cell)
        ensures
            r@ == self@,
    {
        let mut bits: Vec<bool> = Vec::new();
        let mut i: usize = 0;
        while i < self.bits.len()
            invariant
                i <= self.bits@.len(),
                bits@ == self.bits@.take(i as int),
            decreases self.bits@.len() - i,
        {
            bits.push(self.bits[i]);
            assert(bits@ =~= self.bits@.take(i + 1));
            i = i + 1;
        }
        assert(self.bits@.take(self.bits@.len() as int) =~= self.bits@);
        Cell { bits }
    }
}

/// The abstract value of a builder: its bit string and the payloads of its
/// ordered references.
pub ghost struct TreeV {
    pub bits: Seq<bool>,
    pub refs: Seq<Seq<bool>>,
}

/// A tree under construction.
pub struct BuilderData {
    pub bits: Vec<bool>,
    pub refs: Vec<Cell>,
}

impl View for BuilderData {
    type V = TreeV;

    open spec fn view(&self) -> TreeV {
        TreeV { bits: self.bits@, refs: self.refs.deep_view() }
    }
}

impl BuilderData {
    pub fn new() -> (r: BuilderData)
        ensures
            r@.bits == Seq::<bool>::empty(),
            r@.refs == Seq::<Seq<bool>>::empty(),
    {
        let r = BuilderData { bits: Vec::new(), refs: Vec::new() };
        assert(r@.refs =~= Seq::<Seq<bool>>::empty());
        r
    }

    /// Appends the low `n` bits of `v`, most significant first.
    pub fn append_uint(&mut self, v: u128, n: usize)
        requires
            n <= 128,
        ensures
            final(self)@.bits == old(self)@.bits + uint_bits(v as nat, n as nat),
            final(self)@.refs == old(self)@.refs,
    {
        push_uint_bits(&mut self.bits, v, n);
    }

    /// Appends `v` as a big-endian 32-bit field.
    pub fn append_u32(&mut self, v: u32)
        ensures
            final(self)@.bits == old(self)@.bits + uint_bits(v as nat, 32),
            final(self)@.refs == old(self)@.refs,
    {
        self.append_uint(v as u128, 32);
    }

    /// Appends `v` as a big-endian 64-bit field.
    pub fn append_u64(&mut self, v: u64)
        ensures
            final(self)@.bits == old(self)@.bits + uint_bits(v as nat, 64),
            final(self)@.refs == old(self)@.refs,
    {
        self.append_uint(v as u128, 64);
    }

    /// Appends a single bit.
    pub fn append_bit(&mut self, b: bool)
        ensures
            final(self)@.bits == old(self)@.bits.push(b),
            final(self)@.refs == old(self)@.refs,
    {
        self.bits.push(b);
    }

    /// Appends a reference sub-tree after the existing ones.
    pub fn append_reference(&mut self, c: Cell)
        ensures
            final(self)@.bits == old(self)@.bits,
            final(self)@.refs == old(self)@.refs.push(c@),
    {
        self.refs.push(c);
        assert(self.refs.deep_view() =~= old(self).refs.deep_view().push(c@));
    }

    /// Prepends a reference sub-tree before the existing ones.
    pub fn prepend_reference(&mut self, c: Cell)
        ensures
            final(self)@.bits == old(self)@.bits,
            final(self)@.refs == seq![c@] + old(self)@.refs,
    {
        self.refs.insert(0, c);
        assert(self.refs.deep_view() =~= seq![c@] + old(self).refs.deep_view());
    }

    /// Replaces the first reference sub-tree.
    pub fn set_first_reference(&mut self, c: Cell)
        requires
            old(self)@.refs.len() >= 1,
        ensures
            final(self)@.bits == old(self)@.bits,
            final(self)@.refs == old(self)@.refs.update(0, c@),
    {
        self.refs.set(0, c);
        assert(self.refs.deep_view() =~= old(self).refs.deep_view().update(0, c@));
    }
}

/// A read cursor over a tree: the data of a received body together with how
/// much of each channel has been consumed.
pub struct SliceData {
    pub bits: Vec<bool>,
    pub refs: Vec<Cell>,
    pub bit_pos: usize,
    pub ref_pos: usize,
}

impl SliceData {
    /// The consumed prefixes never pass the end of the data.
    pub open spec fn wf(self) -> bool {
        self.bit_pos <= self.bits@.len() && self.ref_pos <= self.refs@.len()
    }

    /// The bits not yet consumed.
    pub open spec fn rem_bits(self) -> Seq<bool> {
        self.bits@.skip(self.bit_pos as int)
    }

    /// The reference payloads not yet consumed.
    pub open spec fn rem_refs(self) -> Seq<Seq<bool>> {
        self.refs.deep_view().skip(self.ref_pos as int)
    }

    /// A cursor over a finished tree.
    pub fn from_builder(b: BuilderData) -> (r: SliceData)
        ensures
            r.wf(),
            r.rem_bits() == b@.bits,
            r.rem_refs() == b@.refs,
    {
        let r = SliceData { bits: b.bits, refs: b.refs, bit_pos: 0, ref_pos: 0 };
        assert(r.rem_bits() =~= r.bits@);
        assert(r.rem_refs() =~= r.refs.deep_view());
        r
    }

    /// How many bits are left.
    pub fn remaining_bits(&self) -> (r: usize)
        requires
            self.wf(),
        ensures
            r == self.rem_bits().len(),
    {
        self.bits.len() - self.bit_pos
    }

    /// How many reference sub-trees are left.
    pub fn remaining_references(&self) -> (r: usize)
        requires
            self.wf(),
        ensures
            r == self.rem_refs().len(),
    {
        self.refs.len() - self.ref_pos
    }

    /// Reads the next `n` bits as a big-endian value; `None` and no change
    /// if fewer are left.
    pub fn read_uint(&mut self, n: usize) -> (r: Option<u128>)
        requires
            old(self).wf(),
            n <= 128,
        ensures
            final(self).wf(),
            final(self).rem_refs() == old(self).rem_refs(),
            old(self).rem_bits().len() >= n ==> {
                &&& r is Some
                &&& r->0 as nat == bits_val(old(self).rem_bits().take(n as int))
                &&& final(self).rem_bits() == old(self).rem_bits().skip(n as int)
            },
            old(self).rem_bits().len() < n ==> r is None && *final(self) == *old(self),
    {
        if self.bits.len() - self.bit_pos < n {
            return None;
        }
        let v = read_uint_bits(&self.bits, self.bit_pos, n);
        proof {
            assert(self.bits@.subrange(self.bit_pos as int, self.bit_pos + n) =~= self
                .rem_bits()
                .take(n as int));
        }
        self.bit_pos = self.bit_pos + n;
        proof {
            assert(self.bits@.skip(self.bit_pos as int) =~= old(self).rem_bits().skip(n as int));
        }
        Some(v)
    }

    /// Reads the next big-endian 32-bit field.
    pub fn get_next_u32(&mut self) -> (r: Option<u32>)
        requires
            old(self).wf(),
        ensures
            final(self).wf(),
            final(self).rem_refs() == old(self).rem_refs(),
            old(self).rem_bits().len() >= 32 ==> {
                &&& r is Some
                &&& r->0 as nat == bits_val(old(self).rem_bits().take(32))
                &&& final(self).rem_bits() == old(self).rem_bits().skip(32)
            },
            old(self).rem_bits().len() < 32 ==> r is None && *final(self) == *old(self),
    {
        match self.read_uint(32) {
            Some(v) => {
                proof {
                    lemma_bits_val_bound(old(self).rem_bits().take(32));
                    vstd::arithmetic::power2::lemma2_to64();
                }
                Some(v as u32)
            },
            None => None,
        }
    }

    /// Reads the next big-endian 64-bit field.
    pub fn get_next_u64(&mut self) -> (r: Option<u64>)
        requires
            old(self).wf(),
        ensures
            final(self).wf(),
            final(self).rem_refs() == old(self).rem_refs(),
            old(self).rem_bits().len() >= 64 ==> {
                &&& r is Some
                &&& r->0 as nat == bits_val(old(self).rem_bits().take(64))
                &&& final(self).rem_bits() == old(self).rem_bits().skip(64)
            },
            old(self).rem_bits().len() < 64 ==> r is None && *final(self) == *old(self),
    {
        match self.read_uint(64) {
            Some(v) => {
                proof {
                    lemma_bits_val_bound(old(self).rem_bits().take(64));
                    vstd::arithmetic::power2::lemma2_to64();
                }
                Some(v as u64)
            },
            None => None,
        }
    }

    /// Reads the next single bit.
    pub fn read_bit(&mut self) -> (r: Option<bool>)
        requires
            old(self).wf(),
        ensures
            final(self).wf(),
            final(self).rem_refs() == old(self).rem_refs(),
            old(self).rem_bits().len() >= 1 ==> {
                &&& r == Some(old(self).rem_bits()[0])
                &&& final(self).rem_bits() == old(self).rem_bits().skip(1)
            },
            old(self).rem_bits().len() == 0 ==> r is None && *final(self) == *old(self),
    {
        if self.bit_pos < self.bits.len() {
            let b = self.bits[self.bit_pos];
            self.bit_pos = self.bit_pos + 1;
            proof {
                assert(self.bits@.skip(self.bit_pos as int) =~= old(self).rem_bits().skip(1));
            }
            Some(b)
        } else {
            None
        }
    }

    /// Removes and returns the first remaining reference sub-tree.
    pub fn checked_drain_reference(&mut self) -> (r: Option<Cell>)
        requires
            old(self).wf(),
        ensures
            final(self).wf(),
            final(self).rem_bits() == old(self).rem_bits(),
            old(self).rem_refs().len() >= 1 ==> {
                &&& r is Some
                &&& r->0@ == old(self).rem_refs()[0]
                &&& final(self).rem_refs() == old(self).rem_refs().skip(1)
            },
            old(self).rem_refs().len() == 0 ==> r is None && *final(self) == *old(self),
    {
        if self.ref_pos < self.refs.len() {
            let c = self.refs[self.ref_pos].duplicate();
            self.ref_pos = self.ref_pos + 1;
            proof {
                assert(self.refs.deep_view().skip(self.ref_pos as int) =~= old(
                    self,
                ).rem_refs().skip(1));
            }
            Some(c)
        } else {
            None
        }
    }
}

/// A builder holding everything a cursor has not yet consumed.
pub fn builder_from_slice(s: &SliceData) -> (r: BuilderData)
    requires
        s.wf(),
    ensures
        r@.bits == s.rem_bits(),
        r@.refs == s.rem_refs(),
{
    let mut bits: Vec<bool> = Vec::new();
    let mut i: usize = s.bit_pos;
    while i < s.bits.len()
        invariant
            s.bit_pos <= i <= s.bits@.len(),
            bits@ == s.bits@.subrange(s.bit_pos as int, i as int),
        decreases s.bits@.len() - i,
    {
        bits.push(s.bits[i]);
        assert(bits@ =~= s.bits@.subrange(s.bit_pos as int, i + 1));
        i = i + 1;
    }
    assert(bits@ =~= s.rem_bits());
    let mut refs: Vec<Cell> = Vec::new();
    let mut j: usize = s.ref_pos;
    while j < s.refs.len()
        invariant
            s.ref_pos <= j <= s.refs@.len(),
            refs@.len() == j - s.ref_pos,
            forall|k: int|
                0 <= k < refs@.len() ==> #[trigger] refs@[k]@ == s.refs@[s.ref_pos + k]@,
        decreases s.refs@.len() - j,
    {
        let c = s.refs[j].duplicate();
        refs.push(c);
        j = j + 1;
    }
    assert forall|k: int| 0 <= k < refs@.len() implies refs.deep_view()[k] == s.rem_refs()[k] by {
        assert(refs@[k]@ == s.refs@[s.ref_pos + k]@);
    }
    assert(refs.deep_view() =~= s.rem_refs());
    BuilderData { bits, refs }
}

/// A big-endian byte string of `v`, `n` bytes long.
pub open spec fn be_bytes(v: nat, n: nat) -> Seq<u8>
    decreases n,
{
    if n == 0 {
        Seq::empty()
    } else {
        be_bytes(v / 256, (n - 1) as nat).push((v % 256) as u8)
    }
}

/// Each bit as one byte, `0` or `1`.
pub open spec fn bits_bytes(s: Seq<bool>) -> Seq<u8> {
    Seq::new(
        s.len(),
        |i: int|
            if s[i] {
                1u8
            } else {
                0u8
            },
    )
}

/// The reference payloads in order, each with its own length header.
pub open spec fn ser_refs(refs: Seq<Seq<bool>>) -> Seq<u8>
    decreases refs.len(),
{
    if refs.len() == 0 {
        Seq::empty()
    } else {
        ser_refs(refs.drop_last()) + be_bytes(refs.last().len(), 8) + bits_bytes(refs.last())
    }
}

/// The canonical byte form of a tree: bit count, bits, reference count,
/// references.  The content hash of a body is the digest of this form.
pub open spec fn ser_tree(bits: Seq<bool>, refs: Seq<Seq<bool>>) -> Seq<u8> {
    be_bytes(bits.len(), 8) + bits_bytes(bits) + be_bytes(refs.len(), 8) + ser_refs(refs)
}

/// The value of a big-endian byte string.
pub open spec fn bytes_be_val(s: Seq<u8>) -> nat
    decreases s.len(),
{
    if s.len() == 0 {
        0
    } else {
        256 * bytes_be_val(s.drop_last()) + s.last() as nat
    }
}

/// A byte string of length `n` denotes a value below `pow2(8 * n)`.
pub proof fn lemma_bytes_be_val_bound(s: Seq<u8>)
    ensures
        bytes_be_val(s) < vstd::arithmetic::power2::pow2(8 * s.len()),
    decreases s.len(),
{
    vstd::arithmetic::power2::lemma2_to64();
    if s.len() > 0 {
        lemma_bytes_be_val_bound(s.drop_last());
        vstd::arithmetic::power2::lemma_pow2_adds((8 * s.len() - 8) as nat, 8);
    }
}

/// Re-serializing the value of a byte string gives the string back.
pub proof fn lemma_be_bytes_of_val(s: Seq<u8>)
    ensures
        be_bytes(bytes_be_val(s), s.len()) == s,
    decreases s.len(),
{
    if s.len() > 0 {
        let v = bytes_be_val(s);
        assert(v % 256 == s.last() as nat);
        assert(v / 256 == bytes_be_val(s.drop_last()));
        lemma_be_bytes_of_val(s.drop_last());
        assert(be_bytes(v, s.len()) =~= s);
    } else {
        assert(be_bytes(0, 0) =~= s);
    }
}

/// Unfolding `bytes_be_val` over a growing prefix of `s`.
pub proof fn lemma_bytes_be_val_take_step(s: Seq<u8>, i: int)
    requires
        0 <= i < s.len(),
    ensures
        bytes_be_val(s.take(i + 1)) == 256 * bytes_be_val(s.take(i)) + s[i] as nat,
{
    assert(s.take(i + 1).drop_last() =~= s.take(i));
    assert(s.take(i + 1).last() == s[i]);
}

/// Reads the 8-byte big-endian field at `pos`.
pub fn read_be8(bytes: &Vec<u8>, pos: usize) -> (r: u64)
    requires
        pos + 8 <= bytes@.len(),
    ensures
        r as nat == bytes_be_val(bytes@.subrange(pos as int, pos + 8)),
{
    let ghost chunk = bytes@.subrange(pos as int, pos + 8);
    let n = bytes.len();
    let mut acc: u64 = 0;
    let mut j: usize = 0;
    while j < 8
        invariant
            j <= 8,
            pos + 8 <= n == bytes@.len(),
            chunk == bytes@.subrange(pos as int, pos + 8),
            acc as nat == bytes_be_val(chunk.take(j as int)),
        decreases 8 - j,
    {
        proof {
            lemma_bytes_be_val_bound(chunk.take(j as int));
            assert(chunk.take(j as int).len() == j);
            vstd::arithmetic::power2::lemma2_to64();
            vstd::arithmetic::power2::lemma2_to64_rest();
            if j < 7 {
                vstd::arithmetic::power2::lemma_pow2_strictly_increases(8 * j as nat, 56);
            }
            lemma_bytes_be_val_take_step(chunk, j as int);
            assert(chunk[j as int] == bytes@[pos + j]);
        }
        acc = acc * 256 + (bytes[pos + j] as u64);
        j = j + 1;
    }
    assert(chunk.take(8) =~= chunk);
    acc
}

/// Appends `v` as an `n`-byte big-endian field.
fn push_be_bytes(out: &mut Vec<u8>, v: u64, n: usize)
    ensures
        final(out)@ == old(out)@ + be_bytes(v as nat, n as nat),
    decreases n,
{
    if n == 0 {
        assert(out@ =~= old(out)@ + be_bytes(v as nat, 0));
    } else {
        push_be_bytes(out, v / 256, n - 1);
        out.push((v % 256) as u8);
        assert(out@ =~= old(out)@ + be_bytes(v as nat, n as nat));
    }
}

/// Appends one byte per bit of `s`.
fn push_bits_bytes(out: &mut Vec<u8>, s: &Vec<bool>)
    ensures
        final(out)@ == old(out)@ + bits_bytes(s@),
{
    let mut i: usize = 0;
    while i < s.len()
        invariant
            i <= s@.len(),
            out@ == old(out)@ + bits_bytes(s@.take(i as int)),
        decreases s@.len() - i,
    {
        out.push(
            if s[i] {
                1u8
            } else {
                0u8
            },
        );
        assert(out@ =~= old(out)@ + bits_bytes(s@.take(i + 1)));
        i = i + 1;
    }
    assert(s@.take(s@.len() as int) =~= s@);
}

/// The canonical byte form of the tree `(bits, refs)`, with the first
/// `from_ref` references left out.
pub fn serialize_tree(bits: &Vec<bool>, refs: &Vec<Cell>, from_ref: usize) -> (r: Vec<u8>)
    requires
        from_ref <= refs@.len(),
    ensures
        r@ == ser_tree(bits@, refs.deep_view().skip(from_ref as int)),
{
    let ghost rv = refs.deep_view().skip(from_ref as int);
    let mut out: Vec<u8> = Vec::new();
    push_be_bytes(&mut out, bits.len() as u64, 8);
    push_bits_bytes(&mut out, bits);
    push_be_bytes(&mut out, (refs.len() - from_ref) as u64, 8);
    let ghost head = out@;
    assert(head == be_bytes(bits@.len(), 8) + bits_bytes(bits@) + be_bytes(rv.len(), 8));
    let mut j: usize = from_ref;
    while j < refs.len()
        invariant
            from_ref <= j <= refs@.len(),
            rv == refs.deep_view().skip(from_ref as int),
            refs.deep_view().len() == refs@.len(),
            out@ == head + ser_refs(rv.take(j - from_ref)),
        decreases refs@.len() - j,
    {
        push_be_bytes(&mut out, refs[j].bits.len() as u64, 8);
        push_bits_bytes(&mut out, &refs[j].bits);
        proof {
            let k = j - from_ref;
            assert(rv.take(k + 1).drop_last() =~= rv.take(k));
            assert(rv.take(k + 1).last() == rv[k]);
            assert(rv[k] == refs.deep_view()[j as int]);
            assert(out@ =~= head + ser_refs(rv.take(k + 1)));
        }
        j = j + 1;
    }
    assert(rv.take(refs@.len() - from_ref) =~= rv);
    assert(out@ =~= ser_tree(bits@, rv));
    out
}

} // verus!
