//! The staging buffer that collects vertex, index and uniform bytes for one
//! upload.
//!
//! Bytes are only ever appended. A plain push starts where the buffer ends;
//! an aligned push (for uniform blocks) first pads with zeros up to the next
//! multiple of the device's uniform offset alignment.
use vstd::prelude::*;
use smallvec::SmallVec;

verus! {

/// A `smallvec::SmallVec` of bytes, opaque to verification.
#[verifier::external_body]
pub struct ByteStore {
    bytes: SmallVec<[u8; 16]>,
}

/// The bytes held by a store, in order.
pub uninterp spec fn held_bytes(v: ByteStore) -> Seq<u8>;

/// Relies on `SmallVec::new`: the vector starts empty.
#[verifier::external_body]
fn bytes_new() -> (r: ByteStore)
    ensures
        held_bytes(r) == Seq::<u8>::empty(),
{
    ByteStore { bytes: SmallVec::new() }
}

/// Relies on `SmallVec::len`: the number of elements stored.
#[verifier::external_body]
fn bytes_len(v: &ByteStore) -> (r: usize)
    ensures
        r == held_bytes(*v).len(),
{
    v.bytes.len()
}

/// Relies on `SmallVec::extend_from_slice`: the slice's elements are appended
/// in order (it panics only when the length would overflow `usize`).
#[verifier::external_body]
fn bytes_extend(v: &mut ByteStore, data: &[u8])
    requires
        held_bytes(*old(v)).len() + data@.len() <= usize::MAX,
    ensures
        held_bytes(*final(v)) == held_bytes(*old(v)) + data@,
{
    v.bytes.extend_from_slice(data)
}

/// Relies on `SmallVec::resize`: growing to `len` appends copies of `value`.
#[verifier::external_body]
fn bytes_resize(v: &mut ByteStore, len: usize, value: u8)
    requires
        held_bytes(*old(v)).len() <= len,
    ensures
        held_bytes(*final(v)) == held_bytes(*old(v)) + Seq::new(
            (len - held_bytes(*old(v)).len()) as nat,
            |i: int| value,
        ),
{
    v.bytes.resize(len, value)
}

/// Relies on `SmallVec::as_slice`: a view of the elements in order.
#[verifier::external_body]
fn bytes_as_slice(v: &ByteStore) -> (r: &[u8])
    ensures
        r@ == held_bytes(*v),
{
    v.bytes.as_slice()
}

/// `n` rounded up to a multiple of `align`.
pub open spec fn align_up(n: int, align: int) -> int {
    if n % align == 0 {
        n
    } else {
        n + (align - n % align)
    }
}

/// CPU-side bytes awaiting upload, with the alignment of uniform blocks.
pub struct StageBuffer {
    buffer: ByteStore,
    alignment: u64,
}

impl StageBuffer {
    pub closed spec fn bytes(&self) -> Seq<u8> {
        held_bytes(self.buffer)
    }

    pub closed spec fn alignment(&self) -> int {
        self.alignment as int
    }

    /// An empty buffer; aligned pushes start at multiples of `alignment`.
    pub fn new(alignment: u64) -> (r: Self)
        requires
            alignment > 0,
        ensures
            r.bytes() == Seq::<u8>::empty(),
            r.alignment() == alignment,
    {
        StageBuffer { buffer: bytes_new(), alignment }
    }

    /// Appends `data` and returns the byte range it occupies.
    pub fn push_data(&mut self, data: &[u8]) -> (r: std::ops::Range<u64>)
        requires
            old(self).bytes().len() + data@.len() <= u64::MAX,
            old(self).bytes().len() + data@.len() <= usize::MAX,
        ensures
            final(self).bytes() == old(self).bytes() + data@,
            final(self).alignment() == old(self).alignment(),
            r.start == old(self).bytes().len(),
            r.end == final(self).bytes().len(),
    {
        let start = bytes_len(&self.buffer) as u64;
        bytes_extend(&mut self.buffer, data);
        let end = bytes_len(&self.buffer) as u64;
        start..end
    }

    /// Pads with zeros to the next multiple of the alignment, appends
    /// `data` and returns the byte range it occupies.
    pub fn push_data_align(&mut self, data: &[u8]) -> (r: std::ops::Range<u64>)
        requires
            old(self).alignment() > 0,
            old(self).bytes().len() + old(self).alignment() + data@.len() <= u64::MAX,
            old(self).bytes().len() + old(self).alignment() + data@.len() <= usize::MAX,
        ensures
            ({
                let n = old(self).bytes().len() as int;
                let start = align_up(n, old(self).alignment());
                &&& final(self).bytes() == old(self).bytes() + Seq::new(
                    (start - n) as nat,
                    |i: int| 0u8,
                ) + data@
                &&& r.start == start
                &&& r.end == start + data@.len()
            }),
            final(self).alignment() == old(self).alignment(),
    {
        let len = bytes_len(&self.buffer) as u64;
        let rem = len % self.alignment;
        if rem != 0 {
            let padded = len + (self.alignment - rem);
            bytes_resize(&mut self.buffer, padded as usize, 0);
        } else {
            assert(self.bytes() + Seq::new(0, |i: int| 0u8) =~= self.bytes());
        }
        let start = bytes_len(&self.buffer) as u64;
        bytes_extend(&mut self.buffer, data);
        let end = bytes_len(&self.buffer) as u64;
        start..end
    }

    /// The alignment of uniform blocks.
    pub fn alignment_bytes(&self) -> (r: u64)
        ensures
            r == self.alignment(),
    {
        self.alignment
    }

    /// The number of bytes held.
    pub fn len(&self) -> (r: usize)
        ensures
            r == self.bytes().len(),
    {
        bytes_len(&self.buffer)
    }

    /// The bytes held, in order.
    pub fn as_bytes(&self) -> (r: &[u8])
        ensures
            r@ == self.bytes(),
    {
        bytes_as_slice(&self.buffer)
    }
}

} // verus!
