//! The shared vertex byte buffer that primitive renderers append to.
use vstd::prelude::*;

verus! {

/// Byte `c` (least significant first) of `v`.
pub open spec fn le_byte(v: u32, c: int) -> u8 {
    if c == 0 {
        (v % 0x100) as u8
    } else if c == 1 {
        ((v / 0x100) % 0x100) as u8
    } else if c == 2 {
        ((v / 0x1_0000) % 0x100) as u8
    } else {
        ((v / 0x100_0000) % 0x100) as u8
    }
}

/// `bytes` holds each of `values` as four bytes, all in the same byte order:
/// least significant first, or most significant first.
pub open spec fn is_native_encoding(values: Seq<u32>, bytes: Seq<u8>) -> bool {
    &&& bytes.len() == values.len() * 4
    &&& {
        ||| forall|i: int, c: int| 0 <= i < values.len() && 0 <= c < 4 ==> #[trigger] bytes[i * 4 + c] == le_byte(values[i], c)
        ||| forall|i: int, c: int| 0 <= i < values.len() && 0 <= c < 4 ==> #[trigger] bytes[i * 4 + c] == le_byte(values[i], 3 - c)
    }
}

/// `bytemuck::cast_slice` from `u32` to bytes: the same memory read as bytes,
/// that is each value in the machine's byte order. Which order that is
/// depends on the machine, so the contract states only that it is one of the
/// two, the same for every value.
#[verifier::external_body]
fn cast_u32s_to_bytes<'a>(values: &'a [u32]) -> (bytes: &'a [u8])
    ensures
        is_native_encoding(values@, bytes@),
{
    bytemuck::cast_slice::<u32, u8>(values)
}

/// `wgpu::COPY_BUFFER_ALIGNMENT`: the alignment of buffer copy offsets and
/// sizes, the constant 4 in wgpu's source.
#[verifier::external_body]
fn copy_buffer_alignment() -> (alignment: u64)
    ensures
        alignment == 4,
{
    wgpu::COPY_BUFFER_ALIGNMENT
}

/// A power of two: one, doubled any number of times.
pub open spec fn is_power_of_two(n: int) -> bool
    decreases n,
{
    if n <= 0 {
        false
    } else if n == 1 {
        true
    } else {
        n % 2 == 0 && is_power_of_two(n / 2)
    }
}

/// `u64::next_power_of_two`: the smallest power of two at least `n`, as the
/// standard library documents it; inputs above `2^63`, whose result would
/// overflow, are excluded.
#[verifier::external_body]
fn next_power_of_two(n: u64) -> (r: u64)
    requires
        n <= 0x8000_0000_0000_0000,
    ensures
        is_power_of_two(r as int),
        n <= r,
        r == 1 || r / 2 < n,
{
    n.next_power_of_two()
}

/// Append-only access to the shared vertex buffer being assembled.
///
/// The writer is scoped to one batch. Its length is therefore the number of
/// bytes written by that batch, not the offset of the batch in the shared
/// buffer. The writer owns the buffer while the batch is written and hands it
/// back with [`VertexWriter::into_bytes`].
pub struct VertexWriter {
    bytes: Vec<u8>,
    start: usize,
}

impl VertexWriter {
    #[verifier::type_invariant]
    spec fn start_within(&self) -> bool {
        self.start <= self.bytes@.len()
    }

    /// The whole shared buffer.
    pub closed spec fn buffer(&self) -> Seq<u8> {
        self.bytes@
    }

    /// Where this batch's bytes begin in the shared buffer.
    pub closed spec fn start(&self) -> nat {
        self.start as nat
    }

    /// The bytes appended through this writer.
    pub open spec fn written(&self) -> Seq<u8> {
        self.buffer().subrange(self.start() as int, self.buffer().len() as int)
    }

    /// Starts a batch at the end of `bytes`.
    pub fn new(bytes: Vec<u8>) -> (writer: Self)
        ensures
            writer.buffer() == bytes@,
            writer.start() == bytes@.len(),
    {
        let start = bytes.len();
        VertexWriter { bytes, start }
    }

    /// Appends `u32` values in their native byte representation.
    pub fn write(&mut self, values: &[u32])
        ensures
            final(self).start() == old(self).start(),
            final(self).buffer().len() == old(self).buffer().len() + 4 * values@.len(),
            final(self).buffer().subrange(0, old(self).buffer().len() as int) == old(self).buffer(),
            is_native_encoding(
                values@,
                final(self).buffer().subrange(old(self).buffer().len() as int, final(self).buffer().len() as int),
            ),
    {
        let bytes = cast_u32s_to_bytes(values);
        self.write_bytes(bytes);
        proof {
            assert(self.buffer().subrange(0, old(self).buffer().len() as int) =~= old(self).buffer());
            assert(self.buffer().subrange(old(self).buffer().len() as int, self.buffer().len() as int) =~= bytes@);
        }
    }

    /// Appends already encoded vertex bytes.
    pub fn write_bytes(&mut self, bytes: &[u8])
        ensures
            final(self).buffer() == old(self).buffer() + bytes@,
            final(self).start() == old(self).start(),
    {
        let mut taken = VertexWriter { bytes: Vec::new(), start: 0 };
        std::mem::swap(self, &mut taken);
        proof {
            use_type_invariant(&taken);
        }
        let VertexWriter { bytes: mut buffer, start } = taken;
        buffer.extend_from_slice(bytes);
        *self = VertexWriter { bytes: buffer, start };
    }

    /// Returns the number of bytes appended through this writer.
    pub fn len(&self) -> (n: usize)
        ensures
            n == self.buffer().len() - self.start(),
            n == self.written().len(),
    {
        proof {
            use_type_invariant(self);
        }
        self.bytes.len() - self.start
    }

    pub fn is_empty(&self) -> (b: bool)
        ensures
            b == (self.written().len() == 0),
    {
        self.len() == 0
    }

    /// Ends the batch and hands the whole buffer back.
    pub fn into_bytes(self) -> (bytes: Vec<u8>)
        ensures
            bytes@ == self.buffer(),
    {
        self.bytes
    }
}

/// Pads `bytes` with zeros to the next multiple of the copy-buffer alignment.
pub fn align_vec(bytes: &mut Vec<u8>)
    requires
        old(bytes)@.len() + 4 <= usize::MAX,
    ensures
        final(bytes)@.len() % 4 == 0,
        old(bytes)@.len() <= final(bytes)@.len() < old(bytes)@.len() + 4,
        final(bytes)@.subrange(0, old(bytes)@.len() as int) == old(bytes)@,
        forall|i: int| old(bytes)@.len() <= i < final(bytes)@.len() ==> #[trigger] final(bytes)@[i] == 0,
{
    let alignment = copy_buffer_alignment() as usize;
    let remainder = bytes.len() % alignment;
    if remainder != 0 {
        let ghost before = bytes@;
        bytes.resize(bytes.len() + alignment - remainder, 0);
        proof {
            assert forall|i: int| before.len() <= i < bytes@.len() implies #[trigger] bytes@[i] == 0 by {
                assert(cloned::<u8>(0u8, bytes@[i]));
            }
        }
    } else {
        proof {
            assert(bytes@.subrange(0, bytes@.len() as int) =~= bytes@);
        }
    }
}

/// The capacity of a new GPU vertex buffer when `required` bytes no longer
/// fit in one of `capacity` bytes: the next power of two, or `None` when the
/// current buffer suffices.
pub fn grown_vertex_capacity(required: u64, capacity: u64) -> (r: Option<u64>)
    requires
        required <= 0x8000_0000_0000_0000,
    ensures
        required <= capacity ==> r is None,
        required > capacity ==> (r matches Some(c) && is_power_of_two(c as int) && required <= c && (c == 1 || c / 2 < required)),
{
    if required > capacity {
        Some(next_power_of_two(required))
    } else {
        None
    }
}

/// The shared vertex buffer of a frame, assembled batch by batch.
///
/// Each batch's bytes start at a multiple of the copy-buffer alignment, right
/// after the previous batch and its padding. The staging remembers, as
/// ghost state, the byte range and the bytes of every batch appended so far.
pub struct VertexStaging {
    bytes: Vec<u8>,
    ranges: Ghost<Seq<(int, int)>>,
    batches: Ghost<Seq<Seq<u8>>>,
}

impl VertexStaging {
    /// All staged bytes.
    pub closed spec fn buffer(&self) -> Seq<u8> {
        self.bytes@
    }

    /// The byte range of each appended batch, in order.
    pub closed spec fn ranges(&self) -> Seq<(int, int)> {
        self.ranges@
    }

    /// The bytes of each appended batch, in order.
    pub closed spec fn batches(&self) -> Seq<Seq<u8>> {
        self.batches@
    }

    /// Every batch sits at an aligned offset, within the buffer, after the
    /// previous batch, and holds exactly the bytes that were appended for it.
    pub closed spec fn wf(&self) -> bool {
        let r = self.ranges@;
        let b = self.batches@;
        &&& r.len() == b.len()
        &&& forall|i: int|
            0 <= i < r.len() ==> {
                &&& #[trigger] r[i].0 % 4 == 0
                &&& 0 <= r[i].0 <= r[i].1 <= self.bytes@.len()
                &&& self.bytes@.subrange(r[i].0, r[i].1) == b[i]
            }
        &&& forall|i: int, j: int| 0 <= i < j < r.len() ==> #[trigger] r[i].1 <= #[trigger] r[j].0
    }

    pub fn new() -> (staging: Self)
        ensures
            staging.wf(),
            staging.buffer() == Seq::<u8>::empty(),
            staging.ranges() == Seq::<(int, int)>::empty(),
            staging.batches() == Seq::<Seq<u8>>::empty(),
    {
        VertexStaging { bytes: Vec::new(), ranges: Ghost(Seq::empty()), batches: Ghost(Seq::empty()) }
    }

    /// Starts a new frame with no bytes.
    pub fn clear(&mut self)
        ensures
            final(self).wf(),
            final(self).buffer() == Seq::<u8>::empty(),
            final(self).ranges() == Seq::<(int, int)>::empty(),
            final(self).batches() == Seq::<Seq<u8>>::empty(),
    {
        self.bytes.clear();
        self.ranges = Ghost(Seq::empty());
        self.batches = Ghost(Seq::empty());
    }

    /// Appends one batch's bytes at the next aligned offset, and returns the
    /// byte range of the batch, or `None` when the batch wrote nothing.
    pub fn append_batch(&mut self, batch: &[u8]) -> (range: Option<(u64, u64)>)
        requires
            old(self).wf(),
            old(self).buffer().len() + 4 + batch@.len() <= usize::MAX,
            old(self).buffer().len() + 4 + batch@.len() <= u64::MAX,
        ensures
            final(self).wf(),
            ({
                let start = final(self).ranges().last().0;
                &&& start % 4 == 0
                &&& old(self).buffer().len() <= start < old(self).buffer().len() + 4
                &&& final(self).ranges() == old(self).ranges().push((start, start + batch@.len()))
                &&& final(self).batches() == old(self).batches().push(batch@)
                &&& final(self).buffer().len() == start + batch@.len()
                &&& final(self).buffer().subrange(0, old(self).buffer().len() as int) == old(self).buffer()
                &&& forall|i: int| old(self).buffer().len() <= i < start ==> #[trigger] final(self).buffer()[i] == 0
                &&& batch@.len() == 0 ==> range is None
                &&& batch@.len() != 0 ==> range == Some((start as u64, (start + batch@.len()) as u64))
            }),
    {
        let ghost before = self.bytes@;
        align_vec(&mut self.bytes);
        let start = self.bytes.len();
        let ghost aligned = self.bytes@;
        self.bytes.extend_from_slice(batch);
        let end = self.bytes.len();
        let ghost old_ranges = self.ranges@;
        self.ranges = Ghost(old_ranges.push((start as int, end as int)));
        self.batches = Ghost(self.batches@.push(batch@));
        proof {
            let r = self.ranges@;
            assert forall|i: int| 0 <= i < r.len() implies {
                &&& #[trigger] r[i].0 % 4 == 0
                &&& 0 <= r[i].0 <= r[i].1 <= self.bytes@.len()
                &&& self.bytes@.subrange(r[i].0, r[i].1) == self.batches@[i]
            } by {
                if i < old_ranges.len() {
                    assert(self.bytes@.subrange(r[i].0, r[i].1) =~= before.subrange(r[i].0, r[i].1));
                } else {
                    assert(self.bytes@.subrange(r[i].0, r[i].1) =~= batch@);
                }
            }
            assert forall|i: int, j: int| 0 <= i < j < r.len() implies #[trigger] r[i].1 <= #[trigger] r[j].0 by {
                assert(r[i] == old_ranges[i]);
                if j < old_ranges.len() {
                    assert(r[j] == old_ranges[j]);
                } else {
                    assert(old_ranges[i].0 % 4 == 0);
                }
            }
            assert(self.bytes@.subrange(0, before.len() as int) =~= before) by {
                assert(aligned.subrange(0, before.len() as int) == before);
            }
        }
        if start != end {
            Some((start as u64, end as u64))
        } else {
            None
        }
    }

    /// Pads the buffer to the copy-buffer alignment, ready for upload.
    pub fn finish(&mut self)
        requires
            old(self).wf(),
            old(self).buffer().len() + 4 <= usize::MAX,
        ensures
            final(self).wf(),
            final(self).buffer().len() % 4 == 0,
            old(self).buffer().len() <= final(self).buffer().len() < old(self).buffer().len() + 4,
            final(self).buffer().subrange(0, old(self).buffer().len() as int) == old(self).buffer(),
            final(self).ranges() == old(self).ranges(),
            final(self).batches() == old(self).batches(),
    {
        let ghost before = self.bytes@;
        align_vec(&mut self.bytes);
        proof {
            let r = self.ranges@;
            assert forall|i: int| 0 <= i < r.len() implies {
                &&& #[trigger] r[i].0 % 4 == 0
                &&& 0 <= r[i].0 <= r[i].1 <= self.bytes@.len()
                &&& self.bytes@.subrange(r[i].0, r[i].1) == self.batches@[i]
            } by {
                assert(self.bytes@.subrange(r[i].0, r[i].1) =~= before.subrange(r[i].0, r[i].1));
            }
        }
    }

    /// The staged bytes.
    pub fn bytes(&self) -> (bytes: &[u8])
        ensures
            bytes@ == self.buffer(),
    {
        self.bytes.as_slice()
    }

    pub fn len(&self) -> (n: usize)
        ensures
            n == self.buffer().len(),
    {
        self.bytes.len()
    }

    pub fn is_empty(&self) -> (b: bool)
        ensures
            b == (self.buffer().len() == 0),
    {
        self.bytes.len() == 0
    }
}

/// The batches of a frame's vertex buffer ascend without overlap, each starts
/// at a multiple of four, lies inside the buffer and holds exactly the bytes
/// that its batch wrote: a draw reads back exactly what its batch prepared.
pub proof fn lemma_staged_batches(staging: &VertexStaging)
    requires
        staging.wf(),
    ensures
        staging.ranges().len() == staging.batches().len(),
        forall|i: int|
            0 <= i < staging.ranges().len() ==> {
                &&& #[trigger] staging.ranges()[i].0 % 4 == 0
                &&& 0 <= staging.ranges()[i].0 <= staging.ranges()[i].1 <= staging.buffer().len()
                &&& staging.buffer().subrange(staging.ranges()[i].0, staging.ranges()[i].1) == staging.batches()[i]
            },
        forall|i: int, j: int|
            0 <= i < j < staging.ranges().len() ==> #[trigger] staging.ranges()[i].1 <= #[trigger] staging.ranges()[j].0,
{
}

} // verus!
