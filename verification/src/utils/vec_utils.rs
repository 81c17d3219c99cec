//! The big-endian cursor codec the model format is written and read with.
//! Every multi-byte value is big-endian; an IEEE single travels as the four
//! bytes of its bit pattern.

use vstd::prelude::*;

verus! {

/// The byte of a sequence at `i`, and zero past either end. Reading past the
/// end of a buffer yields zero-padded values rather than a failure.
pub open spec fn byte_at(b: Seq<u8>, i: int) -> u8 {
    if 0 <= i < b.len() {
        b[i]
    } else {
        0
    }
}

/// The big-endian 32-bit value at position `p`.
pub open spec fn be4_at(b: Seq<u8>, p: int) -> u32 {
    ((byte_at(b, p) as u32) << 24) | ((byte_at(b, p + 1) as u32) << 16) | ((byte_at(b, p + 2)
        as u32) << 8) | (byte_at(b, p + 3) as u32)
}

/// The big-endian 64-bit value at position `p`.
pub open spec fn be8_at(b: Seq<u8>, p: int) -> u64 {
    ((byte_at(b, p) as u64) << 56) | ((byte_at(b, p + 1) as u64) << 48) | ((byte_at(b, p + 2)
        as u64) << 40) | ((byte_at(b, p + 3) as u64) << 32) | ((byte_at(b, p + 4) as u64) << 24) | (
    (byte_at(b, p + 5) as u64) << 16) | ((byte_at(b, p + 6) as u64) << 8) | (byte_at(b, p + 7)
        as u64)
}

/// The four big-endian bytes of a 32-bit value.
pub open spec fn be4_of(v: u32) -> Seq<u8> {
    seq![(v >> 24) as u8, (v >> 16) as u8, (v >> 8) as u8, v as u8]
}

/// The eight big-endian bytes of a 64-bit value.
pub open spec fn be8_of(v: u64) -> Seq<u8> {
    seq![
        (v >> 56) as u8,
        (v >> 48) as u8,
        (v >> 40) as u8,
        (v >> 32) as u8,
        (v >> 24) as u8,
        (v >> 16) as u8,
        (v >> 8) as u8,
        v as u8,
    ]
}

/// Where the cursor stands after consuming `k` bytes of a buffer of length
/// `n`: it never moves past the end, and never moves at all once there.
pub open spec fn stepped(pos: int, k: int, n: int) -> int {
    if pos >= n {
        pos
    } else if pos + k <= n {
        pos + k
    } else {
        n
    }
}

/// The `count` singles stored big-endian one after another from `p` on.
pub open spec fn singles_at(b: Seq<u8>, p: int, count: nat) -> Seq<u32> {
    Seq::new(count, |i: int| be4_at(b, p + 4 * i))
}

/// A cursor position `q` tracks an unclamped running offset `p` when they are
/// equal, or when both have passed the end of the data.
pub open spec fn cursor_sync(q: int, p: int, n: int) -> bool {
    q == p || (q >= n && p >= n)
}

/// Every 32-bit read wholly past the end of the buffer gives zero.
pub proof fn lemma_be4_past_end(b: Seq<u8>, p: int)
    requires
        p >= b.len(),
    ensures
        be4_at(b, p) == 0,
{
    assert((((0u8) as u32) << 24) | (((0u8) as u32) << 16) | (((0u8) as u32) << 8) | ((0u8) as u32)
        == 0) by (bit_vector);
}

/// Every 64-bit read wholly past the end of the buffer gives zero.
pub proof fn lemma_be8_past_end(b: Seq<u8>, p: int)
    requires
        p >= b.len(),
    ensures
        be8_at(b, p) == 0,
{
    assert((((0u8) as u64) << 56) | (((0u8) as u64) << 48) | (((0u8) as u64) << 40) | (((0u8)
        as u64) << 32) | (((0u8) as u64) << 24) | (((0u8) as u64) << 16) | (((0u8) as u64) << 8) | (
    (0u8) as u64) == 0) by (bit_vector);
}

/// One clamped read keeps a cursor in sync with the unclamped offset: the
/// value read equals the value at the unclamped offset, and the positions
/// stay in sync.
pub proof fn lemma_read_sync(b: Seq<u8>, q: int, p: int, k: int)
    requires
        cursor_sync(q, p, b.len() as int),
        k >= 0,
    ensures
        cursor_sync(stepped(q, k, b.len() as int), p + k, b.len() as int),
        be4_at(b, q) == be4_at(b, p),
        be8_at(b, q) == be8_at(b, p),
{
    let n = b.len() as int;
    if q != p {
        lemma_be4_past_end(b, q);
        lemma_be4_past_end(b, p);
        lemma_be8_past_end(b, q);
        lemma_be8_past_end(b, p);
    }
}

/// A 32-bit value written and then read back at its own offset is unchanged.
pub proof fn lemma_be4_round_trip(v: u32, b: Seq<u8>, p: int)
    requires
        0 <= p,
        p + 4 <= b.len(),
        b.subrange(p, p + 4) == be4_of(v),
    ensures
        be4_at(b, p) == v,
{
    assert(byte_at(b, p) == be4_of(v)[0] && byte_at(b, p + 1) == be4_of(v)[1] && byte_at(b, p + 2)
        == be4_of(v)[2] && byte_at(b, p + 3) == be4_of(v)[3]) by {
        assert(b.subrange(p, p + 4)[0] == b[p]);
        assert(b.subrange(p, p + 4)[1] == b[p + 1]);
        assert(b.subrange(p, p + 4)[2] == b[p + 2]);
        assert(b.subrange(p, p + 4)[3] == b[p + 3]);
    }
    assert((((v >> 24) as u8 as u32) << 24) | (((v >> 16) as u8 as u32) << 16) | (((v >> 8) as u8
        as u32) << 8) | (v as u8 as u32) == v) by (bit_vector);
}

/// A 64-bit value written and then read back at its own offset is unchanged.
pub proof fn lemma_be8_round_trip(v: u64, b: Seq<u8>, p: int)
    requires
        0 <= p,
        p + 8 <= b.len(),
        b.subrange(p, p + 8) == be8_of(v),
    ensures
        be8_at(b, p) == v,
{
    assert(byte_at(b, p) == be8_of(v)[0] && byte_at(b, p + 1) == be8_of(v)[1] && byte_at(b, p + 2)
        == be8_of(v)[2] && byte_at(b, p + 3) == be8_of(v)[3] && byte_at(b, p + 4) == be8_of(v)[4]
        && byte_at(b, p + 5) == be8_of(v)[5] && byte_at(b, p + 6) == be8_of(v)[6] && byte_at(
        b,
        p + 7,
    ) == be8_of(v)[7]) by {
        assert(forall|i: int| 0 <= i < 8 ==> #[trigger] b.subrange(p, p + 8)[i] == b[p + i]);
    }
    assert((((v >> 56) as u8 as u64) << 56) | (((v >> 48) as u8 as u64) << 48) | (((v >> 40) as u8
        as u64) << 40) | (((v >> 32) as u8 as u64) << 32) | (((v >> 24) as u8 as u64) << 24) | (((v
        >> 16) as u8 as u64) << 16) | (((v >> 8) as u8 as u64) << 8) | (v as u8 as u64) == v)
        by (bit_vector);
}

/// A read-only cursor over a byte slice.
pub struct CursorReader<'a> {
    bytes: &'a [u8],
    pos: usize,
}

impl<'a> CursorReader<'a> {
    /// The bytes the cursor walks.
    pub closed spec fn data(self) -> Seq<u8> {
        self.bytes@
    }

    /// The offset of the next byte to read.
    pub closed spec fn position(self) -> usize {
        self.pos
    }

    pub fn new(bytes: &'a [u8]) -> (r: CursorReader<'a>)
        ensures
            r.data() == bytes@,
            r.position() == 0,
    {
        CursorReader { bytes, pos: 0 }
    }

    /// One byte, or zero past the end of the buffer.
    fn next_byte(&mut self) -> (r: u8)
        ensures
            r == byte_at(old(self).data(), old(self).position() as int),
            final(self).data() == old(self).data(),
            final(self).position() == stepped(old(self).position() as int, 1, old(self).data().len() as int),
    {
        if self.pos < self.bytes.len() {
            let b = self.bytes[self.pos];
            self.pos = self.pos + 1;
            b
        } else {
            0
        }
    }

    /// The bits of the IEEE single stored big-endian at the cursor.
    pub fn single(&mut self) -> (r: u32)
        ensures
            r == be4_at(old(self).data(), old(self).position() as int),
            final(self).data() == old(self).data(),
            final(self).position() == stepped(old(self).position() as int, 4, old(self).data().len() as int),
    {
        let b0 = self.next_byte();
        let b1 = self.next_byte();
        let b2 = self.next_byte();
        let b3 = self.next_byte();
        ((b0 as u32) << 24) | ((b1 as u32) << 16) | ((b2 as u32) << 8) | (b3 as u32)
    }

    pub fn usize(&mut self) -> (r: usize)
        ensures
            r == be8_at(old(self).data(), old(self).position() as int) as usize,
            final(self).data() == old(self).data(),
            final(self).position() == stepped(old(self).position() as int, 8, old(self).data().len() as int),
    {
        let b0 = self.next_byte();
        let b1 = self.next_byte();
        let b2 = self.next_byte();
        let b3 = self.next_byte();
        let b4 = self.next_byte();
        let b5 = self.next_byte();
        let b6 = self.next_byte();
        let b7 = self.next_byte();
        let v: u64 = ((b0 as u64) << 56) | ((b1 as u64) << 48) | ((b2 as u64) << 40) | ((b3 as u64)
            << 32) | ((b4 as u64) << 24) | ((b5 as u64) << 16) | ((b6 as u64) << 8) | (b7 as u64);
        #[verifier::truncate] (v as usize)
    }

    pub fn i32(&mut self) -> (r: i32)
        ensures
            r == be4_at(old(self).data(), old(self).position() as int) as i32,
            final(self).data() == old(self).data(),
            final(self).position() == stepped(old(self).position() as int, 4, old(self).data().len() as int),
    {
        let v = self.single();
        v as i32
    }

    /// Reads an 8-byte index and converts it through `From<usize>`.
    pub fn indexed<T: From<usize>>(&mut self) -> (r: T)
        ensures
            <T as vstd::std_specs::convert::FromSpec<usize>>::obeys_from_spec() ==> r == <T as vstd::std_specs::convert::FromSpec<usize>>::from_spec(
                be8_at(old(self).data(), old(self).position() as int) as usize,
            ),
            final(self).data() == old(self).data(),
            final(self).position() == stepped(old(self).position() as int, 8, old(self).data().len() as int),
    {
        let v = self.usize();
        T::from(v)
    }

    /// Gives the walked slice back.
    pub fn cursor(self) -> (r: &'a [u8])
        ensures
            r@ == self.data(),
    {
        self.bytes
    }

    pub fn pos(&self) -> (r: usize)
        ensures
            r == self.position(),
    {
        self.pos
    }
}

/// An append-only byte buffer the model format is written into.
pub struct VecWriter {
    vec: Vec<u8>,
}

impl View for VecWriter {
    type V = Seq<u8>;

    closed spec fn view(&self) -> Seq<u8> {
        self.vec@
    }
}

impl VecWriter {
    pub fn new() -> (r: VecWriter)
        ensures
            r@ == Seq::<u8>::empty(),
    {
        VecWriter { vec: Vec::new() }
    }

    pub fn vec(self) -> (r: Vec<u8>)
        ensures
            r@ == self@,
    {
        self.vec
    }

    fn write(&mut self, v: &[u8])
        ensures
            final(self)@ == old(self)@ + v@,
    {
        let mut i: usize = 0;
        assert(self@ =~= old(self)@ + v@.subrange(0, 0));
        while i < v.len()
            invariant
                i <= v@.len(),
                self@ == old(self)@ + v@.subrange(0, i as int),
            decreases v@.len() - i,
        {
            self.vec.push(v[i]);
            i = i + 1;
            assert(self@ =~= old(self)@ + v@.subrange(0, i as int));
        }
        assert(v@.subrange(0, v@.len() as int) =~= v@);
    }

    /// Appends the four big-endian bytes of an IEEE single's bits.
    pub fn single(&mut self, v: u32)
        ensures
            final(self)@ == old(self)@ + be4_of(v),
    {
        let bytes: [u8; 4] = [(v >> 24) as u8, (v >> 16) as u8, (v >> 8) as u8, v as u8];
        self.write(bytes.as_slice());
        assert(bytes@ == be4_of(v));
    }

    /// Appends eight big-endian bytes; a size never reaches 2^64.
    pub fn usize(&mut self, v: usize)
        ensures
            final(self)@ == old(self)@ + be8_of(v as u64),
    {
        let w = v as u64;
        let bytes: [u8; 8] = [
            (w >> 56) as u8,
            (w >> 48) as u8,
            (w >> 40) as u8,
            (w >> 32) as u8,
            (w >> 24) as u8,
            (w >> 16) as u8,
            (w >> 8) as u8,
            w as u8,
        ];
        self.write(bytes.as_slice());
        assert(bytes@ == be8_of(w));
    }

    pub fn i32(&mut self, v: i32)
        ensures
            final(self)@ == old(self)@ + be4_of(v as u32),
    {
        self.single(v as u32);
    }

    /// Appends an 8-byte index read from anything that converts to one.
    pub fn index<T: Into<usize>>(&mut self, v: T)
        ensures
            <T as vstd::std_specs::convert::IntoSpec<usize>>::obeys_into_spec() ==> final(self)@
                == old(self)@ + be8_of(
                <T as vstd::std_specs::convert::IntoSpec<usize>>::into_spec(v) as u64,
            ),
    {
        let n: usize = v.into();
        self.usize(n);
    }

    pub fn len(&self) -> (r: usize)
        ensures
            r == self@.len(),
    {
        self.vec.len()
    }

    /// A capacity hint; the contents do not change.
    pub fn reserve(&mut self, len: usize)
        ensures
            final(self)@ == old(self)@,
    {
        self.vec.reserve(len);
    }
}

} // verus!
