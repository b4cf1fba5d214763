use vstd::math::min;
use vstd::prelude::*;
use vstd::slice::slice_subrange;

verus! {

/// `s` with every index in `[from, to)` set to `v`; an empty range leaves `s`
/// as it is.
pub open spec fn fill(s: Seq<u8>, from: int, to: int, v: u8) -> Seq<u8> {
    Seq::new(s.len(), |i: int| if from <= i < to { v } else { s[i] })
}

/// `s` with the bytes of `b` written over it from index `at` on.
pub open spec fn splice(s: Seq<u8>, at: int, b: Seq<u8>) -> Seq<u8> {
    Seq::new(s.len(), |i: int| if at <= i < at + b.len() { b[i - at] } else { s[i] })
}

/// The content `v` resized to `n`: its prefix of length `n` when `n` is
/// within it, else `v` followed by copies of `val` up to length `n`.
pub open spec fn resized(v: Seq<u8>, n: usize, val: u8) -> Seq<u8> {
    if n <= v.len() {
        v.subrange(0, n as int)
    } else {
        v + Seq::new((n - v.len()) as nat, |_i: int| val)
    }
}

/// `after` is `before` truncated to `n`: the region is untouched and the
/// logical length is the smaller of the old one and `n`.
pub open spec fn is_truncation<B: PacketBuffer>(before: Packet<B>, after: Packet<B>, n: usize) -> bool {
    &&& after.storage() == before.storage()
    &&& after.logical_len() == min(before.logical_len() as int, n as int)
}

/// Truncating twice to the same length leaves the packet in the state that
/// truncating once does.
pub proof fn lemma_truncate_idempotent<B: PacketBuffer>(
    p: Packet<B>,
    once: Packet<B>,
    twice: Packet<B>,
    n: usize,
)
    requires
        p.well_formed(),
        is_truncation(p, once, n),
        is_truncation(once, twice, n),
    ensures
        twice.storage() == once.storage(),
        twice.logical_len() == once.logical_len(),
        twice@ == once@,
{
}

/// A length that does not fit in a packet's region.
#[derive(Clone, Copy, Debug, PartialEq, Eq, Structural)]
pub struct CapacityError;

/// A byte region that a packet can own: readable and writable as a slice.
pub trait PacketBuffer {
    /// The bytes of the region.
    spec fn bytes(&self) -> Seq<u8>;

    /// The region as a byte slice.
    fn as_slice(&self) -> (r: &[u8])
        ensures
            r@ == self.bytes(),
    ;

    /// The region as a mutable byte slice; the region ends up holding what
    /// the slice holds when the borrow ends.
    fn as_mut_slice(&mut self) -> (r: &mut [u8])
        ensures
            r@ == old(self).bytes(),
            final(self).bytes() == final(r)@,
    ;
}

impl PacketBuffer for Vec<u8> {
    open spec fn bytes(&self) -> Seq<u8> {
        self@
    }

    fn as_slice(&self) -> (r: &[u8]) {
        Vec::as_slice(self)
    }

    fn as_mut_slice(&mut self) -> (r: &mut [u8]) {
        Vec::as_mut_slice(self)
    }
}

/// A source of byte regions, all of one fixed length.
pub trait BufferPool {
    /// The kind of region this pool hands out.
    type Buffer: PacketBuffer;

    /// The length of every buffer this pool hands out.
    spec fn buffer_len(&self) -> nat;

    /// Hands out a buffer for the caller's exclusive use.
    fn acquire(&self) -> (buffer: Self::Buffer)
        ensures
            buffer.bytes().len() == self.buffer_len(),
    ;
}

/// A buffer pool that allocates a fresh buffer on every request.
#[derive(Clone, Copy, Debug)]
pub struct HeapBufferPool {
    len: usize,
}

impl HeapBufferPool {
    /// A pool whose buffers are `len` bytes long.
    pub fn new(len: usize) -> (r: Self)
        ensures
            r.buffer_len() == len,
    {
        HeapBufferPool { len }
    }
}

impl BufferPool for HeapBufferPool {
    type Buffer = Vec<u8>;

    closed spec fn buffer_len(&self) -> nat {
        self.len as nat
    }

    fn acquire(&self) -> (buffer: Vec<u8>) {
        let mut buffer: Vec<u8> = Vec::with_capacity(self.len);
        let mut i: usize = 0;
        while i < self.len
            invariant
                i <= self.len,
                buffer@.len() == i,
            decreases self.len - i,
        {
            buffer.push(0);
            i = i + 1;
        }
        buffer
    }
}

/// Hands out packets whose regions come from one buffer pool.
#[derive(Clone, Debug, Default)]
pub struct PacketPool<P>(P);

impl<P> PacketPool<P> {
    /// The buffer pool that the packets' regions come from.
    pub closed spec fn buffer_pool(&self) -> P {
        self.0
    }

    /// A packet pool drawing its regions from `buffer_pool`.
    pub fn new(buffer_pool: P) -> (r: Self)
        ensures
            r.buffer_pool() == buffer_pool,
    {
        PacketPool(buffer_pool)
    }
}

impl<P: BufferPool> PacketPool<P> {
    /// An empty packet over a buffer taken from the pool.
    pub fn acquire(&self) -> (r: Packet<P::Buffer>)
        ensures
            r.well_formed(),
            r.logical_len() == 0,
            r@ == Seq::<u8>::empty(),
            r.spec_capacity() == self.buffer_pool().buffer_len(),
    {
        let r = Packet { buffer: self.0.acquire(), len: 0 };
        assert(r@ =~= Seq::<u8>::empty());
        r
    }
}

/// A packet: an owned byte region of fixed capacity and a logical length.
///
/// The content of the packet is the prefix `buffer[0..len]`; the bytes past
/// `len` are kept but never shown through the packet's views.
#[derive(Debug)]
pub struct Packet<B> {
    buffer: B,
    len: usize,
}

impl<B: PacketBuffer> View for Packet<B> {
    type V = Seq<u8>;

    /// The visible content: the first `len` bytes of the region.
    closed spec fn view(&self) -> Seq<u8> {
        self.buffer.bytes().subrange(0, self.len as int)
    }
}

impl<B: PacketBuffer> Packet<B> {
    /// The logical length lies within the region, and the visible content is
    /// the region's prefix of that length.
    pub open spec fn well_formed(&self) -> bool {
        &&& self.logical_len() <= self.spec_capacity()
        &&& self@ == self.storage().subrange(0, self.logical_len() as int)
        &&& self@.len() == self.logical_len()
    }

    /// Every byte of the region, visible or not.
    pub closed spec fn storage(&self) -> Seq<u8> {
        self.buffer.bytes()
    }

    /// The logical length.
    pub closed spec fn logical_len(&self) -> nat {
        self.len as nat
    }

    /// The fixed capacity: the length of the region.
    pub open spec fn spec_capacity(&self) -> nat {
        self.storage().len()
    }

    /// The length of the visible content.
    pub fn len(&self) -> (r: usize)
        requires
            self.well_formed(),
        ensures
            r == self@.len(),
            r == self.logical_len(),
    {
        self.len
    }

    /// The capacity of this packet, which never changes.
    pub fn capacity(&self) -> (r: usize)
        requires
            self.well_formed(),
        ensures
            r == self.spec_capacity(),
    {
        self.buffer.as_slice().len()
    }

    /// Empties the packet; the bytes of the region are left as they are.
    pub fn clear(&mut self)
        requires
            old(self).well_formed(),
        ensures
            final(self).well_formed(),
            final(self)@ == Seq::<u8>::empty(),
            final(self).logical_len() == 0,
            final(self).storage() == old(self).storage(),
    {
        self.len = 0;
        assert(self@ =~= Seq::<u8>::empty());
    }

    /// Sets the logical length to `len`. Growing writes `val` into every byte
    /// from the old length up to `len`; shrinking writes nothing.
    pub fn resize(&mut self, len: usize, val: u8)
        requires
            old(self).well_formed(),
            len <= old(self).spec_capacity(),
        ensures
            final(self).well_formed(),
            final(self).storage() == fill(
                old(self).storage(),
                old(self).logical_len() as int,
                len as int,
                val,
            ),
            final(self).logical_len() == len,
            final(self).spec_capacity() == old(self).spec_capacity(),
            final(self)@ == resized(old(self)@, len, val),
            final(self)@.len() == len,
            forall|i: int| old(self)@.len() <= i < len ==> final(self)@[i] == val,
            forall|i: int| 0 <= i < old(self)@.len() && i < len ==> final(self)@[i] == old(self)@[i],
    {
        let ghost start = self.len as int;
        let mut i: usize = self.len;
        while i < len
            invariant
                self.len == start,
                start <= i,
                i <= len || i == start,
                len <= self.buffer.bytes().len(),
                self.buffer.bytes() =~= fill(old(self).buffer.bytes(), start, i as int, val),
            decreases len - i,
        {
            let region = self.buffer.as_mut_slice();
            region[i] = val;
            i = i + 1;
        }
        assert(self.buffer.bytes() =~= fill(old(self).buffer.bytes(), start, len as int, val));
        self.len = len;
        assert(self@ =~= resized(old(self)@, len, val));
    }

    /// Lowers the logical length to `len` if it is above it; the bytes of the
    /// region are left as they are.
    pub fn truncate(&mut self, len: usize)
        requires
            old(self).well_formed(),
        ensures
            final(self).well_formed(),
            is_truncation(*old(self), *final(self), len),
            final(self).spec_capacity() == old(self).spec_capacity(),
            final(self)@ == old(self)@.subrange(0, min(old(self)@.len() as int, len as int)),
    {
        if len < self.len {
            self.len = len;
        }
        assert(self@ =~= old(self)@.subrange(0, self.len as int));
    }

    /// Appends `other` to the content, writing it into the region just past
    /// the old logical length.
    pub fn extend(&mut self, other: &[u8])
        requires
            old(self).well_formed(),
            old(self)@.len() + other@.len() <= old(self).spec_capacity(),
        ensures
            final(self).well_formed(),
            final(self).spec_capacity() == old(self).spec_capacity(),
            final(self).storage() == splice(
                old(self).storage(),
                old(self).logical_len() as int,
                other@,
            ),
            final(self).logical_len() == old(self).logical_len() + other@.len(),
            final(self)@ == old(self)@ + other@,
    {
        let start = self.len;
        let cap = self.buffer.as_slice().len();
        let mut j: usize = 0;
        while j < other.len()
            invariant
                self.len == start,
                self.buffer.bytes().len() == cap,
                start + other@.len() <= self.buffer.bytes().len(),
                j <= other@.len(),
                self.buffer.bytes() =~= splice(old(self).buffer.bytes(), start as int, other@.subrange(0, j as int)),
            decreases other@.len() - j,
        {
            let region = self.buffer.as_mut_slice();
            region[start + j] = other[j];
            j = j + 1;
        }
        assert(other@.subrange(0, other@.len() as int) =~= other@);
        self.len = start + other.len();
        assert(self@ =~= old(self)@ + other@);
    }

    /// Resizes as `resize` does where `len` fits in the region; otherwise
    /// fails and leaves the packet as it was.
    pub fn try_resize(&mut self, len: usize, val: u8) -> (r: Result<(), CapacityError>)
        requires
            old(self).well_formed(),
        ensures
            final(self).well_formed(),
            final(self).spec_capacity() == old(self).spec_capacity(),
            r is Ok <==> len <= old(self).spec_capacity(),
            r is Ok ==> final(self).storage() == fill(
                old(self).storage(),
                old(self).logical_len() as int,
                len as int,
                val,
            ) && final(self).logical_len() == len && final(self)@ == resized(old(self)@, len, val),
            r is Err ==> final(self).storage() == old(self).storage() && final(self).logical_len()
                == old(self).logical_len() && final(self)@ == old(self)@,
    {
        if len <= self.capacity() {
            self.resize(len, val);
            Ok(())
        } else {
            Err(CapacityError)
        }
    }

    /// Appends as `extend` does where `other` fits after the content;
    /// otherwise fails and leaves the packet as it was.
    pub fn try_extend(&mut self, other: &[u8]) -> (r: Result<(), CapacityError>)
        requires
            old(self).well_formed(),
        ensures
            final(self).well_formed(),
            final(self).spec_capacity() == old(self).spec_capacity(),
            r is Ok <==> old(self)@.len() + other@.len() <= old(self).spec_capacity(),
            r is Ok ==> final(self).storage() == splice(
                old(self).storage(),
                old(self).logical_len() as int,
                other@,
            ) && final(self).logical_len() == old(self).logical_len() + other@.len() && final(self)@
                == old(self)@ + other@,
            r is Err ==> final(self).storage() == old(self).storage() && final(self).logical_len()
                == old(self).logical_len() && final(self)@ == old(self)@,
    {
        if other.len() <= self.capacity() - self.len {
            self.extend(other);
            Ok(())
        } else {
            Err(CapacityError)
        }
    }

    /// The content as a byte slice, as long as the logical length.
    pub fn as_slice(&self) -> (r: &[u8])
        requires
            self.well_formed(),
        ensures
            r@ == self@,
            r@.len() == self.logical_len(),
            r@.len() <= self.spec_capacity(),
    {
        slice_subrange(self.buffer.as_slice(), 0, self.len)
    }

    /// The content as a mutable byte slice, as long as the logical length.
    /// Writes through it land in the visible prefix of the region; the rest
    /// of the region and the logical length stay as they were. The packet
    /// stays well formed, with the slice's final bytes as its content,
    /// whenever the slice keeps its length.
    pub fn as_mut_slice(&mut self) -> (r: &mut [u8])
        requires
            old(self).well_formed(),
        ensures
            r@ == old(self)@,
            final(self).logical_len() == old(self).logical_len(),
            final(self).storage() == final(r)@ + old(self).storage().subrange(
                old(self).logical_len() as int,
                old(self).spec_capacity() as int,
            ),
            final(r)@.len() == r@.len() ==> final(self).well_formed() && final(self)@ == final(r)@
                && final(self).spec_capacity() == old(self).spec_capacity(),
    {
        let len = self.len;
        let (head, _tail) = self.buffer.as_mut_slice().split_at_mut(len);
        head
    }
}

} // verus!
