//! A fixed buffer on the stack for the bytes that follow a prefix byte.
use vstd::prelude::*;

verus! {

/// Capacity of a [`RestBuf`]: the longest varint is nine bytes.
pub const MAX_SIZE: usize = 9;

/// Up to [`MAX_SIZE`] bytes, of which the first `size` are in use.
pub struct RestBuf {
    size: usize,
    buf: [u8; MAX_SIZE],
}

impl View for RestBuf {
    type V = Seq<u8>;

    closed spec fn view(&self) -> Seq<u8> {
        self.buf@.take(self.size as int)
    }
}

impl RestBuf {
    #[verifier::type_invariant]
    spec fn inv(&self) -> bool {
        self.size <= MAX_SIZE
    }

    /// A buffer of `size` zero bytes.
    pub fn new(size: usize) -> (r: Self)
        requires
            size <= MAX_SIZE,
        ensures
            r@ == Seq::new(size as nat, |i: int| 0u8),
    {
        let r = Self { size, buf: [0u8; MAX_SIZE] };
        assert(r@ =~= Seq::new(size as nat, |i: int| 0u8));
        r
    }

    /// A buffer holding a copy of `src`.
    pub fn from_slice(src: &[u8]) -> (r: Self)
        requires
            src@.len() <= MAX_SIZE,
        ensures
            r@ == src@,
    {
        let mut r = Self::new(src.len());
        let mut i: usize = 0;
        while i < src.len()
            invariant
                i <= src@.len() <= MAX_SIZE,
                r@.len() == src@.len(),
                forall|j: int| 0 <= j < i ==> r@[j] == src@[j],
            decreases src@.len() - i,
        {
            r.set(i, src[i]);
            i = i + 1;
        }
        assert(r@ =~= src@);
        r
    }

    /// Number of bytes in use.
    pub fn len(&self) -> (r: usize)
        ensures
            r == self@.len(),
            r <= MAX_SIZE,
    {
        proof {
            use_type_invariant(self);
        }
        self.size
    }

    /// The byte at `i`.
    pub fn get(&self, i: usize) -> (r: u8)
        requires
            i < self@.len(),
        ensures
            r == self@[i as int],
    {
        proof {
            use_type_invariant(self);
        }
        self.buf[i]
    }

    /// Replaces the byte at `i` with `byte`.
    pub fn set(&mut self, i: usize, byte: u8)
        requires
            i < old(self)@.len(),
        ensures
            final(self)@ == old(self)@.update(i as int, byte),
    {
        proof {
            use_type_invariant(&*self);
        }
        self.buf[i] = byte;
        assert(self@ =~= old(self)@.update(i as int, byte));
    }
}

} // verus!
