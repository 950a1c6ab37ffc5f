//! The buffer engine: a growable byte sequence with a read cursor and an
//! ambient byte order. Writes always append at the end; reads advance the
//! cursor and never pass the end of the content.

use vstd::prelude::*;
use vstd::std_specs::convert::{FromSpec, FromSpecImpl};

use crate::bytes::{
    be_bytes, be_val, le_bytes, le_val, lemma_be_val_bound, lemma_le_val_bound, lemma_pow256_mono,
    lemma_pow256_values, pow256,
};

verus! {

/// The two byte orders a buffer can be set to. The buffer's current mode
/// governs the ambient primitive operations; the explicit little/big
/// operations bypass it.
#[derive(Clone, Copy, PartialEq, Eq, Structural, Debug)]
pub enum Endianness {
    Little,
    Big,
}

impl Default for Endianness {
    /// The default byte order is little-endian.
    fn default() -> (r: Self)
        ensures
            r == Endianness::Little,
    {
        Endianness::Little
    }
}

/// An endianness-aware, cursor-based byte buffer.
#[derive(Debug)]
pub struct ByteBuf {
    endianness: Endianness,
    position: usize,
    data: Vec<u8>,
}

impl ByteBuf {
    /// The full content of the buffer, read and unread alike.
    pub closed spec fn bytes(&self) -> Seq<u8> {
        self.data@
    }

    /// The ambient byte order.
    pub closed spec fn mode(&self) -> Endianness {
        self.endianness
    }

    /// The read cursor: the offset of the next byte available to a read.
    pub closed spec fn pos(&self) -> int {
        self.position as int
    }

    /// Well-formedness: the cursor never lies past the end of the content.
    /// Every constructor establishes this and every operation preserves it.
    pub open spec fn wf(&self) -> bool {
        0 <= self.pos() <= self.bytes().len()
    }

    /// The bytes at and after the cursor: what is left to read.
    pub open spec fn unread(&self) -> Seq<u8>
        recommends
            self.wf(),
    {
        self.bytes().subrange(self.pos(), self.bytes().len() as int)
    }

    /// An empty little-endian buffer.
    pub fn new() -> (r: Self)
        ensures
            r.wf(),
            r.bytes() == Seq::<u8>::empty(),
            r.pos() == 0,
            r.mode() == Endianness::Little,
    {
        ByteBuf { endianness: Endianness::Little, position: 0, data: Vec::new() }
    }

    /// An empty buffer with the given byte order.
    pub fn with_endianness(endianness: Endianness) -> (r: Self)
        ensures
            r.wf(),
            r.bytes() == Seq::<u8>::empty(),
            r.pos() == 0,
            r.mode() == endianness,
    {
        ByteBuf { endianness, position: 0, data: Vec::new() }
    }

    /// An empty little-endian buffer with room reserved for `capacity` bytes.
    pub fn with_capacity(capacity: usize) -> (r: Self)
        ensures
            r.wf(),
            r.bytes() == Seq::<u8>::empty(),
            r.pos() == 0,
            r.mode() == Endianness::Little,
    {
        ByteBuf { endianness: Endianness::Little, position: 0, data: Vec::with_capacity(capacity) }
    }

    /// A little-endian buffer holding `len` zero bytes, cursor at the start.
    pub fn with_zeored(len: usize) -> (r: Self)
        ensures
            r.wf(),
            r.bytes() == Seq::new(len as nat, |i: int| 0u8),
            r.pos() == 0,
            r.mode() == Endianness::Little,
    {
        let mut data: Vec<u8> = Vec::new();
        let mut i: usize = 0;
        while i < len
            invariant
                i <= len,
                data@ == Seq::new(i as nat, |j: int| 0u8),
            decreases len - i,
        {
            data.push(0);
            i += 1;
            proof {
                assert(data@ =~= Seq::new(i as nat, |j: int| 0u8));
            }
        }
        ByteBuf { endianness: Endianness::Little, position: 0, data }
    }

    /// Change the ambient byte order; content and cursor stay as they are.
    pub fn set_endianness(&mut self, endianness: Endianness)
        ensures
            final(self).bytes() == old(self).bytes(),
            final(self).pos() == old(self).pos(),
            final(self).mode() == endianness,
    {
        self.endianness = endianness;
    }

    /// A read-only view over the full content.
    pub fn inner(&self) -> (r: &[u8])
        ensures
            r@ == self.bytes(),
    {
        self.data.as_slice()
    }

    /// A mutable view over the full content. A slice cannot change the
    /// content's length, only its bytes.
    pub fn inner_mut(&mut self) -> (r: &mut [u8])
        ensures
            r@ == old(self).bytes(),
            final(r)@ == final(self).bytes(),
            final(self).pos() == old(self).pos(),
            final(self).mode() == old(self).mode(),
    {
        self.data.as_mut_slice()
    }

    /// The buffer's current byte order, for the ambient operations.
    pub(crate) fn ambient(&self) -> (r: Endianness)
        ensures
            r == self.mode(),
    {
        self.endianness
    }

    /// Bounds-checked exact read: `LEN` bytes, advancing the cursor, exactly
    /// when `LEN` bytes are left; otherwise absence with no cursor movement.
    pub fn read_exact<const LEN: usize>(&mut self) -> (r: Option<[u8; LEN]>)
        requires
            old(self).wf(),
        ensures
            final(self).wf(),
            final(self).bytes() == old(self).bytes(),
            final(self).mode() == old(self).mode(),
            r is Some <==> old(self).pos() + LEN <= old(self).bytes().len(),
            match r {
                Some(a) => final(self).pos() == old(self).pos() + LEN && a@ == old(self).unread().take(
                    LEN as int,
                ),
                None => final(self).pos() == old(self).pos(),
            },
    {
        if LEN > self.data.len() - self.position {
            return None;
        }
        proof {
            assert(self.data.len() <= usize::MAX);
        }
        let mut out: [u8; LEN] = [0u8; LEN];
        let mut i: usize = 0;
        while i < LEN
            invariant
                i <= LEN,
                old(self).wf(),
                *self == *old(self),
                old(self).pos() + LEN <= old(self).bytes().len(),
                old(self).bytes().len() <= usize::MAX,
                out@.len() == LEN,
                forall|j: int| 0 <= j < i ==> out@[j] == old(self).bytes()[old(self).pos() + j],
            decreases LEN - i,
        {
            let b = self.data[self.position + i];
            out[i] = b;
            i += 1;
        }
        self.position = self.position + LEN;
        proof {
            assert(out@ =~= old(self).unread().take(LEN as int));
        }
        Some(out)
    }

    /// Variable-length read: `len` bytes, advancing the cursor, but only
    /// while the cursor would stay strictly short of the end; the trailing
    /// bytes of the buffer can never be read through this path.
    pub fn read_bytes(&mut self, len: usize) -> (r: Option<Vec<u8>>)
        requires
            old(self).wf(),
        ensures
            final(self).wf(),
            final(self).bytes() == old(self).bytes(),
            final(self).mode() == old(self).mode(),
            r is Some <==> old(self).pos() + len < old(self).bytes().len(),
            match r {
                Some(v) => final(self).pos() == old(self).pos() + len && v@ == old(self).unread().take(
                    len as int,
                ),
                None => final(self).pos() == old(self).pos(),
            },
    {
        if len >= self.data.len() - self.position {
            return None;
        }
        proof {
            assert(self.data.len() <= usize::MAX);
        }
        let mut out: Vec<u8> = Vec::new();
        let mut i: usize = 0;
        while i < len
            invariant
                i <= len,
                old(self).wf(),
                *self == *old(self),
                old(self).pos() + len < old(self).bytes().len(),
                old(self).bytes().len() <= usize::MAX,
                out@.len() == i,
                forall|j: int| 0 <= j < i ==> out@[j] == old(self).bytes()[old(self).pos() + j],
            decreases len - i,
        {
            let b = self.data[self.position + i];
            out.push(b);
            i += 1;
        }
        self.position = self.position + len;
        proof {
            assert(out@ =~= old(self).unread().take(len as int));
        }
        Some(out)
    }

    /// Single-byte read: succeeds exactly while the cursor is short of the
    /// end; on failure the cursor does not move.
    pub fn read_u8(&mut self) -> (r: Option<u8>)
        requires
            old(self).wf(),
        ensures
            final(self).wf(),
            final(self).bytes() == old(self).bytes(),
            final(self).mode() == old(self).mode(),
            r is Some <==> old(self).pos() < old(self).bytes().len(),
            match r {
                Some(b) => final(self).pos() == old(self).pos() + 1 && b == old(self).bytes()[old(
                    self,
                ).pos()],
                None => final(self).pos() == old(self).pos(),
            },
    {
        if self.position >= self.data.len() {
            return None;
        }
        let byte = self.data[self.position];
        self.position = self.position + 1;
        Some(byte)
    }

    /// Boolean read: consumes one byte; the byte 1 decodes to `true` and
    /// every other byte value decodes to `false` - never to absence.
    pub fn read_bool(&mut self) -> (r: Option<bool>)
        requires
            old(self).wf(),
        ensures
            final(self).wf(),
            final(self).bytes() == old(self).bytes(),
            final(self).mode() == old(self).mode(),
            r is Some <==> old(self).pos() < old(self).bytes().len(),
            match r {
                Some(b) => final(self).pos() == old(self).pos() + 1 && b == (old(self).bytes()[old(
                    self,
                ).pos()] == 1),
                None => final(self).pos() == old(self).pos(),
            },
    {
        match self.read_u8() {
            Some(byte) => Some(byte == 1),
            None => None,
        }
    }

    /// Append bytes at the end of the content; infallible, cursor unmoved.
    pub fn write_bytes(&mut self, data: &[u8])
        ensures
            final(self).bytes() == old(self).bytes() + data@,
            final(self).pos() == old(self).pos(),
            final(self).mode() == old(self).mode(),
    {
        let mut i: usize = 0;
        let n = data.len();
        while i < n
            invariant
                i <= n,
                n == data@.len(),
                self.bytes() == old(self).bytes() + data@.take(i as int),
                self.pos() == old(self).pos(),
                self.mode() == old(self).mode(),
            decreases n - i,
        {
            let b = data[i];
            self.data.push(b);
            i += 1;
            proof {
                assert(old(self).bytes() + data@.take(i as int) =~= (old(self).bytes()
                    + data@.take(i - 1)).push(data@[i - 1]));
            }
        }
        proof {
            assert(data@.take(n as int) =~= data@);
        }
    }

    /// Append a single byte at the end of the content.
    pub fn write_u8(&mut self, value: u8)
        ensures
            final(self).bytes() == old(self).bytes().push(value),
            final(self).pos() == old(self).pos(),
            final(self).mode() == old(self).mode(),
    {
        self.data.push(value);
    }

    /// Append a boolean as one byte: 1 for `true`, 0 for `false`.
    pub fn write_bool(&mut self, value: bool)
        ensures
            final(self).bytes() == old(self).bytes().push(if value { 1u8 } else { 0u8 }),
            final(self).pos() == old(self).pos(),
            final(self).mode() == old(self).mode(),
    {
        self.write_u8(if value { 1 } else { 0 });
    }

    /// Reset the cursor to the start and empty the content.
    pub fn clear(&mut self)
        ensures
            final(self).wf(),
            final(self).bytes() == Seq::<u8>::empty(),
            final(self).pos() == 0,
            final(self).mode() == old(self).mode(),
    {
        self.position = 0;
        self.data.clear();
    }

    /// The total content size, read and unread alike.
    pub fn len(&self) -> (r: usize)
        ensures
            r == self.bytes().len(),
    {
        self.data.len()
    }

    /// Whether the content is empty.
    pub fn is_empty(&self) -> (r: bool)
        ensures
            r == (self.bytes().len() == 0),
    {
        self.data.is_empty()
    }

    /// Whether any bytes are left to read.
    pub fn has_remaining(&self) -> (r: bool)
        requires
            self.wf(),
        ensures
            r == (self.unread().len() != 0),
    {
        self.remaining() != 0
    }

    /// How many bytes are left to read: `len - position`.
    pub fn remaining(&self) -> (r: usize)
        requires
            self.wf(),
        ensures
            r == self.unread().len(),
    {
        self.data.len() - self.position
    }

    /// Read `n` bytes as one little-endian value, advancing the cursor,
    /// exactly when `n` bytes are left; otherwise absence, cursor unmoved.
    pub(crate) fn take_le(&mut self, n: usize) -> (r: Option<u128>)
        requires
            old(self).wf(),
            n <= 16,
        ensures
            final(self).wf(),
            final(self).bytes() == old(self).bytes(),
            final(self).mode() == old(self).mode(),
            r is Some <==> old(self).pos() + n <= old(self).bytes().len(),
            match r {
                Some(x) => final(self).pos() == old(self).pos() + n && x as nat == le_val(
                    old(self).unread().take(n as int),
                ),
                None => final(self).pos() == old(self).pos(),
            },
    {
        if n > self.data.len() - self.position {
            return None;
        }
        Some(self.take_le_go(n))
    }

    /// The unconditional part of [`Self::take_le`], recursing on the width:
    /// the first byte read is the least significant.
    fn take_le_go(&mut self, n: usize) -> (r: u128)
        requires
            old(self).wf(),
            n <= 16,
            old(self).pos() + n <= old(self).bytes().len(),
        ensures
            final(self).wf(),
            final(self).bytes() == old(self).bytes(),
            final(self).mode() == old(self).mode(),
            final(self).pos() == old(self).pos() + n,
            r as nat == le_val(old(self).unread().take(n as int)),
        decreases n,
    {
        if n == 0 {
            proof {
                assert(old(self).unread().take(0) =~= Seq::<u8>::empty());
            }
            0
        } else {
            let b = self.data[self.position];
            proof {
                assert(self.data.len() <= usize::MAX);
            }
            self.position = self.position + 1;
            let rest = self.take_le_go(n - 1);
            proof {
                let chunk = old(self).unread().take(n as int);
                let sub = old(self).bytes().subrange(
                    old(self).pos() + 1,
                    old(self).bytes().len() as int,
                ).take(n - 1);
                assert(chunk.drop_first() =~= sub);
                assert(chunk[0] == b);
                lemma_le_val_bound(sub);
                lemma_pow256_mono(sub.len(), 15);
                lemma_pow256_values();
                assert(le_val(chunk) == b + 256 * le_val(sub));
            }
            b as u128 + 256 * rest
        }
    }

    /// Read `n` bytes as one big-endian value, advancing the cursor, exactly
    /// when `n` bytes are left; otherwise absence, cursor unmoved.
    pub(crate) fn take_be(&mut self, n: usize) -> (r: Option<u128>)
        requires
            old(self).wf(),
            n <= 16,
        ensures
            final(self).wf(),
            final(self).bytes() == old(self).bytes(),
            final(self).mode() == old(self).mode(),
            r is Some <==> old(self).pos() + n <= old(self).bytes().len(),
            match r {
                Some(x) => final(self).pos() == old(self).pos() + n && x as nat == be_val(
                    old(self).unread().take(n as int),
                ),
                None => final(self).pos() == old(self).pos(),
            },
    {
        if n > self.data.len() - self.position {
            return None;
        }
        proof {
            assert(self.data.len() <= usize::MAX);
        }
        let ghost chunk = old(self).unread().take(n as int);
        let mut acc: u128 = 0;
        let mut i: usize = 0;
        while i < n
            invariant
                i <= n,
                n <= 16,
                old(self).wf(),
                *self == *old(self),
                old(self).pos() + n <= old(self).bytes().len(),
                old(self).bytes().len() <= usize::MAX,
                chunk == old(self).unread().take(n as int),
                acc as nat == be_val(chunk.take(i as int)),
            decreases n - i,
        {
            proof {
                assert(chunk.take(i as int).len() == i);
                lemma_be_val_bound(chunk.take(i as int));
                lemma_pow256_mono(i as nat, 15);
                lemma_pow256_values();
            }
            let b = self.data[self.position + i];
            proof {
                assert(chunk.take(i + 1).drop_last() =~= chunk.take(i as int));
                assert(chunk.take(i + 1).last() == b);
            }
            acc = acc * 256 + b as u128;
            i += 1;
        }
        self.position = self.position + n;
        proof {
            assert(chunk.take(n as int) =~= chunk);
        }
        Some(acc)
    }

    /// Append the `n`-byte little-endian encoding of `v` at the end of the
    /// content; the least significant byte goes first.
    pub(crate) fn put_le(&mut self, v: u128, n: usize)
        requires
            (v as nat) < pow256(n as nat),
        ensures
            final(self).bytes() == old(self).bytes() + le_bytes(v as nat, n as nat),
            final(self).pos() == old(self).pos(),
            final(self).mode() == old(self).mode(),
        decreases n,
    {
        if n > 0 {
            self.data.push((v % 256) as u8);
            self.put_le(v / 256, n - 1);
            proof {
                assert(old(self).bytes() + le_bytes(v as nat, n as nat) =~= (old(
                    self,
                ).bytes().push((v % 256) as u8)) + le_bytes((v / 256) as nat, (n - 1) as nat));
            }
        } else {
            proof {
                assert(old(self).bytes() + le_bytes(v as nat, 0) =~= old(self).bytes());
            }
        }
    }

    /// Append the `n`-byte big-endian encoding of `v` at the end of the
    /// content; the most significant byte goes first.
    pub(crate) fn put_be(&mut self, v: u128, n: usize)
        requires
            (v as nat) < pow256(n as nat),
        ensures
            final(self).bytes() == old(self).bytes() + be_bytes(v as nat, n as nat),
            final(self).pos() == old(self).pos(),
            final(self).mode() == old(self).mode(),
        decreases n,
    {
        if n > 0 {
            self.put_be(v / 256, n - 1);
            self.data.push((v % 256) as u8);
            proof {
                assert(old(self).bytes() + be_bytes(v as nat, n as nat) =~= (old(self).bytes()
                    + be_bytes((v / 256) as nat, (n - 1) as nat)).push((v % 256) as u8));
            }
        } else {
            proof {
                assert(old(self).bytes() + be_bytes(v as nat, 0) =~= old(self).bytes());
            }
        }
    }
}

impl Default for ByteBuf {
    /// Same as [`ByteBuf::new`]: empty, little-endian, cursor at the start.
    fn default() -> (r: Self)
        ensures
            r.wf(),
            r.bytes() == Seq::<u8>::empty(),
            r.pos() == 0,
            r.mode() == Endianness::Little,
    {
        ByteBuf::new()
    }
}

impl From<Vec<u8>> for ByteBuf {
    /// Wrap an existing byte sequence: little-endian, cursor at the start.
    fn from(value: Vec<u8>) -> (r: Self) {
        ByteBuf { endianness: Endianness::Little, position: 0, data: value }
    }
}

impl vstd::std_specs::convert::FromSpecImpl<Vec<u8>> for ByteBuf {
    open spec fn obeys_from_spec() -> bool {
        true
    }

    closed spec fn from_spec(v: Vec<u8>) -> Self {
        ByteBuf { endianness: Endianness::Little, position: 0, data: v }
    }
}

/// What wrapping a byte sequence yields: the sequence as content,
/// little-endian, cursor at the start.
pub proof fn lemma_from_vec(v: Vec<u8>)
    ensures
        <ByteBuf as FromSpec<Vec<u8>>>::from_spec(v).wf(),
        <ByteBuf as FromSpec<Vec<u8>>>::from_spec(v).bytes() == v@,
        <ByteBuf as FromSpec<Vec<u8>>>::from_spec(v).pos() == 0,
        <ByteBuf as FromSpec<Vec<u8>>>::from_spec(v).mode() == Endianness::Little,
{
}

} // verus!
