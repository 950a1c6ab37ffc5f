//! The primitive codec contract: one decode and one encode operation per
//! type, shared by primitives and records alike. A record's codec delegates
//! to its fields' codecs through this contract alone, so the contract pins
//! everything the composition needs: what bytes a value writes, and that a
//! decode yields exactly the value whose wire bytes lie at the cursor.

use vstd::prelude::*;

use crate::buf::{ByteBuf, Endianness};
use crate::bytes::{
    be_bytes, le_bytes, lemma_be_bytes_len, lemma_be_round_trip, lemma_le_bytes_len,
    lemma_le_round_trip, lemma_pow256_values, lemma_signed_round_trip, to_unsigned,
};
use crate::num::chunk_bytes;

verus! {

/// Encoding half of the codec contract. `wire` names the bytes a value puts
/// on the wire under a byte order; `into_bytes` appends exactly those bytes
/// and cannot fail.
pub trait IntoBytes: Sized {
    /// The wire format of this value under byte order `m`.
    spec fn wire(self, m: Endianness) -> Seq<u8>;

    /// Append this value's wire bytes at the end of the buffer's content.
    /// The cursor and the byte order stay as they are.
    fn into_bytes(self, buf: &mut ByteBuf)
        requires
            old(buf).wf(),
        ensures
            final(buf).wf(),
            final(buf).bytes() == old(buf).bytes() + self.wire(old(buf).mode()),
            final(buf).pos() == old(buf).pos(),
            final(buf).mode() == old(buf).mode(),
    ;
}

/// Decoding half of the codec contract. Absence is the only failure, and
/// bytes consumed before a failure stay consumed - there is no rewind.
pub trait FromBytes: IntoBytes {
    /// Decode one value from the cursor onward. Whenever the unread bytes
    /// begin with the wire format of some value `v`, the decode yields
    /// exactly `v`; on success the cursor advances by exactly the width of
    /// the returned value's wire format.
    fn from_bytes(buf: &mut ByteBuf) -> (r: Option<Self>)
        requires
            old(buf).wf(),
        ensures
            final(buf).wf(),
            final(buf).bytes() == old(buf).bytes(),
            final(buf).mode() == old(buf).mode(),
            old(buf).pos() <= final(buf).pos(),
            match r {
                Some(v) => final(buf).pos() == old(buf).pos() + v.wire(old(buf).mode()).len(),
                None => true,
            },
            forall|v: Self| (#[trigger] v.wire(old(buf).mode())).is_prefix_of(old(buf).unread())
                ==> r == Some(v),
    ;
}

/// A single byte is its own wire format, whatever the byte order.
impl IntoBytes for u8 {
    open spec fn wire(self, m: Endianness) -> Seq<u8> {
        seq![self]
    }

    fn into_bytes(self, buf: &mut ByteBuf) {
        buf.write_u8(self);
        proof {
            assert(old(buf).bytes() + seq![self] =~= old(buf).bytes().push(self));
        }
    }
}

impl FromBytes for u8 {
    fn from_bytes(buf: &mut ByteBuf) -> (r: Option<Self>) {
        let r = buf.read_u8();
        proof {
            let pre = old(buf).unread();
            assert forall|v: u8| (#[trigger] v.wire(old(buf).mode())).is_prefix_of(pre)
                implies r == Some(v) by {
                let w = v.wire(old(buf).mode());
                assert(w == seq![v]);
                assert(w.len() == 1);
                assert(w == pre.subrange(0, 1));
                assert(pre.subrange(0, 1)[0] == pre[0]);
                assert(pre[0] == v);
            }
        }
        r
    }
}

/// A boolean is one wire byte: 1 for `true`, 0 for `false`. Decoding maps
/// the byte 1 to `true` and every other byte to `false`, never to absence.
impl IntoBytes for bool {
    open spec fn wire(self, m: Endianness) -> Seq<u8> {
        seq![if self { 1u8 } else { 0u8 }]
    }

    fn into_bytes(self, buf: &mut ByteBuf) {
        buf.write_bool(self);
        proof {
            let b: u8 = if self { 1 } else { 0 };
            assert(old(buf).bytes() + seq![b] =~= old(buf).bytes().push(b));
        }
    }
}

impl FromBytes for bool {
    fn from_bytes(buf: &mut ByteBuf) -> (r: Option<Self>) {
        let r = buf.read_bool();
        proof {
            let pre = old(buf).unread();
            assert forall|v: bool| (#[trigger] v.wire(old(buf).mode())).is_prefix_of(pre)
                implies r == Some(v) by {
                let w = v.wire(old(buf).mode());
                assert(w == seq![if v { 1u8 } else { 0u8 }]);
                assert(w.len() == 1);
                assert(w == pre.subrange(0, 1));
                assert(pre.subrange(0, 1)[0] == pre[0]);
                assert(pre[0] == if v { 1u8 } else { 0u8 });
            }
        }
        r
    }
}

/// An unsigned 16-bit value spans 2 wire bytes under the ambient
/// byte order.
impl IntoBytes for u16 {
    open spec fn wire(self, m: Endianness) -> Seq<u8> {
        chunk_bytes(m, self as nat, 2)
    }

    fn into_bytes(self, buf: &mut ByteBuf) {
        buf.write_u16(self);
    }
}

impl FromBytes for u16 {
    fn from_bytes(buf: &mut ByteBuf) -> (r: Option<Self>) {
        let r = buf.read_u16();
        proof {
            lemma_pow256_values();
            let m = old(buf).mode();
            let pre = old(buf).unread();
            if let Some(x) = r {
                lemma_le_bytes_len(x as nat, 2);
                lemma_be_bytes_len(x as nat, 2);
            }
            assert forall|v: u16| (#[trigger] v.wire(m)).is_prefix_of(pre) implies r == Some(v) by {
                match m {
                    Endianness::Little => {
                        lemma_le_bytes_len(v as nat, 2);
                        lemma_le_round_trip(v as nat, 2);
                        assert(pre.take(2) =~= le_bytes(v as nat, 2));
                    },
                    Endianness::Big => {
                        lemma_be_bytes_len(v as nat, 2);
                        lemma_be_round_trip(v as nat, 2);
                        assert(pre.take(2) =~= be_bytes(v as nat, 2));
                    },
                }
            }
        }
        r
    }
}

/// An unsigned 32-bit value spans 4 wire bytes under the ambient
/// byte order.
impl IntoBytes for u32 {
    open spec fn wire(self, m: Endianness) -> Seq<u8> {
        chunk_bytes(m, self as nat, 4)
    }

    fn into_bytes(self, buf: &mut ByteBuf) {
        buf.write_u32(self);
    }
}

impl FromBytes for u32 {
    fn from_bytes(buf: &mut ByteBuf) -> (r: Option<Self>) {
        let r = buf.read_u32();
        proof {
            lemma_pow256_values();
            let m = old(buf).mode();
            let pre = old(buf).unread();
            if let Some(x) = r {
                lemma_le_bytes_len(x as nat, 4);
                lemma_be_bytes_len(x as nat, 4);
            }
            assert forall|v: u32| (#[trigger] v.wire(m)).is_prefix_of(pre) implies r == Some(v) by {
                match m {
                    Endianness::Little => {
                        lemma_le_bytes_len(v as nat, 4);
                        lemma_le_round_trip(v as nat, 4);
                        assert(pre.take(4) =~= le_bytes(v as nat, 4));
                    },
                    Endianness::Big => {
                        lemma_be_bytes_len(v as nat, 4);
                        lemma_be_round_trip(v as nat, 4);
                        assert(pre.take(4) =~= be_bytes(v as nat, 4));
                    },
                }
            }
        }
        r
    }
}

/// An unsigned 64-bit value spans 8 wire bytes under the ambient
/// byte order.
impl IntoBytes for u64 {
    open spec fn wire(self, m: Endianness) -> Seq<u8> {
        chunk_bytes(m, self as nat, 8)
    }

    fn into_bytes(self, buf: &mut ByteBuf) {
        buf.write_u64(self);
    }
}

impl FromBytes for u64 {
    fn from_bytes(buf: &mut ByteBuf) -> (r: Option<Self>) {
        let r = buf.read_u64();
        proof {
            lemma_pow256_values();
            let m = old(buf).mode();
            let pre = old(buf).unread();
            if let Some(x) = r {
                lemma_le_bytes_len(x as nat, 8);
                lemma_be_bytes_len(x as nat, 8);
            }
            assert forall|v: u64| (#[trigger] v.wire(m)).is_prefix_of(pre) implies r == Some(v) by {
                match m {
                    Endianness::Little => {
                        lemma_le_bytes_len(v as nat, 8);
                        lemma_le_round_trip(v as nat, 8);
                        assert(pre.take(8) =~= le_bytes(v as nat, 8));
                    },
                    Endianness::Big => {
                        lemma_be_bytes_len(v as nat, 8);
                        lemma_be_round_trip(v as nat, 8);
                        assert(pre.take(8) =~= be_bytes(v as nat, 8));
                    },
                }
            }
        }
        r
    }
}

/// An unsigned 128-bit value spans 16 wire bytes under the ambient
/// byte order.
impl IntoBytes for u128 {
    open spec fn wire(self, m: Endianness) -> Seq<u8> {
        chunk_bytes(m, self as nat, 16)
    }

    fn into_bytes(self, buf: &mut ByteBuf) {
        buf.write_u128(self);
    }
}

impl FromBytes for u128 {
    fn from_bytes(buf: &mut ByteBuf) -> (r: Option<Self>) {
        let r = buf.read_u128();
        proof {
            lemma_pow256_values();
            let m = old(buf).mode();
            let pre = old(buf).unread();
            if let Some(x) = r {
                lemma_le_bytes_len(x as nat, 16);
                lemma_be_bytes_len(x as nat, 16);
            }
            assert forall|v: u128| (#[trigger] v.wire(m)).is_prefix_of(pre) implies r == Some(v) by {
                match m {
                    Endianness::Little => {
                        lemma_le_bytes_len(v as nat, 16);
                        lemma_le_round_trip(v as nat, 16);
                        assert(pre.take(16) =~= le_bytes(v as nat, 16));
                    },
                    Endianness::Big => {
                        lemma_be_bytes_len(v as nat, 16);
                        lemma_be_round_trip(v as nat, 16);
                        assert(pre.take(16) =~= be_bytes(v as nat, 16));
                    },
                }
            }
        }
        r
    }
}

/// An unsigned pointer-sized, 64-bit value spans 8 wire bytes under the ambient
/// byte order.
impl IntoBytes for usize {
    open spec fn wire(self, m: Endianness) -> Seq<u8> {
        chunk_bytes(m, self as nat, 8)
    }

    fn into_bytes(self, buf: &mut ByteBuf) {
        buf.write_usize(self);
    }
}

impl FromBytes for usize {
    fn from_bytes(buf: &mut ByteBuf) -> (r: Option<Self>) {
        let r = buf.read_usize();
        proof {
            lemma_pow256_values();
            let m = old(buf).mode();
            let pre = old(buf).unread();
            if let Some(x) = r {
                lemma_le_bytes_len(x as nat, 8);
                lemma_be_bytes_len(x as nat, 8);
            }
            assert forall|v: usize| (#[trigger] v.wire(m)).is_prefix_of(pre) implies r == Some(v) by {
                match m {
                    Endianness::Little => {
                        lemma_le_bytes_len(v as nat, 8);
                        lemma_le_round_trip(v as nat, 8);
                        assert(pre.take(8) =~= le_bytes(v as nat, 8));
                    },
                    Endianness::Big => {
                        lemma_be_bytes_len(v as nat, 8);
                        lemma_be_round_trip(v as nat, 8);
                        assert(pre.take(8) =~= be_bytes(v as nat, 8));
                    },
                }
            }
        }
        r
    }
}

/// A signed 16-bit value spans 2 wire bytes: its two's-complement
/// residue under the ambient byte order.
impl IntoBytes for i16 {
    open spec fn wire(self, m: Endianness) -> Seq<u8> {
        chunk_bytes(m, to_unsigned(self as int, 2), 2)
    }

    fn into_bytes(self, buf: &mut ByteBuf) {
        buf.write_i16(self);
    }
}

impl FromBytes for i16 {
    fn from_bytes(buf: &mut ByteBuf) -> (r: Option<Self>) {
        let r = buf.read_i16();
        proof {
            lemma_pow256_values();
            let m = old(buf).mode();
            let pre = old(buf).unread();
            if let Some(x) = r {
                lemma_le_bytes_len(to_unsigned(x as int, 2), 2);
                lemma_be_bytes_len(to_unsigned(x as int, 2), 2);
            }
            assert forall|v: i16| (#[trigger] v.wire(m)).is_prefix_of(pre) implies r == Some(v) by {
                let u = to_unsigned(v as int, 2);
                lemma_signed_round_trip(v as int, 2);
                match m {
                    Endianness::Little => {
                        lemma_le_bytes_len(u, 2);
                        lemma_le_round_trip(u, 2);
                        assert(pre.take(2) =~= le_bytes(u, 2));
                    },
                    Endianness::Big => {
                        lemma_be_bytes_len(u, 2);
                        lemma_be_round_trip(u, 2);
                        assert(pre.take(2) =~= be_bytes(u, 2));
                    },
                }
            }
        }
        r
    }
}

/// A signed 32-bit value spans 4 wire bytes: its two's-complement
/// residue under the ambient byte order.
impl IntoBytes for i32 {
    open spec fn wire(self, m: Endianness) -> Seq<u8> {
        chunk_bytes(m, to_unsigned(self as int, 4), 4)
    }

    fn into_bytes(self, buf: &mut ByteBuf) {
        buf.write_i32(self);
    }
}

impl FromBytes for i32 {
    fn from_bytes(buf: &mut ByteBuf) -> (r: Option<Self>) {
        let r = buf.read_i32();
        proof {
            lemma_pow256_values();
            let m = old(buf).mode();
            let pre = old(buf).unread();
            if let Some(x) = r {
                lemma_le_bytes_len(to_unsigned(x as int, 4), 4);
                lemma_be_bytes_len(to_unsigned(x as int, 4), 4);
            }
            assert forall|v: i32| (#[trigger] v.wire(m)).is_prefix_of(pre) implies r == Some(v) by {
                let u = to_unsigned(v as int, 4);
                lemma_signed_round_trip(v as int, 4);
                match m {
                    Endianness::Little => {
                        lemma_le_bytes_len(u, 4);
                        lemma_le_round_trip(u, 4);
                        assert(pre.take(4) =~= le_bytes(u, 4));
                    },
                    Endianness::Big => {
                        lemma_be_bytes_len(u, 4);
                        lemma_be_round_trip(u, 4);
                        assert(pre.take(4) =~= be_bytes(u, 4));
                    },
                }
            }
        }
        r
    }
}

/// A signed 64-bit value spans 8 wire bytes: its two's-complement
/// residue under the ambient byte order.
impl IntoBytes for i64 {
    open spec fn wire(self, m: Endianness) -> Seq<u8> {
        chunk_bytes(m, to_unsigned(self as int, 8), 8)
    }

    fn into_bytes(self, buf: &mut ByteBuf) {
        buf.write_i64(self);
    }
}

impl FromBytes for i64 {
    fn from_bytes(buf: &mut ByteBuf) -> (r: Option<Self>) {
        let r = buf.read_i64();
        proof {
            lemma_pow256_values();
            let m = old(buf).mode();
            let pre = old(buf).unread();
            if let Some(x) = r {
                lemma_le_bytes_len(to_unsigned(x as int, 8), 8);
                lemma_be_bytes_len(to_unsigned(x as int, 8), 8);
            }
            assert forall|v: i64| (#[trigger] v.wire(m)).is_prefix_of(pre) implies r == Some(v) by {
                let u = to_unsigned(v as int, 8);
                lemma_signed_round_trip(v as int, 8);
                match m {
                    Endianness::Little => {
                        lemma_le_bytes_len(u, 8);
                        lemma_le_round_trip(u, 8);
                        assert(pre.take(8) =~= le_bytes(u, 8));
                    },
                    Endianness::Big => {
                        lemma_be_bytes_len(u, 8);
                        lemma_be_round_trip(u, 8);
                        assert(pre.take(8) =~= be_bytes(u, 8));
                    },
                }
            }
        }
        r
    }
}

/// A signed 128-bit value spans 16 wire bytes: its two's-complement
/// residue under the ambient byte order.
impl IntoBytes for i128 {
    open spec fn wire(self, m: Endianness) -> Seq<u8> {
        chunk_bytes(m, to_unsigned(self as int, 16), 16)
    }

    fn into_bytes(self, buf: &mut ByteBuf) {
        buf.write_i128(self);
    }
}

impl FromBytes for i128 {
    fn from_bytes(buf: &mut ByteBuf) -> (r: Option<Self>) {
        let r = buf.read_i128();
        proof {
            lemma_pow256_values();
            let m = old(buf).mode();
            let pre = old(buf).unread();
            if let Some(x) = r {
                lemma_le_bytes_len(to_unsigned(x as int, 16), 16);
                lemma_be_bytes_len(to_unsigned(x as int, 16), 16);
            }
            assert forall|v: i128| (#[trigger] v.wire(m)).is_prefix_of(pre) implies r == Some(v) by {
                let u = to_unsigned(v as int, 16);
                lemma_signed_round_trip(v as int, 16);
                match m {
                    Endianness::Little => {
                        lemma_le_bytes_len(u, 16);
                        lemma_le_round_trip(u, 16);
                        assert(pre.take(16) =~= le_bytes(u, 16));
                    },
                    Endianness::Big => {
                        lemma_be_bytes_len(u, 16);
                        lemma_be_round_trip(u, 16);
                        assert(pre.take(16) =~= be_bytes(u, 16));
                    },
                }
            }
        }
        r
    }
}

/// A signed pointer-sized, 64-bit value spans 8 wire bytes: its two's-complement
/// residue under the ambient byte order.
impl IntoBytes for isize {
    open spec fn wire(self, m: Endianness) -> Seq<u8> {
        chunk_bytes(m, to_unsigned(self as int, 8), 8)
    }

    fn into_bytes(self, buf: &mut ByteBuf) {
        buf.write_isize(self);
    }
}

impl FromBytes for isize {
    fn from_bytes(buf: &mut ByteBuf) -> (r: Option<Self>) {
        let r = buf.read_isize();
        proof {
            lemma_pow256_values();
            let m = old(buf).mode();
            let pre = old(buf).unread();
            if let Some(x) = r {
                lemma_le_bytes_len(to_unsigned(x as int, 8), 8);
                lemma_be_bytes_len(to_unsigned(x as int, 8), 8);
            }
            assert forall|v: isize| (#[trigger] v.wire(m)).is_prefix_of(pre) implies r == Some(v) by {
                let u = to_unsigned(v as int, 8);
                lemma_signed_round_trip(v as int, 8);
                match m {
                    Endianness::Little => {
                        lemma_le_bytes_len(u, 8);
                        lemma_le_round_trip(u, 8);
                        assert(pre.take(8) =~= le_bytes(u, 8));
                    },
                    Endianness::Big => {
                        lemma_be_bytes_len(u, 8);
                        lemma_be_round_trip(u, 8);
                        assert(pre.take(8) =~= be_bytes(u, 8));
                    },
                }
            }
        }
        r
    }
}

/// Round trip: encoding a value at a buffer whose cursor sits at the end
/// of the content puts the value's wire bytes exactly at the cursor, so
/// the decode contract forces the following decode to yield that value
/// again - for primitives and records alike.
pub proof fn lemma_encode_then_decode<T: IntoBytes>(v: T, pre: ByteBuf, post: ByteBuf)
    requires
        pre.wf(),
        pre.pos() == pre.bytes().len(),
        post.bytes() == pre.bytes() + v.wire(pre.mode()),
        post.pos() == pre.pos(),
        post.mode() == pre.mode(),
    ensures
        post.wf(),
        v.wire(post.mode()).is_prefix_of(post.unread()),
{
    let w = v.wire(pre.mode());
    assert(post.unread() =~= w);
    assert(w =~= w.subrange(0, w.len() as int));
}

impl ByteBuf {
    /// Decode a value of any codec-contract type from the cursor onward,
    /// under this buffer's byte order at call time.
    pub fn read_value<T: FromBytes>(&mut self) -> (r: Option<T>)
        requires
            old(self).wf(),
        ensures
            final(self).wf(),
            final(self).bytes() == old(self).bytes(),
            final(self).mode() == old(self).mode(),
            old(self).pos() <= final(self).pos(),
            match r {
                Some(v) => final(self).pos() == old(self).pos() + v.wire(old(self).mode()).len(),
                None => true,
            },
            forall|v: T| (#[trigger] v.wire(old(self).mode())).is_prefix_of(old(self).unread())
                ==> r == Some(v),
    {
        T::from_bytes(self)
    }

    /// Encode a value of any codec-contract type at the end of the content,
    /// under this buffer's byte order at call time.
    pub fn write_value<T: IntoBytes>(&mut self, value: T)
        requires
            old(self).wf(),
        ensures
            final(self).wf(),
            final(self).bytes() == old(self).bytes() + value.wire(old(self).mode()),
            final(self).pos() == old(self).pos(),
            final(self).mode() == old(self).mode(),
    {
        value.into_bytes(self);
    }
}

} // verus!
