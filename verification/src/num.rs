//! Numeric primitive reads and writes, three entry points each way per
//! width: an ambient pair that follows the buffer's byte order at call time,
//! and explicit little- and big-endian pairs that bypass it.

use vstd::prelude::*;

use crate::buf::{ByteBuf, Endianness};
use crate::bytes::{
    be_bytes, be_val, le_bytes, le_val, lemma_be_val_bound, lemma_le_val_bound,
    lemma_pow256_values, to_signed, to_unsigned,
};

verus! {

/// The value a byte chunk denotes under the given byte order.
pub open spec fn chunk_val(m: Endianness, s: Seq<u8>) -> nat {
    match m {
        Endianness::Little => le_val(s),
        Endianness::Big => be_val(s),
    }
}

/// The `n`-byte encoding of an unsigned value under the given byte order.
pub open spec fn chunk_bytes(m: Endianness, v: nat, n: nat) -> Seq<u8> {
    match m {
        Endianness::Little => le_bytes(v, n),
        Endianness::Big => be_bytes(v, n),
    }
}

/// Ambient equals explicit: under the little mode the ambient operations
/// put exactly the little-endian bytes on the wire and read them back as
/// the little-endian value; under the big mode, the big-endian ones.
pub proof fn lemma_ambient_matches_explicit(v: nat, s: Seq<u8>, n: nat)
    ensures
        chunk_bytes(Endianness::Little, v, n) == le_bytes(v, n),
        chunk_bytes(Endianness::Big, v, n) == be_bytes(v, n),
        chunk_val(Endianness::Little, s) == le_val(s),
        chunk_val(Endianness::Big, s) == be_val(s),
{
}

/// The two's-complement residue that a signed 16-bit value puts on the wire.
fn i16_residue(value: i16) -> (u: u16)
    ensures
        u as nat == to_unsigned(value as int, 2),
{
    proof {
        lemma_pow256_values();
    }
    if value >= 0 {
        value as u16
    } else {
        u16::MAX - ((-(value + 1)) as u16)
    }
}

/// The signed 16-bit value that a wire residue stands for.
fn i16_signed(u: u16) -> (r: i16)
    ensures
        r as int == to_signed(u as nat, 2),
{
    proof {
        lemma_pow256_values();
    }
    if u < 0x8000 {
        u as i16
    } else {
        -((u16::MAX - u) as i16) - 1
    }
}

/// The two's-complement residue that a signed 32-bit value puts on the wire.
fn i32_residue(value: i32) -> (u: u32)
    ensures
        u as nat == to_unsigned(value as int, 4),
{
    proof {
        lemma_pow256_values();
    }
    if value >= 0 {
        value as u32
    } else {
        u32::MAX - ((-(value + 1)) as u32)
    }
}

/// The signed 32-bit value that a wire residue stands for.
fn i32_signed(u: u32) -> (r: i32)
    ensures
        r as int == to_signed(u as nat, 4),
{
    proof {
        lemma_pow256_values();
    }
    if u < 0x8000_0000 {
        u as i32
    } else {
        -((u32::MAX - u) as i32) - 1
    }
}

/// The two's-complement residue that a signed 64-bit value puts on the wire.
fn i64_residue(value: i64) -> (u: u64)
    ensures
        u as nat == to_unsigned(value as int, 8),
{
    proof {
        lemma_pow256_values();
    }
    if value >= 0 {
        value as u64
    } else {
        u64::MAX - ((-(value + 1)) as u64)
    }
}

/// The signed 64-bit value that a wire residue stands for.
fn i64_signed(u: u64) -> (r: i64)
    ensures
        r as int == to_signed(u as nat, 8),
{
    proof {
        lemma_pow256_values();
    }
    if u < 0x8000_0000_0000_0000 {
        u as i64
    } else {
        -((u64::MAX - u) as i64) - 1
    }
}

/// The two's-complement residue that a signed 128-bit value puts on the wire.
fn i128_residue(value: i128) -> (u: u128)
    ensures
        u as nat == to_unsigned(value as int, 16),
{
    proof {
        lemma_pow256_values();
    }
    if value >= 0 {
        value as u128
    } else {
        u128::MAX - ((-(value + 1)) as u128)
    }
}

/// The signed 128-bit value that a wire residue stands for.
fn i128_signed(u: u128) -> (r: i128)
    ensures
        r as int == to_signed(u as nat, 16),
{
    proof {
        lemma_pow256_values();
    }
    if u < 0x8000_0000_0000_0000_0000_0000_0000_0000 {
        u as i128
    } else {
        -((u128::MAX - u) as i128) - 1
    }
}

impl ByteBuf {
    /// Little-endian read of an unsigned 16-bit value: 2 bytes, advancing
    /// the cursor, exactly when 2 bytes are left; otherwise absence with
    /// no cursor movement.
    pub fn read_u16_le(&mut self) -> (r: Option<u16>)
        requires
            old(self).wf(),
        ensures
            final(self).wf(),
            final(self).bytes() == old(self).bytes(),
            final(self).mode() == old(self).mode(),
            r is Some <==> old(self).pos() + 2 <= old(self).bytes().len(),
            match r {
                Some(x) => final(self).pos() == old(self).pos() + 2 && x as nat == le_val(old(self).unread().take(2)),
                None => final(self).pos() == old(self).pos(),
            },
    {
        match self.take_le(2) {
            Some(x) => {
                proof {
                    lemma_le_val_bound(old(self).unread().take(2));
                    lemma_pow256_values();
                }
                Some(x as u16)
            },
            None => None,
        }
    }

    /// Little-endian write of an unsigned 16-bit value: appends its 2
    /// encoding bytes at the end of the content; infallible.
    pub fn write_u16_le(&mut self, value: u16)
        ensures
            final(self).bytes() == old(self).bytes() + le_bytes(value as nat, 2),
            final(self).pos() == old(self).pos(),
            final(self).mode() == old(self).mode(),
    {
        proof {
            lemma_pow256_values();
        }
        self.put_le(value as u128, 2);
    }

    /// Big-endian read of an unsigned 16-bit value: 2 bytes, advancing
    /// the cursor, exactly when 2 bytes are left; otherwise absence with
    /// no cursor movement.
    pub fn read_u16_be(&mut self) -> (r: Option<u16>)
        requires
            old(self).wf(),
        ensures
            final(self).wf(),
            final(self).bytes() == old(self).bytes(),
            final(self).mode() == old(self).mode(),
            r is Some <==> old(self).pos() + 2 <= old(self).bytes().len(),
            match r {
                Some(x) => final(self).pos() == old(self).pos() + 2 && x as nat == be_val(old(self).unread().take(2)),
                None => final(self).pos() == old(self).pos(),
            },
    {
        match self.take_be(2) {
            Some(x) => {
                proof {
                    lemma_be_val_bound(old(self).unread().take(2));
                    lemma_pow256_values();
                }
                Some(x as u16)
            },
            None => None,
        }
    }

    /// Big-endian write of an unsigned 16-bit value: appends its 2
    /// encoding bytes at the end of the content; infallible.
    pub fn write_u16_be(&mut self, value: u16)
        ensures
            final(self).bytes() == old(self).bytes() + be_bytes(value as nat, 2),
            final(self).pos() == old(self).pos(),
            final(self).mode() == old(self).mode(),
    {
        proof {
            lemma_pow256_values();
        }
        self.put_be(value as u128, 2);
    }

    /// Ambient read of an unsigned 16-bit value: 2 bytes, advancing
    /// the cursor, exactly when 2 bytes are left; otherwise absence with
    /// no cursor movement.
    pub fn read_u16(&mut self) -> (r: Option<u16>)
        requires
            old(self).wf(),
        ensures
            final(self).wf(),
            final(self).bytes() == old(self).bytes(),
            final(self).mode() == old(self).mode(),
            r is Some <==> old(self).pos() + 2 <= old(self).bytes().len(),
            match r {
                Some(x) => final(self).pos() == old(self).pos() + 2 && x as nat == chunk_val(
                    old(self).mode(),
                    old(self).unread().take(2),
                ),
                None => final(self).pos() == old(self).pos(),
            },
    {
        match self.ambient() {
            Endianness::Little => self.read_u16_le(),
            Endianness::Big => self.read_u16_be(),
        }
    }

    /// Ambient write of an unsigned 16-bit value: appends its 2
    /// encoding bytes at the end of the content; infallible.
    pub fn write_u16(&mut self, value: u16)
        ensures
            final(self).bytes() == old(self).bytes() + chunk_bytes(old(self).mode(), value as nat, 2),
            final(self).pos() == old(self).pos(),
            final(self).mode() == old(self).mode(),
    {
        match self.ambient() {
            Endianness::Little => self.write_u16_le(value),
            Endianness::Big => self.write_u16_be(value),
        }
    }

    /// Little-endian read of an unsigned 32-bit value: 4 bytes, advancing
    /// the cursor, exactly when 4 bytes are left; otherwise absence with
    /// no cursor movement.
    pub fn read_u32_le(&mut self) -> (r: Option<u32>)
        requires
            old(self).wf(),
        ensures
            final(self).wf(),
            final(self).bytes() == old(self).bytes(),
            final(self).mode() == old(self).mode(),
            r is Some <==> old(self).pos() + 4 <= old(self).bytes().len(),
            match r {
                Some(x) => final(self).pos() == old(self).pos() + 4 && x as nat == le_val(old(self).unread().take(4)),
                None => final(self).pos() == old(self).pos(),
            },
    {
        match self.take_le(4) {
            Some(x) => {
                proof {
                    lemma_le_val_bound(old(self).unread().take(4));
                    lemma_pow256_values();
                }
                Some(x as u32)
            },
            None => None,
        }
    }

    /// Little-endian write of an unsigned 32-bit value: appends its 4
    /// encoding bytes at the end of the content; infallible.
    pub fn write_u32_le(&mut self, value: u32)
        ensures
            final(self).bytes() == old(self).bytes() + le_bytes(value as nat, 4),
            final(self).pos() == old(self).pos(),
            final(self).mode() == old(self).mode(),
    {
        proof {
            lemma_pow256_values();
        }
        self.put_le(value as u128, 4);
    }

    /// Big-endian read of an unsigned 32-bit value: 4 bytes, advancing
    /// the cursor, exactly when 4 bytes are left; otherwise absence with
    /// no cursor movement.
    pub fn read_u32_be(&mut self) -> (r: Option<u32>)
        requires
            old(self).wf(),
        ensures
            final(self).wf(),
            final(self).bytes() == old(self).bytes(),
            final(self).mode() == old(self).mode(),
            r is Some <==> old(self).pos() + 4 <= old(self).bytes().len(),
            match r {
                Some(x) => final(self).pos() == old(self).pos() + 4 && x as nat == be_val(old(self).unread().take(4)),
                None => final(self).pos() == old(self).pos(),
            },
    {
        match self.take_be(4) {
            Some(x) => {
                proof {
                    lemma_be_val_bound(old(self).unread().take(4));
                    lemma_pow256_values();
                }
                Some(x as u32)
            },
            None => None,
        }
    }

    /// Big-endian write of an unsigned 32-bit value: appends its 4
    /// encoding bytes at the end of the content; infallible.
    pub fn write_u32_be(&mut self, value: u32)
        ensures
            final(self).bytes() == old(self).bytes() + be_bytes(value as nat, 4),
            final(self).pos() == old(self).pos(),
            final(self).mode() == old(self).mode(),
    {
        proof {
            lemma_pow256_values();
        }
        self.put_be(value as u128, 4);
    }

    /// Ambient read of an unsigned 32-bit value: 4 bytes, advancing
    /// the cursor, exactly when 4 bytes are left; otherwise absence with
    /// no cursor movement.
    pub fn read_u32(&mut self) -> (r: Option<u32>)
        requires
            old(self).wf(),
        ensures
            final(self).wf(),
            final(self).bytes() == old(self).bytes(),
            final(self).mode() == old(self).mode(),
            r is Some <==> old(self).pos() + 4 <= old(self).bytes().len(),
            match r {
                Some(x) => final(self).pos() == old(self).pos() + 4 && x as nat == chunk_val(
                    old(self).mode(),
                    old(self).unread().take(4),
                ),
                None => final(self).pos() == old(self).pos(),
            },
    {
        match self.ambient() {
            Endianness::Little => self.read_u32_le(),
            Endianness::Big => self.read_u32_be(),
        }
    }

    /// Ambient write of an unsigned 32-bit value: appends its 4
    /// encoding bytes at the end of the content; infallible.
    pub fn write_u32(&mut self, value: u32)
        ensures
            final(self).bytes() == old(self).bytes() + chunk_bytes(old(self).mode(), value as nat, 4),
            final(self).pos() == old(self).pos(),
            final(self).mode() == old(self).mode(),
    {
        match self.ambient() {
            Endianness::Little => self.write_u32_le(value),
            Endianness::Big => self.write_u32_be(value),
        }
    }

    /// Little-endian read of an unsigned 64-bit value: 8 bytes, advancing
    /// the cursor, exactly when 8 bytes are left; otherwise absence with
    /// no cursor movement.
    pub fn read_u64_le(&mut self) -> (r: Option<u64>)
        requires
            old(self).wf(),
        ensures
            final(self).wf(),
            final(self).bytes() == old(self).bytes(),
            final(self).mode() == old(self).mode(),
            r is Some <==> old(self).pos() + 8 <= old(self).bytes().len(),
            match r {
                Some(x) => final(self).pos() == old(self).pos() + 8 && x as nat == le_val(old(self).unread().take(8)),
                None => final(self).pos() == old(self).pos(),
            },
    {
        match self.take_le(8) {
            Some(x) => {
                proof {
                    lemma_le_val_bound(old(self).unread().take(8));
                    lemma_pow256_values();
                }
                Some(x as u64)
            },
            None => None,
        }
    }

    /// Little-endian write of an unsigned 64-bit value: appends its 8
    /// encoding bytes at the end of the content; infallible.
    pub fn write_u64_le(&mut self, value: u64)
        ensures
            final(self).bytes() == old(self).bytes() + le_bytes(value as nat, 8),
            final(self).pos() == old(self).pos(),
            final(self).mode() == old(self).mode(),
    {
        proof {
            lemma_pow256_values();
        }
        self.put_le(value as u128, 8);
    }

    /// Big-endian read of an unsigned 64-bit value: 8 bytes, advancing
    /// the cursor, exactly when 8 bytes are left; otherwise absence with
    /// no cursor movement.
    pub fn read_u64_be(&mut self) -> (r: Option<u64>)
        requires
            old(self).wf(),
        ensures
            final(self).wf(),
            final(self).bytes() == old(self).bytes(),
            final(self).mode() == old(self).mode(),
            r is Some <==> old(self).pos() + 8 <= old(self).bytes().len(),
            match r {
                Some(x) => final(self).pos() == old(self).pos() + 8 && x as nat == be_val(old(self).unread().take(8)),
                None => final(self).pos() == old(self).pos(),
            },
    {
        match self.take_be(8) {
            Some(x) => {
                proof {
                    lemma_be_val_bound(old(self).unread().take(8));
                    lemma_pow256_values();
                }
                Some(x as u64)
            },
            None => None,
        }
    }

    /// Big-endian write of an unsigned 64-bit value: appends its 8
    /// encoding bytes at the end of the content; infallible.
    pub fn write_u64_be(&mut self, value: u64)
        ensures
            final(self).bytes() == old(self).bytes() + be_bytes(value as nat, 8),
            final(self).pos() == old(self).pos(),
            final(self).mode() == old(self).mode(),
    {
        proof {
            lemma_pow256_values();
        }
        self.put_be(value as u128, 8);
    }

    /// Ambient read of an unsigned 64-bit value: 8 bytes, advancing
    /// the cursor, exactly when 8 bytes are left; otherwise absence with
    /// no cursor movement.
    pub fn read_u64(&mut self) -> (r: Option<u64>)
        requires
            old(self).wf(),
        ensures
            final(self).wf(),
            final(self).bytes() == old(self).bytes(),
            final(self).mode() == old(self).mode(),
            r is Some <==> old(self).pos() + 8 <= old(self).bytes().len(),
            match r {
                Some(x) => final(self).pos() == old(self).pos() + 8 && x as nat == chunk_val(
                    old(self).mode(),
                    old(self).unread().take(8),
                ),
                None => final(self).pos() == old(self).pos(),
            },
    {
        match self.ambient() {
            Endianness::Little => self.read_u64_le(),
            Endianness::Big => self.read_u64_be(),
        }
    }

    /// Ambient write of an unsigned 64-bit value: appends its 8
    /// encoding bytes at the end of the content; infallible.
    pub fn write_u64(&mut self, value: u64)
        ensures
            final(self).bytes() == old(self).bytes() + chunk_bytes(old(self).mode(), value as nat, 8),
            final(self).pos() == old(self).pos(),
            final(self).mode() == old(self).mode(),
    {
        match self.ambient() {
            Endianness::Little => self.write_u64_le(value),
            Endianness::Big => self.write_u64_be(value),
        }
    }

    /// Little-endian read of an unsigned 128-bit value: 16 bytes, advancing
    /// the cursor, exactly when 16 bytes are left; otherwise absence with
    /// no cursor movement.
    pub fn read_u128_le(&mut self) -> (r: Option<u128>)
        requires
            old(self).wf(),
        ensures
            final(self).wf(),
            final(self).bytes() == old(self).bytes(),
            final(self).mode() == old(self).mode(),
            r is Some <==> old(self).pos() + 16 <= old(self).bytes().len(),
            match r {
                Some(x) => final(self).pos() == old(self).pos() + 16 && x as nat == le_val(old(self).unread().take(16)),
                None => final(self).pos() == old(self).pos(),
            },
    {
        match self.take_le(16) {
            Some(x) => {
                proof {
                    lemma_le_val_bound(old(self).unread().take(16));
                    lemma_pow256_values();
                }
                Some(x)
            },
            None => None,
        }
    }

    /// Little-endian write of an unsigned 128-bit value: appends its 16
    /// encoding bytes at the end of the content; infallible.
    pub fn write_u128_le(&mut self, value: u128)
        ensures
            final(self).bytes() == old(self).bytes() + le_bytes(value as nat, 16),
            final(self).pos() == old(self).pos(),
            final(self).mode() == old(self).mode(),
    {
        proof {
            lemma_pow256_values();
        }
        self.put_le(value, 16);
    }

    /// Big-endian read of an unsigned 128-bit value: 16 bytes, advancing
    /// the cursor, exactly when 16 bytes are left; otherwise absence with
    /// no cursor movement.
    pub fn read_u128_be(&mut self) -> (r: Option<u128>)
        requires
            old(self).wf(),
        ensures
            final(self).wf(),
            final(self).bytes() == old(self).bytes(),
            final(self).mode() == old(self).mode(),
            r is Some <==> old(self).pos() + 16 <= old(self).bytes().len(),
            match r {
                Some(x) => final(self).pos() == old(self).pos() + 16 && x as nat == be_val(old(self).unread().take(16)),
                None => final(self).pos() == old(self).pos(),
            },
    {
        match self.take_be(16) {
            Some(x) => {
                proof {
                    lemma_be_val_bound(old(self).unread().take(16));
                    lemma_pow256_values();
                }
                Some(x)
            },
            None => None,
        }
    }

    /// Big-endian write of an unsigned 128-bit value: appends its 16
    /// encoding bytes at the end of the content; infallible.
    pub fn write_u128_be(&mut self, value: u128)
        ensures
            final(self).bytes() == old(self).bytes() + be_bytes(value as nat, 16),
            final(self).pos() == old(self).pos(),
            final(self).mode() == old(self).mode(),
    {
        proof {
            lemma_pow256_values();
        }
        self.put_be(value, 16);
    }

    /// Ambient read of an unsigned 128-bit value: 16 bytes, advancing
    /// the cursor, exactly when 16 bytes are left; otherwise absence with
    /// no cursor movement.
    pub fn read_u128(&mut self) -> (r: Option<u128>)
        requires
            old(self).wf(),
        ensures
            final(self).wf(),
            final(self).bytes() == old(self).bytes(),
            final(self).mode() == old(self).mode(),
            r is Some <==> old(self).pos() + 16 <= old(self).bytes().len(),
            match r {
                Some(x) => final(self).pos() == old(self).pos() + 16 && x as nat == chunk_val(
                    old(self).mode(),
                    old(self).unread().take(16),
                ),
                None => final(self).pos() == old(self).pos(),
            },
    {
        match self.ambient() {
            Endianness::Little => self.read_u128_le(),
            Endianness::Big => self.read_u128_be(),
        }
    }

    /// Ambient write of an unsigned 128-bit value: appends its 16
    /// encoding bytes at the end of the content; infallible.
    pub fn write_u128(&mut self, value: u128)
        ensures
            final(self).bytes() == old(self).bytes() + chunk_bytes(old(self).mode(), value as nat, 16),
            final(self).pos() == old(self).pos(),
            final(self).mode() == old(self).mode(),
    {
        match self.ambient() {
            Endianness::Little => self.write_u128_le(value),
            Endianness::Big => self.write_u128_be(value),
        }
    }

    /// Little-endian read of a signed 16-bit value: 2 bytes as a
    /// two's-complement residue, advancing the cursor, exactly when 2
    /// bytes are left; otherwise absence with no cursor movement.
    pub fn read_i16_le(&mut self) -> (r: Option<i16>)
        requires
            old(self).wf(),
        ensures
            final(self).wf(),
            final(self).bytes() == old(self).bytes(),
            final(self).mode() == old(self).mode(),
            r is Some <==> old(self).pos() + 2 <= old(self).bytes().len(),
            match r {
                Some(x) => final(self).pos() == old(self).pos() + 2 && x as int == to_signed(
                    le_val(old(self).unread().take(2)),
                    2,
                ),
                None => final(self).pos() == old(self).pos(),
            },
    {
        match self.take_le(2) {
            Some(x) => {
                proof {
                    lemma_le_val_bound(old(self).unread().take(2));
                    lemma_pow256_values();
                }
                Some(i16_signed(x as u16))
            },
            None => None,
        }
    }

    /// Little-endian write of a signed 16-bit value: appends the 2
    /// encoding bytes of its two's-complement residue; infallible.
    pub fn write_i16_le(&mut self, value: i16)
        ensures
            final(self).bytes() == old(self).bytes() + le_bytes(to_unsigned(value as int, 2), 2),
            final(self).pos() == old(self).pos(),
            final(self).mode() == old(self).mode(),
    {
        proof {
            lemma_pow256_values();
        }
        let u: u16 = i16_residue(value);
        self.put_le(u as u128, 2);
    }

    /// Big-endian read of a signed 16-bit value: 2 bytes as a
    /// two's-complement residue, advancing the cursor, exactly when 2
    /// bytes are left; otherwise absence with no cursor movement.
    pub fn read_i16_be(&mut self) -> (r: Option<i16>)
        requires
            old(self).wf(),
        ensures
            final(self).wf(),
            final(self).bytes() == old(self).bytes(),
            final(self).mode() == old(self).mode(),
            r is Some <==> old(self).pos() + 2 <= old(self).bytes().len(),
            match r {
                Some(x) => final(self).pos() == old(self).pos() + 2 && x as int == to_signed(
                    be_val(old(self).unread().take(2)),
                    2,
                ),
                None => final(self).pos() == old(self).pos(),
            },
    {
        match self.take_be(2) {
            Some(x) => {
                proof {
                    lemma_be_val_bound(old(self).unread().take(2));
                    lemma_pow256_values();
                }
                Some(i16_signed(x as u16))
            },
            None => None,
        }
    }

    /// Big-endian write of a signed 16-bit value: appends the 2
    /// encoding bytes of its two's-complement residue; infallible.
    pub fn write_i16_be(&mut self, value: i16)
        ensures
            final(self).bytes() == old(self).bytes() + be_bytes(to_unsigned(value as int, 2), 2),
            final(self).pos() == old(self).pos(),
            final(self).mode() == old(self).mode(),
    {
        proof {
            lemma_pow256_values();
        }
        let u: u16 = i16_residue(value);
        self.put_be(u as u128, 2);
    }

    /// Ambient read of a signed 16-bit value: 2 bytes as a
    /// two's-complement residue, advancing the cursor, exactly when 2
    /// bytes are left; otherwise absence with no cursor movement.
    pub fn read_i16(&mut self) -> (r: Option<i16>)
        requires
            old(self).wf(),
        ensures
            final(self).wf(),
            final(self).bytes() == old(self).bytes(),
            final(self).mode() == old(self).mode(),
            r is Some <==> old(self).pos() + 2 <= old(self).bytes().len(),
            match r {
                Some(x) => final(self).pos() == old(self).pos() + 2 && x as int == to_signed(
                    chunk_val(old(self).mode(), old(self).unread().take(2)),
                    2,
                ),
                None => final(self).pos() == old(self).pos(),
            },
    {
        match self.ambient() {
            Endianness::Little => self.read_i16_le(),
            Endianness::Big => self.read_i16_be(),
        }
    }

    /// Ambient write of a signed 16-bit value: appends the 2
    /// encoding bytes of its two's-complement residue; infallible.
    pub fn write_i16(&mut self, value: i16)
        ensures
            final(self).bytes() == old(self).bytes() + chunk_bytes(
                old(self).mode(),
                to_unsigned(value as int, 2),
                2,
            ),
            final(self).pos() == old(self).pos(),
            final(self).mode() == old(self).mode(),
    {
        match self.ambient() {
            Endianness::Little => self.write_i16_le(value),
            Endianness::Big => self.write_i16_be(value),
        }
    }

    /// Little-endian read of a signed 32-bit value: 4 bytes as a
    /// two's-complement residue, advancing the cursor, exactly when 4
    /// bytes are left; otherwise absence with no cursor movement.
    pub fn read_i32_le(&mut self) -> (r: Option<i32>)
        requires
            old(self).wf(),
        ensures
            final(self).wf(),
            final(self).bytes() == old(self).bytes(),
            final(self).mode() == old(self).mode(),
            r is Some <==> old(self).pos() + 4 <= old(self).bytes().len(),
            match r {
                Some(x) => final(self).pos() == old(self).pos() + 4 && x as int == to_signed(
                    le_val(old(self).unread().take(4)),
                    4,
                ),
                None => final(self).pos() == old(self).pos(),
            },
    {
        match self.take_le(4) {
            Some(x) => {
                proof {
                    lemma_le_val_bound(old(self).unread().take(4));
                    lemma_pow256_values();
                }
                Some(i32_signed(x as u32))
            },
            None => None,
        }
    }

    /// Little-endian write of a signed 32-bit value: appends the 4
    /// encoding bytes of its two's-complement residue; infallible.
    pub fn write_i32_le(&mut self, value: i32)
        ensures
            final(self).bytes() == old(self).bytes() + le_bytes(to_unsigned(value as int, 4), 4),
            final(self).pos() == old(self).pos(),
            final(self).mode() == old(self).mode(),
    {
        proof {
            lemma_pow256_values();
        }
        let u: u32 = i32_residue(value);
        self.put_le(u as u128, 4);
    }

    /// Big-endian read of a signed 32-bit value: 4 bytes as a
    /// two's-complement residue, advancing the cursor, exactly when 4
    /// bytes are left; otherwise absence with no cursor movement.
    pub fn read_i32_be(&mut self) -> (r: Option<i32>)
        requires
            old(self).wf(),
        ensures
            final(self).wf(),
            final(self).bytes() == old(self).bytes(),
            final(self).mode() == old(self).mode(),
            r is Some <==> old(self).pos() + 4 <= old(self).bytes().len(),
            match r {
                Some(x) => final(self).pos() == old(self).pos() + 4 && x as int == to_signed(
                    be_val(old(self).unread().take(4)),
                    4,
                ),
                None => final(self).pos() == old(self).pos(),
            },
    {
        match self.take_be(4) {
            Some(x) => {
                proof {
                    lemma_be_val_bound(old(self).unread().take(4));
                    lemma_pow256_values();
                }
                Some(i32_signed(x as u32))
            },
            None => None,
        }
    }

    /// Big-endian write of a signed 32-bit value: appends the 4
    /// encoding bytes of its two's-complement residue; infallible.
    pub fn write_i32_be(&mut self, value: i32)
        ensures
            final(self).bytes() == old(self).bytes() + be_bytes(to_unsigned(value as int, 4), 4),
            final(self).pos() == old(self).pos(),
            final(self).mode() == old(self).mode(),
    {
        proof {
            lemma_pow256_values();
        }
        let u: u32 = i32_residue(value);
        self.put_be(u as u128, 4);
    }

    /// Ambient read of a signed 32-bit value: 4 bytes as a
    /// two's-complement residue, advancing the cursor, exactly when 4
    /// bytes are left; otherwise absence with no cursor movement.
    pub fn read_i32(&mut self) -> (r: Option<i32>)
        requires
            old(self).wf(),
        ensures
            final(self).wf(),
            final(self).bytes() == old(self).bytes(),
            final(self).mode() == old(self).mode(),
            r is Some <==> old(self).pos() + 4 <= old(self).bytes().len(),
            match r {
                Some(x) => final(self).pos() == old(self).pos() + 4 && x as int == to_signed(
                    chunk_val(old(self).mode(), old(self).unread().take(4)),
                    4,
                ),
                None => final(self).pos() == old(self).pos(),
            },
    {
        match self.ambient() {
            Endianness::Little => self.read_i32_le(),
            Endianness::Big => self.read_i32_be(),
        }
    }

    /// Ambient write of a signed 32-bit value: appends the 4
    /// encoding bytes of its two's-complement residue; infallible.
    pub fn write_i32(&mut self, value: i32)
        ensures
            final(self).bytes() == old(self).bytes() + chunk_bytes(
                old(self).mode(),
                to_unsigned(value as int, 4),
                4,
            ),
            final(self).pos() == old(self).pos(),
            final(self).mode() == old(self).mode(),
    {
        match self.ambient() {
            Endianness::Little => self.write_i32_le(value),
            Endianness::Big => self.write_i32_be(value),
        }
    }

    /// Little-endian read of a signed 64-bit value: 8 bytes as a
    /// two's-complement residue, advancing the cursor, exactly when 8
    /// bytes are left; otherwise absence with no cursor movement.
    pub fn read_i64_le(&mut self) -> (r: Option<i64>)
        requires
            old(self).wf(),
        ensures
            final(self).wf(),
            final(self).bytes() == old(self).bytes(),
            final(self).mode() == old(self).mode(),
            r is Some <==> old(self).pos() + 8 <= old(self).bytes().len(),
            match r {
                Some(x) => final(self).pos() == old(self).pos() + 8 && x as int == to_signed(
                    le_val(old(self).unread().take(8)),
                    8,
                ),
                None => final(self).pos() == old(self).pos(),
            },
    {
        match self.take_le(8) {
            Some(x) => {
                proof {
                    lemma_le_val_bound(old(self).unread().take(8));
                    lemma_pow256_values();
                }
                Some(i64_signed(x as u64))
            },
            None => None,
        }
    }

    /// Little-endian write of a signed 64-bit value: appends the 8
    /// encoding bytes of its two's-complement residue; infallible.
    pub fn write_i64_le(&mut self, value: i64)
        ensures
            final(self).bytes() == old(self).bytes() + le_bytes(to_unsigned(value as int, 8), 8),
            final(self).pos() == old(self).pos(),
            final(self).mode() == old(self).mode(),
    {
        proof {
            lemma_pow256_values();
        }
        let u: u64 = i64_residue(value);
        self.put_le(u as u128, 8);
    }

    /// Big-endian read of a signed 64-bit value: 8 bytes as a
    /// two's-complement residue, advancing the cursor, exactly when 8
    /// bytes are left; otherwise absence with no cursor movement.
    pub fn read_i64_be(&mut self) -> (r: Option<i64>)
        requires
            old(self).wf(),
        ensures
            final(self).wf(),
            final(self).bytes() == old(self).bytes(),
            final(self).mode() == old(self).mode(),
            r is Some <==> old(self).pos() + 8 <= old(self).bytes().len(),
            match r {
                Some(x) => final(self).pos() == old(self).pos() + 8 && x as int == to_signed(
                    be_val(old(self).unread().take(8)),
                    8,
                ),
                None => final(self).pos() == old(self).pos(),
            },
    {
        match self.take_be(8) {
            Some(x) => {
                proof {
                    lemma_be_val_bound(old(self).unread().take(8));
                    lemma_pow256_values();
                }
                Some(i64_signed(x as u64))
            },
            None => None,
        }
    }

    /// Big-endian write of a signed 64-bit value: appends the 8
    /// encoding bytes of its two's-complement residue; infallible.
    pub fn write_i64_be(&mut self, value: i64)
        ensures
            final(self).bytes() == old(self).bytes() + be_bytes(to_unsigned(value as int, 8), 8),
            final(self).pos() == old(self).pos(),
            final(self).mode() == old(self).mode(),
    {
        proof {
            lemma_pow256_values();
        }
        let u: u64 = i64_residue(value);
        self.put_be(u as u128, 8);
    }

    /// Ambient read of a signed 64-bit value: 8 bytes as a
    /// two's-complement residue, advancing the cursor, exactly when 8
    /// bytes are left; otherwise absence with no cursor movement.
    pub fn read_i64(&mut self) -> (r: Option<i64>)
        requires
            old(self).wf(),
        ensures
            final(self).wf(),
            final(self).bytes() == old(self).bytes(),
            final(self).mode() == old(self).mode(),
            r is Some <==> old(self).pos() + 8 <= old(self).bytes().len(),
            match r {
                Some(x) => final(self).pos() == old(self).pos() + 8 && x as int == to_signed(
                    chunk_val(old(self).mode(), old(self).unread().take(8)),
                    8,
                ),
                None => final(self).pos() == old(self).pos(),
            },
    {
        match self.ambient() {
            Endianness::Little => self.read_i64_le(),
            Endianness::Big => self.read_i64_be(),
        }
    }

    /// Ambient write of a signed 64-bit value: appends the 8
    /// encoding bytes of its two's-complement residue; infallible.
    pub fn write_i64(&mut self, value: i64)
        ensures
            final(self).bytes() == old(self).bytes() + chunk_bytes(
                old(self).mode(),
                to_unsigned(value as int, 8),
                8,
            ),
            final(self).pos() == old(self).pos(),
            final(self).mode() == old(self).mode(),
    {
        match self.ambient() {
            Endianness::Little => self.write_i64_le(value),
            Endianness::Big => self.write_i64_be(value),
        }
    }

    /// Little-endian read of a signed 128-bit value: 16 bytes as a
    /// two's-complement residue, advancing the cursor, exactly when 16
    /// bytes are left; otherwise absence with no cursor movement.
    pub fn read_i128_le(&mut self) -> (r: Option<i128>)
        requires
            old(self).wf(),
        ensures
            final(self).wf(),
            final(self).bytes() == old(self).bytes(),
            final(self).mode() == old(self).mode(),
            r is Some <==> old(self).pos() + 16 <= old(self).bytes().len(),
            match r {
                Some(x) => final(self).pos() == old(self).pos() + 16 && x as int == to_signed(
                    le_val(old(self).unread().take(16)),
                    16,
                ),
                None => final(self).pos() == old(self).pos(),
            },
    {
        match self.take_le(16) {
            Some(x) => {
                proof {
                    lemma_le_val_bound(old(self).unread().take(16));
                    lemma_pow256_values();
                }
                Some(i128_signed(x))
            },
            None => None,
        }
    }

    /// Little-endian write of a signed 128-bit value: appends the 16
    /// encoding bytes of its two's-complement residue; infallible.
    pub fn write_i128_le(&mut self, value: i128)
        ensures
            final(self).bytes() == old(self).bytes() + le_bytes(to_unsigned(value as int, 16), 16),
            final(self).pos() == old(self).pos(),
            final(self).mode() == old(self).mode(),
    {
        proof {
            lemma_pow256_values();
        }
        let u: u128 = i128_residue(value);
        self.put_le(u, 16);
    }

    /// Big-endian read of a signed 128-bit value: 16 bytes as a
    /// two's-complement residue, advancing the cursor, exactly when 16
    /// bytes are left; otherwise absence with no cursor movement.
    pub fn read_i128_be(&mut self) -> (r: Option<i128>)
        requires
            old(self).wf(),
        ensures
            final(self).wf(),
            final(self).bytes() == old(self).bytes(),
            final(self).mode() == old(self).mode(),
            r is Some <==> old(self).pos() + 16 <= old(self).bytes().len(),
            match r {
                Some(x) => final(self).pos() == old(self).pos() + 16 && x as int == to_signed(
                    be_val(old(self).unread().take(16)),
                    16,
                ),
                None => final(self).pos() == old(self).pos(),
            },
    {
        match self.take_be(16) {
            Some(x) => {
                proof {
                    lemma_be_val_bound(old(self).unread().take(16));
                    lemma_pow256_values();
                }
                Some(i128_signed(x))
            },
            None => None,
        }
    }

    /// Big-endian write of a signed 128-bit value: appends the 16
    /// encoding bytes of its two's-complement residue; infallible.
    pub fn write_i128_be(&mut self, value: i128)
        ensures
            final(self).bytes() == old(self).bytes() + be_bytes(to_unsigned(value as int, 16), 16),
            final(self).pos() == old(self).pos(),
            final(self).mode() == old(self).mode(),
    {
        proof {
            lemma_pow256_values();
        }
        let u: u128 = i128_residue(value);
        self.put_be(u, 16);
    }

    /// Ambient read of a signed 128-bit value: 16 bytes as a
    /// two's-complement residue, advancing the cursor, exactly when 16
    /// bytes are left; otherwise absence with no cursor movement.
    pub fn read_i128(&mut self) -> (r: Option<i128>)
        requires
            old(self).wf(),
        ensures
            final(self).wf(),
            final(self).bytes() == old(self).bytes(),
            final(self).mode() == old(self).mode(),
            r is Some <==> old(self).pos() + 16 <= old(self).bytes().len(),
            match r {
                Some(x) => final(self).pos() == old(self).pos() + 16 && x as int == to_signed(
                    chunk_val(old(self).mode(), old(self).unread().take(16)),
                    16,
                ),
                None => final(self).pos() == old(self).pos(),
            },
    {
        match self.ambient() {
            Endianness::Little => self.read_i128_le(),
            Endianness::Big => self.read_i128_be(),
        }
    }

    /// Ambient write of a signed 128-bit value: appends the 16
    /// encoding bytes of its two's-complement residue; infallible.
    pub fn write_i128(&mut self, value: i128)
        ensures
            final(self).bytes() == old(self).bytes() + chunk_bytes(
                old(self).mode(),
                to_unsigned(value as int, 16),
                16,
            ),
            final(self).pos() == old(self).pos(),
            final(self).mode() == old(self).mode(),
    {
        match self.ambient() {
            Endianness::Little => self.write_i128_le(value),
            Endianness::Big => self.write_i128_be(value),
        }
    }

    /// Little-endian read of a pointer-sized value, carried in 8 wire bytes.
    /// Succeeds exactly when 8 bytes are left and the value fits `usize`;
    /// absence with no cursor movement when bytes are missing.
    pub fn read_usize_le(&mut self) -> (r: Option<usize>)
        requires
            old(self).wf(),
        ensures
            final(self).wf(),
            final(self).bytes() == old(self).bytes(),
            final(self).mode() == old(self).mode(),
            old(self).pos() + 8 > old(self).bytes().len() ==> r is None && final(self).pos()
                == old(self).pos(),
            old(self).pos() + 8 <= old(self).bytes().len() ==> final(self).pos() == old(
                self,
            ).pos() + 8 && r == (if le_val(old(self).unread().take(8)) <= usize::MAX {
                Some(le_val(old(self).unread().take(8)) as usize)
            } else {
                None
            }),
    {
        match self.take_le(8) {
            Some(x) => {
                proof {
                    lemma_le_val_bound(old(self).unread().take(8));
                    lemma_pow256_values();
                }
                if x <= usize::MAX as u128 {
                    Some(x as usize)
                } else {
                    None
                }
            },
            None => None,
        }
    }

    /// Big-endian counterpart of [`Self::read_usize_le`].
    pub fn read_usize_be(&mut self) -> (r: Option<usize>)
        requires
            old(self).wf(),
        ensures
            final(self).wf(),
            final(self).bytes() == old(self).bytes(),
            final(self).mode() == old(self).mode(),
            old(self).pos() + 8 > old(self).bytes().len() ==> r is None && final(self).pos()
                == old(self).pos(),
            old(self).pos() + 8 <= old(self).bytes().len() ==> final(self).pos() == old(
                self,
            ).pos() + 8 && r == (if be_val(old(self).unread().take(8)) <= usize::MAX {
                Some(be_val(old(self).unread().take(8)) as usize)
            } else {
                None
            }),
    {
        match self.take_be(8) {
            Some(x) => {
                proof {
                    lemma_be_val_bound(old(self).unread().take(8));
                    lemma_pow256_values();
                }
                if x <= usize::MAX as u128 {
                    Some(x as usize)
                } else {
                    None
                }
            },
            None => None,
        }
    }

    /// Ambient read of a pointer-sized value: dispatches on the buffer's
    /// byte order at call time.
    pub fn read_usize(&mut self) -> (r: Option<usize>)
        requires
            old(self).wf(),
        ensures
            final(self).wf(),
            final(self).bytes() == old(self).bytes(),
            final(self).mode() == old(self).mode(),
            old(self).pos() + 8 > old(self).bytes().len() ==> r is None && final(self).pos()
                == old(self).pos(),
            old(self).pos() + 8 <= old(self).bytes().len() ==> final(self).pos() == old(
                self,
            ).pos() + 8 && r == (if chunk_val(old(self).mode(), old(self).unread().take(8))
                <= usize::MAX {
                Some(chunk_val(old(self).mode(), old(self).unread().take(8)) as usize)
            } else {
                None
            }),
    {
        match self.ambient() {
            Endianness::Little => self.read_usize_le(),
            Endianness::Big => self.read_usize_be(),
        }
    }

    /// Little-endian write of a pointer-sized value, carried in 8 wire
    /// bytes; infallible.
    pub fn write_usize_le(&mut self, value: usize)
        ensures
            final(self).bytes() == old(self).bytes() + le_bytes(value as nat, 8),
            final(self).pos() == old(self).pos(),
            final(self).mode() == old(self).mode(),
    {
        proof {
            lemma_pow256_values();
        }
        self.put_le(value as u128, 8);
    }

    /// Big-endian write of a pointer-sized value, carried in 8 wire bytes;
    /// infallible.
    pub fn write_usize_be(&mut self, value: usize)
        ensures
            final(self).bytes() == old(self).bytes() + be_bytes(value as nat, 8),
            final(self).pos() == old(self).pos(),
            final(self).mode() == old(self).mode(),
    {
        proof {
            lemma_pow256_values();
        }
        self.put_be(value as u128, 8);
    }

    /// Ambient write of a pointer-sized value: dispatches on the buffer's
    /// byte order at call time.
    pub fn write_usize(&mut self, value: usize)
        ensures
            final(self).bytes() == old(self).bytes() + chunk_bytes(
                old(self).mode(),
                value as nat,
                8,
            ),
            final(self).pos() == old(self).pos(),
            final(self).mode() == old(self).mode(),
    {
        match self.ambient() {
            Endianness::Little => self.write_usize_le(value),
            Endianness::Big => self.write_usize_be(value),
        }
    }

    /// Little-endian read of a pointer-sized signed value, carried in 8
    /// wire bytes as a two's-complement residue. Succeeds exactly when 8
    /// bytes are left and the value fits `isize`; absence with no cursor
    /// movement when bytes are missing.
    pub fn read_isize_le(&mut self) -> (r: Option<isize>)
        requires
            old(self).wf(),
        ensures
            final(self).wf(),
            final(self).bytes() == old(self).bytes(),
            final(self).mode() == old(self).mode(),
            old(self).pos() + 8 > old(self).bytes().len() ==> r is None && final(self).pos()
                == old(self).pos(),
            old(self).pos() + 8 <= old(self).bytes().len() ==> final(self).pos() == old(
                self,
            ).pos() + 8 && r == (if isize::MIN <= to_signed(
                le_val(old(self).unread().take(8)),
                8,
            ) <= isize::MAX {
                Some(to_signed(le_val(old(self).unread().take(8)), 8) as isize)
            } else {
                None
            }),
    {
        match self.take_le(8) {
            Some(x) => {
                proof {
                    lemma_le_val_bound(old(self).unread().take(8));
                    lemma_pow256_values();
                }
                let sv: i64 = i64_signed(x as u64);
                if isize::MIN as i64 <= sv && sv <= isize::MAX as i64 {
                    Some(sv as isize)
                } else {
                    None
                }
            },
            None => None,
        }
    }

    /// Big-endian counterpart of [`Self::read_isize_le`].
    pub fn read_isize_be(&mut self) -> (r: Option<isize>)
        requires
            old(self).wf(),
        ensures
            final(self).wf(),
            final(self).bytes() == old(self).bytes(),
            final(self).mode() == old(self).mode(),
            old(self).pos() + 8 > old(self).bytes().len() ==> r is None && final(self).pos()
                == old(self).pos(),
            old(self).pos() + 8 <= old(self).bytes().len() ==> final(self).pos() == old(
                self,
            ).pos() + 8 && r == (if isize::MIN <= to_signed(
                be_val(old(self).unread().take(8)),
                8,
            ) <= isize::MAX {
                Some(to_signed(be_val(old(self).unread().take(8)), 8) as isize)
            } else {
                None
            }),
    {
        match self.take_be(8) {
            Some(x) => {
                proof {
                    lemma_be_val_bound(old(self).unread().take(8));
                    lemma_pow256_values();
                }
                let sv: i64 = i64_signed(x as u64);
                if isize::MIN as i64 <= sv && sv <= isize::MAX as i64 {
                    Some(sv as isize)
                } else {
                    None
                }
            },
            None => None,
        }
    }

    /// Ambient read of a pointer-sized signed value: dispatches on the
    /// buffer's byte order at call time.
    pub fn read_isize(&mut self) -> (r: Option<isize>)
        requires
            old(self).wf(),
        ensures
            final(self).wf(),
            final(self).bytes() == old(self).bytes(),
            final(self).mode() == old(self).mode(),
            old(self).pos() + 8 > old(self).bytes().len() ==> r is None && final(self).pos()
                == old(self).pos(),
            old(self).pos() + 8 <= old(self).bytes().len() ==> final(self).pos() == old(
                self,
            ).pos() + 8 && r == (if isize::MIN <= to_signed(
                chunk_val(old(self).mode(), old(self).unread().take(8)),
                8,
            ) <= isize::MAX {
                Some(to_signed(chunk_val(old(self).mode(), old(self).unread().take(8)), 8) as isize)
            } else {
                None
            }),
    {
        match self.ambient() {
            Endianness::Little => self.read_isize_le(),
            Endianness::Big => self.read_isize_be(),
        }
    }

    /// Little-endian write of a pointer-sized signed value, carried in 8
    /// wire bytes as a two's-complement residue; infallible.
    pub fn write_isize_le(&mut self, value: isize)
        ensures
            final(self).bytes() == old(self).bytes() + le_bytes(to_unsigned(value as int, 8), 8),
            final(self).pos() == old(self).pos(),
            final(self).mode() == old(self).mode(),
    {
        proof {
            lemma_pow256_values();
        }
        let u: u64 = i64_residue(value as i64);
        self.put_le(u as u128, 8);
    }

    /// Big-endian write of a pointer-sized signed value, carried in 8 wire
    /// bytes as a two's-complement residue; infallible.
    pub fn write_isize_be(&mut self, value: isize)
        ensures
            final(self).bytes() == old(self).bytes() + be_bytes(to_unsigned(value as int, 8), 8),
            final(self).pos() == old(self).pos(),
            final(self).mode() == old(self).mode(),
    {
        proof {
            lemma_pow256_values();
        }
        let u: u64 = i64_residue(value as i64);
        self.put_be(u as u128, 8);
    }

    /// Ambient write of a pointer-sized signed value: dispatches on the
    /// buffer's byte order at call time.
    pub fn write_isize(&mut self, value: isize)
        ensures
            final(self).bytes() == old(self).bytes() + chunk_bytes(
                old(self).mode(),
                to_unsigned(value as int, 8),
                8,
            ),
            final(self).pos() == old(self).pos(),
            final(self).mode() == old(self).mode(),
    {
        match self.ambient() {
            Endianness::Little => self.write_isize_le(value),
            Endianness::Big => self.write_isize_be(value),
        }
    }
}

} // verus!
