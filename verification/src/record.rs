//! The structural half of the library: a record's codec is built from its
//! fields' codecs by sequential delegation. Encoding writes every field in
//! declared order against the same buffer; decoding attempts every field in
//! declared order and short-circuits to absence on the first field that
//! fails, with no rewind of bytes already consumed. A record's wire format
//! is therefore the concatenation of its fields' wire formats, in declared
//! order, with no tag, length or padding.
//!
//! The two records here are written exactly as the sequential delegation
//! that structural derivation emits for any record with named fields; their
//! proofs show that the codec contract composes, field by field and through
//! nesting.

use vstd::prelude::*;

use crate::buf::{ByteBuf, Endianness};
use crate::bytes::{
    lemma_be_bytes_len, lemma_be_canonical, lemma_be_round_trip, lemma_be_val_bound,
    lemma_le_bytes_len, lemma_le_canonical, lemma_le_round_trip, lemma_le_val_bound,
    lemma_pow256_values,
};
use crate::codec::{FromBytes, IntoBytes};
use crate::num::{chunk_bytes, chunk_val};

verus! {

/// A record `{ a: u16, b: u8 }` with its fields in that declared order.
#[derive(Clone, Copy, PartialEq, Eq, Structural, Debug)]
pub struct Pair {
    pub a: u16,
    pub b: u8,
}

/// A record whose first field is itself a record: composition nests.
#[derive(Clone, Copy, PartialEq, Eq, Structural, Debug)]
pub struct Nested {
    pub head: Pair,
    pub tail: u32,
}

/// If a concatenation is a prefix, its first part is a prefix, and its
/// second part is a prefix of what follows the first.
proof fn lemma_prefix_split(x: Seq<u8>, y: Seq<u8>, p: Seq<u8>)
    requires
        (x + y).is_prefix_of(p),
    ensures
        x.is_prefix_of(p),
        y.is_prefix_of(p.skip(x.len() as int)),
{
    assert(x =~= p.subrange(0, x.len() as int));
    assert forall|i: int| 0 <= i < y.len() implies y[i] == p[x.len() + i] by {
        assert((x + y)[x.len() + i] == y[i]);
        assert(p.subrange(0, (x + y).len() as int)[x.len() + i] == p[x.len() + i]);
    }
    assert(y =~= p.skip(x.len() as int).subrange(0, y.len() as int));
}

impl IntoBytes for Pair {
    /// Field wire formats concatenated in declared order.
    open spec fn wire(self, m: Endianness) -> Seq<u8> {
        self.a.wire(m) + self.b.wire(m)
    }

    fn into_bytes(self, buf: &mut ByteBuf) {
        self.a.into_bytes(buf);
        self.b.into_bytes(buf);
        proof {
            let m = old(buf).mode();
            assert(old(buf).bytes() + (self.a.wire(m) + self.b.wire(m)) =~= old(buf).bytes()
                + self.a.wire(m) + self.b.wire(m));
        }
    }
}

impl FromBytes for Pair {
    fn from_bytes(buf: &mut ByteBuf) -> (r: Option<Self>) {
        let ghost pre = old(buf).unread();
        let ghost m = old(buf).mode();
        let r = Pair::decode(buf);
        proof {
            lemma_pow256_values();
            if let Some(x) = r {
                lemma_pair_wire(x, m);
            }
            assert forall|v: Pair| (#[trigger] v.wire(m)).is_prefix_of(pre) implies r == Some(v) by {
                lemma_pair_wire(v, m);
                lemma_prefix_split(v.a.wire(m), v.b.wire(m), pre);
                lemma_le_bytes_len(v.a as nat, 2);
                lemma_be_bytes_len(v.a as nat, 2);
                assert(v.a.wire(m) =~= pre.take(2));
                match m {
                    Endianness::Little => {
                        lemma_le_round_trip(v.a as nat, 2);
                    },
                    Endianness::Big => {
                        lemma_be_round_trip(v.a as nat, 2);
                    },
                }
                let wb = v.b.wire(m);
                assert(wb == seq![v.b]);
                assert(wb.is_prefix_of(pre.skip(2)));
                assert(wb == pre.skip(2).subrange(0, 1));
                assert(pre.skip(2).subrange(0, 1)[0] == pre.skip(2)[0]);
                assert(pre.skip(2)[0] == pre[2]);
                assert(v == Pair { a: v.a, b: v.b });
            }
        }
        r
    }
}

impl IntoBytes for Nested {
    /// Field wire formats concatenated in declared order.
    open spec fn wire(self, m: Endianness) -> Seq<u8> {
        self.head.wire(m) + self.tail.wire(m)
    }

    fn into_bytes(self, buf: &mut ByteBuf) {
        self.head.into_bytes(buf);
        self.tail.into_bytes(buf);
        proof {
            let m = old(buf).mode();
            assert(old(buf).bytes() + (self.head.wire(m) + self.tail.wire(m)) =~= old(
                buf,
            ).bytes() + self.head.wire(m) + self.tail.wire(m));
        }
    }
}

impl FromBytes for Nested {
    fn from_bytes(buf: &mut ByteBuf) -> (r: Option<Self>) {
        let ghost pre = old(buf).unread();
        let ghost m = old(buf).mode();
        let head = match Pair::from_bytes(buf) {
            Some(head) => head,
            None => {
                proof {
                    assert forall|v: Nested| (#[trigger] v.wire(m)).is_prefix_of(pre)
                        implies false by {
                        lemma_prefix_split(v.head.wire(m), v.tail.wire(m), pre);
                    }
                }
                return None;
            },
        };
        let ghost mid = buf.unread();
        let tail = match u32::from_bytes(buf) {
            Some(tail) => tail,
            None => {
                proof {
                    assert forall|v: Nested| (#[trigger] v.wire(m)).is_prefix_of(pre)
                        implies false by {
                        lemma_prefix_split(v.head.wire(m), v.tail.wire(m), pre);
                        assert(mid =~= pre.skip(v.head.wire(m).len() as int));
                    }
                }
                return None;
            },
        };
        proof {
            assert forall|v: Nested| (#[trigger] v.wire(m)).is_prefix_of(pre) implies Some(
                Nested { head, tail },
            ) == Some(v) by {
                lemma_prefix_split(v.head.wire(m), v.tail.wire(m), pre);
                assert(mid =~= pre.skip(v.head.wire(m).len() as int));
                assert(v == Nested { head: v.head, tail: v.tail });
            }
        }
        Some(Nested { head, tail })
    }
}

impl Pair {
    /// The sequential field delegation that structural derivation emits for
    /// this record, with its exact outcome: with at least 3 unread bytes
    /// the record decodes, field by field in declared order; with exactly 2
    /// the first field's bytes are consumed before the second reports
    /// absence; with fewer than 2 the first field already reports absence.
    pub fn decode(buf: &mut ByteBuf) -> (r: Option<Pair>)
        requires
            old(buf).wf(),
        ensures
            final(buf).wf(),
            final(buf).bytes() == old(buf).bytes(),
            final(buf).mode() == old(buf).mode(),
            old(buf).unread().len() >= 3 ==> r == Some(
                Pair {
                    a: chunk_val(old(buf).mode(), old(buf).unread().take(2)) as u16,
                    b: old(buf).unread()[2],
                },
            ) && final(buf).pos() == old(buf).pos() + 3,
            old(buf).unread().len() == 2 ==> r is None && final(buf).pos() == old(buf).pos() + 2,
            old(buf).unread().len() < 2 ==> r is None && old(buf).pos() <= final(buf).pos()
                <= old(buf).bytes().len(),
    {
        let ghost pre = old(buf).unread();
        let ghost m = old(buf).mode();
        proof {
            lemma_pow256_values();
            if pre.len() >= 2 {
                let s = pre.take(2);
                lemma_le_val_bound(s);
                lemma_be_val_bound(s);
                lemma_le_canonical(s);
                lemma_be_canonical(s);
                let va: u16 = chunk_val(m, s) as u16;
                assert(va.wire(m) == chunk_bytes(m, chunk_val(m, s), 2));
                assert(va.wire(m) =~= s);
                assert(s.is_prefix_of(pre));
            }
        }
        let a = match u16::from_bytes(buf) {
            Some(a) => a,
            None => {
                return None;
            },
        };
        proof {
            lemma_le_bytes_len(a as nat, 2);
            lemma_be_bytes_len(a as nat, 2);
            assert(buf.unread() =~= pre.skip(2));
            if pre.len() >= 3 {
                let vb: u8 = pre[2];
                assert(vb.wire(m) =~= pre.skip(2).subrange(0, 1));
                assert(vb.wire(m).is_prefix_of(pre.skip(2)));
            }
        }
        let b = match u8::from_bytes(buf) {
            Some(b) => b,
            None => {
                return None;
            },
        };
        Some(Pair { a, b })
    }
}

/// A record's wire format is the ordered concatenation of its fields' wire
/// formats: for `Pair`, the 2 bytes of `a` then the 1 byte of `b`.
pub proof fn lemma_pair_wire(v: Pair, m: Endianness)
    ensures
        v.wire(m) == v.a.wire(m) + v.b.wire(m),
        v.wire(m).len() == 3,
{
    lemma_le_bytes_len(v.a as nat, 2);
    lemma_be_bytes_len(v.a as nat, 2);
}

/// Concatenation nests: a record field contributes its own concatenated
/// wire format, so `Nested` is the 3 bytes of `head` then the 4 of `tail`.
pub proof fn lemma_nested_wire(v: Nested, m: Endianness)
    ensures
        v.wire(m) == v.head.wire(m) + v.tail.wire(m),
        v.wire(m).len() == 7,
{
    lemma_pair_wire(v.head, m);
    lemma_le_bytes_len(v.tail as nat, 4);
    lemma_be_bytes_len(v.tail as nat, 4);
}

} // verus!
