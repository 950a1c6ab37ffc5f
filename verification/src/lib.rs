//! An endianness-aware, cursor-based byte buffer for reading and writing
//! fixed-width primitives, together with a field-composition contract that
//! builds a record's codec out of its fields' codecs.

use vstd::prelude::*;

pub mod buf;
pub mod bytes;
pub mod codec;
pub mod num;
pub mod record;
pub mod shape;

pub use buf::{ByteBuf, Endianness};
pub use codec::{FromBytes, IntoBytes};

verus! {

/// Decode a value of any codec-contract type from the buffer's cursor
/// onward, under the buffer's byte order at call time.
pub fn from_bytes<T: FromBytes>(buf: &mut ByteBuf) -> (r: Option<T>)
    requires
        old(buf).wf(),
    ensures
        final(buf).wf(),
        final(buf).bytes() == old(buf).bytes(),
        final(buf).mode() == old(buf).mode(),
        old(buf).pos() <= final(buf).pos(),
        match r {
            Some(v) => final(buf).pos() == old(buf).pos() + v.wire(old(buf).mode()).len(),
            None => true,
        },
        forall|v: T| (#[trigger] v.wire(old(buf).mode())).is_prefix_of(old(buf).unread()) ==> r
            == Some(v),
{
    T::from_bytes(buf)
}

/// Encode a value of any codec-contract type at the end of the buffer's
/// content, under the buffer's byte order at call time; infallible.
pub fn into_bytes<T: IntoBytes>(value: T, buf: &mut ByteBuf)
    requires
        old(buf).wf(),
    ensures
        final(buf).wf(),
        final(buf).bytes() == old(buf).bytes() + value.wire(old(buf).mode()),
        final(buf).pos() == old(buf).pos(),
        final(buf).mode() == old(buf).mode(),
{
    value.into_bytes(buf);
}

} // verus!
