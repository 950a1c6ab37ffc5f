//! The buffer engine: construction, cursor movement, bounds checking, and
//! the primitive byte-level reads and writes.

use bytebuf::{ByteBuf, Endianness};

#[test]
fn new_buffer_is_empty_little_endian() {
    let buf = ByteBuf::new();
    assert!(buf.is_empty());
    assert_eq!(buf.len(), 0);
    assert_eq!(buf.remaining(), 0);
    assert!(!buf.has_remaining());
}

#[test]
fn default_matches_new() {
    let buf = ByteBuf::default();
    assert!(buf.is_empty());
    assert_eq!(buf.remaining(), 0);
}

#[test]
fn with_capacity_is_empty() {
    let buf = ByteBuf::with_capacity(64);
    assert!(buf.is_empty());
    assert_eq!(buf.len(), 0);
}

#[test]
fn with_zeored_holds_zero_bytes() {
    let buf = ByteBuf::with_zeored(5);
    assert_eq!(buf.len(), 5);
    assert_eq!(buf.inner(), &[0u8, 0, 0, 0, 0]);
    assert_eq!(buf.remaining(), 5);
}

#[test]
fn from_vec_wraps_content_cursor_at_start() {
    let mut buf = ByteBuf::from(vec![10u8, 20, 30]);
    assert_eq!(buf.len(), 3);
    assert_eq!(buf.remaining(), 3);
    assert_eq!(buf.read_u8(), Some(10));
    assert_eq!(buf.remaining(), 2);
}

#[test]
fn empty_buffer_single_byte_read_is_absent() {
    let mut buf = ByteBuf::new();
    assert_eq!(buf.read_u8(), None);
}

#[test]
fn single_byte_read_succeeds_while_position_below_len() {
    let mut buf = ByteBuf::from(vec![1u8, 2]);
    assert_eq!(buf.read_u8(), Some(1));
    assert_eq!(buf.read_u8(), Some(2));
    // position == len now: exactly here the read fails.
    assert_eq!(buf.read_u8(), None);
    assert_eq!(buf.remaining(), 0);
}

#[test]
fn read_exact_succeeds_up_to_the_end() {
    let mut buf = ByteBuf::from(vec![1u8, 2, 3, 4]);
    assert_eq!(buf.read_exact::<2>(), Some([1, 2]));
    // The last two bytes, ending exactly at the end, are readable.
    assert_eq!(buf.read_exact::<2>(), Some([3, 4]));
    assert_eq!(buf.remaining(), 0);
}

#[test]
fn read_exact_failure_leaves_cursor_unchanged() {
    let mut buf = ByteBuf::from(vec![1u8, 2, 3]);
    assert_eq!(buf.read_exact::<2>(), Some([1, 2]));
    assert_eq!(buf.read_exact::<2>(), None);
    assert_eq!(buf.remaining(), 1);
    assert_eq!(buf.read_u8(), Some(3));
}

#[test]
fn read_bytes_never_reaches_the_trailing_bytes() {
    // The variable-length read uses a strict bound: the `len` bytes ending
    // exactly at the buffer's end can never be read through this path.
    let mut buf = ByteBuf::from(vec![1u8, 2, 3]);
    assert_eq!(buf.read_bytes(3), None);
    assert_eq!(buf.read_bytes(2), Some(vec![1, 2]));
    // One byte is left; even a one-byte read would end at the end.
    assert_eq!(buf.read_bytes(1), None);
    assert_eq!(buf.remaining(), 1);
}

#[test]
fn read_bytes_zero_len_succeeds_on_nonempty_remainder() {
    let mut buf = ByteBuf::from(vec![9u8]);
    assert_eq!(buf.read_bytes(0), Some(vec![]));
    assert_eq!(buf.remaining(), 1);
}

#[test]
fn write_bool_pair_yields_one_then_zero() {
    let mut buf = ByteBuf::new();
    buf.write_bool(true);
    buf.write_bool(false);
    assert_eq!(buf.inner(), &[0x01u8, 0x00]);
    assert_eq!(buf.read_bool(), Some(true));
    assert_eq!(buf.read_bool(), Some(false));
    assert_eq!(buf.read_bool(), None);
}

#[test]
fn read_bool_maps_every_other_byte_to_false() {
    let mut buf = ByteBuf::from(vec![0u8, 2, 255, 1]);
    assert_eq!(buf.read_bool(), Some(false));
    assert_eq!(buf.read_bool(), Some(false));
    assert_eq!(buf.read_bool(), Some(false));
    assert_eq!(buf.read_bool(), Some(true));
}

#[test]
fn write_bytes_appends_at_the_end() {
    let mut buf = ByteBuf::from(vec![1u8]);
    assert_eq!(buf.read_u8(), Some(1));
    buf.write_bytes(&[2, 3]);
    buf.write_u8(4);
    assert_eq!(buf.inner(), &[1u8, 2, 3, 4]);
    // The cursor did not move: the next unread byte is the first appended.
    assert_eq!(buf.read_u8(), Some(2));
}

#[test]
fn clear_resets_cursor_and_empties_content() {
    let mut buf = ByteBuf::from(vec![1u8, 2, 3]);
    let _ = buf.read_u8();
    buf.clear();
    assert!(buf.is_empty());
    assert_eq!(buf.remaining(), 0);
    buf.write_u8(7);
    assert_eq!(buf.read_u8(), Some(7));
}

#[test]
fn inner_mut_edits_are_seen_by_reads() {
    let mut buf = ByteBuf::from(vec![1u8, 2]);
    buf.inner_mut()[0] = 9;
    assert_eq!(buf.read_u8(), Some(9));
    assert_eq!(buf.read_u8(), Some(2));
}

#[test]
fn ambient_u32_little_endian_bytes() {
    let mut buf = ByteBuf::new();
    buf.write_u32(0x01020304);
    assert_eq!(buf.inner(), &[0x04u8, 0x03, 0x02, 0x01]);
}

#[test]
fn ambient_u32_big_endian_bytes() {
    let mut buf = ByteBuf::with_endianness(Endianness::Big);
    buf.write_u32(0x01020304);
    assert_eq!(buf.inner(), &[0x01u8, 0x02, 0x03, 0x04]);
}

#[test]
fn ambient_output_is_byte_identical_to_explicit_little() {
    let mut ambient = ByteBuf::with_endianness(Endianness::Little);
    let mut explicit = ByteBuf::new();
    ambient.write_u32(0xDEAD_BEEF);
    ambient.write_u16(0x1234);
    ambient.write_i64(-5);
    explicit.write_u32_le(0xDEAD_BEEF);
    explicit.write_u16_le(0x1234);
    explicit.write_i64_le(-5);
    assert_eq!(ambient.inner(), explicit.inner());
}

#[test]
fn ambient_output_is_byte_identical_to_explicit_big() {
    let mut ambient = ByteBuf::with_endianness(Endianness::Big);
    let mut explicit = ByteBuf::new();
    ambient.write_u32(0xDEAD_BEEF);
    ambient.write_u16(0x1234);
    ambient.write_i64(-5);
    explicit.write_u32_be(0xDEAD_BEEF);
    explicit.write_u16_be(0x1234);
    explicit.write_i64_be(-5);
    assert_eq!(ambient.inner(), explicit.inner());
}

#[test]
fn set_endianness_governs_later_ambient_operations() {
    let mut buf = ByteBuf::new();
    buf.write_u16(0x0102);
    buf.set_endianness(Endianness::Big);
    buf.write_u16(0x0102);
    assert_eq!(buf.inner(), &[0x02u8, 0x01, 0x01, 0x02]);
    assert_eq!(buf.read_u16(), Some(0x0201));
    buf.set_endianness(Endianness::Little);
    assert_eq!(buf.read_u16(), Some(0x0201));
}

#[test]
fn explicit_reads_bypass_the_ambient_mode() {
    let mut buf = ByteBuf::with_endianness(Endianness::Big);
    buf.write_u16_le(0x0102);
    assert_eq!(buf.inner(), &[0x02u8, 0x01]);
    assert_eq!(buf.read_u16_le(), Some(0x0102));
}

#[test]
fn numeric_read_failure_leaves_cursor_unchanged() {
    let mut buf = ByteBuf::from(vec![1u8, 2, 3]);
    assert_eq!(buf.read_u32(), None);
    assert_eq!(buf.remaining(), 3);
    assert_eq!(buf.read_u16(), Some(0x0201));
    assert_eq!(buf.read_u16(), None);
    assert_eq!(buf.remaining(), 1);
}

#[test]
fn unsigned_round_trips_all_widths_both_modes() {
    for mode in [Endianness::Little, Endianness::Big] {
        let mut buf = ByteBuf::with_endianness(mode);
        buf.write_u16(0xABCD);
        buf.write_u32(0x0012_3456);
        buf.write_u64(0xFEDC_BA98_7654_3210);
        buf.write_u128(u128::MAX - 7);
        buf.write_usize(usize::MAX);
        assert_eq!(buf.read_u16(), Some(0xABCD));
        assert_eq!(buf.read_u32(), Some(0x0012_3456));
        assert_eq!(buf.read_u64(), Some(0xFEDC_BA98_7654_3210));
        assert_eq!(buf.read_u128(), Some(u128::MAX - 7));
        assert_eq!(buf.read_usize(), Some(usize::MAX));
        assert!(!buf.has_remaining());
    }
}

#[test]
fn signed_round_trips_all_widths_both_modes() {
    for mode in [Endianness::Little, Endianness::Big] {
        let mut buf = ByteBuf::with_endianness(mode);
        buf.write_i16(-2);
        buf.write_i16(i16::MIN);
        buf.write_i32(i32::MIN);
        buf.write_i64(-1);
        buf.write_i128(i128::MIN);
        buf.write_i128(i128::MAX);
        buf.write_isize(isize::MIN);
        assert_eq!(buf.read_i16(), Some(-2));
        assert_eq!(buf.read_i16(), Some(i16::MIN));
        assert_eq!(buf.read_i32(), Some(i32::MIN));
        assert_eq!(buf.read_i64(), Some(-1));
        assert_eq!(buf.read_i128(), Some(i128::MIN));
        assert_eq!(buf.read_i128(), Some(i128::MAX));
        assert_eq!(buf.read_isize(), Some(isize::MIN));
        assert!(!buf.has_remaining());
    }
}

#[test]
fn explicit_round_trips_le_and_be() {
    let mut buf = ByteBuf::new();
    buf.write_u64_be(77);
    buf.write_i32_le(-1000);
    buf.write_u16_be(0x0102);
    buf.write_i128_be(-3);
    buf.write_usize_le(42);
    buf.write_isize_be(-42);
    assert_eq!(buf.read_u64_be(), Some(77));
    assert_eq!(buf.read_i32_le(), Some(-1000));
    assert_eq!(buf.read_u16_be(), Some(0x0102));
    assert_eq!(buf.read_i128_be(), Some(-3));
    assert_eq!(buf.read_usize_le(), Some(42));
    assert_eq!(buf.read_isize_be(), Some(-42));
}

#[test]
fn signed_two_complement_wire_bytes() {
    let mut buf = ByteBuf::new();
    buf.write_i16_le(-2);
    assert_eq!(buf.inner(), &[0xFEu8, 0xFF]);
    let mut buf = ByteBuf::new();
    buf.write_i16_be(-2);
    assert_eq!(buf.inner(), &[0xFFu8, 0xFE]);
    let mut buf = ByteBuf::new();
    buf.write_i32_le(-1);
    assert_eq!(buf.inner(), &[0xFFu8, 0xFF, 0xFF, 0xFF]);
}

#[test]
fn pointer_sized_values_span_eight_wire_bytes() {
    let mut buf = ByteBuf::new();
    buf.write_usize_le(0x0102);
    assert_eq!(buf.inner(), &[0x02u8, 0x01, 0, 0, 0, 0, 0, 0]);
    let mut buf = ByteBuf::new();
    buf.write_isize_be(1);
    assert_eq!(buf.inner(), &[0u8, 0, 0, 0, 0, 0, 0, 1]);
}
