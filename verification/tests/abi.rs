use ppanel_sdk::abi::{pack, reply_region, reset, unpack};

#[test]
fn pack_puts_address_above_length() {
    assert_eq!(pack(0x10, 5), 0x0000_0010_0000_0005);
    assert_eq!(pack(1, 0), 1i64 << 32);
    assert_eq!(pack(0, 0), 0);
}

#[test]
fn unpack_gives_back_what_was_packed() {
    for (p, l) in [(0, 0), (8, 3), (i32::MAX, i32::MAX), (-8, 16), (65536, -1), (i32::MIN, 7)] {
        assert_eq!(unpack(pack(p, l)), (p, l));
    }
}

#[test]
fn reply_region_reads_unsigned() {
    assert_eq!(reply_region(pack(-16, 4)), Some((0xFFFF_FFF0, 4)));
    assert_eq!(reply_region(pack(100, -1)), Some((100, u32::MAX)));
}

#[test]
fn empty_reply_has_no_region() {
    assert_eq!(reply_region(pack(100, 0)), None);
    assert_eq!(reply_region(0), None);
}

#[test]
fn reset_does_nothing() {
    reset();
}
