use placeclient::bytes::{get_u128, le_bytes};
use placeclient::decode::{decode_element, describe};
use placeclient::diff::{pack_pixel, pack_rect, unpack_diff, DiffRecord, RECT_FLAG};

#[test]
fn pixel_packs_into_documented_bits() {
    let d = pack_pixel(826, 1048, 11, 223631577, 0);
    assert_eq!(d, 0x33a830000002c000d5458d9000000000);
}

#[test]
fn rect_packs_with_flag() {
    let d = pack_rect(0, 0, 5, 5, 27, 223631577, 1);
    assert_eq!(d, 0x80000001402ec000d5458d9000000010);
    assert_ne!(d & RECT_FLAG, 0);
}

#[test]
fn pixel_unpacks_to_its_fields() {
    let d = pack_pixel(1999, 7, 31, 0xFFFF_FFFF, 0xDEAD_BEEF);
    assert_eq!(
        unpack_diff(d),
        DiffRecord::Pixel { x: 1999, y: 7, color: 31, time: 0xFFFF_FFFF, name: 0xDEAD_BEEF }
    );
}

#[test]
fn rect_unpacks_to_its_fields() {
    let d = pack_rect(10, 20, 30, 40, 3, 12345, 99);
    assert_eq!(
        unpack_diff(d),
        DiffRecord::Rect { x: 10, y: 20, x2: 30, y2: 40, color: 3, time: 12345, name: 99 }
    );
}

#[test]
fn wide_x_sets_the_rect_flag() {
    // x is written with twelve bits; its top bit lands on the rectangle flag.
    let d = pack_pixel(2048, 0, 0, 0, 0);
    assert_ne!(d & RECT_FLAG, 0);
    assert!(matches!(unpack_diff(d), DiffRecord::Rect { .. }));
}

#[test]
fn bytes_are_little_endian() {
    let v: u128 = 0x33a830000002c000d5458d9000000000;
    let b = le_bytes(v);
    assert_eq!(b, vec![0, 0, 0, 0, 144, 141, 69, 213, 0, 192, 2, 0, 0, 48, 168, 51]);
}

#[test]
fn bytes_read_back() {
    for v in [0u128, 1, 0xFF, 0x0102_0304_0506_0708_090a_0b0c_0d0e_0f10, u128::MAX] {
        let b = le_bytes(v);
        let arr: [u8; 16] = b.try_into().unwrap();
        assert_eq!(get_u128(&arr), v);
    }
}

#[test]
fn describe_pixel_line() {
    let r = DiffRecord::Pixel { x: 826, y: 1048, color: 11, time: 223631577, name: 0 };
    assert_eq!(describe(&r), "x: 826 y: 1048 color: 11 time: 223631577 name: 0");
}

#[test]
fn describe_rect_line() {
    let r = DiffRecord::Rect { x: 0, y: 0, x2: 5, y2: 5, color: 27, time: 10, name: 1 };
    assert_eq!(describe(&r), "x: 0 y: 0 x2: 5 y2: 5 color: 27 time: 10 name: 1");
}

#[test]
fn decode_element_reads_written_bytes() {
    let d = pack_pixel(826, 1048, 11, 223631577, 42);
    let arr: [u8; 16] = le_bytes(d).try_into().unwrap();
    assert_eq!(decode_element(&arr), "x: 826 y: 1048 color: 11 time: 223631577 name: 42");
}
