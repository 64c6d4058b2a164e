use placeclient::bytes::get_u128;
use placeclient::encode::{encode_lines, read, read_checked, time_delta_of, ColorTable, NameTable};

const PIXEL: &str = "2022-04-04 00:53:51.577 UTC,ovTZmPHlxcvQ+5=,#00CCC0,\"826,1048\"";
const RECT: &str = "2022-04-04 00:53:51.577 UTC,admin,#000000,\"0,0,5,5\"";

#[test]
fn pixel_line_packs() {
    let colors = ColorTable::new();
    let mut names = NameTable::new();
    assert_eq!(read(PIXEL, &colors, &mut names), Some(0x33a830000002c000d5458d9000000000));
    assert_eq!(names.get("ovTZmPHlxcvQ+5="), Some(0));
}

#[test]
fn rect_line_packs() {
    let colors = ColorTable::new();
    let mut names = NameTable::new();
    assert_eq!(read(PIXEL, &colors, &mut names), Some(0x33a830000002c000d5458d9000000000));
    assert_eq!(read(RECT, &colors, &mut names), Some(0x80000001402ec000d5458d9000000010));
    assert_eq!(names.len(), 2);
}

#[test]
fn users_are_numbered_in_order_of_appearance() {
    let colors = ColorTable::new();
    let mut names = NameTable::new();
    let line = |u: &str| format!("2022-04-04 00:53:51.577 UTC,{},#FFFFFF,\"1,2\"", u);
    read(&line("a"), &colors, &mut names);
    read(&line("b"), &colors, &mut names);
    read(&line("a"), &colors, &mut names);
    read(&line("c"), &colors, &mut names);
    assert_eq!(names.get("a"), Some(0));
    assert_eq!(names.get("b"), Some(1));
    assert_eq!(names.get("c"), Some(2));
    assert_eq!(names.len(), 3);
}

#[test]
fn unknown_colour_is_rejected_but_user_kept() {
    let colors = ColorTable::new();
    let mut names = NameTable::new();
    let line = "2022-04-04 00:53:51.577 UTC,u,#123456,\"1,2\"";
    assert_eq!(read(line, &colors, &mut names), None);
    assert_eq!(names.get("u"), Some(0));
}

#[test]
fn missing_quotes_are_rejected() {
    let colors = ColorTable::new();
    let mut names = NameTable::new();
    assert_eq!(read("2022-04-04 00:53:51.577 UTC,u,#FFFFFF,1,\"2\"", &colors, &mut names), None);
    assert_eq!(read("2022-04-04 00:53:51.577 UTC,u,#FFFFFF,\"1,2", &colors, &mut names), None);
    assert_eq!(read("2022-04-04 00:53:51.577 UTC,u,#FFFFFF,\"1,2,3,4", &colors, &mut names), None);
}

#[test]
fn aborting_lines_leave_names_alone() {
    let colors = ColorTable::new();
    let mut names = NameTable::new();
    for bad in [
        "not a time,u,#FFFFFF,\"1,2\"",
        "2022-04-04 00:53:51.577 UTC",
        "2022-04-04 00:53:51.577 UTC,u",
        "2022-04-04 00:53:51.577 UTC,u,#FFFFFF",
        "2022-04-04 00:53:51.577 UTC,u,#FFFFFF,\"x,2\"",
        "2022-04-04 00:53:51.577 UTC,u,#FFFFFF,\"1,2,3\"",
        "2022-04-04 00:53:51.577 UTC,u,#FFFFFF,\"1,99999\"",
        "2022-03-01 00:00:00.000 UTC,u,#FFFFFF,\"1,2\"",
    ] {
        assert_eq!(read_checked(bad, &colors, &mut names), None, "line {:?}", bad);
    }
    assert_eq!(names.len(), 0);
}

#[test]
fn checked_read_matches_read() {
    let colors = ColorTable::new();
    let mut names = NameTable::new();
    assert_eq!(read_checked(PIXEL, &colors, &mut names), Some(Some(0x33a830000002c000d5458d9000000000)));
    assert_eq!(
        read_checked("2022-04-04 00:53:51.577 UTC,u,#123456,\"1,2\"", &colors, &mut names),
        Some(None)
    );
    assert_eq!(names.len(), 2);
}

#[test]
fn palette_has_all_colours() {
    let colors = ColorTable::new();
    assert_eq!(colors.get("#6D001A"), Some(0));
    assert_eq!(colors.get("#FFFFFF"), Some(31));
    assert_eq!(colors.get("#000000"), Some(27));
    assert_eq!(colors.get("#ffffff"), None);
}

#[test]
fn time_delta_edges() {
    assert_eq!(time_delta_of(1648810000000), Some(0));
    assert_eq!(time_delta_of(1648810000001), Some(1));
    assert_eq!(time_delta_of(1648809999999), None);
    assert_eq!(time_delta_of(0), None);
    assert_eq!(time_delta_of(-1), Some(u128::MAX - 1648810000000));
}

#[test]
fn file_numbering_matches_first_appearance_and_records() {
    let colors = ColorTable::new();
    let mut names = NameTable::new();
    let users = ["x", "y", "x", "z", "y", "w"];
    let mut ids = Vec::new();
    for u in users {
        let line = format!("2022-04-04 00:53:51.577 UTC,{},#FFFFFF,\"1,2\"", u);
        let d = read(&line, &colors, &mut names).unwrap();
        ids.push(((d >> 4) & 0xFFFF_FFFF) as u32);
    }
    assert_eq!(ids, vec![0, 1, 0, 2, 1, 3]);
}

#[test]
fn batch_writes_sixteen_bytes_per_line_in_order() {
    let colors = ColorTable::new();
    let mut names = NameTable::new();
    let lines: Vec<String> = vec![PIXEL.to_string(), RECT.to_string(), PIXEL.to_string()];
    let mut out = Vec::new();
    assert!(encode_lines(&lines, &colors, &mut names, &mut out).is_none());
    assert_eq!(out.len(), 48);
    let chunk = |k: usize| -> u128 {
        let a: [u8; 16] = out[16 * k..16 * k + 16].try_into().unwrap();
        get_u128(&a)
    };
    assert_eq!(chunk(0), 0x33a830000002c000d5458d9000000000);
    assert_eq!(chunk(1), 0x80000001402ec000d5458d9000000010);
    assert_eq!(chunk(2), 0x33a830000002c000d5458d9000000000);
}

#[test]
fn batch_stops_at_first_bad_line() {
    let colors = ColorTable::new();
    let mut names = NameTable::new();
    let lines: Vec<String> = vec![
        PIXEL.to_string(),
        "2022-04-04 00:53:51.577 UTC,v,#123456,\"1,2\"".to_string(),
        RECT.to_string(),
    ];
    let mut out = Vec::new();
    let end = encode_lines(&lines, &colors, &mut names, &mut out).unwrap();
    assert_eq!(end.line, 1);
    assert!(end.rejected);
    assert_eq!(out.len(), 16);
    assert_eq!(names.get("v"), Some(1));

    let mut names = NameTable::new();
    let mut out = Vec::new();
    let bad: Vec<String> = vec![PIXEL.to_string(), "garbage".to_string()];
    let end = encode_lines(&bad, &colors, &mut names, &mut out).unwrap();
    assert_eq!(end.line, 1);
    assert!(!end.rejected);
    assert_eq!(names.len(), 1);
}
