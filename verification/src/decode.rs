//! Reading diff files back: each sixteen-byte element becomes one line of
//! text naming its fields.
use crate::bytes::{get_u128, le_seq, le_value, lemma_le_roundtrip};
use crate::diff::{
    decoded, lemma_pixel_roundtrip, lemma_rect_roundtrip, pixel_bits, rect_bits, unpack_diff,
    DiffRecord, RECT_FLAG,
};
use crate::text::{decimal, push_decimal, push_str, string_from_chars};
use vstd::prelude::*;

verus! {

/// The text line that describes a record.
pub open spec fn describe_spec(r: DiffRecord) -> Seq<char> {
    match r {
        DiffRecord::Pixel { x, y, color, time, name } => "x: "@ + decimal(x as nat) + " y: "@
            + decimal(y as nat) + " color: "@ + decimal(color as nat) + " time: "@ + decimal(
            time as nat,
        ) + " name: "@ + decimal(name as nat),
        DiffRecord::Rect { x, y, x2, y2, color, time, name } => "x: "@ + decimal(x as nat)
            + " y: "@ + decimal(y as nat) + " x2: "@ + decimal(x2 as nat) + " y2: "@ + decimal(
            y2 as nat,
        ) + " color: "@ + decimal(color as nat) + " time: "@ + decimal(time as nat)
            + " name: "@ + decimal(name as nat),
    }
}

/// Describes a record as one line of text.
pub fn describe(r: &DiffRecord) -> (s: String)
    ensures
        s@ == describe_spec(*r),
{
    let mut out: Vec<char> = Vec::new();
    match *r {
        DiffRecord::Pixel { x, y, color, time, name } => {
            push_str(&mut out, "x: ");
            push_decimal(&mut out, x as u128);
            push_str(&mut out, " y: ");
            push_decimal(&mut out, y as u128);
            push_str(&mut out, " color: ");
            push_decimal(&mut out, color as u128);
            push_str(&mut out, " time: ");
            push_decimal(&mut out, time as u128);
            push_str(&mut out, " name: ");
            push_decimal(&mut out, name as u128);
        },
        DiffRecord::Rect { x, y, x2, y2, color, time, name } => {
            push_str(&mut out, "x: ");
            push_decimal(&mut out, x as u128);
            push_str(&mut out, " y: ");
            push_decimal(&mut out, y as u128);
            push_str(&mut out, " x2: ");
            push_decimal(&mut out, x2 as u128);
            push_str(&mut out, " y2: ");
            push_decimal(&mut out, y2 as u128);
            push_str(&mut out, " color: ");
            push_decimal(&mut out, color as u128);
            push_str(&mut out, " time: ");
            push_decimal(&mut out, time as u128);
            push_str(&mut out, " name: ");
            push_decimal(&mut out, name as u128);
        },
    }
    string_from_chars(out)
}

/// Reads one sixteen-byte element and describes it.
pub fn decode_element(buf: &[u8; 16]) -> (s: String)
    ensures
        s@ == describe_spec(decoded(le_value(buf@) as u128)),
{
    let d = get_u128(buf);
    let r = unpack_diff(d);
    describe(&r)
}

/// A pixel change written to a diff file as sixteen bytes reads back as the
/// same change, when its fields fit the widths the reader takes.
pub proof fn lemma_pixel_file_roundtrip(x: u16, y: u16, color: u32, delta: u128, name: u32)
    requires
        x < 2048,
        y < 2048,
        color < 32,
        delta < 0x1_0000_0000,
    ensures
        decoded(le_value(le_seq(pixel_bits(x, y, color, delta, name), 16)) as u128) == (
        DiffRecord::Pixel { x, y, color: color as u8, time: delta as u32, name }),
{
    lemma_le_roundtrip(pixel_bits(x, y, color, delta, name));
    lemma_pixel_roundtrip(x, y, color, delta, name);
}

/// A rectangle change written to a diff file reads back as the same change
/// under the same bounds.
pub proof fn lemma_rect_file_roundtrip(
    x: u16,
    y: u16,
    x2: u16,
    y2: u16,
    color: u32,
    delta: u128,
    name: u32,
)
    requires
        x < 2048,
        y < 2048,
        x2 < 2048,
        y2 < 2048,
        color < 32,
        delta < 0x1_0000_0000,
    ensures
        decoded(le_value(le_seq(rect_bits(x, y, x2, y2, color, delta, name), 16)) as u128) == (
        DiffRecord::Rect { x, y, x2, y2, color: color as u8, time: delta as u32, name }),
{
    lemma_le_roundtrip(rect_bits(x, y, x2, y2, color, delta, name));
    lemma_rect_roundtrip(x, y, x2, y2, color, delta, name);
}

/// The line printed for a rectangle element names, after each label, the
/// field of that name read from its bits: x from bit 116, y from bit 105,
/// the second x from bit 94, the second y from bit 83, the colour from bit
/// 78, the time from bit 36 and the user number from bit 4.
pub proof fn lemma_rect_text(d: u128)
    requires
        d & RECT_FLAG != 0,
    ensures
        describe_spec(decoded(d)) == "x: "@ + decimal(((d >> 116u128) & 0x7FF) as nat) + " y: "@
            + decimal(((d >> 105u128) & 0x7FF) as nat) + " x2: "@ + decimal(
            ((d >> 94u128) & 0x7FF) as nat,
        ) + " y2: "@ + decimal(((d >> 83u128) & 0x7FF) as nat) + " color: "@ + decimal(
            ((d >> 78u128) & 0x1F) as nat,
        ) + " time: "@ + decimal(((d >> 36u128) & 0xFFFF_FFFF) as nat) + " name: "@ + decimal(
            ((d >> 4u128) & 0xFFFF_FFFF) as nat,
        ),
{
    lemma_field_widths(d);
}

/// The line printed for a single-pixel element names, after each label, the
/// field of that name read from its bits, as for a rectangle but without the
/// second corner.
pub proof fn lemma_pixel_text(d: u128)
    requires
        d & RECT_FLAG == 0,
    ensures
        describe_spec(decoded(d)) == "x: "@ + decimal(((d >> 116u128) & 0x7FF) as nat) + " y: "@
            + decimal(((d >> 105u128) & 0x7FF) as nat) + " color: "@ + decimal(
            ((d >> 78u128) & 0x1F) as nat,
        ) + " time: "@ + decimal(((d >> 36u128) & 0xFFFF_FFFF) as nat) + " name: "@ + decimal(
            ((d >> 4u128) & 0xFFFF_FFFF) as nat,
        ),
{
    lemma_field_widths(d);
}

/// Each field the reader takes fits the integer type it is stored in.
proof fn lemma_field_widths(d: u128)
    ensures
        (d >> 116u128) & 0x7FF <= 0x7FF,
        (d >> 105u128) & 0x7FF <= 0x7FF,
        (d >> 94u128) & 0x7FF <= 0x7FF,
        (d >> 83u128) & 0x7FF <= 0x7FF,
        (d >> 78u128) & 0x1F <= 0x1F,
        (d >> 36u128) & 0xFFFF_FFFF <= 0xFFFF_FFFF,
        (d >> 4u128) & 0xFFFF_FFFF <= 0xFFFF_FFFF,
{
    assert((d >> 116u128) & 0x7FF <= 0x7FF) by (bit_vector);
    assert((d >> 105u128) & 0x7FF <= 0x7FF) by (bit_vector);
    assert((d >> 94u128) & 0x7FF <= 0x7FF) by (bit_vector);
    assert((d >> 83u128) & 0x7FF <= 0x7FF) by (bit_vector);
    assert((d >> 78u128) & 0x1F <= 0x1F) by (bit_vector);
    assert((d >> 36u128) & 0xFFFF_FFFF <= 0xFFFF_FFFF) by (bit_vector);
    assert((d >> 4u128) & 0xFFFF_FFFF <= 0xFFFF_FFFF) by (bit_vector);
}

} // verus!
