//! The 128-bit diff record: how one pixel change of the canvas is packed
//! into an integer, and how such an integer is read back.
//!
//! Layout, from the most significant bit down:
//! - bit 127: set for a rectangle, clear for a single pixel
//! - bits 116..: x, bits 105..: y (twelve bits each when written, eleven read)
//! - rectangles only: bits 94..: second x, bits 83..: second y
//! - bits 78..: colour index (five bits read)
//! - bits 36..: milliseconds since the start of the event (32 bits read)
//! - bits 4..: user number (32 bits read)
use vstd::prelude::*;

verus! {

/// Milliseconds since the Unix epoch at which the recorded event starts.
pub const EPOCH_START_MILLIS: i64 = 1648810000000;

/// Bit that tells a rectangle from a single pixel.
pub const RECT_FLAG: u128 = 0x8000_0000_0000_0000_0000_0000_0000_0000;

/// One decoded diff element.
#[derive(Debug, Clone, Copy, PartialEq, Eq, Structural)]
pub enum DiffRecord {
    Pixel { x: u16, y: u16, color: u8, time: u32, name: u32 },
    Rect { x: u16, y: u16, x2: u16, y2: u16, color: u8, time: u32, name: u32 },
}

/// The bits shared by both kinds of record, as the encoder writes them.
pub open spec fn common_bits(x: u16, y: u16, color: u32, delta: u128, name: u32) -> u128 {
    ((x as u128 & 0xFFF) << 116u128) | ((y as u128 & 0xFFF) << 105u128) | ((color as u128)
        << 78u128) | (delta << 36u128) | ((name as u128) << 4u128)
}

/// The integer the encoder writes for a single pixel.
pub open spec fn pixel_bits(x: u16, y: u16, color: u32, delta: u128, name: u32) -> u128 {
    common_bits(x, y, color, delta, name)
}

/// The integer the encoder writes for a rectangle.
pub open spec fn rect_bits(
    x: u16,
    y: u16,
    x2: u16,
    y2: u16,
    color: u32,
    delta: u128,
    name: u32,
) -> u128 {
    RECT_FLAG | common_bits(x, y, color, delta, name) | ((x2 as u128 & 0xFFF) << 94u128) | ((
    y2 as u128 & 0xFFF) << 83u128)
}

/// What the decoder reads from an integer.
pub open spec fn decoded(d: u128) -> DiffRecord {
    if d & RECT_FLAG == 0 {
        DiffRecord::Pixel {
            x: ((d >> 116u128) & 0x7FF) as u16,
            y: ((d >> 105u128) & 0x7FF) as u16,
            color: ((d >> 78u128) & 0x1F) as u8,
            time: ((d >> 36u128) & 0xFFFF_FFFF) as u32,
            name: ((d >> 4u128) & 0xFFFF_FFFF) as u32,
        }
    } else {
        DiffRecord::Rect {
            x: ((d >> 116u128) & 0x7FF) as u16,
            y: ((d >> 105u128) & 0x7FF) as u16,
            x2: ((d >> 94u128) & 0x7FF) as u16,
            y2: ((d >> 83u128) & 0x7FF) as u16,
            color: ((d >> 78u128) & 0x1F) as u8,
            time: ((d >> 36u128) & 0xFFFF_FFFF) as u32,
            name: ((d >> 4u128) & 0xFFFF_FFFF) as u32,
        }
    }
}

/// Packs a single-pixel change.
pub fn pack_pixel(x: u16, y: u16, color: u32, delta: u128, name: u32) -> (d: u128)
    ensures
        d == pixel_bits(x, y, color, delta, name),
{
    let mut diff: u128 = 0;
    diff = diff | ((x as u128 & 0xFFF) << 116u128);
    diff = diff | ((y as u128 & 0xFFF) << 105u128);
    diff = diff | ((color as u128) << 78u128);
    diff = diff | (delta << 36u128);
    diff = diff | ((name as u128) << 4u128);
    assert(diff == pixel_bits(x, y, color, delta, name)) by (bit_vector)
        requires
            diff == ((((0u128 | ((x as u128 & 0xFFF) << 116u128)) | ((y as u128 & 0xFFF)
                << 105u128)) | ((color as u128) << 78u128)) | (delta << 36u128)) | ((
            name as u128) << 4u128),
    ;
    diff
}

/// Packs a rectangle change.
pub fn pack_rect(x: u16, y: u16, x2: u16, y2: u16, color: u32, delta: u128, name: u32) -> (d:
    u128)
    ensures
        d == rect_bits(x, y, x2, y2, color, delta, name),
{
    let mut diff: u128 = RECT_FLAG;
    diff = diff | ((x as u128 & 0xFFF) << 116u128);
    diff = diff | ((y as u128 & 0xFFF) << 105u128);
    diff = diff | ((x2 as u128 & 0xFFF) << 94u128);
    diff = diff | ((y2 as u128 & 0xFFF) << 83u128);
    diff = diff | ((color as u128) << 78u128);
    diff = diff | (delta << 36u128);
    diff = diff | ((name as u128) << 4u128);
    assert(diff == rect_bits(x, y, x2, y2, color, delta, name)) by (bit_vector)
        requires
            diff == ((((((0x8000_0000_0000_0000_0000_0000_0000_0000u128 | ((x as u128 & 0xFFF)
                << 116u128)) | ((y as u128 & 0xFFF) << 105u128)) | ((x2 as u128 & 0xFFF)
                << 94u128)) | ((y2 as u128 & 0xFFF) << 83u128)) | ((color as u128) << 78u128))
                | (delta << 36u128)) | ((name as u128) << 4u128),
    ;
    diff
}

/// Reads a diff element back into its fields.
pub fn unpack_diff(d: u128) -> (r: DiffRecord)
    ensures
        r == decoded(d),
{
    let x = ((d >> 116u128) & 0x7FF) as u16;
    let y = ((d >> 105u128) & 0x7FF) as u16;
    let color = ((d >> 78u128) & 0x1F) as u8;
    let time = ((d >> 36u128) & 0xFFFF_FFFF) as u32;
    let name = ((d >> 4u128) & 0xFFFF_FFFF) as u32;
    if d & RECT_FLAG == 0 {
        DiffRecord::Pixel { x, y, color, time, name }
    } else {
        let x2 = ((d >> 94u128) & 0x7FF) as u16;
        let y2 = ((d >> 83u128) & 0x7FF) as u16;
        DiffRecord::Rect { x, y, x2, y2, color, time, name }
    }
}

/// A single pixel comes back from its packed form unchanged, as long as
/// its coordinates fit in eleven bits, its colour in five and its time in 32.
pub proof fn lemma_pixel_roundtrip(x: u16, y: u16, color: u32, delta: u128, name: u32)
    requires
        x < 2048,
        y < 2048,
        color < 32,
        delta < 0x1_0000_0000,
    ensures
        decoded(pixel_bits(x, y, color, delta, name)) == (DiffRecord::Pixel {
            x,
            y,
            color: color as u8,
            time: delta as u32,
            name,
        }),
{
    let d = pixel_bits(x, y, color, delta, name);
    assert(d & RECT_FLAG == 0 && ((d >> 116u128) & 0x7FF) == x as u128 && ((d >> 105u128) & 0x7FF)
        == y as u128 && ((d >> 78u128) & 0x1F) == color as u128 && ((d >> 36u128) & 0xFFFF_FFFF)
        == delta && ((d >> 4u128) & 0xFFFF_FFFF) == name as u128) by (bit_vector)
        requires
            d == ((x as u128 & 0xFFF) << 116u128) | ((y as u128 & 0xFFF) << 105u128) | ((
            color as u128) << 78u128) | (delta << 36u128) | ((name as u128) << 4u128),
            x < 2048,
            y < 2048,
            color < 32,
            delta < 0x1_0000_0000,
    ;
}

/// A rectangle comes back from its packed form unchanged under the same
/// bounds, with both corners in eleven bits.
pub proof fn lemma_rect_roundtrip(
    x: u16,
    y: u16,
    x2: u16,
    y2: u16,
    color: u32,
    delta: u128,
    name: u32,
)
    requires
        x < 2048,
        y < 2048,
        x2 < 2048,
        y2 < 2048,
        color < 32,
        delta < 0x1_0000_0000,
    ensures
        decoded(rect_bits(x, y, x2, y2, color, delta, name)) == (DiffRecord::Rect {
            x,
            y,
            x2,
            y2,
            color: color as u8,
            time: delta as u32,
            name,
        }),
{
    let d = rect_bits(x, y, x2, y2, color, delta, name);
    assert(d & RECT_FLAG != 0 && ((d >> 116u128) & 0x7FF) == x as u128 && ((d >> 105u128) & 0x7FF)
        == y as u128 && ((d >> 94u128) & 0x7FF) == x2 as u128 && ((d >> 83u128) & 0x7FF)
        == y2 as u128 && ((d >> 78u128) & 0x1F) == color as u128 && ((d >> 36u128)
        & 0xFFFF_FFFF) == delta && ((d >> 4u128) & 0xFFFF_FFFF) == name as u128) by (bit_vector)
        requires
            d == 0x8000_0000_0000_0000_0000_0000_0000_0000u128 | (((x as u128 & 0xFFF) << 116u128)
                | ((y as u128 & 0xFFF) << 105u128) | ((color as u128) << 78u128) | (delta
                << 36u128) | ((name as u128) << 4u128)) | ((x2 as u128 & 0xFFF) << 94u128) | ((
            y2 as u128 & 0xFFF) << 83u128),
            x < 2048,
            y < 2048,
            x2 < 2048,
            y2 < 2048,
            color < 32,
            delta < 0x1_0000_0000,
    ;
}

/// The user number sits alone in bits 4 to 35, whatever the other fields
/// hold: the decoder always reads back the number the encoder wrote.
pub proof fn lemma_name_field(x: u16, y: u16, x2: u16, y2: u16, color: u32, delta: u128, name: u32)
    ensures
        (pixel_bits(x, y, color, delta, name) >> 4u128) & 0xFFFF_FFFF == name as u128,
        (rect_bits(x, y, x2, y2, color, delta, name) >> 4u128) & 0xFFFF_FFFF == name as u128,
{
    let p = pixel_bits(x, y, color, delta, name);
    let r = rect_bits(x, y, x2, y2, color, delta, name);
    assert((p >> 4u128) & 0xFFFF_FFFF == name as u128) by (bit_vector)
        requires
            p == ((x as u128 & 0xFFF) << 116u128) | ((y as u128 & 0xFFF) << 105u128) | ((
            color as u128) << 78u128) | (delta << 36u128) | ((name as u128) << 4u128),
    ;
    assert((r >> 4u128) & 0xFFFF_FFFF == name as u128) by (bit_vector)
        requires
            r == 0x8000_0000_0000_0000_0000_0000_0000_0000u128 | (((x as u128 & 0xFFF) << 116u128)
                | ((y as u128 & 0xFFF) << 105u128) | ((color as u128) << 78u128) | (delta
                << 36u128) | ((name as u128) << 4u128)) | ((x2 as u128 & 0xFFF) << 94u128) | ((
            y2 as u128 & 0xFFF) << 83u128),
    ;
}

/// Where each field lands when a pixel is packed, stated bit by bit: x in
/// bits 116.., y in bits 105.., colour in bits 78.., time in bits 36.., user
/// in bits 4..; nothing lands on the rectangle flag.  This holds while the
/// coordinates fit the reader's eleven bits and the colour and time do not
/// reach the next field (a twelfth coordinate bit overlaps its neighbour).
pub proof fn lemma_pixel_layout(x: u16, y: u16, color: u32, delta: u128, name: u32)
    requires
        x < 2048,
        y < 2048,
        color < 32,
        delta < 0x400_0000_0000,
    ensures
        ({
            let d = pixel_bits(x, y, color, delta, name);
            &&& d & RECT_FLAG == 0
            &&& (d >> 116u128) & 0x7FF == x as u128
            &&& (d >> 105u128) & 0x7FF == y as u128
            &&& (d >> 78u128) & 0x1F == color as u128
            &&& (d >> 36u128) & 0xFFFF_FFFF == delta & 0xFFFF_FFFF
            &&& (d >> 4u128) & 0xFFFF_FFFF == name as u128
            &&& d & 0xF == 0
        }),
{
    let d = pixel_bits(x, y, color, delta, name);
    assert({
        &&& d & 0x8000_0000_0000_0000_0000_0000_0000_0000u128 == 0
        &&& (d >> 116u128) & 0x7FF == x as u128
        &&& (d >> 105u128) & 0x7FF == y as u128
        &&& (d >> 78u128) & 0x1F == color as u128
        &&& (d >> 36u128) & 0xFFFF_FFFF == delta & 0xFFFF_FFFF
        &&& (d >> 4u128) & 0xFFFF_FFFF == name as u128
        &&& d & 0xF == 0
    }) by (bit_vector)
        requires
            d == ((x as u128 & 0xFFF) << 116u128) | ((y as u128 & 0xFFF) << 105u128) | ((
            color as u128) << 78u128) | (delta << 36u128) | ((name as u128) << 4u128),
            x < 2048,
            y < 2048,
            color < 32,
            delta < 0x400_0000_0000,
    ;
}

/// Where each field lands when a rectangle is packed: the flag in bit 127,
/// x in bits 116.., y in bits 105.., the second x in bits 94.., the second y
/// in bits 83.., colour in bits 78.., time in bits 36.., user in bits 4..;
/// under the same bounds as for a pixel.
pub proof fn lemma_rect_layout(
    x: u16,
    y: u16,
    x2: u16,
    y2: u16,
    color: u32,
    delta: u128,
    name: u32,
)
    requires
        x < 2048,
        y < 2048,
        x2 < 2048,
        y2 < 2048,
        color < 32,
        delta < 0x400_0000_0000,
    ensures
        ({
            let d = rect_bits(x, y, x2, y2, color, delta, name);
            &&& d & RECT_FLAG != 0
            &&& (d >> 116u128) & 0x7FF == x as u128
            &&& (d >> 105u128) & 0x7FF == y as u128
            &&& (d >> 94u128) & 0x7FF == x2 as u128
            &&& (d >> 83u128) & 0x7FF == y2 as u128
            &&& (d >> 78u128) & 0x1F == color as u128
            &&& (d >> 36u128) & 0xFFFF_FFFF == delta & 0xFFFF_FFFF
            &&& (d >> 4u128) & 0xFFFF_FFFF == name as u128
            &&& d & 0xF == 0
        }),
{
    let d = rect_bits(x, y, x2, y2, color, delta, name);
    assert({
        &&& d & 0x8000_0000_0000_0000_0000_0000_0000_0000u128 != 0
        &&& (d >> 116u128) & 0x7FF == x as u128
        &&& (d >> 105u128) & 0x7FF == y as u128
        &&& (d >> 94u128) & 0x7FF == x2 as u128
        &&& (d >> 83u128) & 0x7FF == y2 as u128
        &&& (d >> 78u128) & 0x1F == color as u128
        &&& (d >> 36u128) & 0xFFFF_FFFF == delta & 0xFFFF_FFFF
        &&& (d >> 4u128) & 0xFFFF_FFFF == name as u128
        &&& d & 0xF == 0
    }) by (bit_vector)
        requires
            d == 0x8000_0000_0000_0000_0000_0000_0000_0000u128 | (((x as u128 & 0xFFF) << 116u128)
                | ((y as u128 & 0xFFF) << 105u128) | ((color as u128) << 78u128) | (delta
                << 36u128) | ((name as u128) << 4u128)) | ((x2 as u128 & 0xFFF) << 94u128) | ((
            y2 as u128 & 0xFFF) << 83u128),
            x < 2048,
            y < 2048,
            x2 < 2048,
            y2 < 2048,
            color < 32,
            delta < 0x400_0000_0000,
    ;
}

} // verus!
