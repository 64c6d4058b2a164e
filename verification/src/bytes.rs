//! Little-endian byte form of a packed diff element, as stored in the
//! diff files: sixteen bytes, least significant first.
use byteorder::ReadBytesExt;
use vstd::arithmetic::power::pow;
use vstd::prelude::*;

verus! {

/// The number a little-endian byte sequence stands for.
pub open spec fn le_value(s: Seq<u8>) -> nat
    decreases s.len(),
{
    if s.len() == 0 {
        0
    } else {
        s[0] as nat + 256 * le_value(s.drop_first())
    }
}

/// The `n` least significant bytes of `v`, least significant first.
pub open spec fn le_seq(v: u128, n: nat) -> Seq<u8>
    decreases n,
{
    if n == 0 {
        Seq::empty()
    } else {
        seq![v as u8].add(le_seq(v >> 8u128, (n - 1) as nat))
    }
}

/// Reads sixteen bytes as a little-endian `u128`, through `byteorder`'s
/// `ReadBytesExt::read_u128::<LittleEndian>`.  The contract claims that the
/// result is the little-endian value of the sixteen bytes, which is what
/// that function's documentation and source (`u128::from_le_bytes` of the
/// bytes read) give; reading from a sixteen-byte slice cannot run short.
#[verifier::external_body]
pub fn get_u128(buf: &[u8; 16]) -> (r: u128)
    ensures
        r as nat == le_value(buf@),
{
    let mut reader: &[u8] = &buf[..];
    reader.read_u128::<byteorder::LittleEndian>().unwrap()
}

/// Writes `v` as sixteen little-endian bytes.
pub fn le_bytes(v: u128) -> (out: Vec<u8>)
    ensures
        out@ == le_seq(v, 16),
{
    let mut out: Vec<u8> = Vec::new();
    let mut cur: u128 = v;
    let mut i: usize = 0;
    while i < 16
        invariant
            i <= 16,
            out@ + le_seq(cur, (16 - i) as nat) == le_seq(v, 16),
        decreases 16 - i,
    {
        let ghost before = out@;
        assert(le_seq(cur, (16 - i) as nat) == seq![cur as u8].add(
            le_seq(cur >> 8u128, (16 - i - 1) as nat),
        ));
        out.push(cur as u8);
        assert(before + le_seq(cur, (16 - i) as nat) == out@ + le_seq(
            cur >> 8u128,
            (16 - i - 1) as nat,
        ));
        cur = cur >> 8u128;
        i = i + 1;
    }
    assert(out@ + le_seq(cur, 0) == out@);
    out
}

proof fn lemma_le_seq_value(v: u128, n: nat)
    requires
        (v as int) < pow(256, n),
    ensures
        le_value(le_seq(v, n)) == v as nat,
    decreases n,
{
    if n == 0 {
        assert(pow(256, 0) == 1) by {
            reveal_with_fuel(pow, 1);
        }
    } else {
        let rest = v >> 8u128;
        assert(v >> 8u128 == v / 256 && (v as u8) == v % 256) by (bit_vector);
        assert(pow(256, n) == 256 * pow(256, (n - 1) as nat)) by {
            reveal_with_fuel(pow, 1);
        }
        assert((rest as int) < pow(256, (n - 1) as nat));
        lemma_le_seq_value(rest, (n - 1) as nat);
        let s = le_seq(v, n);
        assert(s.drop_first() == le_seq(rest, (n - 1) as nat));
        assert(s[0] == v as u8);
    }
}

/// Reading back the sixteen bytes written for a value gives the value.
pub proof fn lemma_le_roundtrip(v: u128)
    ensures
        le_value(le_seq(v, 16)) == v as nat,
        le_seq(v, 16).len() == 16,
{
    assert(pow(256, 16) == 0x1_0000_0000_0000_0000_0000_0000_0000_0000) by {
        reveal_with_fuel(pow, 17);
    }
    lemma_le_seq_value(v, 16);
    lemma_le_seq_len(v, 16);
}

proof fn lemma_le_seq_len(v: u128, n: nat)
    ensures
        le_seq(v, n).len() == n,
    decreases n,
{
    if n > 0 {
        lemma_le_seq_len(v >> 8u128, (n - 1) as nat);
    }
}

} // verus!
