//! Little-endian integers as they stand in a waveform container.

use vstd::prelude::*;

verus! {

/// `nom::Err`: why a parser of `nom` did not succeed.  It is handed on
/// unread.
#[verifier::external_type_specification]
#[verifier::external_body]
#[verifier::reject_recursive_types(E)]
pub struct ExNomErr<E>(nom::Err<E>);

/// `nom::error::ErrorKind`: the parser of `nom` that did not succeed.  It
/// is handed on unread.
#[verifier::external_type_specification]
#[verifier::external_body]
pub struct ExNomErrorKind(nom::error::ErrorKind);

/// The unsigned number that the first two bytes of `b` spell, low byte first.
pub open spec fn le_u16_spec(b: Seq<u8>) -> int {
    b[0] as int + 256 * (b[1] as int)
}

/// The unsigned number that the first three bytes of `b` spell, low byte first.
pub open spec fn le_u24_spec(b: Seq<u8>) -> int {
    b[0] as int + 256 * (b[1] as int) + 65536 * (b[2] as int)
}

/// The unsigned number that the first four bytes of `b` spell, low byte first.
pub open spec fn le_u32_spec(b: Seq<u8>) -> int {
    b[0] as int + 256 * (b[1] as int) + 65536 * (b[2] as int) + 16777216 * (b[3] as int)
}

/// The two's-complement number that the first two bytes of `b` spell.
pub open spec fn le_i16_spec(b: Seq<u8>) -> int {
    if le_u16_spec(b) >= 32768 {
        le_u16_spec(b) - 65536
    } else {
        le_u16_spec(b)
    }
}

/// The two's-complement number that the first three bytes of `b` spell.
pub open spec fn le_i24_spec(b: Seq<u8>) -> int {
    if le_u24_spec(b) >= 8388608 {
        le_u24_spec(b) - 16777216
    } else {
        le_u24_spec(b)
    }
}

/// `nom::number::streaming::le_u16`: with two bytes or more it succeeds,
/// yields the number that the first two spell and hands back the bytes
/// after them; with fewer it fails.
#[verifier::external_body]
pub(crate) fn le_u16<'a>(i: &'a [u8]) -> (r: Result<
    (&'a [u8], u16),
    nom::Err<(&'a [u8], nom::error::ErrorKind)>,
>)
    ensures
        r is Ok <==> i@.len() >= 2,
        r matches Ok(o) ==> o.0@ == i@.skip(2) && o.1 == le_u16_spec(i@),
{
    nom::number::streaming::le_u16(i)
}

/// `nom::number::streaming::le_u32`: with four bytes or more it succeeds,
/// yields the number that the first four spell and hands back the bytes
/// after them; with fewer it fails.
#[verifier::external_body]
pub(crate) fn le_u32<'a>(i: &'a [u8]) -> (r: Result<
    (&'a [u8], u32),
    nom::Err<(&'a [u8], nom::error::ErrorKind)>,
>)
    ensures
        r is Ok <==> i@.len() >= 4,
        r matches Ok(o) ==> o.0@ == i@.skip(4) && o.1 == le_u32_spec(i@),
{
    nom::number::streaming::le_u32(i)
}

/// `nom::number::streaming::le_i16`: with two bytes or more it succeeds,
/// yields the two's-complement number that the first two spell and hands
/// back the bytes after them; with fewer it fails.
#[verifier::external_body]
pub(crate) fn le_i16<'a>(i: &'a [u8]) -> (r: Result<
    (&'a [u8], i16),
    nom::Err<(&'a [u8], nom::error::ErrorKind)>,
>)
    ensures
        r is Ok <==> i@.len() >= 2,
        r matches Ok(o) ==> o.0@ == i@.skip(2) && o.1 == le_i16_spec(i@),
{
    nom::number::streaming::le_i16(i)
}

/// `nom::number::streaming::le_i24`: with three bytes or more it succeeds,
/// yields the sign-extended number that the first three spell and hands
/// back the bytes after them; with fewer it fails.
#[verifier::external_body]
pub(crate) fn le_i24<'a>(i: &'a [u8]) -> (r: Result<
    (&'a [u8], i32),
    nom::Err<(&'a [u8], nom::error::ErrorKind)>,
>)
    ensures
        r is Ok <==> i@.len() >= 3,
        r matches Ok(o) ==> o.0@ == i@.skip(3) && o.1 == le_i24_spec(i@),
{
    nom::number::streaming::le_i24(i)
}

/// The two bytes that spell `x`, low byte first.
pub open spec fn u16_le_bytes(x: int) -> Seq<u8> {
    seq![(x % 256) as u8, (x / 256 % 256) as u8]
}

/// The four bytes that spell `x`, low byte first.
pub open spec fn u32_le_bytes(x: int) -> Seq<u8> {
    seq![
        (x % 256) as u8,
        (x / 256 % 256) as u8,
        (x / 65536 % 256) as u8,
        (x / 16777216 % 256) as u8,
    ]
}

/// The two bytes that spell `x` in two's complement, low byte first.
pub open spec fn i16_le_bytes(x: int) -> Seq<u8> {
    u16_le_bytes(if x < 0 { x + 65536 } else { x })
}

/// Appends the two bytes of `x`, low byte first.
pub fn push_u16_le(buffer: &mut Vec<u8>, x: u16)
    ensures
        final(buffer)@ == old(buffer)@ + u16_le_bytes(x as int),
{
    buffer.push((x % 256) as u8);
    buffer.push((x / 256) as u8);
    assert(buffer@ =~= old(buffer)@ + u16_le_bytes(x as int));
}

/// Appends the four bytes of `x`, low byte first.
pub fn push_u32_le(buffer: &mut Vec<u8>, x: u32)
    ensures
        final(buffer)@ == old(buffer)@ + u32_le_bytes(x as int),
{
    buffer.push((x % 256) as u8);
    buffer.push((x / 256 % 256) as u8);
    buffer.push((x / 65536 % 256) as u8);
    buffer.push((x / 16777216) as u8);
    assert(buffer@ =~= old(buffer)@ + u32_le_bytes(x as int));
}

/// Appends the two bytes of `x` in two's complement, low byte first.
pub fn push_i16_le(buffer: &mut Vec<u8>, x: i16)
    ensures
        final(buffer)@ == old(buffer)@ + i16_le_bytes(x as int),
{
    let unsigned: u16 = if x < 0 {
        (x as i32 + 65536) as u16
    } else {
        x as u16
    };
    push_u16_le(buffer, unsigned);
}

/// Reading back what was written gives the number that was written.
pub proof fn lemma_u16_round_trip(x: int)
    requires
        0 <= x < 65536,
    ensures
        u16_le_bytes(x).len() == 2,
        le_u16_spec(u16_le_bytes(x)) == x,
{
}

/// Reading back what was written gives the number that was written.
pub proof fn lemma_u32_round_trip(x: int)
    requires
        0 <= x < 4294967296,
    ensures
        u32_le_bytes(x).len() == 4,
        le_u32_spec(u32_le_bytes(x)) == x,
{
}

/// Reading back what was written gives the number that was written.
pub proof fn lemma_i16_round_trip(x: int)
    requires
        -32768 <= x < 32768,
    ensures
        i16_le_bytes(x).len() == 2,
        le_i16_spec(i16_le_bytes(x)) == x,
{
}

} // verus!
