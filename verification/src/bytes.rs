use vstd::prelude::*;
use crate::error::CrxDecodeError;

verus! {

/// Little-endian u16 held by the two bytes at position `p`.
pub open spec fn spec_le_u16(d: Seq<u8>, p: int) -> u16
    recommends
        0 <= p,
        p + 2 <= d.len(),
{
    (d[p] + 0x100 * d[p + 1]) as u16
}

/// Little-endian i16 (two's complement) held by the two bytes at position `p`.
pub open spec fn spec_le_i16(d: Seq<u8>, p: int) -> i16
    recommends
        0 <= p,
        p + 2 <= d.len(),
{
    let v = d[p] + 0x100 * d[p + 1];
    if v < 0x8000 {
        v as i16
    } else {
        (v - 0x10000) as i16
    }
}

/// Little-endian i32 (two's complement) held by the four bytes at position `p`.
pub open spec fn spec_le_i32(d: Seq<u8>, p: int) -> i32
    recommends
        0 <= p,
        p + 4 <= d.len(),
{
    let v = d[p] + 0x100 * d[p + 1] + 0x10000 * d[p + 2] + 0x1000000 * d[p + 3];
    if v < 0x8000_0000 {
        v as i32
    } else {
        (v - 0x1_0000_0000) as i32
    }
}

/// Reads one byte and advances the cursor; `ShortRead` at end of input.
pub fn read_u8(d: &[u8], pos: &mut usize) -> (r: Result<u8, CrxDecodeError>)
    ensures
        *old(pos) < d@.len() ==> r == Ok::<u8, CrxDecodeError>(d@[*old(pos) as int]) && *final(pos)
            == *old(pos) + 1,
        *old(pos) >= d@.len() ==> r == Err::<u8, CrxDecodeError>(CrxDecodeError::ShortRead)
            && *final(pos) == *old(pos),
{
    if *pos < d.len() {
        let b = d[*pos];
        *pos = *pos + 1;
        Ok(b)
    } else {
        Err(CrxDecodeError::ShortRead)
    }
}

/// Reads a little-endian u16 and advances the cursor by two.
pub fn read_u16(d: &[u8], pos: &mut usize) -> (r: Result<u16, CrxDecodeError>)
    ensures
        *old(pos) + 2 <= d@.len() ==> r == Ok::<u16, CrxDecodeError>(
            spec_le_u16(d@, *old(pos) as int),
        ) && *final(pos) == *old(pos) + 2,
        *old(pos) + 2 > d@.len() ==> r == Err::<u16, CrxDecodeError>(CrxDecodeError::ShortRead),
{
    if d.len() >= 2 && *pos <= d.len() - 2 {
        let b0 = d[*pos];
        let b1 = d[*pos + 1];
        *pos = *pos + 2;
        Ok(b0 as u16 + 0x100 * (b1 as u16))
    } else {
        Err(CrxDecodeError::ShortRead)
    }
}

/// Reads a little-endian i16 and advances the cursor by two.
pub fn read_i16(d: &[u8], pos: &mut usize) -> (r: Result<i16, CrxDecodeError>)
    ensures
        *old(pos) + 2 <= d@.len() ==> r == Ok::<i16, CrxDecodeError>(
            spec_le_i16(d@, *old(pos) as int),
        ) && *final(pos) == *old(pos) + 2,
        *old(pos) + 2 > d@.len() ==> r == Err::<i16, CrxDecodeError>(CrxDecodeError::ShortRead),
{
    match read_u16(d, pos) {
        Ok(v) => {
            if v < 0x8000 {
                Ok(v as i16)
            } else {
                Ok((v as i32 - 0x10000) as i16)
            }
        },
        Err(e) => Err(e),
    }
}

/// Reads a little-endian i32 and advances the cursor by four.
pub fn read_i32(d: &[u8], pos: &mut usize) -> (r: Result<i32, CrxDecodeError>)
    ensures
        *old(pos) + 4 <= d@.len() ==> r == Ok::<i32, CrxDecodeError>(
            spec_le_i32(d@, *old(pos) as int),
        ) && *final(pos) == *old(pos) + 4,
        *old(pos) + 4 > d@.len() ==> r == Err::<i32, CrxDecodeError>(CrxDecodeError::ShortRead),
{
    if d.len() >= 4 && *pos <= d.len() - 4 {
        let b0 = d[*pos] as u32;
        let b1 = d[*pos + 1] as u32;
        let b2 = d[*pos + 2] as u32;
        let b3 = d[*pos + 3] as u32;
        *pos = *pos + 4;
        let v: u32 = b0 + 0x100 * b1 + 0x10000 * b2 + 0x1000000 * b3;
        if v < 0x8000_0000 {
            Ok(v as i32)
        } else {
            Ok((v as i64 - 0x1_0000_0000) as i32)
        }
    } else {
        Err(CrxDecodeError::ShortRead)
    }
}

} // verus!
