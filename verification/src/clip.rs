use vstd::prelude::*;
use crate::bytes::{spec_le_i16, spec_le_i32, read_i16, read_i32};
use crate::error::CrxDecodeError;

verus! {

/// One fixed 16-byte clip record of a version-3 file: two integer points.
/// The decoder parses and keeps the records but does not interpret them.
#[derive(Debug, Clone, Copy, PartialEq, Eq, Structural)]
pub struct CrxImageClip {
    pub field_1: i32,
    pub field_2: i16,
    pub field_3: i16,
    pub field_4: i32,
    pub field_5: i16,
    pub field_6: i16,
}

/// The clip record stored at position `q`.
pub open spec fn spec_clip(d: Seq<u8>, q: int) -> CrxImageClip
    recommends
        0 <= q,
        q + 16 <= d.len(),
{
    CrxImageClip {
        field_1: spec_le_i32(d, q),
        field_2: spec_le_i16(d, q + 4),
        field_3: spec_le_i16(d, q + 6),
        field_4: spec_le_i32(d, q + 8),
        field_5: spec_le_i16(d, q + 12),
        field_6: spec_le_i16(d, q + 14),
    }
}

/// The `n` clip records stored back to back at position `pos`.
pub open spec fn spec_clip_seq(d: Seq<u8>, pos: int, n: int) -> Seq<CrxImageClip> {
    Seq::new(if n < 0 { 0 } else { n as nat }, |j: int| spec_clip(d, pos + 16 * j))
}

/// The clip table: an i32 count followed by that many 16-byte records.
/// A negative count yields no records. Returns the records and the position
/// of the first byte after the table.
pub open spec fn spec_clip_table(d: Seq<u8>, pos: int) -> Result<
    (Seq<CrxImageClip>, int),
    CrxDecodeError,
> {
    if pos + 4 > d.len() {
        Err(CrxDecodeError::ShortRead)
    } else {
        let n = spec_le_i32(d, pos) as int;
        let n0 = if n < 0 {
            0
        } else {
            n
        };
        if pos + 4 + 16 * n0 > d.len() {
            Err(CrxDecodeError::ShortRead)
        } else {
            Ok((spec_clip_seq(d, pos + 4, n0), pos + 4 + 16 * n0))
        }
    }
}

/// Reads the clip table present in version-3 files.
pub fn read_clip(d: &[u8], pos: &mut usize) -> (r: Result<Vec<CrxImageClip>, CrxDecodeError>)
    ensures
        match r {
            Ok(v) => spec_clip_table(d@, *old(pos) as int) == Ok::<
                (Seq<CrxImageClip>, int),
                CrxDecodeError,
            >((v@, *final(pos) as int)),
            Err(e) => spec_clip_table(d@, *old(pos) as int) == Err::<
                (Seq<CrxImageClip>, int),
                CrxDecodeError,
            >(e),
        },
{
    let n = match read_i32(d, pos) {
        Ok(v) => v,
        Err(e) => { return Err(e); },
    };
    let count: usize = if n < 0 {
        0
    } else {
        n as usize
    };
    if count > d.len() / 16 || d.len() < 16 * count || *pos > d.len() - 16 * count {
        return Err(CrxDecodeError::ShortRead);
    }
    let ghost pos0 = *pos as int;
    let mut clips: Vec<CrxImageClip> = Vec::new();
    let mut j: usize = 0;
    while j < count
        invariant
            j <= count,
            *pos == pos0 + 16 * j,
            pos0 + 16 * count <= d@.len(),
            clips@.len() == j,
            forall|i: int| 0 <= i < j ==> clips@[i] == spec_clip(d@, pos0 + 16 * i),
        decreases count - j,
    {
        let field_1 = match read_i32(d, pos) {
            Ok(v) => v,
            Err(e) => { return Err(e); },
        };
        let field_2 = match read_i16(d, pos) {
            Ok(v) => v,
            Err(e) => { return Err(e); },
        };
        let field_3 = match read_i16(d, pos) {
            Ok(v) => v,
            Err(e) => { return Err(e); },
        };
        let field_4 = match read_i32(d, pos) {
            Ok(v) => v,
            Err(e) => { return Err(e); },
        };
        let field_5 = match read_i16(d, pos) {
            Ok(v) => v,
            Err(e) => { return Err(e); },
        };
        let field_6 = match read_i16(d, pos) {
            Ok(v) => v,
            Err(e) => { return Err(e); },
        };
        let c = CrxImageClip { field_1, field_2, field_3, field_4, field_5, field_6 };
        proof {
            assert(c == spec_clip(d@, pos0 + 16 * j));
        }
        clips.push(c);
        j = j + 1;
    }
    proof {
        assert(clips@ =~= spec_clip_seq(d@, pos0, count as int));
    }
    Ok(clips)
}

} // verus!
