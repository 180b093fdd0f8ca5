use vstd::prelude::*;
use crate::bytes::{spec_le_i16, spec_le_u16, read_i16, read_u16};
use crate::error::CrxDecodeError;

verus! {

/// The fixed 16-byte field block that follows the 4-byte signature.
#[derive(Debug, Clone, Copy, PartialEq, Eq, Structural)]
pub struct CrxHeader {
    /// x-offset of the image within a larger canvas; kept, not interpreted.
    pub inner_x: i16,
    /// y-offset within a larger canvas; kept, not interpreted.
    pub inner_y: i16,
    /// Image width in pixels.
    pub width: u16,
    /// Image height in pixels.
    pub height: u16,
    /// Container version; only 1, 2 and 3 are accepted.
    pub version: u16,
    /// Bitfield; only bit 0x10 (explicit payload length) is consumed.
    pub flag: u16,
    /// Encodes bits-per-pixel and, for 8 bpp, the palette size.
    pub depth: i16,
    /// Post-processing selector for 32-bpp images.
    pub mode: u16,
}

/// Bits per pixel selected by the header's depth field.
pub open spec fn spec_bpp(depth: i16) -> u16 {
    if depth == 0 {
        24
    } else if depth == 1 {
        32
    } else {
        8
    }
}

/// Bits per pixel selected by the header's depth field.
pub fn depth_to_bpp(depth: i16) -> (r: u16)
    ensures
        r == spec_bpp(depth),
{
    if depth == 0 {
        24
    } else if depth == 1 {
        32
    } else {
        8
    }
}

/// The stream opens with the four ASCII bytes `CRXG`.
pub open spec fn spec_sig_ok(d: Seq<u8>) -> bool {
    &&& d.len() >= 4
    &&& d[0] == 0x43u8
    &&& d[1] == 0x52u8
    &&& d[2] == 0x58u8
    &&& d[3] == 0x47u8
}

/// The header fields, read little-endian at their fixed offsets.
pub open spec fn spec_header(d: Seq<u8>) -> CrxHeader
    recommends
        d.len() >= 20,
{
    CrxHeader {
        inner_x: spec_le_i16(d, 4),
        inner_y: spec_le_i16(d, 6),
        width: spec_le_u16(d, 8),
        height: spec_le_u16(d, 10),
        version: spec_le_u16(d, 12),
        flag: spec_le_u16(d, 14),
        depth: spec_le_i16(d, 16),
        mode: spec_le_u16(d, 18),
    }
}

/// Result of the signature check, the header read, and the version guard.
/// The version is validated before anything past the header is touched.
pub open spec fn spec_parse_header(d: Seq<u8>) -> Result<CrxHeader, CrxDecodeError> {
    if d.len() < 4 {
        Err(CrxDecodeError::ShortRead)
    } else if !spec_sig_ok(d) {
        Err(CrxDecodeError::CrxSignatureInvalid)
    } else if d.len() < 20 {
        Err(CrxDecodeError::ShortRead)
    } else {
        let h = spec_header(d);
        if h.version < 1 || h.version > 3 {
            Err(CrxDecodeError::VersionNotSupported(h.version))
        } else {
            Ok(h)
        }
    }
}

/// Checks the signature, reads the header fields and validates the version.
/// On success the cursor stands at offset 20, the first byte past the header.
pub fn read_header(d: &[u8], pos: &mut usize) -> (r: Result<CrxHeader, CrxDecodeError>)
    requires
        *old(pos) == 0,
    ensures
        match r {
            Ok(h) => spec_parse_header(d@) == Ok::<CrxHeader, CrxDecodeError>(h) && *final(pos)
                == 20,
            Err(e) => spec_parse_header(d@) == Err::<CrxHeader, CrxDecodeError>(e),
        },
{
    if d.len() < 4 {
        return Err(CrxDecodeError::ShortRead);
    }
    if !(d[0] == 0x43 && d[1] == 0x52 && d[2] == 0x58 && d[3] == 0x47) {
        return Err(CrxDecodeError::CrxSignatureInvalid);
    }
    if d.len() < 20 {
        return Err(CrxDecodeError::ShortRead);
    }
    *pos = 4;
    let inner_x = match read_i16(d, pos) {
        Ok(v) => v,
        Err(e) => { return Err(e); },
    };
    let inner_y = match read_i16(d, pos) {
        Ok(v) => v,
        Err(e) => { return Err(e); },
    };
    let width = match read_u16(d, pos) {
        Ok(v) => v,
        Err(e) => { return Err(e); },
    };
    let height = match read_u16(d, pos) {
        Ok(v) => v,
        Err(e) => { return Err(e); },
    };
    let version = match read_u16(d, pos) {
        Ok(v) => v,
        Err(e) => { return Err(e); },
    };
    let flag = match read_u16(d, pos) {
        Ok(v) => v,
        Err(e) => { return Err(e); },
    };
    let depth = match read_i16(d, pos) {
        Ok(v) => v,
        Err(e) => { return Err(e); },
    };
    let mode = match read_u16(d, pos) {
        Ok(v) => v,
        Err(e) => { return Err(e); },
    };
    if version < 1 || version > 3 {
        return Err(CrxDecodeError::VersionNotSupported(version));
    }
    Ok(CrxHeader { inner_x, inner_y, width, height, version, flag, depth, mode })
}

} // verus!
