use vstd::prelude::*;
use vstd::slice::slice_subrange;
use crate::bytes::{spec_le_i32, read_i32};
use crate::clip::{CrxImageClip, spec_clip_table, read_clip};
use crate::error::{CrxDecodeError, CrxImageConvertError};
use crate::filters::{spec_rows, spec_expand, zeros, decode_rows, expand_palette};
use crate::header::{CrxHeader, spec_bpp, spec_parse_header, depth_to_bpp, read_header};
use crate::lz::{spec_lz, lz_win0, unpack_1};
use crate::palette::{spec_palette, spec_palette_bytes, read_palette};
use crate::post::{spec_alpha_swizzle, spec_swap_rb, alpha_swizzle, swap_rb};
use crate::zlib::{zlib_ok, zlib_inflated, inflate_zlib};

verus! {

/// The mathematical content of a decoded file: the header fields that are
/// kept, the clip records, and the canonical pixel bytes.
#[verifier::ext_equal]
pub struct CrxView {
    pub inner_x: i16,
    pub inner_y: i16,
    pub width: u16,
    pub height: u16,
    pub bpp: int,
    pub clips: Seq<CrxImageClip>,
    pub pixels: Seq<u8>,
}

/// The compressed payload: with header bit 0x10 set, an i32 length followed
/// by exactly that many bytes; otherwise everything up to end of input.
pub open spec fn spec_payload(d: Seq<u8>, pos: int, h: CrxHeader) -> Result<
    Seq<u8>,
    CrxDecodeError,
> {
    if h.flag & 0x10 != 0 {
        if pos + 4 > d.len() {
            Err(CrxDecodeError::ShortRead)
        } else {
            let l = spec_le_i32(d, pos) as int;
            if l < 0 {
                Err(CrxDecodeError::ShortRead)
            } else if pos + 4 + l > d.len() {
                Err(CrxDecodeError::ShortRead)
            } else {
                Ok(d.subrange(pos + 4, pos + 4 + l))
            }
        }
    } else {
        Ok(d.subrange(pos, d.len() as int))
    }
}

/// Decompression of the payload: the sliding-window scheme for version 1,
/// zlib plus the row filter bank (or, at 8 bpp, plain index bytes) for
/// versions 2 and 3. The result holds `width * height` index bytes at 8 bpp
/// and `width * height * bpp/8` color bytes otherwise.
pub open spec fn spec_unpack(payload: Seq<u8>, h: CrxHeader) -> Result<Seq<u8>, CrxDecodeError> {
    let bpp = spec_bpp(h.depth) as int;
    let ps = bpp / 8;
    let total = ps * h.width * h.height;
    if total > usize::MAX {
        Err(CrxDecodeError::BufferTooLarge)
    } else if h.version == 1 {
        spec_lz(payload, 0, 0, lz_win0(), 0, Seq::empty(), total)
    } else if !zlib_ok(payload) {
        Err(CrxDecodeError::MalformedDeflate)
    } else {
        let f = zlib_inflated(payload);
        if bpp == 8 {
            if f.len() < total {
                Err(CrxDecodeError::ShortRead)
            } else {
                Ok(f.take(total))
            }
        } else {
            spec_rows(f, 0, 0, h.height as int, ps * h.width, ps, h.width as int, zeros(total))
        }
    }
}

/// Post-processing: palette expansion at 8 bpp; otherwise the 32-bpp alpha
/// pass for `mode != 1`, then the BGR(A) to RGB(A) component swap.
pub open spec fn spec_post(raw: Seq<u8>, h: CrxHeader, pal: Seq<u8>) -> Result<
    Seq<u8>,
    CrxDecodeError,
> {
    let bpp = spec_bpp(h.depth);
    if bpp == 8 {
        spec_expand(raw, pal, 0, Seq::empty())
    } else {
        let a = if bpp == 32 && h.mode != 1 {
            spec_alpha_swizzle(
                raw,
                if h.mode == 2 {
                    0u8
                } else {
                    0xFFu8
                },
            )
        } else {
            raw
        };
        Ok(spec_swap_rb(a, bpp as int / 8))
    }
}

/// The whole decoder over the input bytes: signature, header and version
/// guard, dimension guard, palette, clip table, payload, decompression and
/// post-processing, ending in the decoded record or the first error.
pub open spec fn spec_decode(d: Seq<u8>) -> Result<CrxView, CrxDecodeError> {
    match spec_parse_header(d) {
        Err(e) => Err(e),
        Ok(h) => {
            if h.width == 0 || h.height == 0 {
                Err(CrxDecodeError::InvalidDimensions)
            } else {
                let bpp = spec_bpp(h.depth) as int;
                if bpp == 8 && 20 + spec_palette_bytes(h.depth as int) > d.len() {
                    Err(CrxDecodeError::ShortRead)
                } else {
                    let pal = if bpp == 8 {
                        spec_palette(d, 20, h.depth as int)
                    } else {
                        Seq::empty()
                    };
                    let p1: int = if bpp == 8 {
                        20 + spec_palette_bytes(h.depth as int)
                    } else {
                        20
                    };
                    let clips_res = if h.version >= 3 {
                        spec_clip_table(d, p1)
                    } else {
                        Ok((Seq::empty(), p1))
                    };
                    match clips_res {
                        Err(e) => Err(e),
                        Ok((clips, p2)) => match spec_payload(d, p2, h) {
                            Err(e) => Err(e),
                            Ok(payload) => match spec_unpack(payload, h) {
                                Err(e) => Err(e),
                                Ok(raw) => match spec_post(raw, h, pal) {
                                    Err(e) => Err(e),
                                    Ok(pixels) => Ok(
                                        CrxView {
                                            inner_x: h.inner_x,
                                            inner_y: h.inner_y,
                                            width: h.width,
                                            height: h.height,
                                            bpp: if bpp == 8 {
                                                24
                                            } else {
                                                bpp
                                            },
                                            clips,
                                            pixels,
                                        },
                                    ),
                                },
                            },
                        },
                    }
                }
            }
        },
    }
}

/// A decoded CRX file: the kept header fields, the clip records, and the
/// pixel buffer in top-down RGB (24 bpp) or RGBA (32 bpp) order.
#[derive(Debug, Clone)]
pub struct CrxFile {
    inner_x: i16,
    inner_y: i16,
    width: u16,
    height: u16,
    bpp: usize,
    clips: Vec<CrxImageClip>,
    raw_image_buffer: Vec<u8>,
}

impl View for CrxFile {
    type V = CrxView;

    closed spec fn view(&self) -> CrxView {
        CrxView {
            inner_x: self.inner_x,
            inner_y: self.inner_y,
            width: self.width,
            height: self.height,
            bpp: self.bpp as int,
            clips: self.clips@,
            pixels: self.raw_image_buffer@,
        }
    }
}

impl CrxFile {
    /// x-offset of the image within a larger canvas.
    pub fn inner_x(&self) -> (r: i16)
        ensures
            r == self@.inner_x,
    {
        self.inner_x
    }

    /// y-offset of the image within a larger canvas.
    pub fn inner_y(&self) -> (r: i16)
        ensures
            r == self@.inner_y,
    {
        self.inner_y
    }

    /// Image width in pixels.
    pub fn width(&self) -> (r: u16)
        ensures
            r == self@.width,
    {
        self.width
    }

    /// Image height in pixels.
    pub fn height(&self) -> (r: u16)
        ensures
            r == self@.height,
    {
        self.height
    }

    /// Bits per pixel of the decoded buffer: 24 or 32.
    pub fn bpp(&self) -> (r: usize)
        ensures
            r == self@.bpp,
    {
        self.bpp
    }

    /// The clip records of a version-3 file, in stream order.
    pub fn clips(&self) -> (r: &[CrxImageClip])
        ensures
            r@ == self@.clips,
    {
        self.clips.as_slice()
    }

    /// The decoded pixel bytes, top-down, RGB or RGBA.
    pub fn raw_buffer(&self) -> (r: &[u8])
        ensures
            r@ == self@.pixels,
    {
        self.raw_image_buffer.as_slice()
    }

    /// Decodes a whole CRX byte stream.
    pub fn from_buffer(data: &[u8]) -> (r: Result<CrxFile, CrxDecodeError>)
        ensures
            match spec_decode(data@) {
                Ok(v) => r is Ok && r->Ok_0@ == v,
                Err(e) => r is Err && r->Err_0 == e,
            },
            r is Ok ==> r->Ok_0@.pixels.len() == r->Ok_0@.width * r->Ok_0@.height * (r->Ok_0@.bpp
                / 8),
            r is Ok ==> (r->Ok_0@.bpp == 24 || r->Ok_0@.bpp == 32),
    {
        let mut pos: usize = 0;
        let header = match read_header(data, &mut pos) {
            Ok(h) => h,
            Err(e) => { return Err(e); },
        };
        if header.width == 0 || header.height == 0 {
            return Err(CrxDecodeError::InvalidDimensions);
        }
        let bpp: u16 = depth_to_bpp(header.depth);
        let palette: Vec<u8> = if bpp == 8 {
            match read_palette(data, &mut pos, header.depth) {
                Ok(p) => p,
                Err(e) => { return Err(e); },
            }
        } else {
            Vec::new()
        };
        let clips: Vec<CrxImageClip> = if header.version >= 3 {
            match read_clip(data, &mut pos) {
                Ok(c) => c,
                Err(e) => { return Err(e); },
            }
        } else {
            Vec::new()
        };
        let ghost p2 = pos as int;
        let payload: &[u8] = if header.flag & 0x10 != 0 {
            let l = match read_i32(data, &mut pos) {
                Ok(v) => v,
                Err(e) => { return Err(e); },
            };
            if l < 0 {
                return Err(CrxDecodeError::ShortRead);
            }
            let lu = l as usize;
            if data.len() < lu || pos > data.len() - lu {
                return Err(CrxDecodeError::ShortRead);
            }
            slice_subrange(data, pos, pos + lu)
        } else {
            slice_subrange(data, pos, data.len())
        };
        proof {
            assert(spec_payload(data@, p2, header) == Ok::<Seq<u8>, CrxDecodeError>(payload@));
        }
        let ps: usize = (bpp / 8) as usize;
        proof {
            assert((ps as int) * (header.width as int) <= 4 * 0xFFFF && (ps as int) * (
            header.width as int) * (header.height as int) <= 4 * 0xFFFF * 0xFFFF)
                by (nonlinear_arith)
                requires 1 <= ps <= 4, header.width <= 0xFFFF, header.height <= 0xFFFF;
        }
        let total64: u64 = (ps as u64) * (header.width as u64) * (header.height as u64);
        if total64 > usize::MAX as u64 {
            return Err(CrxDecodeError::BufferTooLarge);
        }
        let total: usize = total64 as usize;
        proof {
            assert(total as int == (ps as int) * (header.width as int) * (header.height as int));
        }
        let raw: Vec<u8> = if header.version == 1 {
            match unpack_1(payload, total) {
                Ok(v) => v,
                Err(e) => { return Err(e); },
            }
        } else {
            let inflated = match inflate_zlib(payload) {
                Ok(v) => v,
                Err(e) => { return Err(e); },
            };
            if bpp == 8 {
                if inflated.len() < total {
                    return Err(CrxDecodeError::ShortRead);
                }
                let mut ind = inflated;
                ind.truncate(total);
                proof {
                    assert(ind@ =~= zlib_inflated(payload@).take(total as int));
                }
                ind
            } else {
                match decode_rows(inflated.as_slice(), header.width, header.height, ps) {
                    Ok(v) => v,
                    Err(e) => { return Err(e); },
                }
            }
        };
        proof {
            assert(spec_unpack(payload@, header) == Ok::<Seq<u8>, CrxDecodeError>(raw@));
            assert(raw@.len() == total);
        }
        let pixels: Vec<u8> = if bpp == 8 {
            proof {
                assert(3 * ((1 as int) * (header.width as int) * (header.height as int))
                    == (header.width as int) * (header.height as int) * 3) by (nonlinear_arith);
            }
            match expand_palette(raw.as_slice(), palette.as_slice()) {
                Ok(v) => v,
                Err(e) => { return Err(e); },
            }
        } else {
            let mut b = raw;
            proof {
                assert(ps * header.width * header.height == (header.width as int) * (
                header.height as int) * (ps as int)) by (nonlinear_arith);
                vstd::arithmetic::div_mod::lemma_mod_multiples_basic(
                    (header.width as int) * (header.height as int),
                    ps as int,
                );
            }
            if bpp == 32 && header.mode != 1 {
                let flip: u8 = if header.mode == 2 {
                    0
                } else {
                    0xFF
                };
                alpha_swizzle(&mut b, flip);
            }
            swap_rb(&mut b, ps);
            b
        };
        let file = CrxFile {
            inner_x: header.inner_x,
            inner_y: header.inner_y,
            width: header.width,
            height: header.height,
            bpp: if bpp == 8 {
                24
            } else {
                bpp as usize
            },
            clips,
            raw_image_buffer: pixels,
        };
        proof {
            assert(spec_decode(data@) is Ok);
            assert(file@ =~= spec_decode(data@)->Ok_0);
        }
        Ok(file)
    }

    /// The checks a generic RGB(A) image container makes before adopting the
    /// decoded buffer: the stored bits-per-pixel must be 24 or 32, and the
    /// buffer length must match the dimensions exactly.
    pub fn image_buffer_check(&self) -> (r: Result<(), CrxImageConvertError>)
        ensures
            match r {
                Ok(u) => (self@.bpp == 24 || self@.bpp == 32) && self@.pixels.len() == self@.width
                    * self@.height * (self@.bpp / 8),
                Err(e) => match e {
                    CrxImageConvertError::InvalidBPP(b) => b == self@.bpp && self@.bpp != 24
                        && self@.bpp != 32,
                    CrxImageConvertError::InvalidRawBuffer => (self@.bpp == 24 || self@.bpp == 32)
                        && self@.pixels.len() != self@.width * self@.height * (self@.bpp / 8),
                },
            },
    {
        if self.bpp != 24 && self.bpp != 32 {
            return Err(CrxImageConvertError::InvalidBPP(self.bpp));
        }
        let cs: usize = self.bpp / 8;
        proof {
            assert((cs as int) * (self.width as int) <= 4 * 0xFFFF && (cs as int) * (
            self.width as int) * (self.height as int) <= 4 * 0xFFFF * 0xFFFF) by (nonlinear_arith)
                requires cs <= 4, self.width <= 0xFFFF, self.height <= 0xFFFF;
            assert((self@.width as int) * (self@.height as int) * (self@.bpp / 8) == (cs as int) * (
            self.width as int) * (self.height as int)) by (nonlinear_arith)
                requires cs == self@.bpp / 8, self@.width == self.width, self@.height == self.height;
        }
        let expected: u64 = (cs as u64) * (self.width as u64) * (self.height as u64);
        if self.raw_image_buffer.len() as u64 == expected {
            Ok(())
        } else {
            Err(CrxImageConvertError::InvalidRawBuffer)
        }
    }
}

} // verus!
