use vstd::prelude::*;
use crate::error::CrxDecodeError;
use crate::lz::zero_vec;
use crate::bytes::read_u8;

verus! {

/// Byte addition modulo 256, the arithmetic of every prediction filter.
pub open spec fn wadd(a: u8, b: u8) -> u8 {
    ((a + b) % 256) as u8
}

/// A sequence of `n` zero bytes, the state of a row buffer before filtering.
pub open spec fn zeros(n: int) -> Seq<u8> {
    Seq::new(if n < 0 {
        0
    } else {
        n as nat
    }, |i: int| 0u8)
}

/// Copies `n` literal bytes from the input to `out[idx..idx + n]`.
pub open spec fn spec_copy_lit(d: Seq<u8>, p: int, out: Seq<u8>, idx: int, n: int) -> Result<
    (Seq<u8>, int),
    CrxDecodeError,
>
    decreases n,
{
    if n <= 0 {
        Ok((out, p))
    } else if p >= d.len() {
        Err(CrxDecodeError::ShortRead)
    } else {
        spec_copy_lit(d, p + 1, out.update(idx, d[p]), idx + 1, n - 1)
    }
}

/// Fills `out[row + b]` for `b` in `[b, end)` with the input byte plus the
/// already-decoded byte `back` positions earlier, modulo 256. All four
/// prediction filters other than the run-length one are instances of this.
pub open spec fn spec_delta_fill(
    d: Seq<u8>,
    p: int,
    out: Seq<u8>,
    row: int,
    b: int,
    end: int,
    back: int,
) -> Result<(Seq<u8>, int), CrxDecodeError>
    decreases end - b,
{
    if b >= end {
        Ok((out, p))
    } else if p >= d.len() {
        Err(CrxDecodeError::ShortRead)
    } else {
        spec_delta_fill(
            d,
            p + 1,
            out.update(row + b, wadd(d[p], out[row + b - back])),
            row,
            b + 1,
            end,
            back,
        )
    }
}

/// Writes `cnt` copies of `val` at `xb`, `xb + step`, and so on.
pub open spec fn spec_fill(out: Seq<u8>, xb: int, step: int, cnt: int, val: u8) -> Seq<u8>
    decreases cnt,
{
    if cnt <= 0 {
        out
    } else {
        spec_fill(out.update(xb, val), xb + step, step, cnt - 1, val)
    }
}

/// The per-component same-value run-length scheme of filter mode 4: emit the
/// running value; when the next input byte repeats it, a count byte says how
/// many further copies follow (overshooting the row is fatal), otherwise the
/// next byte becomes the running value.
pub open spec fn spec_rle(
    d: Seq<u8>,
    p: int,
    xb: int,
    step: int,
    remaining: int,
    val: u8,
    out: Seq<u8>,
) -> Result<(Seq<u8>, int), CrxDecodeError>
    decreases remaining,
{
    if remaining <= 0 {
        Ok((out, p))
    } else {
        let out1 = out.update(xb, val);
        if remaining == 1 {
            Ok((out1, p))
        } else if p >= d.len() {
            Err(CrxDecodeError::ShortRead)
        } else {
            let next = d[p];
            if next == val {
                if p + 1 >= d.len() {
                    Err(CrxDecodeError::ShortRead)
                } else {
                    let cnt = d[p + 1] as int;
                    if cnt > remaining - 1 {
                        Err(CrxDecodeError::RowOverflow)
                    } else {
                        let out2 = spec_fill(out1, xb + step, step, cnt, val);
                        if remaining - 1 - cnt > 0 {
                            if p + 2 >= d.len() {
                                Err(CrxDecodeError::ShortRead)
                            } else {
                                spec_rle(
                                    d,
                                    p + 3,
                                    xb + step * (cnt + 1),
                                    step,
                                    remaining - 1 - cnt,
                                    d[p + 2],
                                    out2,
                                )
                            }
                        } else {
                            Ok((out2, p + 2))
                        }
                    }
                }
            } else {
                spec_rle(d, p + 1, xb + step, step, remaining - 1, next, out1)
            }
        }
    }
}

/// Filter mode 4 over one row: each of the `ps` components reads its own
/// starting value and then its own run-length stream down the row.
pub open spec fn spec_mode4(
    d: Seq<u8>,
    p: int,
    row: int,
    po: int,
    ps: int,
    width: int,
    out: Seq<u8>,
) -> Result<(Seq<u8>, int), CrxDecodeError>
    decreases ps - po,
{
    if po >= ps {
        Ok((out, p))
    } else if p >= d.len() {
        Err(CrxDecodeError::ShortRead)
    } else {
        match spec_rle(d, p + 1, row + po, ps, width, d[p], out) {
            Err(e) => Err(e),
            Ok((o1, p1)) => spec_mode4(d, p1, row, po + 1, ps, width, o1),
        }
    }
}

/// One filtered row, dispatched on the mode byte `m`. Modes 1, 2 and 3
/// predict from the previous row and are fatal on the first one.
pub open spec fn spec_row(
    d: Seq<u8>,
    p: int,
    out: Seq<u8>,
    y: int,
    stride: int,
    ps: int,
    width: int,
    m: u8,
) -> Result<(Seq<u8>, int), CrxDecodeError> {
    let row = y * stride;
    if m == 0 {
        match spec_copy_lit(d, p, out, row, ps) {
            Err(e) => Err(e),
            Ok((o1, p1)) => spec_delta_fill(d, p1, o1, row, ps, stride, ps),
        }
    } else if m == 1 {
        if y == 0 {
            Err(CrxDecodeError::NoPreviousRow)
        } else {
            spec_delta_fill(d, p, out, row, 0, stride, stride)
        }
    } else if m == 2 {
        if y == 0 {
            Err(CrxDecodeError::NoPreviousRow)
        } else {
            match spec_copy_lit(d, p, out, row, ps) {
                Err(e) => Err(e),
                Ok((o1, p1)) => spec_delta_fill(d, p1, o1, row, ps, stride, stride + ps),
            }
        }
    } else if m == 3 {
        if y == 0 {
            Err(CrxDecodeError::NoPreviousRow)
        } else {
            match spec_delta_fill(d, p, out, row, 0, stride - ps, stride - ps) {
                Err(e) => Err(e),
                Ok((o1, p1)) => spec_copy_lit(d, p1, o1, row + stride - ps, ps),
            }
        }
    } else if m == 4 {
        spec_mode4(d, p, row, 0, ps, width, out)
    } else {
        Err(CrxDecodeError::InvalidRowDecodeMode(m))
    }
}

/// All rows of the direct (24- or 32-bpp) case: each starts with a mode byte
/// and reconstructs `stride` bytes into the output.
pub open spec fn spec_rows(
    d: Seq<u8>,
    p: int,
    y: int,
    height: int,
    stride: int,
    ps: int,
    width: int,
    out: Seq<u8>,
) -> Result<Seq<u8>, CrxDecodeError>
    decreases height - y,
{
    if y >= height {
        Ok(out)
    } else if p >= d.len() {
        Err(CrxDecodeError::ShortRead)
    } else {
        match spec_row(d, p + 1, out, y, stride, ps, width, d[p]) {
            Err(e) => Err(e),
            Ok((o1, p1)) => spec_rows(d, p1, y + 1, height, stride, ps, width, o1),
        }
    }
}

#[verifier::loop_isolation(false)]
fn copy_lit(d: &[u8], pos: &mut usize, out: &mut Vec<u8>, idx: usize, n: usize) -> (r: Result<
    (),
    CrxDecodeError,
>)
    requires
        idx + n <= old(out)@.len(),
    ensures
        final(out)@.len() == old(out)@.len(),
        match r {
            Ok(u) => spec_copy_lit(d@, *old(pos) as int, old(out)@, idx as int, n as int) == Ok::<
                (Seq<u8>, int),
                CrxDecodeError,
            >((final(out)@, *final(pos) as int)),
            Err(e) => spec_copy_lit(d@, *old(pos) as int, old(out)@, idx as int, n as int)
                == Err::<(Seq<u8>, int), CrxDecodeError>(e),
        },
{
    let ghost pos0 = *pos as int;
    let ghost out0 = out@;
    let olen: usize = out.len();
    let mut j: usize = 0;
    while j < n
        invariant
            j <= n,
            idx + n <= out@.len(),
            out@.len() == out0.len(),
            spec_copy_lit(d@, *pos as int, out@, idx + j, n - j) == spec_copy_lit(
                d@,
                pos0,
                out0,
                idx as int,
                n as int,
            ),
        decreases n - j,
    {
        if *pos >= d.len() {
            return Err(CrxDecodeError::ShortRead);
        }
        let b = d[*pos];
        *pos = *pos + 1;
        out[idx + j] = b;
        j = j + 1;
    }
    Ok(())
}

#[verifier::loop_isolation(false)]
fn delta_fill(
    d: &[u8],
    pos: &mut usize,
    out: &mut Vec<u8>,
    row: usize,
    b0: usize,
    end: usize,
    back: usize,
) -> (r: Result<(), CrxDecodeError>)
    requires
        row + end <= old(out)@.len(),
        b0 <= end,
        back <= row + b0,
    ensures
        final(out)@.len() == old(out)@.len(),
        match r {
            Ok(u) => spec_delta_fill(
                d@,
                *old(pos) as int,
                old(out)@,
                row as int,
                b0 as int,
                end as int,
                back as int,
            ) == Ok::<(Seq<u8>, int), CrxDecodeError>((final(out)@, *final(pos) as int)),
            Err(e) => spec_delta_fill(
                d@,
                *old(pos) as int,
                old(out)@,
                row as int,
                b0 as int,
                end as int,
                back as int,
            ) == Err::<(Seq<u8>, int), CrxDecodeError>(e),
        },
{
    let ghost pos0 = *pos as int;
    let ghost out0 = out@;
    let olen: usize = out.len();
    let mut b: usize = b0;
    while b < end
        invariant
            b0 <= b <= end,
            row + end <= out@.len(),
            back <= row + b,
            out@.len() == out0.len(),
            spec_delta_fill(d@, *pos as int, out@, row as int, b as int, end as int, back as int)
                == spec_delta_fill(d@, pos0, out0, row as int, b0 as int, end as int, back as int),
        decreases end - b,
    {
        if *pos >= d.len() {
            return Err(CrxDecodeError::ShortRead);
        }
        let v = d[*pos];
        *pos = *pos + 1;
        let prev = out[row + b - back];
        let s: u8 = (((v as u16) + (prev as u16)) % 256) as u8;
        out[row + b] = s;
        b = b + 1;
    }
    Ok(())
}

#[verifier::loop_isolation(false)]
fn rle_fill(
    d: &[u8],
    pos: &mut usize,
    out: &mut Vec<u8>,
    xb0: usize,
    step: usize,
    width: usize,
    val0: u8,
) -> (r: Result<(), CrxDecodeError>)
    requires
        1 <= step,
        width >= 1 ==> xb0 + step * (width - 1) < old(out)@.len(),
    ensures
        final(out)@.len() == old(out)@.len(),
        match r {
            Ok(u) => spec_rle(
                d@,
                *old(pos) as int,
                xb0 as int,
                step as int,
                width as int,
                val0,
                old(out)@,
            ) == Ok::<(Seq<u8>, int), CrxDecodeError>((final(out)@, *final(pos) as int)),
            Err(e) => spec_rle(
                d@,
                *old(pos) as int,
                xb0 as int,
                step as int,
                width as int,
                val0,
                old(out)@,
            ) == Err::<(Seq<u8>, int), CrxDecodeError>(e),
        },
{
    let ghost pos0 = *pos as int;
    let ghost out0 = out@;
    let olen: usize = out.len();
    let mut xb: usize = xb0;
    let mut remaining: usize = width;
    let mut val: u8 = val0;
    while remaining > 0
        invariant
            1 <= step,
            out@.len() == out0.len(),
            remaining >= 1 ==> xb + step * (remaining - 1) < out@.len(),
            spec_rle(d@, *pos as int, xb as int, step as int, remaining as int, val, out@)
                == spec_rle(d@, pos0, xb0 as int, step as int, width as int, val0, out0),
        decreases remaining,
    {
        let ghost rem_in = remaining as int;
        let ghost xb_in = xb as int;
        let ghost pos_in = *pos as int;
        let ghost out_in = out@;
        let ghost val_in = val;
        proof {
            assert(step * (rem_in - 1) >= 0) by (nonlinear_arith)
                requires step >= 1, rem_in >= 1;
        }
        out[xb] = val;
        remaining = remaining - 1;
        if remaining == 0 {
            break;
        }
        proof {
            assert(xb_in + step * rem_in - step == xb_in + step * (rem_in - 1)) by (nonlinear_arith);
        }
        let next = match read_u8(d, pos) {
            Ok(v) => v,
            Err(e) => { return Err(e); },
        };
        if next == val {
            let cnt_b = match read_u8(d, pos) {
                Ok(v) => v,
                Err(e) => { return Err(e); },
            };
            let cnt = cnt_b as usize;
            if cnt > remaining {
                return Err(CrxDecodeError::RowOverflow);
            }
            let ghost fill_out0 = out@;
            let ghost fill_xb0 = xb as int;
            let mut t: usize = 0;
            while t < cnt
                invariant
                    t <= cnt,
                    1 <= step,
                    cnt <= rem_in - 1,
                    out@.len() == out0.len(),
                    xb == fill_xb0 + step * t,
                    fill_xb0 + step * (rem_in - 1) < out@.len(),
                    spec_fill(out@, xb + step, step as int, cnt - t, val) == spec_fill(
                        fill_out0,
                        fill_xb0 + step,
                        step as int,
                        cnt as int,
                        val,
                    ),
                decreases cnt - t,
            {
                proof {
                    assert(step * (t + 1) <= step * (rem_in - 1)) by (nonlinear_arith)
                        requires t + 1 <= rem_in - 1, step >= 1;
                    assert(step * (t + 1) == step * t + step) by (nonlinear_arith);
                }
                xb = xb + step;
                out[xb] = val;
                t = t + 1;
            }
            remaining = remaining - cnt;
            proof {
                assert(spec_fill(out@, xb + step, step as int, 0, val) == out@);
                assert(step * (cnt + 1) == step * cnt + step) by (nonlinear_arith);
                assert(xb as int == fill_xb0 + step * cnt);
            }
            if remaining > 0 {
                val = match read_u8(d, pos) {
                    Ok(v) => v,
                    Err(e) => { return Err(e); },
                };
                proof {
                    assert(step * (cnt + 1) <= step * (rem_in - 1)) by (nonlinear_arith)
                        requires step >= 1, cnt + 1 <= rem_in - 1;
                    assert(step * (cnt + 1) == step * cnt + step) by (nonlinear_arith);
                    assert(step * (rem_in - 1 - cnt - 1) + step * (cnt + 1) == step * (rem_in - 1))
                        by (nonlinear_arith);
                }
                xb = xb + step;
            } else {
                break;
            }
        } else {
            val = next;
            proof {
                assert(step * 1 <= step * (rem_in - 1)) by (nonlinear_arith)
                    requires step >= 1, rem_in >= 2;
                assert(step * (rem_in - 1 - 1) + step == step * (rem_in - 1)) by (nonlinear_arith);
            }
            xb = xb + step;
        }
    }
    Ok(())
}

/// Decodes the filtered rows of a version-2/3 direct-color image from the
/// inflated byte stream. The result has exactly `ps * width * height` bytes.
#[verifier::loop_isolation(false)]
pub fn decode_rows(d: &[u8], width: u16, height: u16, ps: usize) -> (r: Result<
    Vec<u8>,
    CrxDecodeError,
>)
    requires
        ps == 3 || ps == 4,
        width >= 1,
        height >= 1,
        ps * width * height <= usize::MAX,
    ensures
        match r {
            Ok(v) => spec_rows(
                d@,
                0,
                0,
                height as int,
                ps * width,
                ps as int,
                width as int,
                zeros(ps * width * height),
            ) == Ok::<Seq<u8>, CrxDecodeError>(v@) && v@.len() == ps * width * height,
            Err(e) => spec_rows(
                d@,
                0,
                0,
                height as int,
                ps * width,
                ps as int,
                width as int,
                zeros(ps * width * height),
            ) == Err::<Seq<u8>, CrxDecodeError>(e),
        },
{
    let stride: usize = ps * (width as usize);
    proof {
        assert(stride >= ps) by (nonlinear_arith)
            requires stride == ps * width, width >= 1, ps >= 1;
    }
    let total: usize = stride * (height as usize);
    let mut out: Vec<u8> = zero_vec(total);
    proof {
        assert(out@ =~= zeros(ps * width * height));
    }
    let mut pos: usize = 0;
    let mut y: usize = 0;
    while y < (height as usize)
        invariant
            ps == 3 || ps == 4,
            width >= 1,
            stride == ps * width,
            stride >= ps,
            total == stride * (height as int),
            y <= height as int,
            out@.len() == total,
            spec_rows(
                d@,
                pos as int,
                y as int,
                height as int,
                stride as int,
                ps as int,
                width as int,
                out@,
            ) == spec_rows(
                d@,
                0,
                0,
                height as int,
                ps * width,
                ps as int,
                width as int,
                zeros(ps * width * height),
            ),
        decreases height - y,
    {
        let ghost y_in = y as int;
        let ghost pos_in = pos as int;
        let ghost out_in = out@;
        let m = match read_u8(d, &mut pos) {
            Ok(v) => v,
            Err(e) => { return Err(e); },
        };
        proof {
            assert((y_in + 1) * stride <= (height as int) * stride) by (nonlinear_arith)
                requires y_in + 1 <= height as int, stride >= 0;
            assert((y_in + 1) * stride == y_in * stride + stride) by (nonlinear_arith);
            assert((height as int) * stride == stride * (height as int)) by (nonlinear_arith);
            assert(y_in >= 1 ==> stride <= y_in * stride) by (nonlinear_arith)
                requires stride >= 0;
        }
        let row: usize = y * stride;
        if m == 0 {
            match copy_lit(d, &mut pos, &mut out, row, ps) {
                Ok(u) => {},
                Err(e) => { return Err(e); },
            }
            match delta_fill(d, &mut pos, &mut out, row, ps, stride, ps) {
                Ok(u) => {},
                Err(e) => { return Err(e); },
            }
        } else if m == 1 {
            if y == 0 {
                return Err(CrxDecodeError::NoPreviousRow);
            }
            match delta_fill(d, &mut pos, &mut out, row, 0, stride, stride) {
                Ok(u) => {},
                Err(e) => { return Err(e); },
            }
        } else if m == 2 {
            if y == 0 {
                return Err(CrxDecodeError::NoPreviousRow);
            }
            match copy_lit(d, &mut pos, &mut out, row, ps) {
                Ok(u) => {},
                Err(e) => { return Err(e); },
            }
            match delta_fill(d, &mut pos, &mut out, row, ps, stride, stride + ps) {
                Ok(u) => {},
                Err(e) => { return Err(e); },
            }
        } else if m == 3 {
            if y == 0 {
                return Err(CrxDecodeError::NoPreviousRow);
            }
            match delta_fill(d, &mut pos, &mut out, row, 0, stride - ps, stride - ps) {
                Ok(u) => {},
                Err(e) => { return Err(e); },
            }
            match copy_lit(d, &mut pos, &mut out, row + stride - ps, ps) {
                Ok(u) => {},
                Err(e) => { return Err(e); },
            }
        } else if m == 4 {
            let ghost row_pos0 = pos as int;
            let ghost row_out0 = out@;
            let mut po: usize = 0;
            while po < ps
                invariant
                    po <= ps,
                    ps == 3 || ps == 4,
                    width >= 1,
                    stride == ps * width,
                    row + stride <= out@.len(),
                    out@.len() == out_in.len(),
                    spec_mode4(
                        d@,
                        pos as int,
                        row as int,
                        po as int,
                        ps as int,
                        width as int,
                        out@,
                    ) == spec_mode4(
                        d@,
                        row_pos0,
                        row as int,
                        0,
                        ps as int,
                        width as int,
                        row_out0,
                    ),
                decreases ps - po,
            {
                let val = match read_u8(d, &mut pos) {
                    Ok(v) => v,
                    Err(e) => { return Err(e); },
                };
                proof {
                    assert(row + po + ps * (width - 1) < row + stride) by (nonlinear_arith)
                        requires
                            stride == ps * width,
                            width >= 1,
                            po < ps,
                            ps >= 1,
                    ;
                }
                match rle_fill(d, &mut pos, &mut out, row + po, ps, width as usize, val) {
                    Ok(u) => {},
                    Err(e) => { return Err(e); },
                }
                po = po + 1;
            }
        } else {
            return Err(CrxDecodeError::InvalidRowDecodeMode(m));
        }
        y = y + 1;
    }
    Ok(out)
}

/// Expands 8-bpp palette indices to flat RGB triples. `pal` holds the
/// palette flat, three bytes per entry; any index at or past the entry count
/// is fatal.
pub open spec fn spec_expand(idx: Seq<u8>, pal: Seq<u8>, i: int, out: Seq<u8>) -> Result<
    Seq<u8>,
    CrxDecodeError,
>
    decreases idx.len() - i,
{
    if i >= idx.len() {
        Ok(out)
    } else {
        let x = idx[i] as int;
        if 3 * x + 3 > pal.len() {
            Err(CrxDecodeError::BadPaletteIndex((pal.len() / 3) as usize, idx[i] as usize))
        } else {
            spec_expand(idx, pal, i + 1, out.push(pal[3 * x]).push(pal[3 * x + 1]).push(pal[3 * x + 2]))
        }
    }
}

/// Expands every palette index to its three palette bytes.
#[verifier::loop_isolation(false)]
pub fn expand_palette(idx: &[u8], pal: &[u8]) -> (r: Result<Vec<u8>, CrxDecodeError>)
    ensures
        match r {
            Ok(v) => spec_expand(idx@, pal@, 0, Seq::empty()) == Ok::<Seq<u8>, CrxDecodeError>(v@)
                && v@.len() == 3 * idx@.len(),
            Err(e) => spec_expand(idx@, pal@, 0, Seq::empty()) == Err::<Seq<u8>, CrxDecodeError>(
                e,
            ),
        },
{
    let mut out: Vec<u8> = Vec::new();
    let mut i: usize = 0;
    while i < idx.len()
        invariant
            i <= idx@.len(),
            out@.len() == 3 * i,
            spec_expand(idx@, pal@, i as int, out@) == spec_expand(idx@, pal@, 0, Seq::empty()),
        decreases idx@.len() - i,
    {
        let x = idx[i] as usize;
        if x >= pal.len() / 3 {
            proof {
                assert(3 * (x as int) + 3 > pal@.len());
                assert((pal@.len() / 3) as usize == pal@.len() as int / 3);
            }
            return Err(CrxDecodeError::BadPaletteIndex(pal.len() / 3, x));
        }
        proof {
            assert(3 * (x as int) + 3 <= pal@.len());
        }
        out.push(pal[3 * x]);
        out.push(pal[3 * x + 1]);
        out.push(pal[3 * x + 2]);
        i = i + 1;
    }
    Ok(out)
}

} // verus!
