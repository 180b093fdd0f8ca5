use vstd::prelude::*;
use crate::crx::{CrxView, spec_decode, spec_post};
use crate::error::CrxDecodeError;
use crate::filters::spec_rows;
use crate::header::{CrxHeader, spec_bpp, spec_sig_ok, spec_header};
use crate::lz::{spec_lz, spec_lz_copy, lemma_lz_copy_len, lz_win0};
use crate::palette::{spec_pal_count, spec_pal_entry_size, spec_pal_byte, spec_palette};
use crate::post::{spec_alpha_swizzle, spec_swap_rb};

verus! {

/// Any input of at least four bytes whose first four bytes are not `CRXG` is
/// rejected as `CrxSignatureInvalid`, whatever follows them.
pub proof fn lemma_signature_rejection(d: Seq<u8>)
    requires
        d.len() >= 4,
        !(d[0] == 0x43 && d[1] == 0x52 && d[2] == 0x58 && d[3] == 0x47),
    ensures
        spec_decode(d) == Err::<CrxView, CrxDecodeError>(CrxDecodeError::CrxSignatureInvalid),
{
}

/// An input whose version word is outside {1, 2, 3} is rejected as
/// `VersionNotSupported` carrying that word, and the outcome is fixed by the
/// twenty header bytes alone: any input with the same header decodes the
/// same way, so no byte past the header matters.
pub proof fn lemma_version_guard(d: Seq<u8>, d2: Seq<u8>)
    requires
        d.len() >= 20,
        spec_sig_ok(d),
        spec_header(d).version < 1 || spec_header(d).version > 3,
        d2.len() >= 20,
        d2.subrange(0, 20) == d.subrange(0, 20),
    ensures
        spec_decode(d) == Err::<CrxView, CrxDecodeError>(
            CrxDecodeError::VersionNotSupported(spec_header(d).version),
        ),
        spec_decode(d2) == spec_decode(d),
{
    assert forall|i: int| 0 <= i < 20 implies d2[i] == d[i] by {
        assert(d.subrange(0, 20)[i] == d[i]);
        assert(d2.subrange(0, 20)[i] == d2[i]);
    }
    assert(spec_sig_ok(d2));
    assert(spec_header(d2) == spec_header(d));
}

/// A stored magenta palette entry (r, g, b) = (0xFF, 0x00, 0xFF) is
/// delivered with its green component forced to 0xFF, so the parsed palette
/// holds yellow where the stream held magenta — and never holds magenta.
pub proof fn lemma_palette_fixup(d: Seq<u8>, pos: int, depth: int, j: int)
    requires
        0 <= j < spec_pal_count(depth),
    ensures
        ({
            let q = pos + j * spec_pal_entry_size(depth);
            let pal = spec_palette(d, pos, depth);
            &&& ((d[q] == 0xFF && d[q + 1] == 0 && d[q + 2] == 0xFF) ==> pal[3 * j] == 0xFF
                && pal[3 * j + 1] == 0xFF && pal[3 * j + 2] == 0xFF)
            &&& !(pal[3 * j] == 0xFF && pal[3 * j + 1] == 0 && pal[3 * j + 2] == 0xFF)
        }),
{
    assert(3 * j / 3 == j && 3 * j % 3 == 0) by (nonlinear_arith);
    assert((3 * j + 1) / 3 == j && (3 * j + 1) % 3 == 1) by (nonlinear_arith);
    assert((3 * j + 2) / 3 == j && (3 * j + 2) % 3 == 2) by (nonlinear_arith);
    let esz = spec_pal_entry_size(depth);
    assert(spec_palette(d, pos, depth)[3 * j] == spec_pal_byte(d, pos, esz, 3 * j));
    assert(spec_palette(d, pos, depth)[3 * j + 1] == spec_pal_byte(d, pos, esz, 3 * j + 1));
    assert(spec_palette(d, pos, depth)[3 * j + 2] == spec_pal_byte(d, pos, esz, 3 * j + 2));
}

/// Filter modes 1, 2 and 3 predict from the previous row; a stream that
/// selects one of them for the first row is rejected as `NoPreviousRow`.
pub proof fn lemma_first_row_needs_previous(
    d: Seq<u8>,
    height: int,
    stride: int,
    ps: int,
    width: int,
    out: Seq<u8>,
)
    requires
        height >= 1,
        d.len() >= 1,
        d[0] == 1 || d[0] == 2 || d[0] == 3,
    ensures
        spec_rows(d, 0, 0, height, stride, ps, width, out) == Err::<Seq<u8>, CrxDecodeError>(
            CrxDecodeError::NoPreviousRow,
        ),
{
}

/// The component swap delivers each decompressed B, G, R (or B, G, R, A)
/// pixel with bytes 0 and 2 traded, so byte order becomes R, G, B (A kept).
pub proof fn lemma_swap_rb_pixel(s: Seq<u8>, ps: int, p: int)
    requires
        ps == 3 || ps == 4,
        0 <= p,
        ps * p + ps <= s.len(),
    ensures
        spec_swap_rb(s, ps)[ps * p] == s[ps * p + 2],
        spec_swap_rb(s, ps)[ps * p + 1] == s[ps * p + 1],
        spec_swap_rb(s, ps)[ps * p + 2] == s[ps * p],
        ps == 4 ==> spec_swap_rb(s, ps)[ps * p + 3] == s[ps * p + 3],
{
    assert((ps * p) % ps == 0) by (nonlinear_arith)
        requires ps >= 1, p >= 0;
    assert((ps * p + 1) % ps == 1 && (ps * p + 2) % ps == 2) by (nonlinear_arith)
        requires ps >= 3, p >= 0;
    assert(ps == 4 ==> (ps * p + 3) % ps == 3) by (nonlinear_arith)
        requires ps >= 1, p >= 0;
}

/// The 32-bpp alpha pass: a decompressed pixel [A, B, G, R] leaves as
/// [B, G, R, A ^ flip]. The decoder picks flip = 0x00 for header mode 2 and
/// flip = 0xFF otherwise, so a stored alpha of 0x00 leaves as 0xFF under the
/// ordinary modes and as 0x00 under mode 2.
pub proof fn lemma_alpha_pass_pixel(s: Seq<u8>, flip: u8, p: int)
    requires
        0 <= p,
        4 * p + 4 <= s.len(),
    ensures
        spec_alpha_swizzle(s, flip)[4 * p] == s[4 * p + 1],
        spec_alpha_swizzle(s, flip)[4 * p + 1] == s[4 * p + 2],
        spec_alpha_swizzle(s, flip)[4 * p + 2] == s[4 * p + 3],
        spec_alpha_swizzle(s, flip)[4 * p + 3] == (s[4 * p] ^ flip),
{
    assert((4 * p) % 4 == 0 && (4 * p + 1) % 4 == 1 && (4 * p + 2) % 4 == 2 && (4 * p + 3) % 4
        == 3) by (nonlinear_arith);
}

/// Header mode 1 at 32 bpp skips the alpha pass altogether: only the
/// component swap applies, so a decompressed pixel [A, B, G, R] leaves as
/// [G, B, A, R], alpha still in front, exactly as the stream stored it.
pub proof fn lemma_mode1_no_alpha_pass(raw: Seq<u8>, h: CrxHeader, pal: Seq<u8>)
    requires
        spec_bpp(h.depth) == 32,
        h.mode == 1,
    ensures
        spec_post(raw, h, pal) == Ok::<Seq<u8>, CrxDecodeError>(spec_swap_rb(raw, 4)),
{
}

/// A back-reference copy whose source trails the write cursor by one repeats
/// the byte it starts on: every appended byte equals that byte.
pub proof fn lemma_lz_copy_run(
    win: Seq<u8>,
    wpos: int,
    count: int,
    out: Seq<u8>,
    total: int,
    v: u8,
)
    requires
        win.len() == 0x10000,
        0 <= wpos < 0x10000,
        win[(wpos - 1) % 0x10000] == v,
    ensures
        ({
            let r = spec_lz_copy(win, wpos, (wpos - 1) % 0x10000, count, out, total);
            &&& (forall|i: int| 0 <= i < out.len() ==> r.2[i] == out[i])
            &&& (forall|i: int| out.len() <= i < r.2.len() ==> r.2[i] == v)
        }),
    decreases count,
{
    let src = (wpos - 1) % 0x10000;
    if count <= 0 || out.len() >= total {
        assert(spec_lz_copy(win, wpos, src, count, out, total) == (win, wpos, out));
    } else {
        let win2 = win.update(wpos, v);
        let wpos2 = (wpos + 1) % 0x10000;
        assert((src + 1) % 0x10000 == wpos);
        assert((wpos2 - 1) % 0x10000 == wpos);
        assert(win2[(wpos2 - 1) % 0x10000] == v);
        lemma_lz_copy_run(win2, wpos2, count - 1, out.push(v), total, v);
        assert(spec_lz_copy(win, wpos, src, count, out, total) == spec_lz_copy(
            win2,
            wpos2,
            (src + 1) % 0x10000,
            count - 1,
            out.push(v),
            total,
        ));
        let r = spec_lz_copy(win, wpos, src, count, out, total);
        let rr = spec_lz_copy(win2, wpos2, (wpos2 - 1) % 0x10000, count - 1, out.push(v), total);
        assert(r == rr);
        assert forall|i: int| 0 <= i < out.len() implies r.2[i] == out[i] by {
            assert(rr.2[i] == out.push(v)[i]);
        }
        assert forall|i: int| out.len() <= i < r.2.len() implies r.2[i] == v by {
            if i == out.len() {
                assert(rr.2[i] == out.push(v)[i]);
            } else {
                assert(out.push(v).len() <= i < rr.2.len());
            }
        }
    }
}

/// A version-1 payload that stores one literal byte and then one
/// back-reference to it with back-distance one and count `c + 4` decodes to
/// a run of `c + 5` copies of that byte: the overlapped copy expands the
/// single stored byte.
pub proof fn lemma_lz_back_reference_run(v: u8, c: u8)
    requires
        c < 0x7F,
    ensures
        spec_lz(
            seq![0x01u8, v, c, 0x01u8, 0x00u8],
            0,
            0,
            lz_win0(),
            0,
            Seq::empty(),
            c + 5,
        ) == Ok::<Seq<u8>, CrxDecodeError>(Seq::new((c + 5) as nat, |i: int| v)),
{
    let d: Seq<u8> = seq![0x01u8, v, c, 0x01u8, 0x00u8];
    let total: int = c + 5;
    let win1 = lz_win0().update(0, v);
    let out1 = Seq::<u8>::empty().push(v);
    // first iteration: reload the flag register, then one literal byte
    assert(spec_lz(d, 0, 0, lz_win0(), 0, Seq::empty(), total) == spec_lz(
        d,
        2,
        0xFF01,
        win1,
        1,
        out1,
        total,
    ));
    // second iteration: control byte c selects (count = c + 4, back = 1)
    let copy = spec_lz_copy(win1, 1, 0, c + 4, out1, total);
    assert(win1[(1 - 1) % 0x10000] == v);
    lemma_lz_copy_run(win1, 1, c + 4, out1, total, v);
    lemma_lz_copy_len(win1, 1, 0, c + 4, out1, total);
    assert(copy.2.len() == total);
    assert forall|i: int| 0 <= i < copy.2.len() implies copy.2[i] == v by {
        if i < out1.len() {
            assert(copy.2[i] == out1[i]);
        }
    }
    assert(copy.2 =~= Seq::new((c + 5) as nat, |i: int| v));
    assert(spec_lz(d, 2, 0xFF01, win1, 1, out1, total) == crate::lz::spec_lz_backref(
        d,
        5,
        0x7F80,
        win1,
        1,
        1,
        c + 4,
        out1,
        total,
    ));
    assert(spec_lz(d, 5, 0x7F80, copy.0, copy.1, copy.2, total) == Ok::<
        Seq<u8>,
        CrxDecodeError,
    >(copy.2));
}


/// Literal copies succeed whenever input and output have room, write the
/// input bytes where asked, and touch nothing else.
pub proof fn lemma_copy_lit_bytes(d: Seq<u8>, p: int, out: Seq<u8>, idx: int, n: int)
    requires
        0 <= p,
        p + n <= d.len(),
        0 <= idx,
        idx + n <= out.len(),
        n >= 0,
    ensures
        ({
            let r = crate::filters::spec_copy_lit(d, p, out, idx, n);
            &&& r is Ok
            &&& r->Ok_0.1 == p + n
            &&& r->Ok_0.0.len() == out.len()
            &&& forall|i: int|
                0 <= i < out.len() ==> r->Ok_0.0[i] == if idx <= i < idx + n {
                    d[p + (i - idx)]
                } else {
                    out[i]
                }
        }),
    decreases n,
{
    if n <= 0 {
    } else {
        let out2 = out.update(idx, d[p]);
        lemma_copy_lit_bytes(d, p + 1, out2, idx + 1, n - 1);
        let r = crate::filters::spec_copy_lit(d, p, out, idx, n);
        let rr = crate::filters::spec_copy_lit(d, p + 1, out2, idx + 1, n - 1);
        assert(r == rr);
        assert forall|i: int| 0 <= i < out.len() implies r->Ok_0.0[i] == (if idx <= i < idx + n {
            d[p + (i - idx)]
        } else {
            out[i]
        }) by {
            if idx + 1 <= i < idx + n {
                assert(rr->Ok_0.0[i] == d[p + 1 + (i - (idx + 1))]);
            } else {
                assert(rr->Ok_0.0[i] == out2[i]);
            }
        }
    }
}

/// A delta fill whose input bytes are all zero only repeats the bytes one
/// pixel to the left: a row that opens with the pixel `px` stays `px` all
/// the way across, and nothing outside the row changes.
pub proof fn lemma_delta_fill_zero(
    d: Seq<u8>,
    p: int,
    out: Seq<u8>,
    row: int,
    b: int,
    stride: int,
    ps: int,
    px: Seq<u8>,
)
    requires
        0 <= p,
        p + (stride - b) <= d.len(),
        forall|i: int| p <= i < p + (stride - b) ==> d[i] == 0,
        ps == 3 || ps == 4,
        ps <= b <= stride,
        0 <= row,
        row + stride <= out.len(),
        px.len() == ps,
        forall|i: int| row <= i < row + b ==> #[trigger] out[i] == px[(i - row) % ps],
    ensures
        ({
            let r = crate::filters::spec_delta_fill(d, p, out, row, b, stride, ps);
            &&& r is Ok
            &&& r->Ok_0.1 == p + (stride - b)
            &&& r->Ok_0.0.len() == out.len()
            &&& forall|i: int|
                row <= i < row + stride ==> #[trigger] r->Ok_0.0[i] == px[(i - row) % ps]
            &&& forall|i: int|
                0 <= i < out.len() && !(row <= i < row + stride) ==> #[trigger] r->Ok_0.0[i]
                    == out[i]
        }),
    decreases stride - b,
{
    if b >= stride {
    } else {
        assert(0 <= (b - ps) % ps < ps);
        assert(out[row + b - ps] == px[((row + b - ps) - row) % ps]);
        assert((b - ps) % ps == b % ps) by {
            vstd::arithmetic::div_mod::lemma_mod_add_multiples_vanish(b - ps, ps);
        }
        let v = crate::filters::wadd(d[p], out[row + b - ps]);
        assert(d[p] == 0);
        assert(v == px[b % ps]);
        let out2 = out.update(row + b, v);
        assert forall|i: int| row <= i < row + b + 1 implies #[trigger] out2[i] == px[(i - row)
            % ps] by {
            if i < row + b {
                assert(out2[i] == out[i]);
            } else {
                assert(out2[i] == v);
            }
        }
        lemma_delta_fill_zero(d, p + 1, out2, row, b + 1, stride, ps, px);
        assert(crate::filters::spec_delta_fill(d, p, out, row, b, stride, ps)
            == crate::filters::spec_delta_fill(d, p + 1, out2, row, b + 1, stride, ps));
    }
}

/// Position of the mode byte of row group `g` in a filtered stream whose
/// rows are laid out back to back from `p`.
pub open spec fn group_pos(p: int, stride: int, g: int) -> int {
    p + g * (1 + stride)
}

/// Byte `j` of the body of row group `g` (the bytes after its mode byte).
pub open spec fn group_byte(d: Seq<u8>, p: int, stride: int, g: int, j: int) -> u8 {
    d[p + g * (1 + stride) + 1 + j]
}

/// The mode-0 round trip: a version-2/3 filtered stream in which every row
/// selects mode 0, stores the pixel `px` literally and zero for every delta
/// byte decodes to a solid image: every output byte `i` equals `px[i % ps]`.
#[verifier::rlimit(100)]
pub proof fn lemma_solid_rows(
    d: Seq<u8>,
    p: int,
    y: int,
    height: int,
    stride: int,
    ps: int,
    width: int,
    px: Seq<u8>,
    out: Seq<u8>,
)
    requires
        ps == 3 || ps == 4,
        width >= 1,
        stride == ps * width,
        px.len() == ps,
        out.len() == stride * height,
        0 <= y <= height,
        0 <= p,
        d.len() >= p + (1 + stride) * (height - y),
        forall|g: int| 0 <= g < height - y ==> d[#[trigger] group_pos(p, stride, g)] == 0,
        forall|g: int, j: int|
            0 <= g < height - y && 0 <= j < ps ==> #[trigger] group_byte(d, p, stride, g, j)
                == px[j],
        forall|g: int, j: int|
            0 <= g < height - y && ps <= j < stride ==> #[trigger] group_byte(d, p, stride, g, j)
                == 0,
        forall|i: int| 0 <= i < y * stride ==> #[trigger] out[i] == px[i % ps],
    ensures
        ({
            let r = spec_rows(d, p, y, height, stride, ps, width, out);
            &&& r is Ok
            &&& r->Ok_0.len() == out.len()
            &&& forall|i: int| 0 <= i < out.len() ==> #[trigger] r->Ok_0[i] == px[i % ps]
        }),
    decreases height - y,
{
    if y >= height {
        assert(y == height);
        assert(y * stride == stride * height) by (nonlinear_arith)
            requires y == height;
    } else {
        let row = y * stride;
        assert((1 + stride) * (height - y) == (1 + stride) + (1 + stride) * (height - y - 1))
            by (nonlinear_arith);
        assert((y + 1) * stride == y * stride + stride) by (nonlinear_arith);
        assert(y * stride >= 0 && (y + 1) * stride <= stride * height) by (nonlinear_arith)
            requires 0 <= y < height, stride >= 0;
        // the group for this row
        assert(group_pos(p, stride, 0) == p);
        assert(d[group_pos(p, stride, 0)] == 0);
        assert(d[p] == 0);
        assert forall|i: int| p + 1 <= i < p + 1 + ps implies #[trigger] d[i] == px[i - (p + 1)] by {
            assert(group_byte(d, p, stride, 0, i - (p + 1)) == px[i - (p + 1)]);
        }
        assert forall|i: int| p + 1 + ps <= i < p + 1 + stride implies #[trigger] d[i] == 0 by {
            assert(group_byte(d, p, stride, 0, i - (p + 1)) == 0);
        }
        lemma_copy_lit_bytes(d, p + 1, out, row, ps);
        let r1 = crate::filters::spec_copy_lit(d, p + 1, out, row, ps);
        let o1 = r1->Ok_0.0;
        assert forall|i: int| row <= i < row + ps implies #[trigger] o1[i] == px[(i - row)
            % ps] by {
            assert(o1[i] == d[p + 1 + (i - row)]);
            assert((i - row) % ps == i - row);
        }
        lemma_delta_fill_zero(d, p + 1 + ps, o1, row, ps, stride, ps, px);
        let r2 = crate::filters::spec_delta_fill(d, p + 1 + ps, o1, row, ps, stride, ps);
        let o2 = r2->Ok_0.0;
        assert(crate::filters::spec_row(d, p + 1, out, y, stride, ps, width, 0u8) == Ok::<
            (Seq<u8>, int),
            CrxDecodeError,
        >((o2, p + 1 + stride)));
        // the new prefix is periodic
        assert forall|i: int| 0 <= i < (y + 1) * stride implies #[trigger] o2[i] == px[i % ps] by {
            if i < y * stride {
                assert(o2[i] == out[i]);
            } else {
                let t = i - row;
                assert(o2[i] == px[t % ps]);
                vstd::arithmetic::div_mod::lemma_mod_multiples_vanish(y * width, t, ps);
                assert(ps * (y * width) + t == i) by (nonlinear_arith)
                    requires stride == ps * width, row == y * stride, t == i - row;
            }
        }
        // group indices shift by one group for the recursive call
        let p2 = p + 1 + stride;
        assert forall|g: int| 0 <= g < height - (y + 1) implies d[#[trigger] group_pos(
            p2,
            stride,
            g,
        )] == 0 by {
            assert((g + 1) * (1 + stride) == g * (1 + stride) + (1 + stride)) by (nonlinear_arith);
            assert(group_pos(p2, stride, g) == group_pos(p, stride, g + 1));
            assert(d[group_pos(p, stride, g + 1)] == 0);
        }
        assert forall|g: int, j: int|
            0 <= g < height - (y + 1) && 0 <= j < ps implies #[trigger] group_byte(
            d,
            p2,
            stride,
            g,
            j,
        ) == px[j] by {
            assert((g + 1) * (1 + stride) == g * (1 + stride) + (1 + stride)) by (nonlinear_arith);
            assert(group_byte(d, p2, stride, g, j) == group_byte(d, p, stride, g + 1, j));
            assert(group_byte(d, p, stride, g + 1, j) == px[j]);
        }
        assert forall|g: int, j: int|
            0 <= g < height - (y + 1) && ps <= j < stride implies #[trigger] group_byte(
            d,
            p2,
            stride,
            g,
            j,
        ) == 0 by {
            assert((g + 1) * (1 + stride) == g * (1 + stride) + (1 + stride)) by (nonlinear_arith);
            assert(group_byte(d, p2, stride, g, j) == group_byte(d, p, stride, g + 1, j));
            assert(group_byte(d, p, stride, g + 1, j) == 0);
        }
        lemma_solid_rows(d, p2, y + 1, height, stride, ps, width, px, o2);
    }
}

/// The same run expansion through the wide back-reference encoding: control
/// byte 0x7F takes the count as a 16-bit word, so a single stored byte can
/// expand to a run of any length `n + 3` for a 16-bit `n`.
pub proof fn lemma_lz_back_reference_run_wide(v: u8, n: u16)
    ensures
        spec_lz(
            seq![0x01u8, v, 0x7Fu8, (n % 0x100) as u8, (n / 0x100) as u8, 0x01u8, 0x00u8],
            0,
            0,
            lz_win0(),
            0,
            Seq::empty(),
            n + 3,
        ) == Ok::<Seq<u8>, CrxDecodeError>(Seq::new((n + 3) as nat, |i: int| v)),
{
    let d: Seq<u8> = seq![0x01u8, v, 0x7Fu8, (n % 0x100) as u8, (n / 0x100) as u8, 0x01u8, 0x00u8];
    let total: int = n + 3;
    let win1 = lz_win0().update(0, v);
    let out1 = Seq::<u8>::empty().push(v);
    assert(spec_lz(d, 0, 0, lz_win0(), 0, Seq::empty(), total) == spec_lz(
        d,
        2,
        0xFF01,
        win1,
        1,
        out1,
        total,
    ));
    assert(crate::bytes::spec_le_u16(d, 3) == n);
    assert(crate::bytes::spec_le_u16(d, 5) == 1);
    let copy = spec_lz_copy(win1, 1, 0, n + 2, out1, total);
    assert(win1[(1 - 1) % 0x10000] == v);
    lemma_lz_copy_run(win1, 1, n + 2, out1, total, v);
    lemma_lz_copy_len(win1, 1, 0, n + 2, out1, total);
    assert(copy.2.len() == total);
    assert forall|i: int| 0 <= i < copy.2.len() implies copy.2[i] == v by {
        if i < out1.len() {
            assert(copy.2[i] == out1[i]);
        }
    }
    assert(copy.2 =~= Seq::new((n + 3) as nat, |i: int| v));
    assert(spec_lz(d, 2, 0xFF01, win1, 1, out1, total) == crate::lz::spec_lz_backref(
        d,
        7,
        0x7F80,
        win1,
        1,
        1,
        n + 2,
        out1,
        total,
    ));
    assert(spec_lz(d, 7, 0x7F80, copy.0, copy.1, copy.2, total) == Ok::<
        Seq<u8>,
        CrxDecodeError,
    >(copy.2));
}

/// A version-1 stream of flag bytes 0xFF, each followed by eight literal
/// bytes (fewer in the last group): eight set flag bits per reload, so every
/// payload byte between flag bytes passes through as a literal.
pub open spec fn literal_stream(lits: Seq<u8>) -> Seq<u8>
    decreases lits.len(),
{
    if lits.len() <= 0 {
        Seq::empty()
    } else if lits.len() <= 8 {
        seq![0xFFu8] + lits
    } else {
        seq![0xFFu8] + lits.take(8) + literal_stream(lits.skip(8))
    }
}

/// The rest of such a stream when `r` literals of the current group are
/// still to come: those literals raw, then whole groups again.
pub open spec fn literal_stream_tail(lits: Seq<u8>, r: int) -> Seq<u8> {
    if lits.len() <= r {
        lits
    } else {
        lits.take(r) + literal_stream(lits.skip(r))
    }
}

/// The flag register of the version-1 decoder after it has consumed
/// `8 - r` bits of a freshly loaded control byte 0xFF.
pub open spec fn literal_flag(r: int) -> int {
    if r == 7 {
        0xFFFF
    } else if r == 6 {
        0x7FFF
    } else if r == 5 {
        0x3FFF
    } else if r == 4 {
        0x1FFF
    } else if r == 3 {
        0x0FFF
    } else if r == 2 {
        0x07FF
    } else {
        0x03FF
    }
}

#[verifier::rlimit(50)]
proof fn lemma_lz_literal_run(
    d: Seq<u8>,
    lits: Seq<u8>,
    pos: int,
    flag: int,
    r: int,
    win: Seq<u8>,
    wpos: int,
    out: Seq<u8>,
    total: int,
)
    requires
        win.len() == 0x10000,
        0 <= wpos < 0x10000,
        out.len() + lits.len() == total,
        0 <= r <= 7,
        0 <= pos <= d.len(),
        d.subrange(pos, d.len() as int) == literal_stream_tail(lits, r),
        0 <= flag <= 0xFFFF,
        r > 0 ==> flag == literal_flag(r),
        r == 0 ==> ((flag / 2) / 0x100) % 2 == 0,
    ensures
        spec_lz(d, pos, flag, win, wpos, out, total) == Ok::<Seq<u8>, CrxDecodeError>(out + lits),
    decreases lits.len(),
{
    let tail = literal_stream_tail(lits, r);
    assert(d.len() - pos == tail.len());
    if lits.len() == 0 {
        assert(out + lits =~= out);
    } else if r == 0 {
        assert(lits.skip(0) =~= lits);
        assert(tail =~= literal_stream(lits));
        assert(tail[0] == 0xFF && tail[1] == lits[0]);
        assert(d[pos] == tail[0] && d[pos + 1] == tail[1]) by {
            assert(d.subrange(pos, d.len() as int)[0] == d[pos]);
            assert(d.subrange(pos, d.len() as int)[1] == d[pos + 1]);
        }
        let win2 = win.update(wpos, lits[0]);
        let wpos2 = (wpos + 1) % 0x10000;
        let out2 = out.push(lits[0]);
        assert(spec_lz(d, pos, flag, win, wpos, out, total) == spec_lz(
            d,
            pos + 2,
            0xFFFF,
            win2,
            wpos2,
            out2,
            total,
        ));
        assert(d.subrange(pos + 2, d.len() as int) =~= tail.skip(2));
        if lits.len() <= 8 {
            assert(tail.skip(2) =~= lits.skip(1));
            assert(literal_stream_tail(lits.skip(1), 7) == lits.skip(1));
        } else {
            assert(tail.skip(2) =~= lits.take(8).skip(1) + literal_stream(lits.skip(8)));
            assert(lits.take(8).skip(1) =~= lits.skip(1).take(7));
            assert(lits.skip(8) =~= lits.skip(1).skip(7));
            assert(tail.skip(2) =~= literal_stream_tail(lits.skip(1), 7));
        }
        lemma_lz_literal_run(d, lits.skip(1), pos + 2, 0xFFFF, 7, win2, wpos2, out2, total);
        assert(out2 + lits.skip(1) =~= out + lits);
    } else {
        assert(tail[0] == lits[0]);
        assert(d[pos] == tail[0]) by {
            assert(d.subrange(pos, d.len() as int)[0] == d[pos]);
        }
        let f = flag / 2;
        assert((f / 0x100) % 2 == 1 && f % 2 == 1);
        let win2 = win.update(wpos, lits[0]);
        let wpos2 = (wpos + 1) % 0x10000;
        let out2 = out.push(lits[0]);
        assert(spec_lz(d, pos, flag, win, wpos, out, total) == spec_lz(
            d,
            pos + 1,
            f,
            win2,
            wpos2,
            out2,
            total,
        ));
        assert(r == 1 ==> ((f / 2) / 0x100) % 2 == 0);
        assert(r > 1 ==> f == literal_flag(r - 1));
        assert(d.subrange(pos + 1, d.len() as int) =~= tail.skip(1));
        if lits.len() <= r {
            assert(tail.skip(1) =~= lits.skip(1));
            assert(literal_stream_tail(lits.skip(1), r - 1) == lits.skip(1));
        } else {
            assert(tail.skip(1) =~= lits.take(r).skip(1) + literal_stream(lits.skip(r)));
            assert(lits.take(r).skip(1) =~= lits.skip(1).take(r - 1));
            assert(lits.skip(r) =~= lits.skip(1).skip(r - 1));
            assert(tail.skip(1) =~= literal_stream_tail(lits.skip(1), r - 1));
        }
        lemma_lz_literal_run(d, lits.skip(1), pos + 1, f, r - 1, win2, wpos2, out2, total);
        assert(out2 + lits.skip(1) =~= out + lits);
    }
}

/// A version-1 payload consisting solely of flag bytes 0xFF, each followed
/// by eight literal bytes (fewer in the last group), reproduces exactly
/// those literal bytes as its decompressed output.
pub proof fn lemma_lz_literal_stream(lits: Seq<u8>)
    ensures
        spec_lz(literal_stream(lits), 0, 0, lz_win0(), 0, Seq::empty(), lits.len() as int)
            == Ok::<Seq<u8>, CrxDecodeError>(lits),
{
    let d = literal_stream(lits);
    assert(lits.skip(0) =~= lits);
    assert(literal_stream_tail(lits, 0) =~= d) by {
        if lits.len() > 0 {
            assert(lits.take(0) + literal_stream(lits.skip(0)) =~= literal_stream(lits));
        }
    }
    assert(d.subrange(0, d.len() as int) =~= literal_stream_tail(lits, 0));
    lemma_lz_literal_run(d, lits, 0, 0, 0, lz_win0(), 0, Seq::empty(), lits.len() as int);
    assert(Seq::<u8>::empty() + lits =~= lits);
}

} // verus!
