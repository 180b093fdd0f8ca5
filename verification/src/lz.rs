use vstd::prelude::*;
use crate::bytes::{spec_le_u16, read_u16};
use crate::error::CrxDecodeError;

verus! {

/// The 64 KiB sliding window, all zero, as the version-1 decompressor starts.
pub open spec fn lz_win0() -> Seq<u8> {
    Seq::new(0x10000, |i: int| 0u8)
}

/// One back-reference copy: `count` bytes are taken from the window at `src`
/// and appended both to the window at `wpos` and to the output, all cursors
/// wrapping modulo 0x10000. The copy stops early once the output is full.
/// Returns the window, the window cursor and the output after the copy.
pub open spec fn spec_lz_copy(
    win: Seq<u8>,
    wpos: int,
    src: int,
    count: int,
    out: Seq<u8>,
    total: int,
) -> (Seq<u8>, int, Seq<u8>)
    decreases count,
{
    if count <= 0 || out.len() >= total {
        (win, wpos, out)
    } else {
        let b = win[src];
        spec_lz_copy(
            win.update(wpos, b),
            (wpos + 1) % 0x10000,
            (src + 1) % 0x10000,
            count - 1,
            out.push(b),
            total,
        )
    }
}

/// How a back-reference copy changes the lengths of window and output.
pub proof fn lemma_lz_copy_len(
    win: Seq<u8>,
    wpos: int,
    src: int,
    count: int,
    out: Seq<u8>,
    total: int,
)
    ensures
        ({
            let r = spec_lz_copy(win, wpos, src, count, out, total);
            &&& r.2.len() >= out.len()
            &&& (out.len() <= total ==> r.2.len() <= total)
            &&& (count >= 1 && out.len() < total ==> r.2.len() > out.len())
            &&& (count >= 0 && out.len() + count <= total ==> r.2.len() == out.len() + count)
        }),
    decreases count,
{
    if count <= 0 || out.len() >= total {
        assert(spec_lz_copy(win, wpos, src, count, out, total) == (win, wpos, out));
    } else {
        let b = win[src];
        assert(spec_lz_copy(win, wpos, src, count, out, total) == spec_lz_copy(
            win.update(wpos, b),
            (wpos + 1) % 0x10000,
            (src + 1) % 0x10000,
            count - 1,
            out.push(b),
            total,
        ));
        lemma_lz_copy_len(
            win.update(wpos, b),
            (wpos + 1) % 0x10000,
            (src + 1) % 0x10000,
            count - 1,
            out.push(b),
            total,
        );
    }
}

/// The version-1 decompressor, one whole loop iteration per unfolding.
///
/// State: input `d` with cursor `pos`, the 9-bit flag register, the sliding
/// window with its cursor, and the output built so far. The flag register is
/// shifted right once per iteration; when its sentinel bit (0x100) has fallen
/// out, a fresh control byte is loaded with the sentinel above it, so exactly
/// eight flag bits are consumed per reload. A set low bit passes one literal
/// byte through; a clear one reads a control byte and decodes one of four
/// (count, back-distance) encodings, then copies from the window.
pub open spec fn spec_lz(
    d: Seq<u8>,
    pos: int,
    flag: int,
    win: Seq<u8>,
    wpos: int,
    out: Seq<u8>,
    total: int,
) -> Result<Seq<u8>, CrxDecodeError>
    decreases total - out.len(), 1int,
{
    if out.len() >= total {
        Ok(out)
    } else {
        let f0 = flag / 2;
        let reload = (f0 / 0x100) % 2 == 0;
        if reload && pos >= d.len() {
            Err(CrxDecodeError::ShortRead)
        } else {
            let f = if reload {
                d[pos] + 0xFF00
            } else {
                f0
            };
            let p = if reload {
                pos + 1
            } else {
                pos
            };
            if p >= d.len() {
                Err(CrxDecodeError::ShortRead)
            } else if f % 2 == 1 {
                spec_lz(
                    d,
                    p + 1,
                    f,
                    win.update(wpos, d[p]),
                    (wpos + 1) % 0x10000,
                    out.push(d[p]),
                    total,
                )
            } else {
                let c = d[p] as int;
                if c >= 0xC0 {
                    if p + 2 > d.len() {
                        Err(CrxDecodeError::ShortRead)
                    } else {
                        spec_lz_backref(
                            d,
                            p + 2,
                            f,
                            win,
                            wpos,
                            (c % 4) * 0x100 + d[p + 1],
                            4 + (c / 4) % 16,
                            out,
                            total,
                        )
                    }
                } else if c >= 0x80 {
                    let count = 2 + (c / 32) % 4;
                    if c % 32 == 0 {
                        if p + 2 > d.len() {
                            Err(CrxDecodeError::ShortRead)
                        } else {
                            spec_lz_backref(d, p + 2, f, win, wpos, d[p + 1] as int, count, out, total)
                        }
                    } else {
                        spec_lz_backref(d, p + 1, f, win, wpos, c % 32, count, out, total)
                    }
                } else if c == 0x7F {
                    if p + 5 > d.len() {
                        Err(CrxDecodeError::ShortRead)
                    } else {
                        spec_lz_backref(
                            d,
                            p + 5,
                            f,
                            win,
                            wpos,
                            spec_le_u16(d, p + 3) as int,
                            2 + spec_le_u16(d, p + 1),
                            out,
                            total,
                        )
                    }
                } else {
                    if p + 3 > d.len() {
                        Err(CrxDecodeError::ShortRead)
                    } else {
                        spec_lz_backref(
                            d,
                            p + 3,
                            f,
                            win,
                            wpos,
                            spec_le_u16(d, p + 1) as int,
                            c + 4,
                            out,
                            total,
                        )
                    }
                }
            }
        }
    }
}

/// Performs one decoded back-reference copy, then continues decoding.
pub open spec fn spec_lz_backref(
    d: Seq<u8>,
    pos: int,
    flag: int,
    win: Seq<u8>,
    wpos: int,
    back: int,
    count: int,
    out: Seq<u8>,
    total: int,
) -> Result<Seq<u8>, CrxDecodeError>
    decreases total - out.len(), 0int,
        when count >= 1 && out.len() < total
    via spec_lz_backref_dec
{
    let r = spec_lz_copy(win, wpos, (wpos - back) % 0x10000, count, out, total);
    spec_lz(d, pos, flag, r.0, r.1, r.2, total)
}

#[via_fn]
proof fn spec_lz_backref_dec(
    d: Seq<u8>,
    pos: int,
    flag: int,
    win: Seq<u8>,
    wpos: int,
    back: int,
    count: int,
    out: Seq<u8>,
    total: int,
) {
    lemma_lz_copy_len(win, wpos, (wpos - back) % 0x10000, count, out, total);
}

/// Builds a vector of `n` zero bytes.
pub fn zero_vec(n: usize) -> (v: Vec<u8>)
    ensures
        v@ == Seq::new(n as nat, |i: int| 0u8),
{
    let mut v: Vec<u8> = Vec::new();
    while v.len() < n
        invariant
            v@.len() <= n,
            forall|i: int| 0 <= i < v@.len() ==> v@[i] == 0u8,
        decreases n - v@.len(),
    {
        v.push(0);
    }
    proof {
        assert(v@ =~= Seq::new(n as nat, |i: int| 0u8));
    }
    v
}

/// Decompresses a version-1 payload into exactly `total` bytes.
pub fn unpack_1(d: &[u8], total: usize) -> (r: Result<Vec<u8>, CrxDecodeError>)
    ensures
        match r {
            Ok(v) => spec_lz(d@, 0, 0, lz_win0(), 0, Seq::empty(), total as int) == Ok::<
                Seq<u8>,
                CrxDecodeError,
            >(v@) && v@.len() == total,
            Err(e) => spec_lz(d@, 0, 0, lz_win0(), 0, Seq::empty(), total as int) == Err::<
                Seq<u8>,
                CrxDecodeError,
            >(e),
        },
{
    let mut window: Vec<u8> = zero_vec(0x10000);
    let mut flag: u32 = 0;
    let mut win_pos: usize = 0;
    let mut pos: usize = 0;
    let mut out: Vec<u8> = Vec::new();
    proof {
        assert(window@ =~= lz_win0());
    }
    while out.len() < total
        invariant
            window@.len() == 0x10000,
            win_pos < 0x10000,
            flag <= 0xFFFF,
            out@.len() <= total,
            spec_lz(d@, pos as int, flag as int, window@, win_pos as int, out@, total as int)
                == spec_lz(d@, 0, 0, lz_win0(), 0, Seq::empty(), total as int),
        decreases total - out@.len(),
    {
        let ghost st = spec_lz(
            d@,
            pos as int,
            flag as int,
            window@,
            win_pos as int,
            out@,
            total as int,
        );
        flag = flag / 2;
        let reload = (flag / 0x100) % 2 == 0;
        if reload {
            if pos >= d.len() {
                return Err(CrxDecodeError::ShortRead);
            }
            flag = d[pos] as u32 + 0xFF00;
            pos = pos + 1;
        }
        if pos >= d.len() {
            return Err(CrxDecodeError::ShortRead);
        }
        if flag % 2 == 1 {
            let b = d[pos];
            pos = pos + 1;
            window[win_pos] = b;
            win_pos = (win_pos + 1) % 0x10000;
            out.push(b);
        } else {
            let c = d[pos];
            pos = pos + 1;
            let mut back: usize;
            let count: usize;
            if c >= 0xC0 {
                if pos >= d.len() {
                    return Err(CrxDecodeError::ShortRead);
                }
                back = (c as usize % 4) * 0x100 + d[pos] as usize;
                pos = pos + 1;
                count = 4 + (c as usize / 4) % 16;
            } else if c >= 0x80 {
                back = c as usize % 32;
                count = 2 + (c as usize / 32) % 4;
                if back == 0 {
                    if pos >= d.len() {
                        return Err(CrxDecodeError::ShortRead);
                    }
                    back = d[pos] as usize;
                    pos = pos + 1;
                }
            } else if c == 0x7F {
                let w1 = match read_u16(d, &mut pos) {
                    Ok(v) => v,
                    Err(e) => { return Err(e); },
                };
                let w2 = match read_u16(d, &mut pos) {
                    Ok(v) => v,
                    Err(e) => { return Err(e); },
                };
                count = 2 + w1 as usize;
                back = w2 as usize;
            } else {
                let w = match read_u16(d, &mut pos) {
                    Ok(v) => v,
                    Err(e) => { return Err(e); },
                };
                back = w as usize;
                count = c as usize + 4;
            }
            let ghost back_i = back as int;
            let ghost count_i = count as int;
            let ghost win_in = window@;
            let ghost wpos_in = win_pos as int;
            let ghost out_in = out@;
            let mut src: usize = (win_pos + 0x10000 - back) % 0x10000;
            proof {
                vstd::arithmetic::div_mod::lemma_mod_add_multiples_vanish(
                    win_pos as int - back_i,
                    0x10000,
                );
                assert(src as int == (wpos_in - back_i) % 0x10000);
            }
            let mut k: usize = 0;
            while k < count && out.len() < total
                invariant
                    window@.len() == 0x10000,
                    win_pos < 0x10000,
                    src < 0x10000,
                    k <= count,
                    out@.len() <= total,
                    spec_lz_copy(
                        window@,
                        win_pos as int,
                        src as int,
                        count - k,
                        out@,
                        total as int,
                    ) == spec_lz_copy(
                        win_in,
                        wpos_in,
                        (wpos_in - back_i) % 0x10000,
                        count_i,
                        out_in,
                        total as int,
                    ),
                decreases count - k,
            {
                let b = window[src];
                src = (src + 1) % 0x10000;
                window[win_pos] = b;
                win_pos = (win_pos + 1) % 0x10000;
                out.push(b);
                k = k + 1;
            }
            proof {
                assert(spec_lz_copy(
                    window@,
                    win_pos as int,
                    src as int,
                    count - k,
                    out@,
                    total as int,
                ) == (window@, win_pos as int, out@));
                lemma_lz_copy_len(
                    win_in,
                    wpos_in,
                    (wpos_in - back_i) % 0x10000,
                    count_i,
                    out_in,
                    total as int,
                );
                assert(st == spec_lz_backref(
                    d@,
                    pos as int,
                    flag as int,
                    win_in,
                    wpos_in,
                    back_i,
                    count_i,
                    out_in,
                    total as int,
                ));
                assert(st == spec_lz(
                    d@,
                    pos as int,
                    flag as int,
                    window@,
                    win_pos as int,
                    out@,
                    total as int,
                ));
            }
        }
    }
    Ok(out)
}

} // verus!
