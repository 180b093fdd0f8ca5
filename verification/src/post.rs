use vstd::prelude::*;

verus! {

/// The 32-bpp alpha pass: each decompressed pixel holds [A, B, G, R]; the
/// alpha moves from lead to tail and is xored with `flip`, giving
/// [B, G, R, A ^ flip].
pub open spec fn spec_alpha_swizzle(s: Seq<u8>, flip: u8) -> Seq<u8>
    recommends
        s.len() as int % 4 == 0,
{
    Seq::new(s.len(), |i: int| if i % 4 == 3 {
        (s[i - 3] ^ flip) as u8
    } else {
        s[i + 1]
    })
}

/// The BGR(A) to RGB(A) pass: within each pixel of `ps` bytes, the bytes at
/// offsets 0 and 2 trade places.
pub open spec fn spec_swap_rb(s: Seq<u8>, ps: int) -> Seq<u8>
    recommends
        ps == 3 || ps == 4,
        s.len() as int % ps == 0,
{
    Seq::new(s.len(), |i: int| if i % ps == 0 {
        s[i + 2]
    } else if i % ps == 2 {
        s[i - 2]
    } else {
        s[i]
    })
}

/// Applies the alpha pass in place over whole 4-byte pixels.
#[verifier::loop_isolation(false)]
pub fn alpha_swizzle(buf: &mut Vec<u8>, flip: u8)
    requires
        old(buf)@.len() as int % 4 == 0,
    ensures
        final(buf)@ == spec_alpha_swizzle(old(buf)@, flip),
{
    let ghost buf0 = buf@;
    let len: usize = buf.len();
    let mut p: usize = 0;
    while p < len / 4
        invariant
            p <= len / 4,
            buf@.len() == len,
            forall|i: int| 0 <= i < 4 * p ==> buf@[i] == spec_alpha_swizzle(buf0, flip)[i],
            forall|i: int| 4 * p <= i < len ==> buf@[i] == buf0[i],
        decreases len / 4 - p,
    {
        proof {
            assert(4 * (p + 1) <= 4 * (len as int / 4));
            assert(4 * (len as int / 4) <= len);
            assert((4 * p) % 4 == 0 && (4 * p + 1) % 4 == 1 && (4 * p + 2) % 4 == 2 && (4 * p
                + 3) % 4 == 3) by (nonlinear_arith);
        }
        let off: usize = 4 * p;
        let a = buf[off];
        let b = buf[off + 1];
        let g = buf[off + 2];
        let r = buf[off + 3];
        buf[off] = b;
        buf[off + 1] = g;
        buf[off + 2] = r;
        buf[off + 3] = a ^ flip;
        p = p + 1;
    }
    proof {
        assert(4 * (len as int / 4) == len);
        assert(buf@ =~= spec_alpha_swizzle(buf0, flip));
    }
}

/// Applies the component swap in place over whole `ps`-byte pixels.
#[verifier::loop_isolation(false)]
pub fn swap_rb(buf: &mut Vec<u8>, ps: usize)
    requires
        ps == 3 || ps == 4,
        old(buf)@.len() as int % (ps as int) == 0,
    ensures
        final(buf)@ == spec_swap_rb(old(buf)@, ps as int),
{
    let ghost buf0 = buf@;
    let len: usize = buf.len();
    let mut p: usize = 0;
    while p < len / ps
        invariant
            p <= len / ps,
            buf@.len() == len,
            forall|i: int| 0 <= i < ps * p ==> buf@[i] == spec_swap_rb(buf0, ps as int)[i],
            forall|i: int| ps * p <= i < len ==> buf@[i] == buf0[i],
        decreases len / ps - p,
    {
        proof {
            assert(ps * (p + 1) <= ps * (len as int / (ps as int))) by (nonlinear_arith)
                requires p + 1 <= len as int / (ps as int), ps >= 1;
            assert(ps * (len as int / (ps as int)) <= len) by (nonlinear_arith)
                requires ps >= 1, len as int % (ps as int) == 0, len >= 0;
            assert((ps * p) % (ps as int) == 0) by (nonlinear_arith)
                requires ps >= 1;
            assert((ps * p + 1) % (ps as int) == 1 && (ps * p + 2) % (ps as int) == 2)
                by (nonlinear_arith)
                requires ps >= 3;
            assert(ps == 4 ==> (ps * p + 3) % (ps as int) == 3) by (nonlinear_arith)
                requires ps >= 1;
            assert(ps * (p + 1) == ps * p + ps) by (nonlinear_arith);
        }
        let off: usize = ps * p;
        let c0 = buf[off];
        let c2 = buf[off + 2];
        buf[off] = c2;
        buf[off + 2] = c0;
        p = p + 1;
    }
    proof {
        assert(len as int / (ps as int) * ps == len) by (nonlinear_arith)
            requires ps >= 1, len as int % (ps as int) == 0, len >= 0;
        assert(buf@ =~= spec_swap_rb(buf0, ps as int));
    }
}

} // verus!
