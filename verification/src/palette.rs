use vstd::prelude::*;
use crate::error::CrxDecodeError;

verus! {

/// Number of palette entries encoded by the depth field: `min(depth, 256)`,
/// with non-positive depths yielding an empty palette.
pub open spec fn spec_pal_count(depth: int) -> int {
    if depth > 0x100 {
        0x100
    } else if depth < 0 {
        0
    } else {
        depth
    }
}

/// Bytes per stored palette entry: four only for the exact depth 0x102,
/// where the fourth byte is read and discarded.
pub open spec fn spec_pal_entry_size(depth: int) -> int {
    if depth == 0x102 {
        4
    } else {
        3
    }
}

/// Byte `i` of the palette laid out flat as r, g, b per entry, after the
/// mandatory fix-up: a stored magenta entry (r, g, b) = (0xFF, 0x00, 0xFF)
/// has its green component forced to 0xFF.
pub open spec fn spec_pal_byte(d: Seq<u8>, pos: int, esz: int, i: int) -> u8
    recommends
        0 <= i,
        esz == 3 || esz == 4,
{
    let q = pos + (i / 3) * esz;
    let r = d[q];
    let g = d[q + 1];
    let b = d[q + 2];
    if i % 3 == 0 {
        r
    } else if i % 3 == 1 {
        if r == 0xFF && g == 0 && b == 0xFF {
            0xFF
        } else {
            g
        }
    } else {
        b
    }
}

/// The whole palette, flat (three bytes per entry), parsed at `pos`.
pub open spec fn spec_palette(d: Seq<u8>, pos: int, depth: int) -> Seq<u8> {
    Seq::new((3 * spec_pal_count(depth)) as nat, |i: int| spec_pal_byte(d, pos, spec_pal_entry_size(depth), i))
}

/// Total bytes the stored palette occupies in the stream.
pub open spec fn spec_palette_bytes(depth: int) -> int {
    spec_pal_count(depth) * spec_pal_entry_size(depth)
}

/// Reads the palette that a depth outside {0, 1} announces, applying the
/// magenta-to-yellow fix-up to each entry before it is stored. Returns the
/// entries flat, three bytes r, g, b per entry.
pub fn read_palette(d: &[u8], pos: &mut usize, depth: i16) -> (r: Result<Vec<u8>, CrxDecodeError>)
    ensures
        match r {
            Ok(v) => {
                &&& v@ == spec_palette(d@, *old(pos) as int, depth as int)
                &&& *final(pos) == *old(pos) + spec_palette_bytes(depth as int)
                &&& *old(pos) + spec_palette_bytes(depth as int) <= d@.len()
            },
            Err(e) => e == CrxDecodeError::ShortRead && *old(pos) + spec_palette_bytes(
                depth as int,
            ) > d@.len(),
        },
{
    let count: usize = if depth > 0x100 {
        0x100
    } else if depth < 0 {
        0
    } else {
        depth as usize
    };
    let esz: usize = if depth == 0x102 {
        4
    } else {
        3
    };
    if d.len() < count * esz || *pos > d.len() - count * esz {
        return Err(CrxDecodeError::ShortRead);
    }
    let ghost pos0 = *pos as int;
    let mut pal: Vec<u8> = Vec::new();
    let mut j: usize = 0;
    while j < count
        invariant
            j <= count,
            count == spec_pal_count(depth as int),
            esz == spec_pal_entry_size(depth as int),
            *pos == pos0 + j * esz,
            pos0 + count * esz <= d@.len(),
            pal@.len() == 3 * j,
            forall|i: int|
                0 <= i < 3 * j ==> pal@[i] == spec_pal_byte(d@, pos0, esz as int, i),
        decreases count - j,
    {
        assert(*pos + esz <= d@.len()) by {
            assert((j + 1) * esz <= count * esz) by (nonlinear_arith)
                requires j + 1 <= count, esz >= 3;
            assert(j * esz + esz == (j + 1) * esz) by (nonlinear_arith);
        };
        let r = d[*pos];
        let g = d[*pos + 1];
        let b = d[*pos + 2];
        *pos = *pos + esz;
        let g2: u8 = if r == 0xFF && g == 0 && b == 0xFF {
            0xFF
        } else {
            g
        };
        pal.push(r);
        pal.push(g2);
        pal.push(b);
        proof {
            assert(3 * j / 3 == j && 3 * j % 3 == 0) by (nonlinear_arith);
            assert((3 * j + 1) / 3 == j && (3 * j + 1) % 3 == 1) by (nonlinear_arith);
            assert((3 * j + 2) / 3 == j && (3 * j + 2) % 3 == 2) by (nonlinear_arith);
        }
        j = j + 1;
    }
    proof {
        assert(pal@ =~= spec_palette(d@, pos0, depth as int));
    }
    Ok(pal)
}

} // verus!
