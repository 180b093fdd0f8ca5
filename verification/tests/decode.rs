use crx::{CrxDecodeError, CrxFile};
use std::io::Write;

fn push_u16(v: &mut Vec<u8>, x: u16) {
    v.push((x & 0xFF) as u8);
    v.push((x >> 8) as u8);
}

fn push_i32(v: &mut Vec<u8>, x: i32) {
    let u = x as u32;
    v.push((u & 0xFF) as u8);
    v.push(((u >> 8) & 0xFF) as u8);
    v.push(((u >> 16) & 0xFF) as u8);
    v.push(((u >> 24) & 0xFF) as u8);
}

/// Signature plus the 16 header bytes, inner offsets zero.
fn header(width: u16, height: u16, version: u16, flag: u16, depth: i16, mode: u16) -> Vec<u8> {
    let mut v = vec![0x43, 0x52, 0x58, 0x47];
    push_u16(&mut v, 0); // inner_x
    push_u16(&mut v, 0); // inner_y
    push_u16(&mut v, width);
    push_u16(&mut v, height);
    push_u16(&mut v, version);
    push_u16(&mut v, flag);
    push_u16(&mut v, depth as u16);
    push_u16(&mut v, mode);
    v
}

fn zlib(data: &[u8]) -> Vec<u8> {
    let mut e = flate2::write::ZlibEncoder::new(Vec::new(), flate2::Compression::default());
    e.write_all(data).unwrap();
    e.finish().unwrap()
}

fn decode_ok(bytes: &[u8]) -> CrxFile {
    CrxFile::from_buffer(bytes).expect("decode should succeed")
}

fn decode_err(bytes: &[u8]) -> CrxDecodeError {
    CrxFile::from_buffer(bytes).expect_err("decode should fail")
}

#[test]
fn signature_rejected_before_anything_else() {
    // A rejected signature wins even over a bad version behind it.
    let mut v = header(2, 1, 9, 0, 0, 0);
    v[0] = 0x58;
    assert_eq!(decode_err(&v), CrxDecodeError::CrxSignatureInvalid);
}

#[test]
fn version_guard_rejects_0_4_65535() {
    for bad in [0u16, 4, 65535] {
        let v = header(2, 1, bad, 0, 0, 0);
        assert_eq!(decode_err(&v), CrxDecodeError::VersionNotSupported(bad));
    }
}

#[test]
fn version_guard_ignores_payload_bytes() {
    let mut v = header(2, 1, 4, 0, 0, 0);
    v.extend_from_slice(&[1, 2, 3, 4, 5, 6, 7, 8]);
    assert_eq!(decode_err(&v), CrxDecodeError::VersionNotSupported(4));
}

#[test]
fn truncated_header_is_short_read() {
    let v = header(2, 1, 2, 0, 0, 0);
    assert_eq!(decode_err(&v[..10]), CrxDecodeError::ShortRead);
    assert_eq!(decode_err(&v[..3]), CrxDecodeError::ShortRead);
}

#[test]
fn zero_dimensions_rejected() {
    let v = header(0, 1, 2, 0, 0, 0);
    assert_eq!(decode_err(&v), CrxDecodeError::InvalidDimensions);
    let v = header(1, 0, 2, 0, 0, 0);
    assert_eq!(decode_err(&v), CrxDecodeError::InvalidDimensions);
}

#[test]
fn malformed_zlib_stream_rejected() {
    let mut v = header(1, 1, 2, 0, 0, 0);
    v.extend_from_slice(&[0x12, 0x34, 0x56, 0x78]);
    assert_eq!(decode_err(&v), CrxDecodeError::MalformedDeflate);
}

#[test]
fn invalid_row_mode_rejected() {
    let mut v = header(1, 1, 2, 0, 0, 0);
    v.extend_from_slice(&zlib(&[7, 0, 0, 0]));
    assert_eq!(decode_err(&v), CrxDecodeError::InvalidRowDecodeMode(7));
}

#[test]
fn first_row_modes_1_2_3_need_previous_row() {
    for m in [1u8, 2, 3] {
        let mut v = header(2, 2, 2, 0, 0, 0);
        v.extend_from_slice(&zlib(&[m, 0, 0, 0, 0, 0, 0]));
        assert_eq!(decode_err(&v), CrxDecodeError::NoPreviousRow);
    }
}

#[test]
fn s1_two_pixel_mode0_row() {
    let mut v = header(2, 1, 2, 0, 0, 0);
    v.extend_from_slice(&zlib(&[0x00, 0x10, 0x20, 0x30, 0x01, 0x02, 0x03]));
    let f = decode_ok(&v);
    assert_eq!(f.bpp(), 24);
    assert_eq!(f.raw_buffer(), &[0x30, 0x20, 0x10, 0x33, 0x22, 0x11]);
}

#[test]
fn s2_mode1_adds_previous_row() {
    let mut v = header(1, 2, 2, 0, 0, 0);
    v.extend_from_slice(&zlib(&[0x00, 0, 0, 0, 0x01, 5, 5, 5]));
    let f = decode_ok(&v);
    assert_eq!(&f.raw_buffer()[3..6], &[5, 5, 5]);
    assert_eq!(f.raw_buffer().len(), 6);
}

#[test]
fn s3_alpha_moves_to_tail_and_inverts() {
    // 32 bpp, header mode 0: pixel [A, B, G, R] leaves as [R, G, B, A ^ 0xFF].
    let mut v = header(2, 1, 2, 0, 1, 0);
    v.extend_from_slice(&zlib(&[0x00, 0xAA, 0x22, 0x33, 0x44, 0, 0, 0, 0]));
    let f = decode_ok(&v);
    assert_eq!(f.bpp(), 32);
    assert_eq!(&f.raw_buffer()[0..4], &[0x44, 0x33, 0x22, 0x55]);
    // the zero deltas repeat the pixel
    assert_eq!(&f.raw_buffer()[4..8], &[0x44, 0x33, 0x22, 0x55]);
}

#[test]
fn alpha_kept_plain_under_header_mode_2() {
    let mut v = header(1, 1, 2, 0, 1, 2);
    v.extend_from_slice(&zlib(&[0x00, 0xAA, 0x22, 0x33, 0x44]));
    let f = decode_ok(&v);
    assert_eq!(f.raw_buffer(), &[0x44, 0x33, 0x22, 0xAA]);
}

#[test]
fn header_mode_1_skips_the_alpha_pass() {
    // Only the swap of bytes 0 and 2 applies: [A, B, G, R] -> [G, B, A, R].
    let mut v = header(1, 1, 2, 0, 1, 1);
    v.extend_from_slice(&zlib(&[0x00, 0xAA, 0x22, 0x33, 0x44]));
    let f = decode_ok(&v);
    assert_eq!(f.raw_buffer(), &[0x33, 0x22, 0xAA, 0x44]);
}

#[test]
fn zero_stored_alpha_becomes_opaque() {
    let mut v = header(1, 1, 2, 0, 1, 0);
    v.extend_from_slice(&zlib(&[0x00, 0x00, 1, 2, 3]));
    let f = decode_ok(&v);
    assert_eq!(f.raw_buffer()[3], 0xFF);
    let mut v = header(1, 1, 2, 0, 1, 2);
    v.extend_from_slice(&zlib(&[0x00, 0x00, 1, 2, 3]));
    let f = decode_ok(&v);
    assert_eq!(f.raw_buffer()[3], 0x00);
}

#[test]
fn s4_mode4_component_runs() {
    let mut row = vec![0x04u8];
    for _ in 0..3 {
        row.extend_from_slice(&[0x10, 0x10, 0x03]);
    }
    let mut v = header(4, 1, 2, 0, 0, 0);
    v.extend_from_slice(&zlib(&row));
    let f = decode_ok(&v);
    assert_eq!(f.raw_buffer(), &[0x10; 12]);
}

#[test]
fn mode4_overlong_run_is_row_overflow() {
    // one component claims 200 further samples in a 4-pixel row
    let mut v = header(4, 1, 2, 0, 0, 0);
    v.extend_from_slice(&zlib(&[0x04, 0x10, 0x10, 200]));
    assert_eq!(decode_err(&v), CrxDecodeError::RowOverflow);
}

#[test]
fn s5_palette_expansion_with_fixup() {
    let mut v = header(4, 1, 2, 0, 4, 0);
    // four palette entries; the magenta one must come out yellow
    v.extend_from_slice(&[0, 0, 0, 0xFF, 0x00, 0xFF, 1, 2, 3, 9, 9, 9]);
    v.extend_from_slice(&zlib(&[0, 1, 2, 3]));
    let f = decode_ok(&v);
    assert_eq!(f.bpp(), 24);
    assert_eq!(
        f.raw_buffer(),
        &[0, 0, 0, 0xFF, 0xFF, 0xFF, 1, 2, 3, 9, 9, 9]
    );
}

#[test]
fn palette_index_out_of_range_rejected() {
    let mut v = header(2, 1, 2, 0, 2, 0);
    v.extend_from_slice(&[1, 2, 3, 4, 5, 6]); // two entries
    v.extend_from_slice(&zlib(&[0, 5]));
    assert_eq!(decode_err(&v), CrxDecodeError::BadPaletteIndex(2, 5));
}

#[test]
fn palette_entry_size_four_for_depth_0x102() {
    // depth 0x102 stores 256 entries of four bytes; the fourth is discarded
    let mut v = header(1, 1, 2, 0, 0x102, 0);
    for i in 0..256usize {
        v.extend_from_slice(&[i as u8, 0x40, 0x41, 0x77]);
    }
    v.extend_from_slice(&zlib(&[0x02]));
    let f = decode_ok(&v);
    assert_eq!(f.raw_buffer(), &[0x02, 0x40, 0x41]);
}

#[test]
fn s6_v1_literal_then_overlapping_back_reference() {
    let (a, b, c) = (0xDE, 0xAD, 0x07);
    let mut v = header(1, 4, 1, 0, 0, 0);
    v.extend_from_slice(&[0x07, a, b, c, 0x05, 0x03, 0x00]);
    let f = decode_ok(&v);
    assert_eq!(f.raw_buffer(), &[c, b, a, c, b, a, c, b, a, c, b, a]);
}

#[test]
fn v1_literal_stream_passes_through() {
    // flag byte 0xFF announces eight literals; six fill the image
    let mut v = header(2, 1, 1, 0, 0, 0);
    v.extend_from_slice(&[0xFF, 1, 2, 3, 4, 5, 6]);
    let f = decode_ok(&v);
    assert_eq!(f.raw_buffer(), &[3, 2, 1, 6, 5, 4]);
}

#[test]
fn v1_back_reference_expands_single_byte() {
    // one literal 0xAB, then a back-reference with count 8, distance 1
    let mut v = header(3, 1, 1, 0, 0, 0);
    v.extend_from_slice(&[0x01, 0xAB, 0x04, 0x01, 0x00]);
    let f = decode_ok(&v);
    assert_eq!(f.raw_buffer(), &[0xAB; 9]);
}

#[test]
fn v1_truncated_payload_is_short_read() {
    let mut v = header(2, 1, 1, 0, 0, 0);
    v.extend_from_slice(&[0xFF, 1, 2]);
    assert_eq!(decode_err(&v), CrxDecodeError::ShortRead);
}

#[test]
fn explicit_payload_length_is_honored() {
    // flag bit 0x10: an i32 length, then exactly that many payload bytes;
    // trailing junk after them must not disturb the decode
    let payload = zlib(&[0x00, 0x10, 0x20, 0x30, 0x01, 0x02, 0x03]);
    let mut v = header(2, 1, 2, 0x10, 0, 0);
    push_i32(&mut v, payload.len() as i32);
    v.extend_from_slice(&payload);
    v.extend_from_slice(&[0xEE; 7]);
    let f = decode_ok(&v);
    assert_eq!(f.raw_buffer(), &[0x30, 0x20, 0x10, 0x33, 0x22, 0x11]);
}

#[test]
fn explicit_payload_length_short_read() {
    let mut v = header(2, 1, 2, 0x10, 0, 0);
    push_i32(&mut v, 100);
    v.extend_from_slice(&[1, 2, 3]);
    assert_eq!(decode_err(&v), CrxDecodeError::ShortRead);
}

#[test]
fn clip_records_pass_through() {
    let filtered = [0x00u8, 1, 2, 3];
    let payload = zlib(&filtered);
    let mut v = header(1, 1, 3, 0, 0, 0);
    push_i32(&mut v, 2);
    for k in 0..2i32 {
        push_i32(&mut v, 10 + k); // field_1
        push_u16(&mut v, 20); // field_2
        push_u16(&mut v, 21); // field_3
        push_i32(&mut v, 30 + k); // field_4
        push_u16(&mut v, 0xFFFF); // field_5 = -1
        push_u16(&mut v, 41); // field_6
    }
    v.extend_from_slice(&payload);
    let f = decode_ok(&v);
    assert_eq!(f.clips().len(), 2);
    assert_eq!(f.clips()[0].field_1, 10);
    assert_eq!(f.clips()[1].field_1, 11);
    assert_eq!(f.clips()[0].field_4, 30);
    assert_eq!(f.clips()[0].field_5, -1);
    assert_eq!(f.clips()[0].field_6, 41);
}

#[test]
fn header_fields_are_kept() {
    let mut v = header(2, 1, 2, 0, 0, 0);
    // inner offsets: -3 and 7
    let x = (-3i16) as u16;
    v[4] = (x & 0xFF) as u8;
    v[5] = (x >> 8) as u8;
    v[6] = 7;
    v[7] = 0;
    v.extend_from_slice(&zlib(&[0x00, 0, 0, 0, 0, 0, 0]));
    let f = decode_ok(&v);
    assert_eq!(f.inner_x(), -3);
    assert_eq!(f.inner_y(), 7);
    assert_eq!(f.width(), 2);
    assert_eq!(f.height(), 1);
    assert_eq!(f.bpp(), 24);
    assert!(f.clips().is_empty());
}

#[test]
fn output_size_matches_dimensions() {
    // 24 bpp: 3 bytes per pixel
    let mut v = header(3, 2, 2, 0, 0, 0);
    let mut filtered = vec![0x00, 1, 2, 3, 0, 0, 0, 0, 0, 0];
    filtered.extend_from_slice(&[0x01, 0, 0, 0, 0, 0, 0, 0, 0, 0]);
    v.extend_from_slice(&zlib(&filtered));
    let f = decode_ok(&v);
    assert_eq!(f.raw_buffer().len(), 3 * 2 * 3);
    // 32 bpp: 4 bytes per pixel
    let mut v = header(2, 2, 2, 0, 1, 1);
    let mut filtered = vec![0x00, 1, 2, 3, 4, 0, 0, 0, 0];
    filtered.extend_from_slice(&[0x01, 0, 0, 0, 0, 0, 0, 0, 0]);
    v.extend_from_slice(&zlib(&filtered));
    let f = decode_ok(&v);
    assert_eq!(f.raw_buffer().len(), 2 * 2 * 4);
}

#[test]
fn mode2_and_mode3_predict_diagonally() {
    // 2x2, 24 bpp. Row 0 mode 0: pixels (1,2,3) and (1,2,3) via zero deltas.
    let mut filtered = vec![0x00, 1, 2, 3, 0, 0, 0];
    // Row 1 mode 2: first pixel literal (9,9,9); byte b of the second pixel
    // adds the previous row's byte one pixel to the left.
    filtered.extend_from_slice(&[0x02, 9, 9, 9, 10, 10, 10]);
    let mut v = header(2, 2, 2, 0, 0, 0);
    v.extend_from_slice(&zlib(&filtered));
    let f = decode_ok(&v);
    // second row, second pixel: 10 + row0 first pixel (1,2,3) = (11,12,13);
    // after the swap the stored BGR becomes RGB
    assert_eq!(&f.raw_buffer()[9..12], &[13, 12, 11]);

    let mut filtered = vec![0x00, 1, 2, 3, 0, 0, 0];
    // Row 1 mode 3: bytes before the last pixel add the previous row's byte
    // one pixel to the right; the last pixel is literal.
    filtered.extend_from_slice(&[0x03, 10, 10, 10, 9, 8, 7]);
    let mut v = header(2, 2, 2, 0, 0, 0);
    v.extend_from_slice(&zlib(&filtered));
    let f = decode_ok(&v);
    // second row, first pixel: 10 + row0 second pixel (1,2,3) = (11,12,13)
    assert_eq!(&f.raw_buffer()[6..9], &[13, 12, 11]);
    assert_eq!(&f.raw_buffer()[9..12], &[7, 8, 9]);
}

#[test]
fn mode0_wrapping_addition() {
    let mut v = header(2, 1, 2, 0, 0, 0);
    v.extend_from_slice(&zlib(&[0x00, 0xFF, 0xFE, 0xFD, 0x02, 0x03, 0x04]));
    let f = decode_ok(&v);
    // 0xFF + 2 = 0x01, 0xFE + 3 = 0x01, 0xFD + 4 = 0x01, all modulo 256
    assert_eq!(f.raw_buffer(), &[0xFD, 0xFE, 0xFF, 0x01, 0x01, 0x01]);
}

#[test]
fn solid_mode0_rows_give_solid_image() {
    // every row mode 0 with zero deltas: the whole image is the first pixel
    let mut filtered = Vec::new();
    for _ in 0..3 {
        filtered.extend_from_slice(&[0x00, 0x61, 0x62, 0x63, 0, 0, 0, 0, 0, 0]);
    }
    let mut v = header(3, 3, 2, 0, 0, 0);
    v.extend_from_slice(&zlib(&filtered));
    let f = decode_ok(&v);
    for p in 0..9 {
        assert_eq!(&f.raw_buffer()[3 * p..3 * p + 3], &[0x63, 0x62, 0x61]);
    }
}

#[test]
fn v1_eight_bpp_expands_through_palette() {
    // version 1 with a palette: the decompressed bytes are palette indices
    let mut v = header(2, 1, 1, 0, 2, 0);
    v.extend_from_slice(&[10, 11, 12, 0xFF, 0x00, 0xFF]);
    v.extend_from_slice(&[0xFF, 0x01, 0x00]); // literals: indices 1, 0
    let f = decode_ok(&v);
    assert_eq!(f.bpp(), 24);
    assert_eq!(f.raw_buffer(), &[0xFF, 0xFF, 0xFF, 10, 11, 12]);
}

#[test]
fn v1_short_back_reference_control() {
    // control 0xC0: two-bit high distance plus one extra byte, count 4
    let mut v = header(1, 1, 1, 0, 1, 1); // 32 bpp, mode 1: swap only
    v.extend_from_slice(&[0x01, 0xAB, 0xC0, 0x01]);
    let f = decode_ok(&v);
    assert_eq!(f.raw_buffer(), &[0xAB, 0xAB, 0xAB, 0xAB]);
}

#[test]
fn v1_tiny_back_reference_control() {
    // control 0xA1: distance 1 in the low bits, count 2 + 1
    let mut v = header(1, 1, 1, 0, 1, 1);
    v.extend_from_slice(&[0x01, 0xAB, 0xA1]);
    let f = decode_ok(&v);
    assert_eq!(f.raw_buffer(), &[0xAB; 4]);
}

#[test]
fn v1_tiny_back_reference_with_extra_distance_byte() {
    // control 0x80: zero distance in the low bits, so it follows as a byte
    let mut v = header(1, 1, 1, 0, 0, 0); // 24 bpp
    v.extend_from_slice(&[0x01, 0xAB, 0x80, 0x01]);
    let f = decode_ok(&v);
    assert_eq!(f.raw_buffer(), &[0xAB, 0xAB, 0xAB]);
}

#[test]
fn v1_wide_back_reference_control() {
    // control 0x7F: 16-bit count and 16-bit distance
    let mut v = header(3, 1, 1, 0, 0, 0);
    v.extend_from_slice(&[0x01, 0xAB, 0x7F, 0x06, 0x00, 0x01, 0x00]);
    let f = decode_ok(&v);
    assert_eq!(f.raw_buffer(), &[0xAB; 9]);
}

#[test]
fn v1_back_reference_into_fresh_window_reads_zeros() {
    // a distance past everything written so far wraps into the zeroed window
    let mut v = header(2, 1, 1, 0, 0, 0);
    v.extend_from_slice(&[0x00, 0x02, 0x05, 0x00]);
    let f = decode_ok(&v);
    assert_eq!(f.raw_buffer(), &[0; 6]);
}
