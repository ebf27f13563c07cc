use siplot::render::jpeg::{
    build_huffman_codes, category_and_bits, encode_jpeg, scaled_quant_zigzag, BitWriter,
    AC_CHROMA_BITS, AC_CHROMA_VALS, AC_LUMA_BITS, AC_LUMA_VALS, DC_CHROMA_BITS, DC_CHROMA_VALS,
    DC_LUMA_BITS, DC_LUMA_VALS, JPEG_QUALITY, QUANT_CHROMA, QUANT_LUMA, ZIGZAG,
};

// The floating-point front end of the encoder (colour transform, forward DCT,
// quantization), as the application performs it, so the tests below feed
// the coder the blocks an RGBA image produces.
fn rgb_to_ycbcr(r: u8, g: u8, b: u8) -> (f32, f32, f32) {
    let (r, g, b) = (f32::from(r), f32::from(g), f32::from(b));
    let y = 0.299 * r + 0.587 * g + 0.114 * b;
    let cb = -0.168_736 * r - 0.331_264 * g + 0.5 * b + 128.0;
    let cr = 0.5 * r - 0.418_688 * g - 0.081_312 * b + 128.0;
    (y, cb, cr)
}

fn fdct_8x8(block: &[f32; 64]) -> [f32; 64] {
    let mut cos_t = [[0.0f32; 8]; 8];
    for (x, row) in cos_t.iter_mut().enumerate() {
        for (u, c) in row.iter_mut().enumerate() {
            *c = (((2 * x + 1) as f32) * (u as f32) * std::f32::consts::PI / 16.0).cos();
        }
    }
    let cu = |u: usize| {
        if u == 0 {
            std::f32::consts::FRAC_1_SQRT_2
        } else {
            1.0
        }
    };
    let mut out = [0.0f32; 64];
    for v in 0..8 {
        for u in 0..8 {
            let mut sum = 0.0f32;
            for y in 0..8 {
                for x in 0..8 {
                    sum += block[y * 8 + x] * cos_t[x][u] * cos_t[y][v];
                }
            }
            out[v * 8 + u] = 0.25 * cu(u) * cu(v) * sum;
        }
    }
    out
}

fn quantized_blocks(rgba: &[u8], width: u32, height: u32) -> Vec<[i32; 64]> {
    let (w, h) = (width as usize, height as usize);
    let q_luma = scaled_quant_zigzag(&QUANT_LUMA, JPEG_QUALITY);
    let q_chroma = scaled_quant_zigzag(&QUANT_CHROMA, JPEG_QUALITY);
    let sample = |x: usize, y: usize| {
        let xi = x.min(w - 1);
        let yi = y.min(h - 1);
        let p = (yi * w + xi) * 4;
        rgb_to_ycbcr(rgba[p], rgba[p + 1], rgba[p + 2])
    };
    let mut blocks = Vec::new();
    for by in 0..h.div_ceil(8) {
        for bx in 0..w.div_ceil(8) {
            for comp in 0..3 {
                let quant = if comp == 0 { &q_luma } else { &q_chroma };
                let mut block = [0.0f32; 64];
                for (i, slot) in block.iter_mut().enumerate() {
                    let (yv, cb, cr) = sample(bx * 8 + i % 8, by * 8 + i / 8);
                    *slot = [yv, cb, cr][comp] - 128.0;
                }
                let coeffs = fdct_8x8(&block);
                let mut zz = [0i32; 64];
                for (i, z) in zz.iter_mut().enumerate() {
                    *z = (coeffs[ZIGZAG[i]] / f32::from(quant[i])).round() as i32;
                }
                blocks.push(zz);
            }
        }
    }
    blocks
}

fn encode_rgba(rgba: &[u8], width: u32, height: u32, dpi: u32) -> Vec<u8> {
    assert_eq!(rgba.len(), (width * height * 4) as usize);
    encode_jpeg(&quantized_blocks(rgba, width, height), width, height, dpi)
}

fn parse_segments(jpeg: &[u8]) -> Vec<(u8, Vec<u8>)> {
    assert_eq!(&jpeg[..2], &[0xFF, 0xD8], "missing SOI");
    assert_eq!(&jpeg[jpeg.len() - 2..], &[0xFF, 0xD9], "missing EOI");
    let mut segments = Vec::new();
    let mut i = 2;
    loop {
        assert_eq!(jpeg[i], 0xFF, "expected marker at {i}");
        let marker = jpeg[i + 1];
        let len = u16::from_be_bytes([jpeg[i + 2], jpeg[i + 3]]) as usize;
        let payload = jpeg[i + 4..i + 2 + len].to_vec();
        i += 2 + len;
        let is_sos = marker == 0xDA;
        segments.push((marker, payload));
        if is_sos {
            return segments;
        }
    }
}

#[test]
fn zigzag_is_a_permutation_with_known_anchors() {
    let mut seen = [false; 64];
    for &i in &ZIGZAG {
        assert!(!seen[i], "duplicate zigzag index {i}");
        seen[i] = true;
    }
    assert_eq!(ZIGZAG[0], 0);
    assert_eq!(ZIGZAG[1], 1);
    assert_eq!(ZIGZAG[2], 8);
    assert_eq!(ZIGZAG[63], 63);
}

#[test]
fn quality_50_keeps_annex_k_tables_unscaled() {
    let q = scaled_quant_zigzag(&QUANT_LUMA, 50);
    for (i, &v) in q.iter().enumerate() {
        assert_eq!(u16::from(v), QUANT_LUMA[ZIGZAG[i]]);
    }
}

#[test]
fn quality_100_is_all_ones_and_low_quality_clamps() {
    assert!(scaled_quant_zigzag(&QUANT_LUMA, 100).iter().all(|&v| v == 1));
    assert!(scaled_quant_zigzag(&QUANT_LUMA, 1).iter().all(|&v| v == 255));
}

#[test]
fn quality_90_table_matches_ijg_scaling() {
    // Quality 90 -> scale 20: (16*20+50)/100 = 3 for the DC luma entry.
    let q = scaled_quant_zigzag(&QUANT_LUMA, 90);
    assert_eq!(q[0], 3);
    // Zigzag position 2 is row-major 8 (value 12): (12*20+50)/100 = 2.
    assert_eq!(q[2], 2);
    let c = scaled_quant_zigzag(&QUANT_CHROMA, 90);
    // 99*20+50 = 2030 -> 20.
    assert_eq!(c[63], 20);
}

#[test]
fn huffman_codes_are_prefix_free_and_match_counts() {
    for (bits, vals) in [
        (&DC_LUMA_BITS, DC_LUMA_VALS.as_slice()),
        (&DC_CHROMA_BITS, DC_CHROMA_VALS.as_slice()),
        (&AC_LUMA_BITS, AC_LUMA_VALS.as_slice()),
        (&AC_CHROMA_BITS, AC_CHROMA_VALS.as_slice()),
    ] {
        let total: usize = bits.iter().map(|&b| b as usize).sum();
        assert_eq!(total, vals.len(), "BITS total must equal HUFFVAL length");
        let codes = build_huffman_codes(bits, vals);
        let assigned: Vec<(u16, u8)> = vals.iter().map(|&v| codes[v as usize]).collect();
        for (i, &(ca, la)) in assigned.iter().enumerate() {
            assert!((1..=16).contains(&la));
            for &(cb, lb) in &assigned[i + 1..] {
                let l = la.min(lb);
                assert_ne!(ca >> (la - l), cb >> (lb - l), "prefix collision between codes");
            }
        }
    }
}

#[test]
fn dc_luma_codes_follow_annex_k() {
    // Table K.3: category 0 -> 00, 1 -> 010, 5 -> 110, 6 -> 1110.
    let codes = build_huffman_codes(&DC_LUMA_BITS, &DC_LUMA_VALS);
    assert_eq!(codes[0], (0b00, 2));
    assert_eq!(codes[1], (0b010, 3));
    assert_eq!(codes[5], (0b110, 3));
    assert_eq!(codes[6], (0b1110, 4));
    // AC luma EOB (0x00) is 1010, ZRL (0xF0) is 11111111001.
    let ac = build_huffman_codes(&AC_LUMA_BITS, &AC_LUMA_VALS);
    assert_eq!(ac[0x00], (0b1010, 4));
    assert_eq!(ac[0xF0], (0b111_1111_1001, 11));
}

#[test]
fn category_and_bits_matches_t81_examples() {
    assert_eq!(category_and_bits(0), (0, 0));
    assert_eq!(category_and_bits(1), (1, 1));
    assert_eq!(category_and_bits(-1), (1, 0));
    assert_eq!(category_and_bits(3), (2, 3));
    assert_eq!(category_and_bits(-3), (2, 0));
    assert_eq!(category_and_bits(-2), (2, 1));
    assert_eq!(category_and_bits(255), (8, 255));
    assert_eq!(category_and_bits(-255), (8, 0));
}

#[test]
fn category_of_large_magnitudes_keeps_sixteen_value_bits() {
    assert_eq!(category_and_bits(40000), (16, 40000));
    assert_eq!(category_and_bits(-40000), (16, (65536 - 40001) as u16));
    assert_eq!(category_and_bits(i32::MAX).0, 31);
}

#[test]
fn bitwriter_stuffs_ff_and_pads_with_ones() {
    let mut bw = BitWriter::new();
    bw.put(0xFF, 8);
    assert_eq!(*bw.bytes(), vec![0xFF, 0x00]);
    let mut bw = BitWriter::new();
    bw.put(0b101, 3);
    assert_eq!(bw.finish(), vec![0b1011_1111]);
}

#[test]
fn bitwriter_concatenates_across_byte_boundaries() {
    let mut bw = BitWriter::new();
    bw.put(0b1, 1);
    bw.put(0b0101_0101_0, 9);
    bw.put(0b11, 2);
    // 1 010101010 11 -> 10101010 1011 + pad 1111
    assert_eq!(bw.finish(), vec![0b1010_1010, 0b1011_1111]);
}

#[test]
fn bitwriter_keeps_only_the_low_bits_of_a_wide_value() {
    let mut bw = BitWriter::new();
    bw.put(0b1111_0000, 4);
    bw.put(0xF, 4);
    assert_eq!(bw.finish(), vec![0x0F]);
}

#[test]
fn encode_jpeg_structure_is_valid_baseline_jfif() {
    let (w, h) = (20u32, 12u32);
    let mut rgba = Vec::with_capacity((w * h * 4) as usize);
    for y in 0..h {
        for x in 0..w {
            rgba.extend_from_slice(&[(x * 12) as u8, (y * 20) as u8, 90, 255]);
        }
    }
    let jpeg = encode_rgba(&rgba, w, h, 150);
    let segs = parse_segments(&jpeg);

    let app0 = &segs[0];
    assert_eq!(app0.0, 0xE0);
    assert_eq!(&app0.1[..5], b"JFIF\0");
    assert_eq!(app0.1[7], 1, "density units must be dpi");
    assert_eq!(u16::from_be_bytes([app0.1[8], app0.1[9]]), 150);

    let dqts: Vec<_> = segs.iter().filter(|(m, _)| *m == 0xDB).collect();
    assert_eq!(dqts.len(), 2);
    assert_eq!(dqts[0].1.len(), 65);

    let sof = segs.iter().find(|(m, _)| *m == 0xC0).expect("SOF0");
    assert_eq!(sof.1[0], 8, "8-bit precision");
    assert_eq!(u16::from_be_bytes([sof.1[1], sof.1[2]]), h as u16);
    assert_eq!(u16::from_be_bytes([sof.1[3], sof.1[4]]), w as u16);
    assert_eq!(sof.1[5], 3, "3 components");
    assert_eq!(sof.1[7], 0x11, "4:4:4 (1×1 sampling)");

    assert_eq!(segs.iter().filter(|(m, _)| *m == 0xC4).count(), 4);
    assert_eq!(segs.last().expect("segments").0, 0xDA, "scan header last");
}

#[test]
fn encode_jpeg_scan_has_no_unstuffed_ff_markers() {
    let (w, h) = (32u32, 32u32);
    let mut rgba = Vec::with_capacity((w * h * 4) as usize);
    for i in 0..(w * h) {
        let v = (i.wrapping_mul(2654435761) >> 8) as u8;
        rgba.extend_from_slice(&[v, v.wrapping_add(85), v.wrapping_add(170), 255]);
    }
    let jpeg = encode_rgba(&rgba, w, h, 96);
    let sos_at = jpeg.windows(2).position(|p| p == [0xFF, 0xDA]).expect("SOS");
    let sos_len = u16::from_be_bytes([jpeg[sos_at + 2], jpeg[sos_at + 3]]) as usize;
    let scan = &jpeg[sos_at + 2 + sos_len..jpeg.len() - 2];
    let mut i = 0;
    while i < scan.len() {
        if scan[i] == 0xFF {
            assert_eq!(scan[i + 1], 0x00, "unstuffed 0xFF at scan offset {i}");
            i += 2;
        } else {
            i += 1;
        }
    }
}

#[test]
fn encode_jpeg_uniform_gray_has_minimal_scan() {
    let (w, h) = (16u32, 16u32);
    let rgba: Vec<u8> = std::iter::repeat_n([128, 128, 128, 255], (w * h) as usize)
        .flatten()
        .collect();
    let jpeg = encode_rgba(&rgba, w, h, 96);
    let sos_at = jpeg.windows(2).position(|p| p == [0xFF, 0xDA]).expect("SOS");
    let sos_len = u16::from_be_bytes([jpeg[sos_at + 2], jpeg[sos_at + 3]]) as usize;
    let scan_len = jpeg.len() - 2 - (sos_at + 2 + sos_len);
    assert!(scan_len <= 16, "uniform-gray scan too large: {scan_len}");
}

#[test]
fn all_zero_blocks_code_as_dc_zero_and_eob() {
    // One MCU of zeros: luma DC 00 + EOB 1010, chroma DC 00 + EOB 00 twice:
    // 001010 0000 0000 -> 00101000 000000 + pad 11 -> 0x28, 0x03.
    let blocks = vec![[0i32; 64]; 3];
    let jpeg = encode_jpeg(&blocks, 8, 8, 72);
    let sos_at = jpeg.windows(2).position(|p| p == [0xFF, 0xDA]).expect("SOS");
    let scan = &jpeg[sos_at + 2 + 12..jpeg.len() - 2];
    assert_eq!(scan, &[0x28, 0x03]);
    assert_eq!(&jpeg[jpeg.len() - 2..], &[0xFF, 0xD9]);
}

#[test]
fn density_is_clamped_to_sixteen_bits() {
    let blocks = vec![[0i32; 64]; 3];
    let jpeg = encode_jpeg(&blocks, 8, 8, 100_000);
    let segs = parse_segments(&jpeg);
    assert_eq!(u16::from_be_bytes([segs[0].1[8], segs[0].1[9]]), 65535);
    let jpeg = encode_jpeg(&blocks, 8, 8, 0);
    let segs = parse_segments(&jpeg);
    assert_eq!(u16::from_be_bytes([segs[0].1[8], segs[0].1[9]]), 1);
}
