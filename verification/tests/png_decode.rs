use siplot::widget::actions::io::{decode_png_to_rgba, rgba8_image, PngDecodeError};

fn encode(width: u32, height: u32, color: png::ColorType, data: &[u8]) -> Vec<u8> {
    let mut out = Vec::new();
    {
        let mut enc = png::Encoder::new(&mut out, width, height);
        enc.set_color(color);
        enc.set_depth(png::BitDepth::Eight);
        let mut writer = enc.write_header().unwrap();
        writer.write_image_data(data).unwrap();
        writer.finish().unwrap();
    }
    out
}

#[test]
fn decode_png_to_rgba_round_trips_an_rgba8_png() {
    let rgba: Vec<u8> = (0u8..24).collect(); // 3 x 2 pixels
    let png_bytes = encode(3, 2, png::ColorType::Rgba, &rgba);
    let (w, h, out) = decode_png_to_rgba(&png_bytes).unwrap();
    assert_eq!((w, h), (3, 2));
    assert_eq!(out, rgba);
}

#[test]
fn decode_png_refuses_other_colour_types_and_garbage() {
    let rgb = vec![10u8; 2 * 2 * 3];
    let png_bytes = encode(2, 2, png::ColorType::Rgb, &rgb);
    assert_eq!(decode_png_to_rgba(&png_bytes), Err(PngDecodeError::NotRgba8));
    assert_eq!(decode_png_to_rgba(b"not a png"), Err(PngDecodeError::Format));
    assert_eq!(decode_png_to_rgba(&[]), Err(PngDecodeError::Format));
}

#[test]
fn rgba8_image_keeps_only_rgba8_frames() {
    assert_eq!(
        rgba8_image(Ok((1, 1, true, vec![1, 2, 3, 4]))),
        Ok((1, 1, vec![1, 2, 3, 4]))
    );
    assert_eq!(
        rgba8_image(Ok((1, 1, false, vec![1, 2, 3]))),
        Err(PngDecodeError::NotRgba8)
    );
    assert_eq!(
        rgba8_image(Err(PngDecodeError::SizeOverflow)),
        Err(PngDecodeError::SizeOverflow)
    );
}
