use rustitch::render::{encode_png, unpremultiply};
use rustitch::Error;

#[test]
fn unpremultiply_pixels() {
    let src = [10, 20, 30, 0, 1, 2, 3, 255, 64, 32, 16, 128, 200, 200, 200, 100, 9];
    let out = unpremultiply(&src);
    assert_eq!(
        out,
        vec![0, 0, 0, 0, 1, 2, 3, 255, 127, 63, 31, 128, 255, 255, 255, 100]
    );
}

#[test]
fn encode_png_roundtrip() {
    // 2 x 1 image: one opaque red pixel, one half-transparent premultiplied gray.
    let premultiplied = [255, 0, 0, 255, 50, 50, 50, 100];
    let png_bytes = encode_png(2, 1, &premultiplied).unwrap();
    let decoder = png::Decoder::new(png_bytes.as_slice());
    let mut reader = decoder.read_info().unwrap();
    let info = reader.info();
    assert_eq!((info.width, info.height), (2, 1));
    assert_eq!(info.color_type, png::ColorType::Rgba);
    assert_eq!(info.bit_depth, png::BitDepth::Eight);
    let mut buf = vec![0u8; reader.output_buffer_size()];
    reader.next_frame(&mut buf).unwrap();
    assert_eq!(buf, vec![255, 0, 0, 255, 127, 127, 127, 100]);
}

#[test]
fn encode_png_zero_size() {
    assert!(matches!(encode_png(0, 0, &[]).err().unwrap(), Error::PngEncode(_)));
}

#[test]
fn encode_png_wrong_length() {
    assert!(matches!(encode_png(1, 1, &[1, 2, 3]).err().unwrap(), Error::PngEncode(_)));
}

#[test]
fn encode_png_ignores_a_partial_pixel() {
    let png_bytes = encode_png(1, 1, &[10, 20, 30, 255, 7]).unwrap();
    let decoder = png::Decoder::new(png_bytes.as_slice());
    let mut reader = decoder.read_info().unwrap();
    let mut buf = vec![0u8; reader.output_buffer_size()];
    reader.next_frame(&mut buf).unwrap();
    assert_eq!(buf, vec![10, 20, 30, 255]);
}

fn seg(color_index: usize) -> rustitch::StitchSegment {
    rustitch::StitchSegment { x0: 0, y0: 0, x1: 1, y1: 1, color_index }
}

#[test]
fn stroke_groups_by_thread() {
    let design = rustitch::ResolvedDesign {
        segments: vec![seg(2), seg(0), seg(2), seg(4)],
        colors: vec![(1, 2, 3), (4, 5, 6), (7, 8, 9)],
        bounds: rustitch::BoundingBox { min_x: 0, max_x: 1, min_y: 0, max_y: 1 },
    };
    let groups = rustitch::render::stroke_groups(&design);
    let got: Vec<(usize, (u8, u8, u8), Vec<usize>)> =
        groups.into_iter().map(|g| (g.color_index, g.color, g.segments)).collect();
    // Thread 1 and 3 have no segments; thread 4 is past the colors and black.
    assert_eq!(
        got,
        vec![(0, (1, 2, 3), vec![1]), (2, (7, 8, 9), vec![0, 2]), (4, (0, 0, 0), vec![3])]
    );
}

#[test]
fn stroke_groups_of_nothing() {
    let design = rustitch::ResolvedDesign {
        segments: vec![],
        colors: vec![(1, 2, 3)],
        bounds: rustitch::BoundingBox { min_x: 0, max_x: 0, min_y: 0, max_y: 0 },
    };
    assert!(rustitch::render::stroke_groups(&design).is_empty());
}
