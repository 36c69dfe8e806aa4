use dragshot::assembler::{
    assemble, decode_frame, gather_frames, FrameSet, GifEncodeError, FRAME_DELAY, MAX_SIDE,
};
use dragshot::raster::Raster;

fn png(width: u32, height: u32, rgba: [u8; 4]) -> Vec<u8> {
    let img = image::RgbaImage::from_pixel(width, height, image::Rgba(rgba));
    let mut out = std::io::Cursor::new(Vec::new());
    img.write_to(&mut out, image::ImageFormat::Png).unwrap();
    out.into_inner()
}

fn raster(width: u32, height: u32, rgba: [u8; 4]) -> Raster {
    let mut pixels = Vec::new();
    for _ in 0..(width * height) {
        pixels.extend_from_slice(&rgba);
    }
    Raster { width, height, pixels }
}

struct Read {
    width: u16,
    height: u16,
    repeat: gif::Repeat,
    frames: Vec<(u16, u16, u16, Vec<u8>)>,
}

fn read_gif(bytes: &[u8]) -> Read {
    let mut options = gif::DecodeOptions::new();
    options.set_color_output(gif::ColorOutput::RGBA);
    let mut decoder = options.read_info(bytes).unwrap();
    let mut frames = Vec::new();
    while let Some(frame) = decoder.read_next_frame().unwrap() {
        frames.push((frame.width, frame.height, frame.delay, frame.buffer.to_vec()));
    }
    Read { width: decoder.width(), height: decoder.height(), repeat: decoder.repeat(), frames }
}

const RED: [u8; 4] = [255, 0, 0, 255];
const GREEN: [u8; 4] = [0, 255, 0, 255];
const BLUE: [u8; 4] = [0, 0, 255, 255];

#[test]
fn decode_frame_reads_size_and_pixels() {
    let decoded = decode_frame(&png(3, 2, [10, 20, 30, 255])).unwrap();
    assert_eq!(decoded.width, 3);
    assert_eq!(decoded.height, 2);
    assert_eq!(decoded.pixels.len(), 24);
    assert_eq!(&decoded.pixels[0..4], &[10, 20, 30, 255]);
    assert_eq!(&decoded.pixels[20..24], &[10, 20, 30, 255]);
    assert!(decoded.is_filled());
}

#[test]
fn decode_frame_converts_other_colour_types_to_rgba() {
    let grey = image::GrayImage::from_pixel(2, 2, image::Luma([7]));
    let mut out = std::io::Cursor::new(Vec::new());
    grey.write_to(&mut out, image::ImageFormat::Png).unwrap();
    let decoded = decode_frame(&out.into_inner()).unwrap();
    assert_eq!((decoded.width, decoded.height), (2, 2));
    assert_eq!(decoded.pixels, vec![7, 7, 7, 255, 7, 7, 7, 255, 7, 7, 7, 255, 7, 7, 7, 255]);
}

#[test]
fn decode_frame_refuses_what_is_no_png() {
    assert!(decode_frame(&[]).is_none());
    assert!(decode_frame(b"not an image at all").is_none());
    let mut cut = png(4, 4, RED);
    cut.truncate(20);
    assert!(decode_frame(&cut).is_none());
}

#[test]
fn raster_is_filled_checks_the_buffer_length() {
    assert!(raster(2, 3, RED).is_filled());
    assert!(Raster { width: 0, height: 5, pixels: vec![] }.is_filled());
    assert!(!Raster { width: 2, height: 3, pixels: vec![0; 23] }.is_filled());
    assert!(!Raster { width: 2, height: 3, pixels: vec![0; 25] }.is_filled());
    assert!(!Raster { width: u32::MAX, height: u32::MAX, pixels: vec![0; 4] }.is_filled());
}

#[test]
fn frame_set_takes_its_size_from_the_first_frame() {
    let mut set = FrameSet::new();
    assert_eq!(set.len(), 0);
    assert_eq!(set.dimensions(), (0, 0));
    assert_eq!(set.push(Some(raster(4, 3, RED))), Ok(()));
    assert_eq!(set.push(Some(raster(4, 3, GREEN))), Ok(()));
    assert_eq!(set.len(), 2);
    assert_eq!(set.dimensions(), (4, 3));
}

#[test]
fn frame_set_refuses_a_frame_of_another_size() {
    let mut set = FrameSet::new();
    set.push(Some(raster(4, 3, RED))).unwrap();
    assert_eq!(
        set.push(Some(raster(3, 4, GREEN))),
        Err(GifEncodeError::DimensionMismatch {
            index: 1,
            expected_width: 4,
            expected_height: 3,
            width: 3,
            height: 4,
        })
    );
    assert_eq!(set.len(), 1);
    assert_eq!(set.dimensions(), (4, 3));
    assert_eq!(set.push(Some(raster(4, 3, BLUE))), Ok(()));
}

#[test]
fn frame_set_refuses_a_missing_or_broken_frame() {
    let mut set = FrameSet::new();
    assert_eq!(set.push(None), Err(GifEncodeError::Undecodable { index: 0 }));
    let short = Raster { width: 2, height: 2, pixels: vec![0; 15] };
    assert_eq!(set.push(Some(short)), Err(GifEncodeError::Undecodable { index: 0 }));
    assert_eq!(set.len(), 0);
    set.push(Some(raster(2, 2, RED))).unwrap();
    assert_eq!(set.push(None), Err(GifEncodeError::Undecodable { index: 1 }));
    assert_eq!(set.len(), 1);
}

#[test]
fn frame_set_refuses_sizes_that_no_gif_can_have() {
    let mut set = FrameSet::new();
    assert_eq!(
        set.push(Some(Raster { width: 0, height: 4, pixels: vec![] })),
        Err(GifEncodeError::UnsupportedDimensions { width: 0, height: 4 })
    );
    assert_eq!(
        set.push(Some(Raster { width: 4, height: 0, pixels: vec![] })),
        Err(GifEncodeError::UnsupportedDimensions { width: 4, height: 0 })
    );
    assert_eq!(MAX_SIDE, 65535);
    let wide = Raster { width: 65536, height: 1, pixels: vec![0; 65536 * 4] };
    assert_eq!(
        set.push(Some(wide)),
        Err(GifEncodeError::UnsupportedDimensions { width: 65536, height: 1 })
    );
    assert_eq!(set.len(), 0);
    let widest = Raster { width: 65535, height: 1, pixels: vec![0; 65535 * 4] };
    assert_eq!(set.push(Some(widest)), Ok(()));
}

#[test]
fn empty_frame_set_is_not_encoded() {
    assert_eq!(FrameSet::new().encode(), Err(GifEncodeError::EmptyFrameSet));
}

#[test]
fn encoded_stream_has_header_loop_block_and_trailer() {
    let mut set = FrameSet::new();
    set.push(Some(raster(0x0123, 2, RED))).unwrap();
    let bytes = set.encode().unwrap();
    let header = [
        0x47, 0x49, 0x46, 0x38, 0x39, 0x61, 0x23, 0x01, 0x02, 0x00, 0x80, 0, 0, 0, 0, 0, 0, 0, 0,
    ];
    let repeat = [
        0x21, 0xFF, 0x0B, b'N', b'E', b'T', b'S', b'C', b'A', b'P', b'E', b'2', b'.', b'0', 3, 1,
        0, 0, 0,
    ];
    assert_eq!(&bytes[0..19], &header);
    assert_eq!(&bytes[19..38], &repeat);
    assert!(bytes.len() > 39);
    assert_eq!(bytes[bytes.len() - 1], 0x3B);
}

#[test]
fn encoded_frames_keep_order_size_and_delay() {
    let mut set = FrameSet::new();
    set.push(Some(raster(5, 4, RED))).unwrap();
    set.push(Some(raster(5, 4, GREEN))).unwrap();
    set.push(Some(raster(5, 4, BLUE))).unwrap();
    let read = read_gif(&set.encode().unwrap());
    assert_eq!((read.width, read.height), (5, 4));
    assert_eq!(read.repeat, gif::Repeat::Infinite);
    assert_eq!(read.frames.len(), 3);
    assert_eq!(FRAME_DELAY, 10);
    for (frame, colour) in read.frames.iter().zip([RED, GREEN, BLUE]) {
        assert_eq!((frame.0, frame.1, frame.2), (5, 4, 10));
        assert_eq!(frame.3.len(), 5 * 4 * 4);
        assert_eq!(&frame.3[0..4], &colour);
    }
}

#[test]
fn encoding_is_a_function_of_the_frames() {
    let build = || {
        let mut set = FrameSet::new();
        set.push(Some(raster(6, 6, [1, 2, 3, 255]))).unwrap();
        set.push(Some(raster(6, 6, [200, 100, 50, 255]))).unwrap();
        set.encode().unwrap()
    };
    assert_eq!(build(), build());
}

#[test]
fn encoding_a_frame_of_many_colours() {
    // More than 256 colours: the quantizer reduces them.
    let mut pixels = Vec::new();
    for i in 0..(32u32 * 32) {
        pixels.extend_from_slice(&[(i % 256) as u8, (i / 4) as u8, (i * 7 % 256) as u8, 255]);
    }
    let build = |pixels: &Vec<u8>| {
        let mut set = FrameSet::new();
        set.push(Some(Raster { width: 32, height: 32, pixels: pixels.clone() })).unwrap();
        set.encode().unwrap()
    };
    let bytes = build(&pixels);
    assert_eq!(bytes, build(&pixels));
    let read = read_gif(&bytes);
    assert_eq!((read.width, read.height), (32, 32));
    assert_eq!(read.frames.len(), 1);
}

#[test]
fn gather_frames_rejects_an_empty_directory() {
    assert!(matches!(gather_frames(&Vec::new()), Err(GifEncodeError::EmptyFrameSet)));
}

#[test]
fn gather_frames_stops_at_the_first_defect() {
    let files = vec![png(4, 4, RED), b"broken".to_vec(), png(5, 5, GREEN)];
    assert!(matches!(gather_frames(&files), Err(GifEncodeError::Undecodable { index: 1 })));
    let files = vec![png(4, 4, RED), png(5, 5, GREEN), b"broken".to_vec()];
    assert!(matches!(
        gather_frames(&files),
        Err(GifEncodeError::DimensionMismatch { index: 1, .. })
    ));
    let files = vec![b"broken".to_vec(), png(4, 4, RED)];
    assert!(matches!(gather_frames(&files), Err(GifEncodeError::Undecodable { index: 0 })));
}

#[test]
fn gather_frames_collects_frames_of_one_size() {
    let files = vec![png(4, 2, RED), png(4, 2, GREEN)];
    let set = gather_frames(&files).unwrap();
    assert_eq!(set.len(), 2);
    assert_eq!(set.dimensions(), (4, 2));
}

#[test]
fn assemble_rejects_an_empty_frame_directory() {
    let outcome = assemble(&Vec::new(), "target/screenshot.gif");
    assert_eq!(outcome.err(), Some(GifEncodeError::EmptyFrameSet));
}

#[test]
fn assemble_rejects_a_frame_of_another_size_by_its_index() {
    let files = vec![png(8, 6, RED), png(8, 6, GREEN), png(6, 8, BLUE), png(8, 6, RED)];
    let outcome = assemble(&files, "target/screenshot.gif");
    assert_eq!(
        outcome.err(),
        Some(GifEncodeError::DimensionMismatch {
            index: 2,
            expected_width: 8,
            expected_height: 6,
            width: 6,
            height: 8,
        })
    );
}

#[test]
fn assemble_rejects_a_file_that_does_not_decode() {
    let files = vec![png(8, 6, RED), vec![0x89, b'P', b'N', b'G']];
    let outcome = assemble(&files, "out.gif");
    assert_eq!(outcome.err(), Some(GifEncodeError::Undecodable { index: 1 }));
}

#[test]
fn assemble_round_trip() {
    for count in 1..=5usize {
        let mut files = Vec::new();
        for k in 0..count {
            files.push(png(7, 9, [k as u8 * 40, 0, 255 - k as u8 * 40, 255]));
        }
        let (artifact, bytes) = assemble(&files, "target/screenshot.gif").unwrap();
        assert_eq!(artifact.frame_count, count);
        assert_eq!((artifact.width, artifact.height), (7, 9));
        assert_eq!(artifact.path, "target/screenshot.gif");
        let read = read_gif(&bytes);
        assert_eq!(read.frames.len(), count);
        assert_eq!((read.width, read.height), (7, 9));
        for (k, frame) in read.frames.iter().enumerate() {
            assert_eq!(&frame.3[0..4], &[k as u8 * 40, 0, 255 - k as u8 * 40, 255]);
        }
    }
}

#[test]
fn assemble_twice_gives_the_same_artifact() {
    let files = vec![png(12, 10, RED), png(12, 10, GREEN), png(12, 10, BLUE)];
    let (first, first_bytes) = assemble(&files, "target/screenshot.gif").unwrap();
    let (second, second_bytes) = assemble(&files, "target/screenshot.gif").unwrap();
    assert_eq!(first.width, second.width);
    assert_eq!(first.height, second.height);
    assert_eq!(first.frame_count, second.frame_count);
    assert_eq!(first.path, second.path);
    assert_eq!(first_bytes, second_bytes);
}

#[test]
fn assemble_treats_any_alpha_as_opaque_or_clear() {
    let files = vec![png(2, 2, [9, 8, 7, 128]), png(2, 2, [9, 8, 7, 0])];
    let (artifact, bytes) = assemble(&files, "a.gif").unwrap();
    assert_eq!(artifact.frame_count, 2);
    let read = read_gif(&bytes);
    assert_eq!(&read.frames[0].3[0..4], &[9, 8, 7, 255]);
    assert_eq!(read.frames[1].3[3], 0);
}
