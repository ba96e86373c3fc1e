use pixdown::chunk::{append_chunk, extend, push_be16, push_be32, write_chunk};
use pixdown::compile;
use pixdown::config::{Config, Frames, Options, SizeConfig};
use pixdown::encode::{delay_of, generate_image};
use pixdown::error::{CompileError, Violation};
use pixdown::scanline::build_raw_image;
use pixdown::validate::validate;

type Pixel = (u8, u8, u8, u8);

const RED: Pixel = (255, 0, 0, 255);
const GREEN: Pixel = (0, 255, 0, 255);
const BLACK: Pixel = (0, 0, 0, 255);
const WHITE: Pixel = (255, 255, 255, 255);

fn config(w: usize, h: usize, scale: usize, frames: usize) -> Config {
    Config {
        size: SizeConfig { w, h, scale, frames, rate: None },
        colors: vec![],
        options: None,
        meta: None,
    }
}

fn solid(w: usize, h: usize, p: Pixel) -> Vec<Vec<Pixel>> {
    vec![vec![p; w]; h]
}

/// Splits a stream into its chunks, each as type and payload, and checks the signature,
/// every length and every checksum on the way.
fn chunks(bytes: &[u8]) -> Vec<(String, Vec<u8>)> {
    assert_eq!(&bytes[..8], &[0x89, 0x50, 0x4e, 0x47, 0x0d, 0x0a, 0x1a, 0x0a]);
    let mut out = Vec::new();
    let mut at = 8;
    while at < bytes.len() {
        let len = u32::from_be_bytes([bytes[at], bytes[at + 1], bytes[at + 2], bytes[at + 3]])
            as usize;
        let tag = String::from_utf8(bytes[at + 4..at + 8].to_vec()).unwrap();
        let payload = bytes[at + 8..at + 8 + len].to_vec();
        let sum = u32::from_be_bytes([
            bytes[at + 8 + len],
            bytes[at + 9 + len],
            bytes[at + 10 + len],
            bytes[at + 11 + len],
        ]);
        assert_eq!(sum, crc32fast::hash(&bytes[at + 4..at + 8 + len]));
        out.push((tag, payload));
        at += 12 + len;
    }
    assert_eq!(at, bytes.len());
    out
}

fn tags(parts: &[(String, Vec<u8>)]) -> Vec<&str> {
    parts.iter().map(|(tag, _)| tag.as_str()).collect()
}

fn inflate(data: &[u8]) -> Vec<u8> {
    inflate::inflate_bytes_zlib(data).unwrap()
}

#[test]
fn big_endian_fields() {
    let mut out = vec![9u8];
    push_be32(&mut out, 0x0102_0304);
    push_be16(&mut out, 0xa0b0);
    push_be32(&mut out, 0);
    push_be32(&mut out, u32::MAX);
    assert_eq!(out, vec![9, 1, 2, 3, 4, 0xa0, 0xb0, 0, 0, 0, 0, 255, 255, 255, 255]);
}

#[test]
fn extend_appends() {
    let mut out = vec![1u8, 2];
    extend(&mut out, &[3, 4, 5]);
    extend(&mut out, &[]);
    assert_eq!(out, vec![1, 2, 3, 4, 5]);
}

#[test]
fn end_chunk_has_its_well_known_bytes() {
    assert_eq!(
        write_chunk(b"IEND"),
        vec![0, 0, 0, 0, 0x49, 0x45, 0x4e, 0x44, 0xae, 0x42, 0x60, 0x82]
    );
}

#[test]
fn chunk_is_length_then_data_then_checksum() {
    let data = b"tEXtGenerator\x00Pixdown";
    let out = write_chunk(data);
    assert_eq!(out.len(), data.len() + 8);
    assert_eq!(&out[..4], &[0, 0, 0, 17]);
    assert_eq!(&out[4..4 + data.len()], &data[..]);
    assert_eq!(&out[4 + data.len()..], &crc32fast::hash(data).to_be_bytes());
}

#[test]
fn append_chunk_adds_to_what_is_there() {
    let mut out = vec![7u8];
    assert!(append_chunk(&mut out, b"IEND"));
    assert_eq!(out, vec![7, 0, 0, 0, 0, 0x49, 0x45, 0x4e, 0x44, 0xae, 0x42, 0x60, 0x82]);
}

#[test]
fn raw_image_has_a_filter_byte_per_row() {
    let grid = vec![vec![RED, GREEN], vec![BLACK, WHITE]];
    assert_eq!(
        build_raw_image(&grid, 1),
        vec![0, 255, 0, 0, 255, 0, 255, 0, 255, 0, 0, 0, 0, 255, 255, 255, 255, 255]
    );
}

#[test]
fn raw_image_repeats_pixels_and_rows_by_scale() {
    let grid = vec![vec![RED, GREEN]];
    let line = vec![0, 255, 0, 0, 255, 255, 0, 0, 255, 0, 255, 0, 255, 0, 255, 0, 255];
    let mut expected = line.clone();
    expected.extend(line);
    assert_eq!(build_raw_image(&grid, 2), expected);
}

#[test]
fn raw_image_at_scale_zero_is_empty() {
    assert_eq!(build_raw_image(&vec![vec![RED]], 0), Vec::<u8>::new());
    assert_eq!(build_raw_image(&vec![], 3), Vec::<u8>::new());
}

#[test]
fn delay_defaults_to_one_twenty_fourth() {
    let mut conf = config(1, 1, 1, 1);
    assert_eq!(delay_of(&conf), (1, 24));
    conf.size.rate = Some([3, 10]);
    assert_eq!(delay_of(&conf), (3, 10));
    conf.size.rate = Some([5, 0]);
    assert_eq!(delay_of(&conf), (5, 24));
    conf.size.rate = Some([0, 0]);
    assert_eq!(delay_of(&conf), (0, 24));
}

#[test]
fn single_frame_is_a_plain_png() {
    let frames = vec![solid(3, 2, (10, 20, 30, 255))];
    let bytes = generate_image(&frames, &config(3, 2, 1, 1)).unwrap();
    let parts = chunks(&bytes);
    assert_eq!(tags(&parts), vec!["IHDR", "tEXt", "IDAT", "IEND"]);
    assert_eq!(parts[0].1, vec![0, 0, 0, 3, 0, 0, 0, 2, 8, 6, 0, 0, 0]);
    assert_eq!(parts[1].1, b"Generator\x00Pixdown".to_vec());
    let line = vec![0, 10, 20, 30, 255, 10, 20, 30, 255, 10, 20, 30, 255];
    let mut raw = line.clone();
    raw.extend(line);
    assert_eq!(inflate(&parts[2].1), raw);
    assert!(parts[3].1.is_empty());
}

#[test]
fn image_data_is_compressed() {
    let frames = vec![solid(16, 16, RED)];
    let bytes = generate_image(&frames, &config(16, 16, 1, 1)).unwrap();
    let parts = chunks(&bytes);
    let raw = build_raw_image(&frames[0], 1);
    assert_eq!(raw.len(), 16 * 65);
    assert_ne!(parts[2].1, raw);
    assert!(parts[2].1.len() < raw.len());
    assert_eq!(parts[2].1, deflate::deflate_bytes_zlib_conf(&raw, deflate::Compression::Best));
    assert_eq!(inflate(&parts[2].1), raw);
}

#[test]
fn header_declares_the_scaled_canvas() {
    let frames = vec![solid(2, 3, RED)];
    let bytes = generate_image(&frames, &config(2, 3, 256, 1)).unwrap();
    let parts = chunks(&bytes);
    assert_eq!(parts[0].1, vec![0, 0, 2, 0, 0, 0, 3, 0, 8, 6, 0, 0, 0]);
}

#[test]
fn scaled_image_data_repeats_pixels() {
    let frames = vec![vec![vec![RED, GREEN]]];
    let bytes = generate_image(&frames, &config(2, 1, 3, 1)).unwrap();
    let parts = chunks(&bytes);
    let raw = inflate(&parts[2].1);
    assert_eq!(raw.len(), 3 * (1 + 2 * 3 * 4));
    assert_eq!(raw, build_raw_image(&frames[0], 3));
    assert_eq!(&raw[..13], &[0, 255, 0, 0, 255, 255, 0, 0, 255, 255, 0, 0, 255]);
}

#[test]
fn two_frames_are_an_animation() {
    let frames = vec![solid(1, 1, RED), solid(1, 1, GREEN)];
    let bytes = generate_image(&frames, &config(1, 1, 1, 2)).unwrap();
    let parts = chunks(&bytes);
    assert_eq!(tags(&parts), vec!["IHDR", "tEXt", "acTL", "fcTL", "IDAT", "fcTL", "fdAT", "IEND"]);
    assert_eq!(parts[2].1, vec![0, 0, 0, 2, 0, 0, 0, 0]);
    assert_eq!(
        parts[3].1,
        vec![0, 0, 0, 0, 0, 0, 0, 1, 0, 0, 0, 1, 0, 0, 0, 0, 0, 0, 0, 0, 0, 1, 0, 24, 0, 1]
    );
    assert_eq!(inflate(&parts[4].1), vec![0, 255, 0, 0, 255]);
    assert_eq!(
        parts[5].1,
        vec![0, 0, 0, 1, 0, 0, 0, 1, 0, 0, 0, 1, 0, 0, 0, 0, 0, 0, 0, 0, 0, 1, 0, 24, 0, 1]
    );
    assert_eq!(&parts[6].1[..4], &[0, 0, 0, 2]);
    assert_eq!(inflate(&parts[6].1[4..]), vec![0, 0, 255, 0, 255]);
}

#[test]
fn sequence_numbers_run_over_control_and_data_chunks() {
    let frames = vec![solid(1, 1, RED); 4];
    let bytes = generate_image(&frames, &config(1, 1, 1, 4)).unwrap();
    let parts = chunks(&bytes);
    assert_eq!(
        tags(&parts),
        vec![
            "IHDR", "tEXt", "acTL", "fcTL", "IDAT", "fcTL", "fdAT", "fcTL", "fdAT", "fcTL", "fdAT",
            "IEND"
        ]
    );
    assert_eq!(parts[2].1, vec![0, 0, 0, 4, 0, 0, 0, 0]);
    let numbers: Vec<u32> = parts
        .iter()
        .filter(|(tag, _)| tag == "fcTL" || tag == "fdAT")
        .map(|(_, p)| u32::from_be_bytes([p[0], p[1], p[2], p[3]]))
        .collect();
    assert_eq!(numbers, vec![0, 1, 2, 3, 4, 5, 6]);
}

#[test]
fn frame_control_carries_size_and_delay() {
    let frames = vec![solid(2, 3, RED), solid(2, 3, GREEN)];
    let mut conf = config(2, 3, 4, 2);
    conf.size.rate = Some([0x0102, 0]);
    let bytes = generate_image(&frames, &conf).unwrap();
    let parts = chunks(&bytes);
    assert_eq!(
        parts[3].1,
        vec![0, 0, 0, 0, 0, 0, 0, 8, 0, 0, 0, 12, 0, 0, 0, 0, 0, 0, 0, 0, 1, 2, 0, 24, 0, 1]
    );
    conf.size.rate = Some([7, 300]);
    let bytes = generate_image(&frames, &conf).unwrap();
    let parts = chunks(&bytes);
    assert_eq!(&parts[5].1[20..], &[0, 7, 1, 44, 0, 1]);
}

#[test]
fn metadata_becomes_compressed_international_text() {
    let mut conf = config(1, 1, 1, 1);
    conf.meta = Some(vec![
        ("Title".to_string(), "A sprite".to_string()),
        ("Author".to_string(), "Zoë".to_string()),
    ]);
    let bytes = generate_image(&vec![solid(1, 1, RED)], &conf).unwrap();
    let parts = chunks(&bytes);
    assert_eq!(tags(&parts), vec!["IHDR", "tEXt", "iTXt", "iTXt", "IDAT", "IEND"]);
    assert_eq!(&parts[2].1[..10], b"Title\x00\x01\x00\x00\x00");
    assert_eq!(inflate(&parts[2].1[10..]), b"A sprite".to_vec());
    assert_eq!(&parts[3].1[..11], b"Author\x00\x01\x00\x00\x00");
    assert_eq!(inflate(&parts[3].1[11..]), "Zoë".as_bytes().to_vec());
}

#[test]
fn empty_metadata_adds_nothing() {
    let mut conf = config(1, 1, 1, 1);
    let plain = generate_image(&vec![solid(1, 1, RED)], &conf).unwrap();
    conf.meta = Some(vec![]);
    assert_eq!(generate_image(&vec![solid(1, 1, RED)], &conf).unwrap(), plain);
}

#[test]
fn no_frames_are_a_validation_error() {
    assert_eq!(validate(&Frames::new(), 0), Some(Violation::Empty));
    assert_eq!(
        generate_image(&Frames::new(), &config(1, 1, 1, 0)),
        Err(CompileError::Validation(Violation::Empty))
    );
}

#[test]
fn wrong_number_of_frames_is_a_validation_error() {
    let frames = vec![solid(1, 1, RED); 2];
    assert_eq!(validate(&frames, 3), Some(Violation::FrameCount));
    assert_eq!(
        generate_image(&frames, &config(1, 1, 1, 1)),
        Err(CompileError::Validation(Violation::FrameCount))
    );
}

#[test]
fn frame_without_rows_is_a_validation_error() {
    let frames = vec![solid(1, 1, RED), vec![]];
    assert_eq!(validate(&frames, 2), Some(Violation::ZeroHeight));
    assert_eq!(
        generate_image(&frames, &config(1, 1, 1, 2)),
        Err(CompileError::Validation(Violation::ZeroHeight))
    );
}

#[test]
fn row_without_pixels_is_a_validation_error() {
    let frames = vec![vec![vec![RED], vec![]]];
    assert_eq!(validate(&frames, 1), Some(Violation::ZeroWidth));
    assert_eq!(
        generate_image(&frames, &config(1, 2, 1, 1)),
        Err(CompileError::Validation(Violation::ZeroWidth))
    );
}

#[test]
fn frames_of_different_height_are_a_validation_error() {
    let frames = vec![solid(1, 1, RED), solid(1, 2, RED)];
    assert_eq!(validate(&frames, 2), Some(Violation::UnalignedHeights));
    assert_eq!(
        generate_image(&frames, &config(1, 1, 1, 2)),
        Err(CompileError::Validation(Violation::UnalignedHeights))
    );
}

#[test]
fn rows_of_different_width_are_a_validation_error() {
    let within = vec![vec![vec![RED, RED], vec![RED]]];
    assert_eq!(validate(&within, 1), Some(Violation::UnalignedWidths));
    let across = vec![solid(1, 1, RED), solid(2, 1, RED)];
    assert_eq!(validate(&across, 2), Some(Violation::UnalignedWidths));
    assert_eq!(
        generate_image(&across, &config(1, 1, 1, 2)),
        Err(CompileError::Validation(Violation::UnalignedWidths))
    );
}

#[test]
fn violations_are_reported_in_a_fixed_order() {
    let frames = vec![vec![vec![RED, RED], vec![]], vec![]];
    assert_eq!(validate(&frames, 5), Some(Violation::FrameCount));
    assert_eq!(validate(&frames, 2), Some(Violation::ZeroHeight));
    let frames = vec![vec![vec![RED, RED], vec![]], vec![vec![RED]]];
    assert_eq!(validate(&frames, 2), Some(Violation::ZeroWidth));
    let frames = vec![vec![vec![RED, RED], vec![RED]], vec![vec![RED]]];
    assert_eq!(validate(&frames, 2), Some(Violation::UnalignedHeights));
}

#[test]
fn valid_frames_pass() {
    assert_eq!(validate(&vec![solid(2, 3, RED); 4], 4), None);
}

#[test]
fn output_too_wide_for_the_header_is_a_validation_error() {
    let frames = vec![solid(1, 1, RED)];
    assert_eq!(
        generate_image(&frames, &config(2, 1, usize::MAX, 1)),
        Err(CompileError::Validation(Violation::Oversize))
    );
    assert_eq!(
        generate_image(&frames, &config(1, 65536, 65536, 1)),
        Err(CompileError::Validation(Violation::Oversize))
    );
}

#[test]
fn every_error_has_its_own_message() {
    let all = [
        CompileError::Syntax,
        CompileError::ColorFormat,
        CompileError::Index,
        CompileError::Validation(Violation::Empty),
        CompileError::Validation(Violation::FrameCount),
        CompileError::Validation(Violation::ZeroHeight),
        CompileError::Validation(Violation::ZeroWidth),
        CompileError::Validation(Violation::UnalignedHeights),
        CompileError::Validation(Violation::UnalignedWidths),
        CompileError::Validation(Violation::Oversize),
    ];
    for (i, a) in all.iter().enumerate() {
        assert!(!a.message().is_empty());
        for b in &all[i + 1..] {
            assert_ne!(a.message(), b.message());
        }
    }
    assert_eq!(Violation::Empty.message(), "Image is empty");
    assert_eq!(Violation::FrameCount.message(), "Frame counts does not match.");
    assert_eq!(Violation::ZeroHeight.message(), "Height is zero");
    assert_eq!(Violation::ZeroWidth.message(), "Width is zero");
    assert_eq!(Violation::UnalignedHeights.message(), "Unaligned heights.");
    assert_eq!(Violation::UnalignedWidths.message(), "Unaligned widths.");
    assert_eq!(
        CompileError::Validation(Violation::ZeroWidth).message(),
        Violation::ZeroWidth.message()
    );
}

fn sample() -> Config {
    Config {
        size: SizeConfig { w: 2, h: 2, scale: 2, frames: 2, rate: Some([1, 4]) },
        colors: vec![('A', "#000000".to_string()), ('B', "#ffffff".to_string())],
        options: None,
        meta: None,
    }
}

const BODY: &str = "# 0\nBB\nBB\n\n# 1\n## 0\nAB\nBA\n\n## 1\nBA\nAB\n";

#[test]
fn document_compiles_to_an_animation() {
    let conf = sample();
    let bytes = compile(&conf, BODY).unwrap();
    let parts = chunks(&bytes);
    assert_eq!(tags(&parts), vec!["IHDR", "tEXt", "acTL", "fcTL", "IDAT", "fcTL", "fdAT", "IEND"]);
    assert_eq!(parts[0].1, vec![0, 0, 0, 4, 0, 0, 0, 4, 8, 6, 0, 0, 0]);
    assert_eq!(&parts[3].1[20..24], &[0, 1, 0, 4]);
    let first = vec![vec![BLACK, WHITE], vec![WHITE, BLACK]];
    let second = vec![vec![WHITE, BLACK], vec![BLACK, WHITE]];
    assert_eq!(inflate(&parts[4].1), build_raw_image(&first, 2));
    assert_eq!(inflate(&parts[6].1[4..]), build_raw_image(&second, 2));
    assert_eq!(bytes, generate_image(&vec![first, second], &conf).unwrap());
}

#[test]
fn document_with_carriage_returns_compiles_alike() {
    let conf = sample();
    let dos = BODY.replace('\n', "\r\n");
    assert_eq!(compile(&conf, &dos), compile(&conf, BODY));
}

#[test]
fn single_color_still_round_trips() {
    let conf = Config {
        size: SizeConfig { w: 3, h: 2, scale: 1, frames: 1, rate: None },
        colors: vec![('x', "#336699".to_string())],
        options: None,
        meta: None,
    };
    let bytes = compile(&conf, "# 0\nxxx\nxxx\n").unwrap();
    let parts = chunks(&bytes);
    assert_eq!(tags(&parts), vec!["IHDR", "tEXt", "IDAT", "IEND"]);
    assert_eq!(&parts[0].1[..8], &[0, 0, 0, 3, 0, 0, 0, 2]);
    let line = vec![0, 0x33, 0x66, 0x99, 255, 0x33, 0x66, 0x99, 255, 0x33, 0x66, 0x99, 255];
    let mut raw = line.clone();
    raw.extend(line);
    assert_eq!(inflate(&parts[2].1), raw);
}

#[test]
fn layers_are_drawn_by_index_not_by_declaration() {
    let mut conf = sample();
    conf.size.frames = 1;
    conf.size.scale = 1;
    conf.size.h = 1;
    let bytes = compile(&conf, "# 1\nAA\n# 0\nBB\n").unwrap();
    let parts = chunks(&bytes);
    assert_eq!(inflate(&parts[2].1), build_raw_image(&vec![vec![BLACK, BLACK]], 1));
}

#[test]
fn order_option_reorders_the_output() {
    let mut conf = sample();
    conf.options = Some(Options { order: Some(vec![1, 0]) });
    let bytes = compile(&conf, BODY).unwrap();
    let parts = chunks(&bytes);
    let first = vec![vec![BLACK, WHITE], vec![WHITE, BLACK]];
    let second = vec![vec![WHITE, BLACK], vec![BLACK, WHITE]];
    assert_eq!(inflate(&parts[4].1), build_raw_image(&second, 2));
    assert_eq!(inflate(&parts[6].1[4..]), build_raw_image(&first, 2));
}

#[test]
fn order_option_of_another_length_breaks_the_frame_count() {
    let mut conf = sample();
    conf.options = Some(Options { order: Some(vec![0, 0, 0]) });
    assert_eq!(compile(&conf, BODY), Err(CompileError::Validation(Violation::FrameCount)));
    conf.options = Some(Options { order: Some(vec![]) });
    assert_eq!(compile(&conf, BODY), Err(CompileError::Validation(Violation::Empty)));
}

#[test]
fn order_option_beyond_the_frames_is_an_index_error() {
    let mut conf = sample();
    conf.options = Some(Options { order: Some(vec![0, 2]) });
    assert_eq!(compile(&conf, BODY), Err(CompileError::Index));
}

#[test]
fn options_without_order_change_nothing() {
    let mut conf = sample();
    let plain = compile(&conf, BODY);
    conf.options = Some(Options { order: None });
    assert_eq!(compile(&conf, BODY), plain);
}

#[test]
fn bad_marker_is_a_syntax_error() {
    assert_eq!(compile(&sample(), "# zero\nBB\nBB\n"), Err(CompileError::Syntax));
}

#[test]
fn bad_color_is_a_color_format_error() {
    let mut conf = sample();
    conf.colors[0].1 = "black".to_string();
    assert_eq!(compile(&conf, BODY), Err(CompileError::ColorFormat));
}

#[test]
fn syntax_error_comes_before_color_error() {
    let mut conf = sample();
    conf.colors[0].1 = "black".to_string();
    assert_eq!(compile(&conf, "# 0\nAA\nAA\n## ?\n"), Err(CompileError::Syntax));
}

#[test]
fn canvas_without_width_or_height_is_a_validation_error() {
    let mut conf = sample();
    conf.size.w = 0;
    assert_eq!(compile(&conf, BODY), Err(CompileError::Validation(Violation::ZeroWidth)));
    conf.size.w = 2;
    conf.size.h = 0;
    assert_eq!(compile(&conf, BODY), Err(CompileError::Validation(Violation::ZeroHeight)));
    conf.size.w = 0;
    assert_eq!(compile(&conf, BODY), Err(CompileError::Validation(Violation::ZeroHeight)));
}

#[test]
fn no_frames_configured_is_a_validation_error() {
    let mut conf = sample();
    conf.size.frames = 0;
    assert_eq!(compile(&conf, BODY), Err(CompileError::Validation(Violation::Empty)));
}

#[test]
fn empty_body_compiles_to_a_transparent_image() {
    let mut conf = sample();
    conf.size.frames = 1;
    conf.size.scale = 1;
    let bytes = compile(&conf, "").unwrap();
    let parts = chunks(&bytes);
    assert_eq!(inflate(&parts[2].1), vec![0, 0, 0, 0, 0, 0, 0, 0, 0, 0, 0, 0, 0, 0, 0, 0, 0, 0]);
}
