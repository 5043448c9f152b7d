use std::io::Cursor;
use viewskater::bc1::{
    bc1_opaque_colors, bc1_row_bytes, compress_bc1_block_with, compress_image_data_texpresso, encode_bc1_block, extract_block,
    pack_compressed_image, rgb_to_rgb565, should_use_compression, CompressionAlgorithm, RgbaBlock,
};
use viewskater::image_info::{
    decoded_height, decoded_width, get_orientation_aware_dimensions, metadata_from_bytes, slider_frame,
};
use viewskater::img_cache::CompressionStrategy;

fn png_bytes(width: u32, height: u32) -> Vec<u8> {
    let mut img = image::RgbaImage::new(width, height);
    for (x, y, p) in img.enumerate_pixels_mut() {
        *p = image::Rgba([x as u8, y as u8, 7, 255]);
    }
    let mut out = Cursor::new(Vec::new());
    image::DynamicImage::ImageRgba8(img).write_to(&mut out, image::ImageFormat::Png).unwrap();
    out.into_inner()
}

#[test]
fn rgb565_packing() {
    assert_eq!(rgb_to_rgb565(255, 255, 255), 0xFFFF);
    assert_eq!(rgb_to_rgb565(0, 0, 0), 0);
    assert_eq!(rgb_to_rgb565(255, 0, 0), 0xF800);
    assert_eq!(rgb_to_rgb565(0, 255, 0), 0x07E0);
    assert_eq!(rgb_to_rgb565(0, 0, 255), 0x001F);
}

#[test]
fn compression_needs_bc1_and_multiples_of_four() {
    assert!(should_use_compression(8, 4, CompressionStrategy::Bc1));
    assert!(!should_use_compression(6, 4, CompressionStrategy::Bc1));
    assert!(!should_use_compression(8, 4, CompressionStrategy::Uncompressed));
    assert!(matches!(CompressionAlgorithm::default(), CompressionAlgorithm::RangeFit));
}

#[test]
fn transparent_block_encodes_to_zero_endpoints_and_index_three() {
    let block: RgbaBlock = [[10, 20, 30, 0]; 16];
    assert!(bc1_opaque_colors(&block).is_empty());
    let enc = encode_bc1_block(&block, (0, 0, 0), (0, 0, 0));
    assert_eq!(enc, [0, 0, 0, 0, 0xFF, 0xFF, 0xFF, 0xFF]);
}

#[test]
fn two_colour_block_picks_nearest_endpoints() {
    let mut block: RgbaBlock = [[0, 0, 0, 255]; 16];
    for i in 8..16 {
        block[i] = [255, 255, 255, 255];
    }
    assert_eq!(bc1_opaque_colors(&block).len(), 16);
    let enc = encode_bc1_block(&block, (0, 0, 0), (255, 255, 255));
    // colour0 = black (0x0000), colour1 = white (0xFFFF): colour0 <= colour1, palette
    // black, white, grey, black; the first half is index 0, the second index 1
    assert_eq!(&enc[0..4], &[0x00, 0x00, 0xFF, 0xFF]);
    assert_eq!(&enc[4..8], &[0x00, 0x00, 0x55, 0x55]);
}

#[test]
fn block_extraction_pads_outside_pixels() {
    let width = 5;
    let height = 2;
    let image: Vec<u8> = (0..(width * height * 4) as u32).map(|v| v as u8).collect();
    let first = extract_block(&image, width, height, 0);
    assert_eq!(first[0], [0, 1, 2, 3]);
    assert_eq!(first[1], [4, 5, 6, 7]);
    assert_eq!(first[4], [20, 21, 22, 23]);
    assert_eq!(first[8], [0, 0, 0, 0]);
    let second = extract_block(&image, width, height, 1);
    assert_eq!(second[0], [16, 17, 18, 19]);
    assert_eq!(second[1], [0, 0, 0, 0]);
}

#[test]
fn packing_blocks_and_row_bytes() {
    assert_eq!(bc1_row_bytes(5), 16);
    assert_eq!(bc1_row_bytes(8), 16);
    let blocks = vec![[1u8, 2, 3, 4, 5, 6, 7, 8], [9u8, 10, 11, 12, 13, 14, 15, 16]];
    let (data, row) = pack_compressed_image(&blocks, 8);
    assert_eq!(data, (1..=16).collect::<Vec<u8>>());
    assert_eq!(row, 16);
}

#[test]
fn texpresso_output_layout() {
    let rgba = vec![255u8; 6 * 5 * 4];
    let (data, row) = compress_image_data_texpresso(&rgba, 6, 5);
    assert_eq!(row, 16);
    assert_eq!(data.len(), 2 * 2 * 8);
    // a white image compresses to a non-zero block
    assert!(data.iter().any(|b| *b != 0));
}

#[test]
fn metadata_and_decoding_from_bytes() {
    let png = png_bytes(3, 2);
    let m = metadata_from_bytes(&png, 1234);
    assert_eq!((m.width, m.height, m.file_size), (3, 2, 1234));
    assert_eq!(decoded_width(&png), 3);
    assert_eq!(decoded_height(&png), 2);
    let junk = vec![1u8, 2, 3];
    let m = metadata_from_bytes(&junk, 3);
    assert_eq!((m.width, m.height), (0, 0));
    assert_eq!(decoded_width(&junk), 0);
}

#[test]
fn slider_frames_keep_bytes_and_pixels() {
    let png = png_bytes(2, 2);
    let frame = slider_frame(png.clone());
    assert_eq!(frame.bytes, png);
    assert_eq!(frame.dimensions, Some((2, 2)));
    let rgba = frame.rgba.unwrap();
    assert_eq!(rgba.len(), 16);
    assert_eq!(&rgba[4..8], &[1, 0, 7, 255]);
    let bad = slider_frame(vec![0, 1]);
    assert!(bad.rgba.is_none() && bad.dimensions.is_none());
    assert_eq!(bad.bytes, vec![0, 1]);
}

fn jpeg_with_orientation(width: u32, height: u32, orientation: u8) -> Vec<u8> {
    let img = image::RgbImage::from_pixel(width, height, image::Rgb([90, 120, 150]));
    let mut out = Cursor::new(Vec::new());
    image::DynamicImage::ImageRgb8(img).write_to(&mut out, image::ImageFormat::Jpeg).unwrap();
    let jpeg = out.into_inner();
    let mut exif: Vec<u8> = vec![0xFF, 0xE1, 0x00, 0x22];
    exif.extend_from_slice(b"Exif\0\0");
    exif.extend_from_slice(&[b'M', b'M', 0x00, 0x2A, 0x00, 0x00, 0x00, 0x08]);
    exif.extend_from_slice(&[0x00, 0x01, 0x01, 0x12, 0x00, 0x03, 0x00, 0x00, 0x00, 0x01, 0x00, orientation, 0x00, 0x00]);
    exif.extend_from_slice(&[0x00, 0x00, 0x00, 0x00]);
    let mut bytes = jpeg[..2].to_vec();
    bytes.extend_from_slice(&exif);
    bytes.extend_from_slice(&jpeg[2..]);
    bytes
}

#[test]
fn orientation_aware_dimensions() {
    assert_eq!(get_orientation_aware_dimensions(&png_bytes(8, 4)), (8, 4));
    assert_eq!(get_orientation_aware_dimensions(&jpeg_with_orientation(8, 4, 1)), (8, 4));
    assert_eq!(get_orientation_aware_dimensions(&jpeg_with_orientation(8, 4, 3)), (8, 4));
    assert_eq!(get_orientation_aware_dimensions(&jpeg_with_orientation(8, 4, 6)), (4, 8));
    assert_eq!(get_orientation_aware_dimensions(&jpeg_with_orientation(8, 4, 8)), (4, 8));
    assert_eq!(get_orientation_aware_dimensions(&[1, 2, 3]), (0, 0));
}

#[test]
fn transparent_blocks_compress_to_zero() {
    let clear: RgbaBlock = [[200, 10, 10, 0]; 16];
    assert_eq!(compress_bc1_block_with(&clear, (255, 255, 255), (0, 0, 0)), [0u8; 8]);
    let mut half: RgbaBlock = [[255, 0, 0, 255]; 16];
    for p in half.iter_mut().skip(8) {
        *p = [0, 0, 0, 255];
    }
    let r = compress_bc1_block_with(&half, (255, 0, 0), (0, 0, 0));
    // endpoints pure red and black in RGB565; red pixels take entry 0, black ones entry 1
    assert_eq!(&r[..4], &[0x00, 0xF8, 0x00, 0x00]);
    assert_eq!(&r[4..], &[0x00, 0x00, 0x55, 0x55]);
}
