use std::io::Cursor;

use midden::config::ProcessingConfig;
use midden::processing::{
    decode_or_tell_why, decode_within_limits, file_metadata_json, format_of, placeholder_wanted,
    resolve_sniffed, sniff_mime, strip_file_metadata, strip_jpeg_metadata, strip_png_metadata,
    thumbnail_derivative, thumbnail_of_decoded, DecodeFailure, ThumbnailFormat, ThumbnailLimits,
};

#[test]
fn sniff_mime_detects_common_fixture_shapes() {
    assert_eq!(sniff_mime(b"\x89PNG\r\n\x1a\nrest"), Some("image/png"));
    assert_eq!(sniff_mime(b"GIF89arest"), Some("image/gif"));
    assert_eq!(sniff_mime(&[0xff, 0xd8, 0xff, 0xe0]), Some("image/jpeg"));
    assert_eq!(sniff_mime(b"RIFF\xce\x14\x00\x00WEBPVP8Xrest"), Some("image/webp"));
    assert_eq!(
        sniff_mime(b"\x00\x00\x00\x20ftypisom\x00\x00\x02\x00isomav01iso2mp41"),
        Some("video/mp4")
    );
    assert_eq!(sniff_mime(b"plain text"), Some("text/plain"));
}

#[test]
fn unknown_bytes_are_text_only_where_they_are_printable() {
    assert_eq!(sniff_mime(b"a\tb\r\nc"), Some("text/plain"));
    assert_eq!(sniff_mime(b""), Some("text/plain"));
    assert_eq!(sniff_mime(b"a\x00b"), Some("application/octet-stream"));
    assert_eq!(sniff_mime("h\u{e9}".as_bytes()), Some("application/octet-stream"));
    assert_eq!(resolve_sniffed(Some("image/png"), b"text"), Some("image/png"));
    assert_eq!(resolve_sniffed(None, b"\x7f"), Some("application/octet-stream"));
}

/// A PNG header declaring 60000x60000 pixels. Decoding it unbounded would try to allocate about
/// 14GiB before the first row is read.
fn decompression_bomb() -> Vec<u8> {
    png_header(60_000, 60_000)
}

fn png_header(width: u32, height: u32) -> Vec<u8> {
    let mut header = Vec::new();
    header.extend_from_slice(b"\x89PNG\r\n\x1a\n");
    let mut ihdr = Vec::new();
    ihdr.extend_from_slice(b"IHDR");
    ihdr.extend_from_slice(&width.to_be_bytes());
    ihdr.extend_from_slice(&height.to_be_bytes());
    // 8-bit RGBA, no interlace.
    ihdr.extend_from_slice(&[8, 6, 0, 0, 0]);
    header.extend_from_slice(&13_u32.to_be_bytes());
    header.extend_from_slice(&ihdr);
    header.extend_from_slice(&crc32(&ihdr).to_be_bytes());
    header
}

fn crc32(bytes: &[u8]) -> u32 {
    let mut crc = 0xffff_ffff_u32;
    for byte in bytes {
        crc ^= u32::from(*byte);
        for _ in 0..8 {
            let mask = (crc & 1).wrapping_neg();
            crc = (crc >> 1) ^ (0xedb8_8320 & mask);
        }
    }
    !crc
}

fn test_limits() -> ThumbnailLimits {
    ThumbnailLimits::from_config(&ProcessingConfig {
        metadata_extraction: true,
        thumbnails: true,
        thumbnail_max_dimension: 320,
        thumbnail_source_max_pixels: 12_000,
        thumbnail_source_max_alloc_bytes: 256 * 1024 * 1024,
    })
}

#[test]
fn thumbnail_derivative_refuses_oversized_source_images() {
    assert!(
        thumbnail_derivative(
            "image/png",
            &decompression_bomb(),
            test_limits(),
            Some((60_000, 60_000)),
            (320, 320)
        )
        .is_none(),
        "a small file declaring huge dimensions must not be decoded"
    );
}

/// A real, fully decodable PNG.
fn encoded_png(width: u32, height: u32) -> Vec<u8> {
    let image = image::DynamicImage::ImageRgba8(image::RgbaImage::from_pixel(
        width,
        height,
        image::Rgba([1, 2, 3, 255]),
    ));
    let mut out = Cursor::new(Vec::new());
    image.write_to(&mut out, image::ImageFormat::Png).unwrap();
    out.into_inner()
}

#[test]
fn thumbnail_derivative_downscales_a_real_image() {
    let thumbnail = thumbnail_derivative(
        "image/png",
        &encoded_png(200, 100),
        ThumbnailLimits { max_dimension: 20, ..test_limits() },
        Some((200, 100)),
        (20, 10),
    )
    .unwrap();

    let decoded = image::load_from_memory_with_format(&thumbnail, image::ImageFormat::Png)
        .expect("thumbnails are PNG encoded");
    assert_eq!(
        (
            image::GenericImageView::width(&decoded),
            image::GenericImageView::height(&decoded)
        ),
        (20, 10),
        "aspect ratio should be preserved within the bounding box"
    );
    assert_eq!(image::GenericImageView::get_pixel(&decoded, 0, 0), image::Rgba([1, 2, 3, 255]));
}

#[test]
fn decode_limits_are_wired_into_the_reader() {
    let decoded = encoded_png(32, 16);

    // Same input, same code path: only the configured bound differs, so this cannot pass by
    // way of the header-only fallback.
    assert!(
        decode_within_limits(
            &decoded,
            ThumbnailFormat::Png,
            ThumbnailLimits { source_max_pixels: 1, ..test_limits() }
        )
        .is_none(),
        "a source wider than source_max_pixels must be refused before decoding"
    );
    assert!(
        decode_within_limits(
            &decoded,
            ThumbnailFormat::Png,
            ThumbnailLimits { source_max_alloc_bytes: 16, ..test_limits() }
        )
        .is_none(),
        "decoding must respect the allocation ceiling"
    );
    assert!(decode_within_limits(&decoded, ThumbnailFormat::Png, test_limits()).is_some());
}

#[test]
fn thumbnail_derivative_resizes_supported_images() {
    // Only a header: it tells the dimensions and cannot be decoded.
    let decoded = png_header(24, 12);
    let thumbnail = thumbnail_derivative(
        "image/png",
        &decoded,
        ThumbnailLimits { max_dimension: 12, ..test_limits() },
        Some((24, 12)),
        (12, 6),
    )
    .unwrap();
    assert_ne!(thumbnail.as_slice(), decoded.as_slice());
    assert_eq!(sniff_mime(&thumbnail), Some("image/png"));

    let placeholder = image::load_from_memory(&thumbnail).unwrap();
    assert_eq!((placeholder.width(), placeholder.height()), (12, 6));
    assert_eq!(image::GenericImageView::get_pixel(&placeholder, 3, 3), image::Rgba([0, 0, 0, 0]));
}

#[test]
fn an_image_that_blew_the_limits_gets_no_placeholder() {
    let png = encoded_png(32, 16);
    let limits = ThumbnailLimits {
        max_dimension: 20,
        source_max_pixels: 100,
        source_max_alloc_bytes: 16,
    };
    assert!(thumbnail_derivative("image/png", &png, limits, Some((32, 16)), (20, 10)).is_none());
    assert!(matches!(
        decode_or_tell_why(&png, ThumbnailFormat::Png, limits),
        Err(DecodeFailure::Limits)
    ));
    let narrow = ThumbnailLimits { source_max_pixels: 1, ..test_limits() };
    assert!(matches!(
        decode_or_tell_why(&png, ThumbnailFormat::Png, narrow),
        Err(DecodeFailure::Limits)
    ));
    assert!(matches!(
        decode_or_tell_why(&png_header(32, 16), ThumbnailFormat::Png, test_limits()),
        Err(DecodeFailure::Other)
    ));
    assert!(matches!(
        decode_or_tell_why(b"junk", ThumbnailFormat::Gif, test_limits()),
        Err(DecodeFailure::Other)
    ));
}

fn white(width: u32, height: u32, wide: bool) -> image::DynamicImage {
    if wide {
        image::DynamicImage::ImageLuma16(image::ImageBuffer::from_pixel(
            width,
            height,
            image::Luma([u16::MAX]),
        ))
    } else {
        image::DynamicImage::ImageLuma8(image::ImageBuffer::from_pixel(
            width,
            height,
            image::Luma([u8::MAX]),
        ))
    }
}

#[test]
fn an_image_is_scaled_down_only_so_far() {
    let limits = ThumbnailLimits { max_dimension: 1, ..test_limits() };
    let made = |image| thumbnail_of_decoded(Ok(image), limits, None, (0, 0));
    let pixel = |bytes: Vec<u8>| {
        let image = image::load_from_memory(&bytes).unwrap();
        assert_eq!((image.width(), image.height()), (1, 1));
        image::GenericImageView::get_pixel(&image, 0, 0)
    };
    let blank = image::Rgba([255, 255, 255, 255]);
    assert_eq!(pixel(made(white(168, 168, true)).unwrap()), blank);
    assert_eq!(pixel(made(white(1, 65_535, true)).unwrap()), blank);
    assert!(made(white(257, 256, true)).is_none());
    assert!(made(white(1, 65_536, true)).is_none());
    assert_eq!(pixel(made(white(300, 300, false)).unwrap()), blank);
    assert_eq!(pixel(made(white(4000, 4200, false)).unwrap()), blank);
    assert!(made(white(4100, 4100, false)).is_none());
    assert!(made(white(1, 0x100_0001, false)).is_none());

    let mut png = Cursor::new(Vec::new());
    white(300, 300, true).write_to(&mut png, image::ImageFormat::Png).unwrap();
    let png = png.into_inner();
    assert!(thumbnail_derivative("image/png", &png, limits, Some((300, 300)), (1, 1)).is_none());
    let larger = ThumbnailLimits { max_dimension: 2, ..limits };
    let made = thumbnail_derivative("image/png", &png, larger, Some((300, 300)), (2, 2)).unwrap();
    assert_eq!(made[..8], *b"\x89PNG\r\n\x1a\n");
    assert_eq!(made[16..24], [0, 0, 0, 2, 0, 0, 0, 2]);
}

#[test]
fn a_thumbnail_has_at_least_one_pixel() {
    let limits = ThumbnailLimits { max_dimension: 8, ..test_limits() };
    let made = thumbnail_of_decoded(Ok(white(1000, 1, false)), limits, None, (0, 0)).unwrap();
    let image = image::load_from_memory(&made).unwrap();
    assert_eq!((image.width(), image.height()), (8, 1));
    let made = thumbnail_of_decoded(Ok(white(1, 2, true)), limits, None, (0, 0)).unwrap();
    let image = image::load_from_memory(&made).unwrap();
    assert_eq!((image.width(), image.height()), (4, 8));
}

#[test]
fn the_mark_of_a_book_goes_before_the_signature_of_png() {
    let mut bytes = encoded_png(4, 4);
    bytes.resize(80, 0);
    assert_eq!(sniff_mime(&bytes), Some("image/png"));
    bytes[60..68].copy_from_slice(b"BOOKMOBI");
    assert_eq!(sniff_mime(&bytes), Some("application/x-mobipocket-ebook"));
    assert_eq!(sniff_mime(b"\x89PNG"), Some("image/png"));
}

#[test]
fn only_known_images_get_a_thumbnail() {
    let limits = test_limits();
    assert!(thumbnail_derivative("image/webp", &encoded_png(4, 4), limits, None, (4, 4)).is_none());
    assert!(thumbnail_derivative(
        "image/png",
        &encoded_png(4, 4),
        ThumbnailLimits { max_dimension: 0, ..limits },
        None,
        (0, 0)
    )
    .is_none());
    assert!(thumbnail_derivative("image/png", b"junk", limits, None, (1, 1)).is_none());
    assert_eq!(format_of("image/jpeg"), Some(ThumbnailFormat::Jpeg));
    assert_eq!(format_of("image/gif"), Some(ThumbnailFormat::Gif));
    assert_eq!(format_of("text/plain"), None);
    assert!(placeholder_wanted(Some((12_000, 1)), limits));
    assert!(!placeholder_wanted(Some((12_001, 1)), limits));
    assert!(!placeholder_wanted(None, limits));
    let broken = || Err(DecodeFailure::Other);
    let blank = thumbnail_of_decoded(broken(), limits, Some((2, 2)), (2, 2)).unwrap();
    assert_eq!(sniff_mime(&blank), Some("image/png"));
    assert!(thumbnail_of_decoded(broken(), limits, None, (2, 2)).is_none());
    assert!(
        thumbnail_of_decoded(Err(DecodeFailure::Limits), limits, Some((2, 2)), (2, 2)).is_none()
    );
}

fn jpeg_segment(marker: u8, payload: &[u8]) -> Vec<u8> {
    let mut segment = vec![0xff, marker];
    segment.extend_from_slice(&((payload.len() + 2) as u16).to_be_bytes());
    segment.extend_from_slice(payload);
    segment
}

#[test]
fn jpeg_metadata_is_dropped_and_the_picture_kept() {
    let mut picture = vec![0xff, 0xd8];
    let mut kept = picture.clone();
    picture.extend(jpeg_segment(0xe1, b"Exif where it was taken"));
    picture.extend(jpeg_segment(0xfe, b"a comment"));
    let table = jpeg_segment(0xdb, b"tables");
    picture.extend(&table);
    kept.extend(&table);
    let scan = [0xff, 0xda, 1, 2, 3, 0xff, 0xe1, 0, 9, 0xff, 0xd9];
    picture.extend(scan);
    kept.extend(scan);
    assert_eq!(strip_jpeg_metadata(&picture), Some(kept.clone()));
    assert_eq!(strip_file_metadata("image/jpeg", picture.clone()), kept);
    assert_eq!(strip_file_metadata("image/jpeg", kept.clone()), kept);
    assert_eq!(strip_file_metadata("image/png", picture.clone()), picture);
    assert_eq!(strip_jpeg_metadata(b"\xff\xd8"), None);
    assert_eq!(strip_jpeg_metadata(&[0xff, 0xd8, 0xff, 0xe1, 0, 9, 1]), None);
    assert_eq!(strip_jpeg_metadata(&[0xff, 0xd8, 0xff, 0xe1, 0, 1, 1]), None);
    let truncated = vec![0xff, 0xd8, 0xff, 0xe1, 0, 9, 1];
    assert_eq!(strip_file_metadata("image/jpeg", truncated.clone()), truncated);
}

fn png_chunk(kind: &[u8; 4], payload: &[u8]) -> Vec<u8> {
    let mut chunk = (payload.len() as u32).to_be_bytes().to_vec();
    chunk.extend_from_slice(kind);
    chunk.extend_from_slice(payload);
    chunk.extend_from_slice(&[1, 2, 3, 4]);
    chunk
}

#[test]
fn png_metadata_is_dropped_and_the_picture_kept() {
    let signature = b"\x89PNG\r\n\x1a\n".to_vec();
    let mut picture = signature.clone();
    let mut kept = signature;
    let header = png_chunk(b"IHDR", &[0; 13]);
    picture.extend(&header);
    kept.extend(&header);
    picture.extend(png_chunk(b"tEXt", b"Author\0me"));
    for part in [png_chunk(b"IDAT", &[9, 9]), png_chunk(b"IEND", &[])] {
        picture.extend(&part);
        kept.extend(&part);
    }
    picture.extend_from_slice(b"what stands behind the end");
    assert_eq!(strip_png_metadata(&picture), Some(kept.clone()));
    assert_eq!(strip_file_metadata("image/png", picture), kept);
    assert_eq!(strip_png_metadata(&kept), Some(kept.clone()));
    assert_eq!(strip_png_metadata(b"\x89PNG"), None);
    let cut = kept[..kept.len() - 14].to_vec();
    assert_eq!(strip_png_metadata(&cut), None);
    assert_eq!(strip_file_metadata("image/png", cut.clone()), cut);
    assert_eq!(strip_file_metadata("text/plain", kept.clone()), kept);
}

#[test]
fn metadata_is_written_as_json() {
    assert_eq!(
        file_metadata_json("text/\"x\"", -1, None, true).unwrap(),
        "{\"content_type\":\"text/\\\"x\\\"\",\"image_height\":null,\"image_width\":null,\
         \"metadata_stripped\":true,\"size_bytes\":-1}"
    );
    assert_eq!(
        file_metadata_json("image/png", 7, Some((4, 3)), false).unwrap(),
        "{\"content_type\":\"image/png\",\"image_height\":3,\"image_width\":4,\
         \"metadata_stripped\":false,\"size_bytes\":7}"
    );
}
