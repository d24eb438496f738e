use docquery::picture::ImageFailure;
use docquery::utils::pdfquery::{compress_jpg, TARGET_FILE_SIZE};

fn jpeg(width: u32, height: u32) -> Vec<u8> {
    let img = image::RgbImage::from_fn(width, height, |x, y| {
        image::Rgb([(x % 256) as u8, (y % 256) as u8, ((x * y) % 256) as u8])
    });
    let mut buf = std::io::Cursor::new(Vec::new());
    image::DynamicImage::ImageRgb8(img).write_to(&mut buf, image::ImageFormat::Jpeg).unwrap();
    buf.into_inner()
}

#[test]
fn small_image_becomes_1024_square_jpeg() {
    let out = compress_jpg(&jpeg(64, 48)).unwrap();
    assert!(out.len() <= TARGET_FILE_SIZE);
    let back = image::load_from_memory(&out).unwrap();
    assert_eq!((back.width(), back.height()), (1024, 1024));
}

#[test]
fn wide_image_is_cropped_to_square() {
    let out = compress_jpg(&jpeg(300, 30)).unwrap();
    let back = image::load_from_memory(&out).unwrap();
    assert_eq!((back.width(), back.height()), (1024, 1024));
}

#[test]
fn garbage_is_undecodable() {
    for junk in [b"not an image".to_vec(), Vec::new()] {
        let text = image::load_from_memory(&junk).unwrap_err().to_string();
        assert_eq!(compress_jpg(&junk).unwrap_err(), ImageFailure::Undecodable(text));
    }
}

#[test]
fn target_size_is_three_mebibytes() {
    assert_eq!(TARGET_FILE_SIZE, 3 * 1024 * 1024);
}

#[test]
fn result_is_the_jpeg_of_the_1024_square() {
    let input = jpeg(200, 120);
    let decoded = image::load_from_memory(&input).unwrap();
    let square = decoded.resize_to_fill(1024, 1024, image::imageops::FilterType::Triangle);
    let mut buf = std::io::Cursor::new(Vec::new());
    square.write_to(&mut buf, image::ImageFormat::Jpeg).unwrap();
    assert_eq!(compress_jpg(&input).unwrap(), buf.into_inner());
}

#[test]
fn re_encoding_is_repeatable() {
    let input = jpeg(90, 90);
    assert_eq!(compress_jpg(&input).unwrap(), compress_jpg(&input).unwrap());
}

#[test]
fn image_error_messages() {
    assert_eq!(ImageFailure::EmptyImage.message(), "The image has no pixels");
    let text = image::load_from_memory(b"xx").unwrap_err().to_string();
    assert_eq!(compress_jpg(b"xx").unwrap_err().message(), text);
}
