use promptbox::error::Error;
use promptbox::image::{data_url_from, ImageData};

const PNG: [u8; 33] = [
    137, 80, 78, 71, 13, 10, 26, 10, 0, 0, 0, 13, 73, 72, 68, 82, 0, 0, 0, 3, 0, 0, 0, 2, 8, 6, 0,
    0, 0, 157, 116, 102, 26,
];

#[test]
fn image_from_png_bytes() {
    let img = ImageData::from_bytes(PNG.to_vec()).unwrap();
    assert_eq!(img.mimetype, "image/png");
    assert_eq!(img.as_base64(), "iVBORw0KGgoAAAANSUhEUgAAAAMAAAACCAYAAACddGYa");
    assert_eq!(
        img.as_data_url(),
        "data:image/png;base64,iVBORw0KGgoAAAANSUhEUgAAAAMAAAACCAYAAACddGYa"
    );
}

#[test]
fn image_rejects_unknown_bytes() {
    assert!(matches!(ImageData::from_bytes(vec![1, 2, 3]), Err(Error::Image)));
}

#[test]
fn data_url_layout() {
    assert_eq!(data_url_from("image/gif", "AAEC"), "data:image/gif;base64,AAEC");
}

#[test]
fn image_from_gif_bytes() {
    let gif = b"GIF89a\x03\x00\x02\x00".to_vec();
    let img = ImageData::from_bytes(gif).unwrap();
    assert_eq!(img.mimetype, "image/gif");
}

#[test]
fn image_rejects_bytes_outside_known_headers() {
    // A JPEG start whose first segment claims a zero length.
    let bytes = vec![0xFF, 0xD8, 0xFF, 0xE1, 0, 0, 0, 0, 0, 0, 0];
    assert!(matches!(ImageData::from_bytes(bytes), Err(Error::Image)));
}
