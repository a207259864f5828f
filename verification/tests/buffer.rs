use rustlebrot::buffer::{PixelBuffer, Rgb};

#[test]
fn new_buffer_is_black() {
    let buf = PixelBuffer::new(2, 3);
    assert_eq!(buf.width(), 2);
    assert_eq!(buf.height(), 3);
    let bytes = buf.into_bytes();
    assert_eq!(bytes.len(), 2 * 3 * 3);
    assert!(bytes.iter().all(|&b| b == 0));
}

#[test]
fn set_then_get_pixel() {
    let mut buf = PixelBuffer::new(4, 2);
    let c = Rgb { r: 10, g: 20, b: 30 };
    buf.set_pixel(3, 1, c);
    assert_eq!(buf.get_pixel(3, 1), c);
    assert_eq!(buf.get_pixel(0, 0), Rgb { r: 0, g: 0, b: 0 });
}

#[test]
fn set_pixel_writes_row_major_bytes() {
    let mut buf = PixelBuffer::new(3, 2);
    buf.set_pixel(1, 1, Rgb { r: 7, g: 8, b: 9 });
    let bytes = buf.into_bytes();
    // pixel (1, 1) of a width-3 image is flat index 4, bytes 12..15
    assert_eq!(&bytes[12..15], &[7, 8, 9]);
    assert!(bytes[..12].iter().all(|&b| b == 0));
    assert!(bytes[15..].iter().all(|&b| b == 0));
}

#[test]
fn from_colors_lays_pixels_out_row_major() {
    let colors = vec![
        Rgb { r: 1, g: 2, b: 3 },
        Rgb { r: 4, g: 5, b: 6 },
        Rgb { r: 7, g: 8, b: 9 },
        Rgb { r: 10, g: 11, b: 12 },
    ];
    let buf = PixelBuffer::from_colors(2, 2, &colors);
    assert_eq!(buf.get_pixel(0, 0), colors[0]);
    assert_eq!(buf.get_pixel(1, 0), colors[1]);
    assert_eq!(buf.get_pixel(0, 1), colors[2]);
    assert_eq!(buf.get_pixel(1, 1), colors[3]);
    let bytes = buf.into_bytes();
    assert_eq!(bytes, vec![1, 2, 3, 4, 5, 6, 7, 8, 9, 10, 11, 12]);
}

#[test]
fn from_colors_is_reproducible() {
    // an 8 x 8 frame built twice from the same per-pixel colors is
    // byte-for-byte identical
    let mut colors = Vec::new();
    for i in 0..64u32 {
        colors.push(Rgb {
            r: (i * 3 % 256) as u8,
            g: (i * 5 % 256) as u8,
            b: (255 - i) as u8,
        });
    }
    let first = PixelBuffer::from_colors(8, 8, &colors).into_bytes();
    let second = PixelBuffer::from_colors(8, 8, &colors).into_bytes();
    assert_eq!(first, second);
}

#[test]
fn empty_buffer_has_no_bytes() {
    let buf = PixelBuffer::from_colors(0, 5, &Vec::new());
    assert_eq!(buf.width(), 0);
    assert_eq!(buf.height(), 5);
    assert!(buf.into_bytes().is_empty());
}

#[test]
fn single_pixel_buffer() {
    let colors = vec![Rgb { r: 9, g: 8, b: 7 }];
    let mut buf = PixelBuffer::from_colors(1, 1, &colors);
    assert_eq!(buf.get_pixel(0, 0), colors[0]);
    buf.invert();
    assert_eq!(buf.into_bytes(), vec![246, 247, 248]);
}

#[test]
fn invert_flips_every_byte() {
    let colors = vec![
        Rgb { r: 0, g: 255, b: 1 },
        Rgb { r: 100, g: 200, b: 50 },
    ];
    let mut buf = PixelBuffer::from_colors(2, 1, &colors);
    buf.invert();
    let bytes = buf.into_bytes();
    assert_eq!(bytes, vec![255, 0, 254, 155, 55, 205]);
}

#[test]
fn invert_twice_restores_every_byte_value() {
    // one pixel per byte value, so the round trip covers all of 0..=255
    let mut colors = Vec::new();
    for v in 0..=255u8 {
        colors.push(Rgb { r: v, g: 255 - v, b: v / 2 });
    }
    let original = PixelBuffer::from_colors(256, 1, &colors).into_bytes();
    let mut buf = PixelBuffer::from_colors(256, 1, &colors);
    buf.invert();
    buf.invert();
    assert_eq!(buf.into_bytes(), original);
}
