use raycast::canvas::{Canvas, Pixel};
use raycast::ppm::{header_bytes, push_decimal, push_pixel_line};

fn text(bytes: Vec<u8>) -> String {
    String::from_utf8(bytes).unwrap()
}

#[test]
fn new_canvas_is_black() {
    let c = Canvas::<3, 2>::new();
    for row in 0..2 {
        for col in 0..3 {
            assert_eq!(c.pixel(row, col), Pixel::black());
        }
    }
}

#[test]
fn put_color_changes_one_pixel() {
    let mut c = Canvas::<3, 2>::new();
    let red = Pixel { red: 255, green: 0, blue: 0 };
    c.put_color(1, 2, red);
    assert_eq!(c.pixel(1, 2), red);
    assert_eq!(c.pixel(0, 2), Pixel::black());
    assert_eq!(c.pixel(1, 1), Pixel::black());
    assert_eq!(c.pixel(0, 0), Pixel::black());
}

#[test]
fn map_pixels_fills_row_major() {
    let mut c = Canvas::<4, 3>::new();
    c.map_pixels(|row, col| Pixel { red: row as u8, green: col as u8, blue: 7 });
    for row in 0..3 {
        for col in 0..4 {
            assert_eq!(c.pixel(row, col), Pixel { red: row as u8, green: col as u8, blue: 7 });
        }
    }
}

#[test]
fn black_canvas_serializes_to_zero_lines() {
    let c = Canvas::<3, 2>::new();
    let mut expected = String::from("P3\n3 2\n255\n");
    for _ in 0..6 {
        expected.push_str("0 0 0\n");
    }
    assert_eq!(text(c.serialize()), expected);
}

#[test]
fn one_by_one_black_canvas() {
    let c = Canvas::<1, 1>::new();
    assert_eq!(text(c.serialize()), "P3\n1 1\n255\n0 0 0\n");
}

#[test]
fn serialize_is_row_major_top_row_first() {
    let mut c = Canvas::<2, 2>::new();
    c.put_color(0, 1, Pixel { red: 1, green: 2, blue: 3 });
    c.put_color(1, 0, Pixel { red: 255, green: 128, blue: 10 });
    assert_eq!(
        text(c.serialize()),
        "P3\n2 2\n255\n0 0 0\n1 2 3\n255 128 10\n0 0 0\n"
    );
}

#[test]
fn ambient_red_center_pixel_line() {
    // round(1.0 * 0.2 * 255) on red, nothing on green and blue
    let mut c = Canvas::<3, 3>::new();
    c.put_color(1, 1, Pixel { red: 51, green: 0, blue: 0 });
    let out = text(c.serialize());
    let lines: Vec<&str> = out.lines().collect();
    assert_eq!(lines[3 + 4], "51 0 0");
}

#[test]
fn header_of_large_image() {
    assert_eq!(text(header_bytes(700, 700)), "P3\n700 700\n255\n");
    assert_eq!(text(header_bytes(0, 10)), "P3\n0 10\n255\n");
}

#[test]
fn decimal_digits() {
    let mut out = Vec::new();
    push_decimal(&mut out, 0);
    out.push(b',');
    push_decimal(&mut out, 9);
    out.push(b',');
    push_decimal(&mut out, 10);
    out.push(b',');
    push_decimal(&mut out, 255);
    out.push(b',');
    push_decimal(&mut out, 1234567890);
    assert_eq!(text(out), "0,9,10,255,1234567890");
}

#[test]
fn pixel_line_appends() {
    let mut out = b"x".to_vec();
    push_pixel_line(&mut out, Pixel { red: 0, green: 100, blue: 255 });
    assert_eq!(text(out), "x0 100 255\n");
}
