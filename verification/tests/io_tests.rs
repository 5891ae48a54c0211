use ard::color::Color;
use ard::fixed::Fx;
use ard::io::OutputStream;
use ard::RenderBuffer;

#[test]
fn little_endian_writers_lay_out_bytes_low_first() {
    let mut out = OutputStream::new();
    out.write(&[0xAAu8, 0xBB]);
    out.write_u16_le(0x1234);
    out.write_u32_le(0xDEADBEEF);
    assert_eq!(
        out.as_bytes().as_slice(),
        &[0xAA, 0xBB, 0x34, 0x12, 0xEF, 0xBE, 0xAD, 0xDE]
    );
}

#[test]
fn bitmap_encoding_starts_with_the_bmp_magic_and_sizes() {
    let mut buffer = RenderBuffer::new(2, 2);
    let red = Color { r: Fx::one(), g: Fx::zero(), b: Fx::zero(), a: Fx::one() };
    buffer.set_pixel(0, 0, red);
    let out = buffer.write_bmp();
    let bytes = out.as_bytes();
    // 54 header bytes, then 2 rows of (2 * 3 + 2 padding) bytes.
    assert_eq!(bytes.len(), 54 + 2 * 8);
    assert_eq!(bytes[0], 0x42);
    assert_eq!(bytes[1], 0x4D);
    // File size, little-endian.
    let file_size = 54 + 16;
    assert_eq!(bytes[2] as usize, file_size);
    assert_eq!(bytes[3], 0);
    // Width and height at offsets 18 and 22.
    assert_eq!(bytes[18], 2);
    assert_eq!(bytes[22], 2);
    // Rows are bottom-up and BGR: the red pixel at (0, 0) lands in
    // the second encoded row.
    assert_eq!(&bytes[54..57], &[0, 0, 0]);
    assert_eq!(&bytes[62..65], &[0, 0, 255]);
}

#[test]
fn set_pixel_line_replaces_exactly_one_row() {
    let mut buffer = RenderBuffer::new(3, 2);
    let white = Color::white();
    let row = vec![white, white, white];
    buffer.set_pixel_line(1, &row);
    for x in 0..3u32 {
        assert_eq!(buffer.pixel(x, 1), white);
        assert_eq!(buffer.pixel(x, 0).r.raw, 0);
    }
}

#[test]
fn draw_line_paints_only_the_line_color() {
    let mut buffer = RenderBuffer::new(16, 16);
    ard::preview::draw_line(&mut buffer, 0, 3, 15, 3);
    let mut painted = 0;
    for y in 0..16u32 {
        for x in 0..16u32 {
            let p = buffer.pixel(x, y);
            if p.a.raw != 0 {
                // Touched pixels hold the grey line color.
                assert_eq!(p.r.raw, 13107);
                assert_eq!(p.g.raw, 13107);
                assert_eq!(p.b.raw, 13107);
                assert_eq!(y, 3);
                painted += 1;
            }
        }
    }
    assert_eq!(painted, 15);
}
