use bootloader::framebuffer::{Buffer, Pixel};
use bootloader::kitten::KittenPen;

const BLACK: Pixel = Pixel { red: 0, green: 0, blue: 0 };
const BACKGROUND: Pixel = Pixel { red: 3, green: 240, blue: 252 };

#[test]
fn new_buffer_is_black() {
    let buffer = Buffer::new(4, 3);
    assert_eq!(buffer.get_width(), 4);
    assert_eq!(buffer.get_height(), 3);
    assert_eq!(buffer.pixels(), &vec![BLACK; 12]);
}

#[test]
fn empty_buffers() {
    assert!(Buffer::new(0, 0).pixels().is_empty());
    assert!(Buffer::new(0, 7).pixels().is_empty());
    assert!(Buffer::new(7, 0).pixels().is_empty());
    assert_eq!(Buffer::new(0, 7).get_height(), 7);
}

#[test]
fn pixel_new_keeps_the_channels_apart() {
    assert_eq!(Pixel::new(1, 2, 3), Pixel { red: 1, green: 2, blue: 3 });
}

#[test]
fn set_pixel_writes_row_by_row() {
    let mut buffer = Buffer::new(4, 3);
    let red = Pixel::new(255, 0, 0);
    buffer.set_pixel(1, 2, red);
    let mut expected = vec![BLACK; 12];
    expected[2 * 4 + 1] = red;
    assert_eq!(buffer.pixels(), &expected);
    buffer.set_pixel(0, 0, red);
    buffer.set_pixel(3, 2, red);
    expected[0] = red;
    expected[11] = red;
    assert_eq!(buffer.pixels(), &expected);
    assert_eq!(buffer.get_width(), 4);
    assert_eq!(buffer.get_height(), 3);
}

#[test]
fn set_pixel_past_the_row_lands_in_the_next() {
    let mut buffer = Buffer::new(4, 3);
    let green = Pixel::new(0, 255, 0);
    buffer.set_pixel(5, 1, green);
    let mut expected = vec![BLACK; 12];
    expected[9] = green;
    assert_eq!(buffer.pixels(), &expected);
}

#[test]
fn pen_divides_the_size_by_the_factor() {
    let pen = KittenPen::new(1024, 768, 4);
    assert_eq!(pen.effective_width(), 256);
    assert_eq!(pen.effective_height(), 192);
    let pen = KittenPen::new(10, 7, 4);
    assert_eq!(pen.effective_width(), 2);
    assert_eq!(pen.effective_height(), 1);
    let pen = KittenPen::new(3, 3, 4);
    assert_eq!(pen.effective_width(), 0);
    assert_eq!(pen.buffer().pixels().len(), 9);
    assert_eq!(pen.buffer().get_width(), 3);
}

#[test]
fn paint_background_fills_every_pixel() {
    let mut pen = KittenPen::new(5, 3, 2);
    pen.paint_background();
    assert_eq!(pen.buffer().pixels(), &vec![BACKGROUND; 15]);
    assert_eq!(pen.effective_width(), 2);
    let mut empty = KittenPen::new(0, 3, 2);
    empty.paint_background();
    assert!(empty.buffer().pixels().is_empty());
}

#[test]
fn paint_effective_pixel_paints_a_square() {
    let mut pen = KittenPen::new(5, 4, 2);
    pen.paint_background();
    pen.paint_effective_pixel(1, 1);
    let b = BACKGROUND;
    let k = BLACK;
    let expected = vec![
        b, b, b, b, b,
        b, b, b, b, b,
        b, b, k, k, b,
        b, b, k, k, b,
    ];
    assert_eq!(pen.buffer().pixels(), &expected);
}

#[test]
fn paint_effective_pixel_at_the_origin() {
    let mut pen = KittenPen::new(4, 4, 4);
    pen.paint_background();
    pen.paint_effective_pixel(0, 0);
    assert_eq!(pen.buffer().pixels(), &vec![BLACK; 16]);
    let mut pen = KittenPen::new(3, 2, 1);
    pen.paint_background();
    pen.paint_effective_pixel(0, 0);
    pen.paint_effective_pixel(2, 1);
    let b = BACKGROUND;
    let k = BLACK;
    assert_eq!(pen.buffer().pixels(), &vec![k, b, b, b, b, k]);
}
