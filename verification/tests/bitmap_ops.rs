use engine_gfx::bitmap::Image;

#[test]
fn from_color_fills_every_pixel() {
    let img = Image::from_color(2, 2, 0x11_22_33_44);
    assert_eq!(img.width(), 2);
    assert_eq!(img.height(), 2);
    assert_eq!(
        img.get_buffer().as_slice(),
        &[
            0x11, 0x22, 0x33, 0x44, 0x11, 0x22, 0x33, 0x44, 0x11, 0x22, 0x33, 0x44, 0x11, 0x22,
            0x33, 0x44
        ]
    );
    assert_eq!(img.get_rgba8(1, 1), 0x11_22_33_44);
    assert_eq!(img.get_r8(0, 1), 0x11);
    assert_eq!(img.get_g8(0, 1), 0x22);
    assert_eq!(img.get_b8(0, 1), 0x33);
    assert_eq!(img.get_a8(0, 1), 0x44);
}

#[test]
fn new_wraps_buffer() {
    let img = Image::new(2, 1, vec![1, 2, 3, 4, 5, 6, 7, 8]);
    assert_eq!(img.get_rgba8(0, 0), 0x01_02_03_04);
    assert_eq!(img.get_rgba8(1, 0), 0x05_06_07_08);
}

#[test]
fn set_pixel_leaves_others_unchanged() {
    let mut img = Image::from_color(3, 3, 0x00_00_00_00);
    img.set_rgba8(1, 2, 0xAA_BB_CC_DD);
    assert_eq!(img.get_rgba8(1, 2), 0xAA_BB_CC_DD);
    assert_eq!(img.get_rgba8(2, 2), 0);
    assert_eq!(img.get_rgba8(1, 1), 0);

    img.set_r8(0, 0, 9);
    assert_eq!(img.get_r8(0, 0), 9);
    assert_eq!(img.get_g8(0, 0), 0);
    img.set_g8(0, 0, 8);
    img.set_b8(0, 0, 7);
    img.set_a8(0, 0, 6);
    assert_eq!(img.get_rgba8(0, 0), 0x09_08_07_06);
    assert_eq!(img.get_rgba8(1, 2), 0xAA_BB_CC_DD);
}

#[test]
fn crop_copies_the_sub_rectangle() {
    let mut img = Image::from_color(4, 4, 0x00_00_00_00);
    for y in 0..4u32 {
        for x in 0..4u32 {
            img.set_rgba8(x, y, (x << 24) | (y << 8));
        }
    }
    let sub = img.crop(1, 2, 2, 2);
    assert_eq!(sub.width(), 2);
    assert_eq!(sub.height(), 2);
    assert_eq!(sub.get_rgba8(0, 0), (1 << 24) | (2 << 8));
    assert_eq!(sub.get_rgba8(1, 0), (2 << 24) | (2 << 8));
    assert_eq!(sub.get_rgba8(0, 1), (1 << 24) | (3 << 8));
    assert_eq!(sub.get_rgba8(1, 1), (2 << 24) | (3 << 8));
}

#[test]
fn draw_blits_at_offset() {
    let mut canvas = Image::from_color(4, 4, 0x01_01_01_01);
    let stamp = Image::from_color(2, 2, 0xFF_00_00_FF);
    canvas.draw(1, 1, stamp);
    assert_eq!(canvas.get_rgba8(0, 0), 0x01_01_01_01);
    assert_eq!(canvas.get_rgba8(1, 1), 0xFF_00_00_FF);
    assert_eq!(canvas.get_rgba8(2, 2), 0xFF_00_00_FF);
    assert_eq!(canvas.get_rgba8(3, 3), 0x01_01_01_01);
    assert_eq!(canvas.get_rgba8(3, 1), 0x01_01_01_01);
}

#[test]
fn resize_grow_preserves_content_and_zeroes_the_rest() {
    let mut img = Image::from_color(2, 2, 0xDE_AD_BE_EF);
    img.resize(3, 3);
    assert_eq!(img.width(), 3);
    assert_eq!(img.height(), 3);
    for y in 0..2u32 {
        for x in 0..2u32 {
            assert_eq!(img.get_rgba8(x, y), 0xDE_AD_BE_EF);
        }
    }
    assert_eq!(img.get_rgba8(2, 0), 0);
    assert_eq!(img.get_rgba8(0, 2), 0);
    assert_eq!(img.get_rgba8(2, 2), 0);
}

#[test]
fn resize_shrink_keeps_top_left() {
    let mut img = Image::from_color(3, 3, 0x00_00_00_00);
    img.set_rgba8(0, 0, 0x0A_00_00_00);
    img.set_rgba8(1, 1, 0x0B_00_00_00);
    img.set_rgba8(2, 2, 0x0C_00_00_00);
    img.resize(2, 2);
    assert_eq!(img.width(), 2);
    assert_eq!(img.height(), 2);
    assert_eq!(img.get_rgba8(0, 0), 0x0A_00_00_00);
    assert_eq!(img.get_rgba8(1, 1), 0x0B_00_00_00);
}

#[test]
fn flip_reverses_pixel_order() {
    let mut img = Image::from_color(2, 1, 0x00_00_00_00);
    img.set_rgba8(0, 0, 0xAA_00_00_00);
    img.set_rgba8(1, 0, 0xBB_00_00_00);
    let flipped = img.flip_horizontally();
    assert_eq!(flipped.get_rgba8(0, 0), 0xBB_00_00_00);
    assert_eq!(flipped.get_rgba8(1, 0), 0xAA_00_00_00);

    let mut sq = Image::from_color(2, 2, 0x00_00_00_00);
    sq.set_rgba8(0, 0, 0x01_00_00_00);
    sq.set_rgba8(1, 0, 0x02_00_00_00);
    sq.set_rgba8(0, 1, 0x03_00_00_00);
    sq.set_rgba8(1, 1, 0x04_00_00_00);
    let fsq = sq.flip_horizontally();
    assert_eq!(fsq.get_rgba8(0, 0), 0x04_00_00_00);
    assert_eq!(fsq.get_rgba8(1, 0), 0x03_00_00_00);
    assert_eq!(fsq.get_rgba8(0, 1), 0x02_00_00_00);
    assert_eq!(fsq.get_rgba8(1, 1), 0x01_00_00_00);
}
