use std::rc::Rc;

use engine_gfx::bitmap::Image;
use engine_gfx::texture::AtlasError;
use engine_gfx::texture::ImagePack;
use engine_gfx::texture::Texture;
use engine_gfx::texture::TextureAtlas;
use engine_gfx::texture::TextureRegion;

fn regions_disjoint(a: &TextureRegion, b: &TextureRegion) -> bool {
    a.x + a.width <= b.x || b.x + b.width <= a.x || a.y + a.height <= b.y || b.y + b.height <= a.y
}

fn region_inside(a: &TextureRegion, width: u32, height: u32) -> bool {
    a.x + a.width <= width && a.y + a.height <= height
}

fn atlas_of(pack: &ImagePack) -> TextureAtlas {
    let bitmap = pack.get_bitmap();
    let texture = Rc::new(Texture::from_raw(0, bitmap.width(), bitmap.height()));
    TextureAtlas::from_image_pack(pack, texture)
}

#[test]
fn round_trip_returns_identical_pixels() {
    let mut pack = ImagePack::new();
    let mut img = Image::from_color(3, 2, 0x10_20_30_40);
    img.set_rgba8(1, 1, 0xAB_CD_EF_01);
    let expected = img.get_buffer().clone();
    assert_eq!(pack.add_image("patterned", img), Ok(()));
    let out = pack.get_image("patterned").unwrap();
    assert_eq!(out.width(), 3);
    assert_eq!(out.height(), 2);
    assert_eq!(out.get_buffer(), &expected);
}

#[test]
fn two_images_then_tiny_one() {
    let mut pack = ImagePack::new();
    assert_eq!(pack.add_image("a", Image::from_color(10, 10, 0xFF_00_00_FF)), Ok(()));
    assert_eq!(pack.add_image("b", Image::from_color(10, 10, 0x00_FF_00_FF)), Ok(()));

    let bitmap_area = pack.get_bitmap().width() * pack.get_bitmap().height();
    assert!(bitmap_area >= 200);

    let atlas = atlas_of(&pack);
    let ra = atlas.get("a").unwrap();
    let rb = atlas.get("b").unwrap();
    assert_eq!((ra.width, ra.height), (10, 10));
    assert_eq!((rb.width, rb.height), (10, 10));
    assert!(regions_disjoint(&ra, &rb));

    assert_eq!(pack.add_image("c", Image::from_color(1, 1, 0xFF_FF_FF_FF)), Ok(()));
    let atlas = atlas_of(&pack);
    let ra = atlas.get("a").unwrap();
    let rb = atlas.get("b").unwrap();
    let rc = atlas.get("c").unwrap();
    assert_eq!((rc.width, rc.height), (1, 1));
    assert!(regions_disjoint(&ra, &rb));
    assert!(regions_disjoint(&ra, &rc));
    assert!(regions_disjoint(&rb, &rc));
    let w = pack.get_bitmap().width();
    let h = pack.get_bitmap().height();
    assert!(region_inside(&ra, w, h));
    assert!(region_inside(&rb, w, h));
    assert!(region_inside(&rc, w, h));
}

#[test]
fn wide_image_doubles_width_until_it_fits() {
    let mut pack = ImagePack::new();
    assert_eq!(pack.add_image("seed", Image::from_color(4, 4, 0x01_02_03_04)), Ok(()));
    assert_eq!(pack.get_bitmap().width(), 4);
    assert_eq!(pack.get_bitmap().height(), 4);

    assert_eq!(pack.add_image("wide", Image::from_color(100, 4, 0xAA_BB_CC_DD)), Ok(()));
    assert_eq!(pack.get_bitmap().width(), 128);

    let atlas = atlas_of(&pack);
    let wide = atlas.get("wide").unwrap();
    assert_eq!(wide.x, 0);
    assert_eq!((wide.width, wide.height), (100, 4));

    let seed = pack.get_image("seed").unwrap();
    assert_eq!(seed.get_buffer(), Image::from_color(4, 4, 0x01_02_03_04).get_buffer());
    let wide_img = pack.get_image("wide").unwrap();
    assert_eq!(wide_img.get_buffer(), Image::from_color(100, 4, 0xAA_BB_CC_DD).get_buffer());
}

#[test]
fn growth_preserves_previous_placements() {
    let mut pack = ImagePack::new();
    let names = ["g0", "g1", "g2", "g3", "g4"];
    for (i, name) in names.iter().enumerate() {
        let color = ((i as u32 + 1) << 24) | 0xFF;
        assert_eq!(pack.add_image(name, Image::from_color(8, 8, color)), Ok(()));
    }
    // Five 8x8 images cannot share the bootstrap 8x8 bitmap: growth happened.
    let w = pack.get_bitmap().width();
    let h = pack.get_bitmap().height();
    assert!(w * h >= 5 * 64);
    assert!(w > 8 || h > 8);

    for (i, name) in names.iter().enumerate() {
        let color = ((i as u32 + 1) << 24) | 0xFF;
        let img = pack.get_image(name).unwrap();
        assert_eq!(img.get_buffer(), Image::from_color(8, 8, color).get_buffer());
    }

    let atlas = atlas_of(&pack);
    let regions: Vec<TextureRegion> = names.iter().map(|n| atlas.get(n).unwrap()).collect();
    for i in 0..regions.len() {
        assert!(region_inside(&regions[i], w, h));
        for j in 0..i {
            assert!(regions_disjoint(&regions[i], &regions[j]));
        }
    }
}

#[test]
fn duplicate_name_is_rejected() {
    let mut pack = ImagePack::new();
    assert_eq!(pack.add_image("a", Image::from_color(2, 2, 1)), Ok(()));
    assert_eq!(
        pack.add_image("a", Image::from_color(3, 3, 2)),
        Err(AtlasError::DuplicateName)
    );
    // The first image is untouched.
    let img = pack.get_image("a").unwrap();
    assert_eq!(img.width(), 2);
}

#[test]
fn zero_sized_image_is_rejected() {
    let mut pack = ImagePack::new();
    assert_eq!(
        pack.add_image("empty", Image::from_color(0, 5, 0)),
        Err(AtlasError::InvalidImageDimensions)
    );
    assert_eq!(
        pack.add_image("flat", Image::from_color(5, 0, 0)),
        Err(AtlasError::InvalidImageDimensions)
    );
}

#[test]
fn unknown_name_is_reported() {
    let mut pack = ImagePack::new();
    assert!(matches!(pack.get_image("missing"), Err(AtlasError::UnknownName)));
    assert_eq!(pack.add_image("a", Image::from_color(2, 2, 1)), Ok(()));
    assert!(matches!(pack.get_image("missing"), Err(AtlasError::UnknownName)));
    let atlas = atlas_of(&pack);
    assert!(matches!(atlas.get("missing"), Err(AtlasError::UnknownName)));
}

#[test]
fn dropping_the_atlas_invalidates_every_region() {
    let mut pack = ImagePack::new();
    assert_eq!(pack.add_image("a", Image::from_color(4, 4, 1)), Ok(()));
    assert_eq!(pack.add_image("b", Image::from_color(4, 4, 2)), Ok(()));

    let atlas = atlas_of(&pack);
    let ra = atlas.get("a").unwrap();
    let rb = atlas.get("b").unwrap();
    let ra2 = ra.clone();

    assert!(ra.is_valid());
    assert!(rb.is_valid());
    assert!(ra.has_same_texture(&rb));
    assert!(ra.has_same_texture(&ra2));
    assert!(ra.texture().is_some());

    drop(atlas);

    assert!(!ra.is_valid());
    assert!(!rb.is_valid());
    assert!(!ra2.is_valid());
    assert!(ra.texture().is_none());
    // Identity survives expiry: both handles still point at the same
    // (now freed) allocation.
    assert!(ra.has_same_texture(&rb));
}

#[test]
fn atlas_texture_keeps_regions_alive() {
    let mut pack = ImagePack::new();
    assert_eq!(pack.add_image("a", Image::from_color(4, 4, 1)), Ok(()));
    let atlas = atlas_of(&pack);
    let ra = atlas.get("a").unwrap();
    let strong = atlas.texture();
    assert!(ra.is_valid());
    drop(strong);
    assert!(!ra.is_valid());
}

#[test]
fn invalid_region_never_validates() {
    let r = TextureRegion::new_invalid();
    assert!(!r.is_valid());
    assert!(r.texture().is_none());
    assert_eq!((r.x, r.y, r.width, r.height), (0, 0, 0, 0));
    let other = TextureRegion::new_invalid();
    // Two empty references point at no allocation at all.
    assert!(r.has_same_texture(&other));
    // A clone of the empty region is just as empty.
    let cloned = r.clone();
    assert!(!cloned.is_valid());
    assert!(cloned.has_same_texture(&r));
}

#[test]
fn atlas_texture_ref_borrows_without_consuming() {
    let mut pack = ImagePack::new();
    assert_eq!(pack.add_image("a", Image::from_color(4, 4, 1)), Ok(()));
    let atlas = atlas_of(&pack);
    assert_eq!(atlas.texture_ref().width(), 4);
    assert_eq!(atlas.texture_ref().height(), 4);
    // The atlas is still usable afterwards.
    let ra = atlas.get("a").unwrap();
    assert!(ra.is_valid());
}

#[test]
fn set_stores_a_region_of_the_atlas_texture() {
    let mut pack = ImagePack::new();
    assert_eq!(pack.add_image("a", Image::from_color(8, 8, 1)), Ok(()));
    let mut atlas = atlas_of(&pack);
    let own = TextureRegion::new(2, 3, 4, 5, atlas.texture_ref());

    // Overwrite an existing name.
    assert!(atlas.set("a", own.clone()));
    let ra = atlas.get("a").unwrap();
    assert_eq!((ra.x, ra.y, ra.width, ra.height), (2, 3, 4, 5));

    // Store a fresh name.
    assert!(atlas.set("extra", own));
    let re = atlas.get("extra").unwrap();
    assert_eq!((re.x, re.y, re.width, re.height), (2, 3, 4, 5));
    assert!(re.has_same_texture(&ra));
}

#[test]
fn set_refuses_a_region_of_another_texture() {
    let mut pack = ImagePack::new();
    assert_eq!(pack.add_image("a", Image::from_color(8, 8, 1)), Ok(()));
    let mut atlas = atlas_of(&pack);

    let other_texture = Rc::new(Texture::from_raw(1, 16, 16));
    let foreign = TextureRegion::new(0, 0, 16, 16, &other_texture);
    assert!(!atlas.set("a", foreign));
    assert!(!atlas.set("a", TextureRegion::new_invalid()));

    // The original region is untouched.
    let ra = atlas.get("a").unwrap();
    assert_eq!((ra.width, ra.height), (8, 8));
    assert!(matches!(atlas.get("extra"), Err(AtlasError::UnknownName)));
}

#[test]
fn whole_region_covers_the_texture() {
    let tex = Rc::new(Texture::from_raw(5, 32, 16));
    let r = TextureRegion::new_whole(&tex);
    assert_eq!((r.x, r.y, r.width, r.height), (0, 0, 32, 16));
    assert!(r.is_valid());
    let sub = TextureRegion::new(4, 8, 2, 2, &tex);
    assert!(sub.has_same_texture(&r));
    assert!(!sub.has_same_texture(&TextureRegion::new_invalid()));
    drop(tex);
    assert!(!r.is_valid());
}
