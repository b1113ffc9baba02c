//! Tests of decoding, trimming and compositing.

use pokeget::list::List;
use pokeget::pokemon::{Attributes, PokeError, Pokemon};
use pokeget::sprites::{combine, decode_sprite, trim, Bitmap, Pixel};

fn px(r: u8, g: u8, b: u8, a: u8) -> Pixel {
    Pixel { r, g, b, a }
}

fn clear() -> Pixel {
    px(0, 0, 0, 0)
}

/// A solid bitmap of one colour.
fn solid(width: u32, height: u32, color: Pixel) -> Bitmap {
    Bitmap { width, height, pixels: vec![color; (width * height) as usize] }
}

fn plain_attributes() -> Attributes {
    Attributes { form: String::new(), female: false, shiny: false }
}

fn wrap(sprite: Bitmap) -> Pokemon {
    Pokemon {
        path: String::new(),
        name: String::new(),
        sprite,
        attributes: plain_attributes(),
    }
}

/// Encodes a bitmap as PNG bytes through the image library.
fn png_bytes(b: &Bitmap) -> Vec<u8> {
    let mut img = image::RgbaImage::new(b.width, b.height);
    for y in 0..b.height {
        for x in 0..b.width {
            let p = b.pixels[(y * b.width + x) as usize];
            img.put_pixel(x, y, image::Rgba([p.r, p.g, p.b, p.a]));
        }
    }
    let mut buf = Vec::new();
    image::DynamicImage::ImageRgba8(img)
        .write_to(&mut std::io::Cursor::new(&mut buf), image::ImageFormat::Png)
        .unwrap();
    buf
}

#[test]
fn decode_recovers_the_pixels() {
    let mut b = solid(2, 2, px(10, 20, 30, 255));
    b.pixels[3] = px(1, 2, 3, 4);
    let bytes = png_bytes(&b);
    let d = decode_sprite(&bytes).unwrap();
    assert_eq!(d.width, 2);
    assert_eq!(d.height, 2);
    assert_eq!(d.pixels, b.pixels);
}

#[test]
fn decode_rejects_garbage() {
    match decode_sprite(b"not a png at all") {
        Err(e) => assert_eq!(e, PokeError::MalformedImageData),
        Ok(_) => panic!("garbage decoded"),
    }
}

#[test]
fn trim_crops_to_the_opaque_bounding_box() {
    // a 5x4 canvas, opaque only on the rectangle x in 1..=3, y in 1..=2
    let mut b = solid(5, 4, clear());
    for y in 1..=2u32 {
        for x in 1..=3u32 {
            b.pixels[(y * 5 + x) as usize] = px(9, 9, 9, 255);
        }
    }
    let t = trim(&b);
    assert_eq!(t.width, 3);
    assert_eq!(t.height, 2);
    assert!(t.pixels.iter().all(|p| p.a == 255));
}

#[test]
fn trim_keeps_a_single_opaque_pixel() {
    let mut b = solid(4, 3, clear());
    b.pixels[(1 * 4 + 2) as usize] = px(7, 8, 9, 1);
    let t = trim(&b);
    assert_eq!(t.width, 1);
    assert_eq!(t.height, 1);
    assert_eq!(t.pixels[0], px(7, 8, 9, 1));
}

#[test]
fn trim_leaves_fully_transparent_bitmaps_alone() {
    let b = solid(3, 2, clear());
    let t = trim(&b);
    assert_eq!(t.width, 3);
    assert_eq!(t.height, 2);
    assert_eq!(t.pixels, b.pixels);
}

#[test]
fn composite_geometry() {
    // two trimmed sprites of 10x8 and 6x12
    let a = px(100, 0, 0, 255);
    let b = px(0, 100, 0, 255);
    let first = wrap(solid(10, 8, a));
    let second = wrap(solid(6, 12, b));
    let c = combine(&[first, second]);
    assert_eq!(c.width, 17);
    assert_eq!(c.height, 12);
    // the first sprite is bottom-aligned: its top-left lands at (0, 4)
    assert_eq!(c.pixel_at(0, 4), a);
    assert_eq!(c.pixel_at(9, 11), a);
    assert_eq!(c.pixel_at(0, 3), clear());
    // the separator column stays transparent
    assert_eq!(c.pixel_at(10, 11), clear());
    // the second sprite starts at (11, 0)
    assert_eq!(c.pixel_at(11, 0), b);
    assert_eq!(c.pixel_at(16, 11), b);
}

#[test]
fn composite_of_one_sprite_copies_it() {
    let a = px(1, 2, 3, 255);
    let c = combine(&[wrap(solid(4, 5, a))]);
    assert_eq!(c.width, 4);
    assert_eq!(c.height, 5);
    assert_eq!(c.pixel_at(3, 4), a);
}

#[test]
fn pokemon_new_decodes_trims_and_formats() {
    let list = List::read("Abra,abra\n").unwrap();
    // an 4x4 sprite with a 1-pixel transparent border
    let mut b = solid(4, 4, clear());
    for y in 1..=2u32 {
        for x in 1..=2u32 {
            b.pixels[(y * 4 + x) as usize] = px(5, 6, 7, 255);
        }
    }
    let bytes = png_bytes(&b);
    let attrs = plain_attributes();
    let p = Pokemon::new("regular/abra.png".to_string(), "abra", &bytes, &list, &attrs).unwrap();
    assert_eq!(p.path, "regular/abra.png");
    assert_eq!(p.name, "Abra");
    assert_eq!(p.sprite.width, 2);
    assert_eq!(p.sprite.height, 2);
}

#[test]
fn pokemon_new_rejects_bad_bytes() {
    let list = List::read("Abra,abra\n").unwrap();
    let attrs = plain_attributes();
    match Pokemon::new("p".to_string(), "abra", b"junk", &list, &attrs) {
        Err(e) => assert_eq!(e, PokeError::MalformedImageData),
        Ok(_) => panic!("junk bytes made a pokemon"),
    }
}
