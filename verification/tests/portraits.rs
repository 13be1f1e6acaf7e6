use image::{DynamicImage, ImageFormat, Rgba, RgbaImage};
use sirucord::avatars::{describe, placeholder_pixel, Avatar, AvatarError};
use sirucord::portraits::{arrange, collage, placeholder, portrait, PIXEL_BYTES, PORTRAIT_EDGE};
use std::io::Cursor;

fn png(width: u32, height: u32, color: [u8; 4]) -> Vec<u8> {
    let image = RgbaImage::from_pixel(width, height, Rgba(color));
    let mut out = Cursor::new(Vec::new());
    DynamicImage::ImageRgba8(image).write_to(&mut out, ImageFormat::Png).unwrap();
    out.into_inner()
}

fn person(name: &str) -> Avatar {
    Avatar { name: name.into(), url: String::new(), streaming: false, game: None }
}

#[test]
fn portraits_are_squares_of_the_downloaded_image() {
    for (width, height) in [(64, 32), (1, 1), (300, 700), (1024, 1)] {
        let pixels = portrait(&Some(png(width, height, [200, 10, 30, 255]))).unwrap();
        assert_eq!(pixels.len(), PIXEL_BYTES);
        assert!(pixels.chunks(4).all(|pixel| pixel == [200, 10, 30, 255]), "{width}x{height}");
    }
}

#[test]
fn the_middle_of_an_oblong_image_is_shown() {
    let image = RgbaImage::from_fn(384, 128, |x, _| {
        if (128..256).contains(&x) {
            Rgba([0, 255, 0, 255])
        } else {
            Rgba([255, 0, 0, 255])
        }
    });
    let mut out = Cursor::new(Vec::new());
    DynamicImage::ImageRgba8(image).write_to(&mut out, ImageFormat::Png).unwrap();
    let pixels = portrait(&Some(out.into_inner())).unwrap();
    assert!(pixels.chunks(4).all(|pixel| pixel == [0, 255, 0, 255]));
}

#[test]
fn what_cannot_be_decoded_is_missing() {
    assert!(portrait(&None).is_none());
    assert!(portrait(&Some(Vec::new())).is_none());
    assert!(portrait(&Some(b"no image".to_vec())).is_none());
    let whole = png(8, 8, [1, 2, 3, 255]);
    assert!(portrait(&Some(whole[..whole.len() / 2].to_vec())).is_none());
    // Too long an edge.
    assert!(portrait(&Some(png(1025, 1, [1, 2, 3, 255]))).is_none());
    assert!(portrait(&Some(png(1, 1025, [1, 2, 3, 255]))).is_none());
}

#[test]
fn a_figure_stands_for_a_missing_portrait() {
    let pixels = placeholder();
    assert_eq!(pixels.len(), PIXEL_BYTES);
    for y in 0..PORTRAIT_EDGE {
        for x in 0..PORTRAIT_EDGE {
            let i = ((y * PORTRAIT_EDGE + x) * 4) as usize;
            assert_eq!(pixels[i..i + 4], placeholder_pixel(x, y));
        }
    }
    assert_eq!(pixels[..4], [74, 82, 101, 255]);
    let (images, missing) = arrange(vec![None, Some(vec![7]), None]);
    assert_eq!(missing, 2);
    assert_eq!(images, [placeholder(), vec![7], placeholder()]);
}

#[test]
fn a_card_has_a_portrait_of_each_participant_in_order() {
    let people = vec![person("Alice"), person("Bob"), person("Carol")];
    let downloads = vec![Some(png(2, 2, [9, 9, 9, 255])), None, Some(b"broken".to_vec())];
    let card = collage(&people, &downloads).ok().unwrap();
    assert_eq!(card.images.len(), 3);
    assert_eq!(card.images[0], portrait(&downloads[0]).unwrap());
    assert_eq!(card.images[1], placeholder());
    assert_eq!(card.images[2], placeholder());
    assert_eq!(card.missing, 2);
    assert_eq!(card.description, describe(&people, 2));
    assert!(card.description.contains("Alice、Bob、Carol"));
    assert!(card.description.contains("灰色の人型"));
    for count in [0, 1, 257] {
        let people: Vec<Avatar> = (0..count).map(|_| person("A")).collect();
        let downloads: Vec<Option<Vec<u8>>> = (0..count).map(|_| None).collect();
        assert_eq!(collage(&people, &downloads).err(), Some(AvatarError::Count));
    }
    assert_eq!(AvatarError::Count.message(), "Avatar grid requires 2–256 participants");
}
