//! The portraits of a card: what is decoded of what was downloaded, and what stands for the
//! rest.
use vstd::prelude::*;
use vstd::string::*;

use crate::avatars::{
    card_fits, card_text, describe, on_figure, placeholder_pixel, Avatar, AvatarError, AvatarView,
};
use crate::text::first;

use image::imageops::FilterType;
use image::{ImageReader, Limits};
use std::io::Cursor;

verus! {

/// How the pixels of an image are weighed when it is resized.
#[derive(Clone, Copy, Debug, PartialEq, Eq, Structural)]
pub enum Sampling {
    Nearest,
    Triangle,
}

/// The width and the height that an image file tells.
pub uninterp spec fn dimensions_of(bytes: Seq<u8>) -> Option<(u32, u32)>;

/// `image::ImageReader::with_guessed_format` and `into_dimensions`: the width and the height of
/// an image file, or nothing where the bytes are none. They depend on the bytes alone.
#[verifier::external_body]
fn image_size(bytes: &[u8]) -> (r: Option<(u32, u32)>)
    ensures
        r == dimensions_of(bytes@),
{
    ImageReader::new(Cursor::new(bytes)).with_guessed_format().ok()?.into_dimensions().ok()
}

/// The pixels of an image file, resized to fill a square.
pub uninterp spec fn decoded(
    bytes: Seq<u8>,
    edge: u32,
    allocation: u64,
    size: u32,
    sampling: Sampling,
) -> Option<Seq<u8>>;

/// `image::ImageReader::decode` under `Limits` on the edges and on the memory, then
/// `resize_to_fill`, `into_rgba8` and `into_raw`: the pixels of an image file, cut and resized
/// to fill a square, four bytes each, row by row; or nothing where the bytes are no image or a
/// limit is exceeded. They depend on the arguments alone. An image without pixels cannot be
/// resized, nor one that would take more than a gibibyte before it is cut, at sixteen bytes for
/// a pixel.
#[verifier::external_body]
fn decode_image(bytes: &[u8], edge: u32, allocation: u64, size: u32, sampling: Sampling) -> (r:
    Option<Vec<u8>>)
    requires
        dimensions_of(bytes@) matches Some((width, height)) && width > 0 && height > 0,
        size > 0,
        edge * size * size <= 0x400_0000,
    ensures
        r.deep_view() == decoded(bytes@, edge, allocation, size, sampling),
        r matches Some(pixels) ==> pixels@.len() == 4 * size * size,
{
    let mut reader = ImageReader::new(Cursor::new(bytes)).with_guessed_format().ok()?;
    let mut limits = Limits::default();
    limits.max_image_width = Some(edge);
    limits.max_image_height = Some(edge);
    limits.max_alloc = Some(allocation);
    reader.limits(limits);
    let filter = match sampling {
        Sampling::Nearest => FilterType::Nearest,
        Sampling::Triangle => FilterType::Triangle,
    };
    Some(reader.decode().ok()?.resize_to_fill(size, size, filter).into_rgba8().into_raw())
}

/// The longest edge of a portrait that is decoded, in pixels.
pub const LONGEST_EDGE: u32 = 1024;

/// How much memory the decoding of a portrait may take, in bytes.
pub const DECODING_BYTES: u64 = 8_388_608;

/// The edge of a portrait, in pixels.
pub const PORTRAIT_EDGE: u32 = 128;

/// How many bytes the pixels of a portrait are.
pub const PIXEL_BYTES: usize = 65_536;

/// The pixels of a portrait, where an image with pixels was downloaded and can be decoded
/// within the limits.
pub open spec fn portrait_of(bytes: Option<Seq<u8>>) -> Option<Seq<u8>> {
    match bytes {
        None => None,
        Some(b) => match dimensions_of(b) {
            None => None,
            Some((width, height)) => if width == 0 || height == 0 {
                None
            } else {
                decoded(b, LONGEST_EDGE, DECODING_BYTES, PORTRAIT_EDGE, Sampling::Triangle)
            },
        },
    }
}

/// The pixels of a portrait, from what was downloaded.
pub fn portrait(bytes: &Option<Vec<u8>>) -> (r: Option<Vec<u8>>)
    ensures
        r.deep_view() == portrait_of(bytes.deep_view()),
        r matches Some(pixels) ==> pixels@.len() == PIXEL_BYTES,
{
    let file = match bytes {
        Some(file) => file,
        None => return None,
    };
    assert(file.deep_view() =~= file@);
    let (width, height) = match image_size(file.as_slice()) {
        Some(size) => size,
        None => return None,
    };
    if width == 0 || height == 0 {
        return None;
    }
    decode_image(
        file.as_slice(),
        LONGEST_EDGE,
        DECODING_BYTES,
        PORTRAIT_EDGE,
        Sampling::Triangle,
    )
}

/// A pixel of the portrait that stands for one that could not be had.
pub open spec fn stand_in(x: int, y: int) -> Seq<u8> {
    if on_figure(x, y) {
        seq![210u8, 215, 225, 255]
    } else {
        seq![74u8, 82, 101, 255]
    }
}

/// The pixels of the portrait that stands for one that could not be had.
pub open spec fn placeholder_pixels() -> Seq<u8> {
    Seq::new(
        PIXEL_BYTES as nat,
        |i: int| stand_in(i / 4 % PORTRAIT_EDGE as int, i / 4 / PORTRAIT_EDGE as int)[i % 4],
    )
}

/// The portrait that stands for one that could not be had.
pub fn placeholder() -> (r: Vec<u8>)
    ensures
        r@ == placeholder_pixels(),
{
    let mut out: Vec<u8> = Vec::new();
    let ghost wanted = placeholder_pixels();
    for n in 0..16_384u32
        invariant
            wanted == placeholder_pixels(),
            out@ == wanted.take(4 * n),
    {
        let ghost held = out@;
        let pixel = placeholder_pixel(n % PORTRAIT_EDGE, n / PORTRAIT_EDGE);
        out.push(pixel[0]);
        out.push(pixel[1]);
        out.push(pixel[2]);
        out.push(pixel[3]);
        proof {
            let longer = wanted.take(4 * (n + 1));
            assert forall|i: int| 0 <= i < longer.len() implies out@[i] == #[trigger] longer[i] by {
                if i < 4 * n {
                    assert(out@[i] == held[i]);
                } else {
                    assert(i / 4 == n);
                    assert(pixel@ == stand_in(
                        n as int % PORTRAIT_EDGE as int,
                        n as int / PORTRAIT_EDGE as int,
                    ));
                    assert(out@[i] == pixel@[i % 4]);
                }
            }
            assert(out@ =~= longer);
        }
    }
    assert(wanted.take(65_536) =~= wanted);
    out
}

/// The portraits of a card: the placeholder for each that could not be had.
pub open spec fn shown(portraits: Seq<Option<Seq<u8>>>) -> Seq<Seq<u8>> {
    portraits.map_values(
        |pixels: Option<Seq<u8>>|
            match pixels {
                Some(pixels) => pixels,
                None => placeholder_pixels(),
            },
    )
}

/// How many portraits could not be had.
pub open spec fn missing_in(portraits: Seq<Option<Seq<u8>>>) -> nat
    decreases portraits.len(),
{
    if portraits.len() == 0 {
        0
    } else {
        missing_in(portraits.drop_last()) + (if portraits.last() is None {
            1nat
        } else {
            0nat
        })
    }
}

/// Whether each portrait that could be had is a whole square of pixels.
pub open spec fn are_whole(portraits: Seq<Option<Seq<u8>>>) -> bool {
    forall|i: int|
        0 <= i < portraits.len() && #[trigger] portraits[i] is Some ==> portraits[i]->0.len()
            == PIXEL_BYTES
}

/// The portraits of a card, and how many of them are placeholders.
pub fn arrange(portraits: Vec<Option<Vec<u8>>>) -> (r: (Vec<Vec<u8>>, usize))
    ensures
        r.0.deep_view() == shown(portraits.deep_view()),
        r.1 == missing_in(portraits.deep_view()),
{
    let ghost views = portraits.deep_view();
    let mut images: Vec<Vec<u8>> = Vec::new();
    let mut missing: usize = 0;
    assert(images.deep_view() =~= shown(views.take(0)));
    for i in 0..portraits.len()
        invariant
            views == portraits.deep_view(),
            images.deep_view() == shown(views.take(i as int)),
            missing == missing_in(views.take(i as int)),
            missing <= i,
    {
        let ghost held = images.deep_view();
        proof {
            assert(views.take(i + 1).drop_last() =~= views.take(i as int));
            assert(views.take(i + 1).last() == views[i as int]);
        }
        let image: Vec<u8> = match &portraits[i] {
            Some(pixels) => pixels.clone(),
            None => {
                missing = missing + 1;
                placeholder()
            },
        };
        assert(image.deep_view() =~= image@);
        assert(image@ =~= shown(views)[i as int]) by {
            if let Some(pixels) = portraits@[i as int] {
                assert(pixels.deep_view() =~= pixels@);
            }
        }
        images.push(image);
        proof {
            assert(images.deep_view() =~= held.push(image@));
            assert(shown(views.take(i + 1)) =~= held.push(image@));
        }
    }
    assert(views.take(views.len() as int) =~= views);
    (images, missing)
}

/// What a card is drawn from: a portrait of each participant, and what the card shows in words.
pub struct Collage {
    pub images: Vec<Vec<u8>>,
    pub missing: usize,
    pub description: String,
}

/// What was decoded of what was downloaded.
pub open spec fn all_portraits(downloads: Seq<Option<Seq<u8>>>) -> Seq<Option<Seq<u8>>> {
    downloads.map_values(|bytes: Option<Seq<u8>>| portrait_of(bytes))
}

fn decode_all(downloads: &Vec<Option<Vec<u8>>>) -> (r: Vec<Option<Vec<u8>>>)
    ensures
        r.deep_view() == all_portraits(downloads.deep_view()),
        are_whole(r.deep_view()),
{
    let ghost views = downloads.deep_view();
    let mut out: Vec<Option<Vec<u8>>> = Vec::new();
    assert(out.deep_view() =~= all_portraits(views.take(0)));
    for i in 0..downloads.len()
        invariant
            views == downloads.deep_view(),
            out.deep_view() == all_portraits(views.take(i as int)),
            are_whole(out.deep_view()),
    {
        let ghost held = out.deep_view();
        let one = portrait(&downloads[i]);
        proof {
            if one is Some {
                assert(one->0.deep_view() =~= one->0@);
            }
        }
        out.push(one);
        proof {
            assert(out.deep_view() =~= held.push(one.deep_view()));
            assert(all_portraits(views.take(i + 1)) =~= held.push(one.deep_view()));
        }
    }
    assert(views.take(views.len() as int) =~= views);
    out
}

/// Whether a collage, or a refusal, is what comes of these people and what was downloaded of
/// them.
pub open spec fn arranges(
    r: Result<Collage, AvatarError>,
    avatars: Seq<AvatarView>,
    downloads: Seq<Option<Seq<u8>>>,
) -> bool {
    let portraits = all_portraits(downloads);
    match r {
        Ok(card) => {
            &&& 2 <= avatars.len() <= 256
            &&& card.images.deep_view() == shown(portraits)
            &&& card.missing == missing_in(portraits)
            &&& card.description@ == first(card_text(avatars, missing_in(portraits)), 1500)
        },
        Err(e) => !(2 <= avatars.len() <= 256) && e == AvatarError::Count,
    }
}

/// What a card of these participants is drawn from, given what was downloaded of each.
pub fn collage(avatars: &Vec<Avatar>, downloads: &Vec<Option<Vec<u8>>>) -> (r: Result<
    Collage,
    AvatarError,
>)
    requires
        avatars.len() == downloads.len(),
    ensures
        ({
            let portraits = all_portraits(downloads.deep_view());
            match r {
                Ok(card) => {
                    &&& 2 <= avatars.len() <= 256
                    &&& card.images.deep_view() == shown(portraits)
                    &&& forall|i: int|
                        0 <= i < avatars.len() ==> (#[trigger] card.images@[i])@.len()
                            == PIXEL_BYTES
                    &&& card.missing == missing_in(portraits)
                    &&& card.description@ == first(
                        card_text(avatars.deep_view(), missing_in(portraits)),
                        1500,
                    )
                },
                Err(e) => !(2 <= avatars.len() <= 256) && e == AvatarError::Count,
            }
        }),
        arranges(r, avatars.deep_view(), downloads.deep_view()),
{
    if !card_fits(avatars.len()) {
        return Err(AvatarError::Count);
    }
    let portraits = decode_all(downloads);
    let ghost views = portraits.deep_view();
    let (images, missing) = arrange(portraits);
    assert(images.deep_view().len() == avatars.len());
    assert forall|i: int| 0 <= i < avatars.len() implies (#[trigger] images@[i])@.len()
        == PIXEL_BYTES by {
        assert(images.deep_view()[i] == shown(views)[i]);
        assert(images.deep_view()[i] == images@[i].deep_view());
        assert(images@[i].deep_view() =~= images@[i]@);
        assert(views[i] is Some ==> views[i]->0.len() == PIXEL_BYTES);
    }
    Ok(Collage { images, missing, description: describe(avatars, missing) })
}

} // verus!
