//! The card that shows the participants of a call: what stands where.
use vstd::prelude::*;
use vstd::string::*;

use crate::avatars::{Avatar, AvatarView};
use crate::number::{decimal, decimal_text};

verus! {

/// The room at the left and right edges, in pixels.
pub const PADDING: u32 = 24;

/// The room between two cards.
pub const GAP: u32 = 16;

pub const CARD_WIDTH: u32 = 304;

pub const CARD_HEIGHT: u32 = 176;

/// The room above the cards.
pub const HEADER: u32 = 88;

/// The room below the cards.
pub const FOOTER: u32 = 24;

/// The largest picture that a destination accepts, in pixels.
pub const PIXELS: u32 = 16_777_216;

/// A color: red, green, blue and opacity.
pub type Color = (u8, u8, u8, u8);

pub const BACKGROUND: Color = (17, 22, 30, 255);

pub const SURFACE: Color = (29, 37, 49, 255);

pub const TEXT: Color = (236, 240, 246, 255);

pub const MUTED: Color = (163, 175, 193, 255);

/// Behind the note that somebody streams.
pub const BADGE: Color = (72, 35, 44, 255);

/// The dot of that note.
pub const DOT: Color = (255, 110, 124, 255);

/// The words of that note.
pub const LIVE: Color = (255, 163, 173, 255);

/// Why a card cannot be drawn.
#[derive(Clone, Copy, Debug, PartialEq, Eq, Structural)]
pub enum CardError {
    Mismatch,
    Count,
}

impl CardError {
    pub fn message(&self) -> (r: &'static str)
        ensures
            r@ == (match *self {
                CardError::Mismatch => "Participant/image count mismatch"@,
                CardError::Count => "Card requires 2–256 participants"@,
            }),
    {
        match self {
            CardError::Mismatch => "Participant/image count mismatch",
            CardError::Count => "Card requires 2–256 participants",
        }
    }
}

/// How many cards stand side by side.
pub open spec fn columns_of(count: int) -> int {
    if count == 2 || count == 4 {
        2
    } else if count == 3 || 5 <= count <= 9 {
        3
    } else {
        4
    }
}

/// How many rows of cards there are.
pub open spec fn rows_of(count: int) -> int {
    (count + columns_of(count) - 1) / columns_of(count)
}

pub open spec fn width_of(count: int) -> int {
    PADDING * 2 + columns_of(count) * CARD_WIDTH + (columns_of(count) - 1) * GAP
}

pub open spec fn height_of(count: int) -> int {
    HEADER + rows_of(count) * CARD_HEIGHT + (rows_of(count) - 1) * GAP + FOOTER
}

/// The number of columns, the width and the height of a picture with so many cards.
pub fn layout(count: usize) -> (r: Result<(u32, u32, u32), CardError>)
    ensures
        match r {
            Ok((columns, width, height)) => {
                &&& 2 <= count <= 256
                &&& columns == columns_of(count as int)
                &&& width == width_of(count as int)
                &&& height == height_of(count as int)
            },
            Err(e) => !(2 <= count <= 256) && e == CardError::Count,
        },
{
    if count < 2 || count > 256 {
        return Err(CardError::Count);
    }
    let n: u32 = count as u32;
    if n == 2 || n == 4 {
        let rows: u32 = (n + 1) / 2;
        Ok((2, 48 + 2 * CARD_WIDTH + GAP, HEADER + rows * CARD_HEIGHT + (rows - 1) * GAP + FOOTER))
    } else if n == 3 || (5 <= n && n <= 9) {
        let rows: u32 = (n + 2) / 3;
        Ok(
            (
                3,
                48 + 3 * CARD_WIDTH + 2 * GAP,
                HEADER + rows * CARD_HEIGHT + (rows - 1) * GAP + FOOTER,
            ),
        )
    } else {
        let rows: u32 = (n + 3) / 4;
        Ok(
            (
                4,
                48 + 4 * CARD_WIDTH + 3 * GAP,
                HEADER + rows * CARD_HEIGHT + (rows - 1) * GAP + FOOTER,
            ),
        )
    }
}

/// A picture of any number of cards that can be drawn is small enough to be accepted.
pub proof fn law_picture_is_small_enough(count: int)
    requires
        2 <= count <= 256,
    ensures
        0 < width_of(count) * height_of(count) <= PIXELS,
{
    let w = width_of(count);
    let h = height_of(count);
    assert(rows_of(count) <= 64);
    assert(0 < w <= 1312);
    assert(0 < h <= 12384);
    assert(0 < w * h <= 1312 * 12384) by (nonlinear_arith)
        requires
            0 < w <= 1312,
            0 < h <= 12384,
    ;
}

/// The left edge of a card.
pub open spec fn left_of(count: int, i: int) -> int {
    PADDING + i % columns_of(count) * (CARD_WIDTH + GAP)
}

/// The top edge of a card.
pub open spec fn top_of(count: int, i: int) -> int {
    HEADER + i / columns_of(count) * (CARD_HEIGHT + GAP)
}

/// Every card lies inside the picture.
pub proof fn law_cards_lie_inside(count: int, i: int)
    requires
        2 <= count <= 256,
        0 <= i < count,
    ensures
        PADDING <= left_of(count, i),
        left_of(count, i) + CARD_WIDTH + PADDING <= width_of(count),
        HEADER <= top_of(count, i),
        top_of(count, i) + CARD_HEIGHT + FOOTER <= height_of(count),
{
}

/// No two cards overlap.
pub proof fn law_cards_do_not_overlap(count: int, i: int, j: int)
    requires
        2 <= count <= 256,
        0 <= i < j < count,
    ensures
        left_of(count, i) + CARD_WIDTH <= left_of(count, j) || left_of(count, j) + CARD_WIDTH
            <= left_of(count, i) || top_of(count, i) + CARD_HEIGHT <= top_of(count, j),
{
}

/// Something to draw.
pub enum Item {
    /// A line of text, cut to a width.
    Label { value: String, x: u32, y: u32, size: u32, width: u32, color: Color },
    /// A rectangle with round corners.
    Panel { x: u32, y: u32, width: u32, height: u32, radius: u32, color: Color },
    /// The portrait of the participant with this number, cut to a circle.
    Portrait { index: usize, x: u32, y: u32, size: u32 },
}

pub enum ItemView {
    Label { value: Seq<char>, x: int, y: int, size: int, width: int, color: Color },
    Panel { x: int, y: int, width: int, height: int, radius: u32, color: Color },
    Portrait { index: int, x: int, y: int, size: int },
}

impl View for Item {
    type V = ItemView;

    open spec fn view(&self) -> ItemView {
        match *self {
            Item::Label { value, x, y, size, width, color } => ItemView::Label {
                value: value@,
                x: x as int,
                y: y as int,
                size: size as int,
                width: width as int,
                color,
            },
            Item::Panel { x, y, width, height, radius, color } => ItemView::Panel {
                x: x as int,
                y: y as int,
                width: width as int,
                height: height as int,
                radius,
                color,
            },
            Item::Portrait { index, x, y, size } => ItemView::Portrait {
                index: index as int,
                x: x as int,
                y: y as int,
                size: size as int,
            },
        }
    }
}

impl DeepView for Item {
    type V = ItemView;

    open spec fn deep_view(&self) -> ItemView {
        self@
    }
}

/// What is drawn of how a participant takes part.
pub open spec fn status_items(streaming: bool, left: int, top: int) -> Seq<ItemView> {
    if streaming {
        seq![
            ItemView::Panel {
                x: left + 104,
                y: top + 34,
                width: 98,
                height: 30,
                radius: 15,
                color: BADGE,
            },
            ItemView::Panel {
                x: left + 115,
                y: top + 45,
                width: 8,
                height: 8,
                radius: 4,
                color: DOT,
            },
            ItemView::Label {
                value: "配信中"@,
                x: left + 130,
                y: top + 36,
                size: 16,
                width: 64,
                color: LIVE,
            },
        ]
    } else {
        seq![
            ItemView::Label {
                value: "通話中"@,
                x: left + 104,
                y: top + 36,
                size: 16,
                width: 100,
                color: MUTED,
            },
        ]
    }
}

/// What is drawn of what a participant plays.
pub open spec fn game_items(game: Option<Seq<char>>, left: int, top: int) -> Seq<ItemView> {
    match game {
        Some(game) => seq![
            ItemView::Label {
                value: "プレイ中："@ + game,
                x: left + 20,
                y: top + 133,
                size: 16,
                width: CARD_WIDTH - 40,
                color: MUTED,
            },
        ],
        None => Seq::empty(),
    }
}

/// What is drawn of a participant.
pub open spec fn person_items(person: AvatarView, i: int, left: int, top: int) -> Seq<ItemView> {
    seq![
        ItemView::Panel {
            x: left,
            y: top,
            width: CARD_WIDTH as int,
            height: CARD_HEIGHT as int,
            radius: 16,
            color: SURFACE,
        },
        ItemView::Portrait { index: i, x: left + 20, y: top + 20, size: 64 },
    ] + status_items(person.streaming, left, top) + seq![
        ItemView::Label {
            value: person.name,
            x: left + 20,
            y: top + 94,
            size: 23,
            width: CARD_WIDTH - 40,
            color: TEXT,
        },
    ] + game_items(person.game, left, top)
}

/// What is drawn of the first participants.
pub open spec fn people_items(people: Seq<AvatarView>, n: int) -> Seq<ItemView>
    decreases n,
{
    if n <= 0 {
        Seq::empty()
    } else {
        people_items(people, n - 1) + person_items(
            people[n - 1],
            n - 1,
            left_of(people.len() as int, n - 1),
            top_of(people.len() as int, n - 1),
        )
    }
}

/// How many participants stream.
pub open spec fn live_count(people: Seq<AvatarView>) -> nat {
    people.filter(|p: AvatarView| p.streaming).len()
}

/// What is drawn above the cards.
pub open spec fn heading_items(people: Seq<AvatarView>) -> Seq<ItemView> {
    seq![
        ItemView::Label {
            value: "通話のようす"@,
            x: PADDING as int,
            y: 12,
            size: 26,
            width: 260,
            color: TEXT,
        },
        ItemView::Label {
            value: decimal(people.len()) + "人参加  ·  配信中 "@ + decimal(live_count(people))
                + "人"@,
            x: PADDING as int,
            y: 49,
            size: 17,
            width: width_of(people.len() as int) - 48,
            color: MUTED,
        },
    ]
}

/// A picture: its size and what is drawn, in order.
pub struct Picture {
    pub width: u32,
    pub height: u32,
    pub items: Vec<Item>,
}

fn label(value: String, x: u32, y: u32, size: u32, width: u32, color: Color) -> (r: Item)
    ensures
        r@ == (ItemView::Label {
            value: value@,
            x: x as int,
            y: y as int,
            size: size as int,
            width: width as int,
            color,
        }),
{
    Item::Label { value, x, y, size, width, color }
}

fn panel(x: u32, y: u32, width: u32, height: u32, radius: u32, color: Color) -> (r: Item)
    ensures
        r@ == (ItemView::Panel {
            x: x as int,
            y: y as int,
            width: width as int,
            height: height as int,
            radius,
            color,
        }),
{
    Item::Panel { x, y, width, height, radius, color }
}

fn draw_person(items: &mut Vec<Item>, person: &Avatar, index: usize, left: u32, top: u32)
    requires
        left <= 100_000,
        top <= 100_000,
    ensures
        final(items).deep_view() == old(items).deep_view() + person_items(
            person@,
            index as int,
            left as int,
            top as int,
        ),
{
    let ghost before = items.deep_view();
    items.push(panel(left, top, CARD_WIDTH, CARD_HEIGHT, 16, SURFACE));
    items.push(Item::Portrait { index, x: left + 20, y: top + 20, size: 64 });
    if person.streaming {
        items.push(panel(left + 104, top + 34, 98, 30, 15, BADGE));
        items.push(panel(left + 115, top + 45, 8, 8, 4, DOT));
        items.push(label("配信中".to_owned(), left + 130, top + 36, 16, 64, LIVE));
    } else {
        items.push(label("通話中".to_owned(), left + 104, top + 36, 16, 100, MUTED));
    }
    items.push(label(person.name.clone(), left + 20, top + 94, 23, CARD_WIDTH - 40, TEXT));
    if let Some(game) = &person.game {
        let mut text = "プレイ中：".to_owned();
        text.append(game.as_str());
        items.push(label(text, left + 20, top + 133, 16, CARD_WIDTH - 40, MUTED));
    }
    assert(items.deep_view() =~= before + person_items(
        person@,
        index as int,
        left as int,
        top as int,
    ));
}

fn count_live(people: &Vec<Avatar>) -> (r: usize)
    ensures
        r == live_count(people.deep_view()),
{
    let ghost shown = people.deep_view();
    let ghost test = |p: AvatarView| p.streaming;
    let mut count: usize = 0;
    proof {
        reveal(Seq::filter);
    }
    for i in 0..people.len()
        invariant
            shown == people.deep_view(),
            test == (|p: AvatarView| p.streaming),
            count == shown.take(i as int).filter(test).len(),
            count <= i,
    {
        proof {
            crate::text::lemma_filter_step(shown, test, i as int);
        }
        if people[i].streaming {
            count = count + 1;
        }
    }
    assert(shown.take(shown.len() as int) =~= shown);
    count
}

/// Whether a picture, or a refusal, is what comes of drawing people with so many images.
pub open spec fn pictures(
    r: Result<Picture, CardError>,
    people: Seq<AvatarView>,
    images: nat,
) -> bool {
    let count = people.len() as int;
    match r {
        Ok(picture) => {
            &&& images == count
            &&& 2 <= count <= 256
            &&& picture.width == width_of(count)
            &&& picture.height == height_of(count)
            &&& picture.items.deep_view() == heading_items(people) + people_items(people, count)
        },
        Err(CardError::Mismatch) => images != count,
        Err(CardError::Count) => images == count && !(2 <= count <= 256),
    }
}

/// The picture of the participants, of whom there are so many portraits.
pub fn render(people: &Vec<Avatar>, images: usize) -> (r: Result<Picture, CardError>)
    ensures
        ({
            let shown = people.deep_view();
            let count = shown.len() as int;
            match r {
                Ok(picture) => {
                    &&& images == count
                    &&& 2 <= count <= 256
                    &&& picture.width == width_of(count)
                    &&& picture.height == height_of(count)
                    &&& picture.items.deep_view() == heading_items(shown) + people_items(
                        shown,
                        count,
                    )
                },
                Err(e) => e == (if images != count {
                    CardError::Mismatch
                } else {
                    CardError::Count
                }) && (images != count || !(2 <= count <= 256)),
            }
        }),
        pictures(r, people.deep_view(), images as nat),
{
    let ghost shown = people.deep_view();
    if people.len() != images {
        return Err(CardError::Mismatch);
    }
    let (columns, width, height) = match layout(people.len()) {
        Ok(sizes) => sizes,
        Err(e) => return Err(e),
    };
    let mut items: Vec<Item> = Vec::new();
    items.push(label("通話のようす".to_owned(), PADDING, 12, 26, 260, TEXT));
    let mut summary = decimal_text(people.len() as u64);
    summary.append("人参加  ·  配信中 ");
    summary.append(decimal_text(count_live(people) as u64).as_str());
    summary.append("人");
    items.push(label(summary, PADDING, 49, 17, width - 48, MUTED));
    let ghost top_items = heading_items(shown);
    assert(items.deep_view() =~= top_items);
    assert(top_items + people_items(shown, 0) =~= top_items);
    for i in 0..people.len()
        invariant
            shown == people.deep_view(),
            2 <= people.len() <= 256,
            columns == columns_of(people.len() as int),
            items.deep_view() == top_items + people_items(shown, i as int),
    {
        let n: u32 = i as u32;
        assert(n / columns <= 256 && n % columns < 4) by {
            assert(columns == 2 || columns == 3 || columns == 4);
        }
        let left: u32 = PADDING + n % columns * (CARD_WIDTH + GAP);
        let top: u32 = HEADER + n / columns * (CARD_HEIGHT + GAP);
        assert(left == left_of(people.len() as int, i as int));
        assert(top == top_of(people.len() as int, i as int));
        draw_person(&mut items, &people[i], i, left, top);
        assert(top_items + (people_items(shown, i as int) + person_items(
            shown[i as int],
            i as int,
            left as int,
            top as int,
        )) =~= items.deep_view());
    }
    Ok(Picture { width, height, items })
}

/// Whether an item keeps to the columns of pixels from one edge to another.
pub open spec fn keeps_between(item: ItemView, left: int, right: int) -> bool {
    match item {
        ItemView::Label { x, width, .. } => left <= x && x + width <= right,
        ItemView::Panel { x, width, .. } => left <= x && x + width <= right,
        ItemView::Portrait { x, size, .. } => left <= x && x + size <= right,
    }
}

/// Nothing that is drawn of a participant reaches into the card beside.
pub proof fn law_items_keep_to_their_card(person: AvatarView, i: int, left: int, top: int)
    ensures
        forall|k: int|
            0 <= k < person_items(person, i, left, top).len() ==> keeps_between(
                #[trigger] person_items(person, i, left, top)[k],
                left,
                left + CARD_WIDTH,
            ),
{
}

} // verus!
