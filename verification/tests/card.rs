use sirucord::avatars::Avatar;
use sirucord::card::{layout, render, CardError, Item, CARD_HEIGHT, CARD_WIDTH, GAP, HEADER, PADDING};

fn people() -> Vec<Avatar> {
    (0..10)
        .map(|n| Avatar {
            name: format!("参加者{n}"),
            url: String::new(),
            streaming: n % 2 == 0,
            game: Some("Minecraft".into()),
        })
        .collect()
}

fn labels(items: &[Item]) -> Vec<String> {
    items
        .iter()
        .filter_map(|item| match item {
            Item::Label { value, .. } => Some(value.clone()),
            _ => None,
        })
        .collect()
}

#[test]
fn cards_keep_every_avatar_in_order_and_status_changes_pixels() {
    let mut people = people();
    let first = render(&people, 10).ok().unwrap();
    let portraits: Vec<(usize, u32, u32, u32)> = first
        .items
        .iter()
        .filter_map(|item| match item {
            Item::Portrait { index, x, y, size } => Some((*index, *x, *y, *size)),
            _ => None,
        })
        .collect();
    assert_eq!(portraits.len(), 10);
    for n in 0..10u32 {
        let (index, x, y, size) = portraits[n as usize];
        assert_eq!(index, n as usize);
        // The middle of the portrait.
        assert_eq!(x + size / 2, PADDING + n % 4 * (CARD_WIDTH + GAP) + 52);
        assert_eq!(y + size / 2, HEADER + n / 4 * (CARD_HEIGHT + GAP) + 52);
    }
    people[0].streaming = false;
    let not_streaming = render(&people, 10).ok().unwrap();
    assert_ne!(labels(&first.items), labels(&not_streaming.items));
    people[0].game = Some("別のゲーム".into());
    assert_ne!(
        labels(&not_streaming.items),
        labels(&render(&people, 10).ok().unwrap().items)
    );
    assert!(render(&people, 0).is_err());
    assert!(render(&Vec::new(), 0).is_err());
    for count in 2..=256 {
        let (_, width, height) = layout(count).unwrap();
        assert!(width * height <= 16_777_216);
    }
}

#[test]
fn layouts_have_these_sizes() {
    assert_eq!(layout(2), Ok((2, 672, 288)));
    assert_eq!(layout(3), Ok((3, 992, 288)));
    assert_eq!(layout(4), Ok((2, 672, 480)));
    assert_eq!(layout(9), Ok((3, 992, 672)));
    assert_eq!(layout(10), Ok((4, 1312, 672)));
    assert_eq!(layout(256), Ok((4, 1312, 12384)));
    assert_eq!(layout(1), Err(CardError::Count));
    assert_eq!(layout(257), Err(CardError::Count));
}

#[test]
fn cards_say_who_streams_and_what() {
    let people = vec![
        Avatar { name: "A".into(), url: String::new(), streaming: true, game: None },
        Avatar { name: "B".into(), url: String::new(), streaming: false, game: Some("Go".into()) },
    ];
    let picture = render(&people, 2).ok().unwrap();
    assert_eq!(
        labels(&picture.items),
        ["通話のようす", "2人参加  ·  配信中 1人", "配信中", "A", "通話中", "B", "プレイ中：Go"]
    );
    assert_eq!((picture.width, picture.height), (672, 288));
    assert_eq!(render(&people, 1).err().unwrap().message(), "Participant/image count mismatch");
    assert_eq!(render(&Vec::new(), 0).err().unwrap().message(), "Card requires 2–256 participants");
}

#[test]
fn cards_stay_inside_and_apart() {
    for count in 2..=40usize {
        let (columns, width, height) = layout(count).unwrap();
        let mut last = (0, 0);
        for i in 0..count as u32 {
            let left = PADDING + i % columns * (CARD_WIDTH + GAP);
            let top = HEADER + i / columns * (CARD_HEIGHT + GAP);
            assert!(left + CARD_WIDTH + PADDING <= width && top + CARD_HEIGHT <= height);
            assert!(i == 0 || left >= last.0 + CARD_WIDTH || top >= last.1 + CARD_HEIGHT);
            last = (left, top);
        }
    }
}
