use sirucord::json::{named, Json};
use sirucord::link_titles::{
    clean_title, document_text, endpoint, html_title, oembed_title, plan, public_ip, receive,
    Arrival, IpAddr, Journey, LinkError, DOCUMENT_BYTES, SOURCE_BYTES, URL_BYTES,
};

#[test]
fn rejects_private_and_special_addresses_including_ipv6_tunnels() {
    for octets in [
        [127, 0, 0, 1],
        [10, 1, 2, 3],
        [172, 16, 0, 1],
        [192, 168, 1, 1],
        [169, 254, 169, 254],
        [100, 64, 0, 1],
        [0, 0, 0, 0],
        [198, 18, 0, 1],
        [192, 0, 2, 1],
        [224, 0, 0, 1],
        [255, 255, 255, 255],
    ] {
        assert!(!public_ip(IpAddr::V4(octets)), "{octets:?}");
    }
    for segments in [
        [0, 0, 0, 0, 0, 0, 0, 1],
        [0, 0, 0, 0, 0, 0xffff, 0x7f00, 1],
        [0xfc00, 0, 0, 0, 0, 0, 0, 1],
        [0xfe80, 0, 0, 0, 0, 0, 0, 1],
        [0x2001, 0xdb8, 0, 0, 0, 0, 0, 1],
        [0x2002, 0x7f00, 1, 0, 0, 0, 0, 0],
        [0x3fff, 0, 0, 0, 0, 0, 0, 1],
    ] {
        assert!(!public_ip(IpAddr::V6(segments)), "{segments:?}");
    }
    assert!(public_ip(IpAddr::V4([8, 8, 8, 8])));
    assert!(public_ip(IpAddr::V6([0x2606, 0x4700, 0x4700, 0, 0, 0, 0, 0x1111])));
    for address in [
        "http://example.com",
        "https://secret@example.com",
        "https://example.com:444",
        "https://127.0.0.1",
        "https://metadata.internal",
    ] {
        assert!(plan(address).is_none(), "{address}");
    }
}

#[test]
fn prefers_open_graph_title_and_decodes_entities() {
    assert_eq!(
        html_title("<title>fallback</title><meta content='動画 &amp; ゲーム' property='og:title'>")
            .as_deref(),
        Some("動画 & ゲーム")
    );
    assert_eq!(
        html_title("<title>  Example\n Page </title>").as_deref(),
        Some("Example Page")
    );
    assert_eq!(html_title("<body>no title</body>"), None);
}

#[test]
fn blank_candidates_give_way_to_the_next() {
    assert_eq!(
        html_title("<meta property='og:title' content=' '><meta name='twitter:title' content='Short'><title>Own</title>").as_deref(),
        Some("Short")
    );
    assert_eq!(
        html_title("<meta property='og:title'><title>Own @me</title>").as_deref(),
        Some("Own ＠me")
    );
}

#[test]
fn titles_are_one_short_line() {
    assert_eq!(clean_title(" a \n b ").as_deref(), Some("a b"));
    assert_eq!(clean_title(" \t "), None);
    assert_eq!(clean_title(&"x".repeat(500)).unwrap().len(), 120);
    let answer = Json::object(vec![named("title", Json::text(" Video "))]);
    assert_eq!(oembed_title(&answer).as_deref(), Some("Video"));
    assert_eq!(oembed_title(&Json::Null), None);
}

#[test]
fn videos_are_asked_of_their_service() {
    assert_eq!(endpoint("youtu.be"), Some("https://www.youtube.com/oembed"));
    assert_eq!(endpoint("vimeo.com"), Some("https://vimeo.com/api/oembed.json"));
    assert_eq!(endpoint("example.com"), None);
    let plan_ = plan("https://youtu.be/x?y=1").unwrap();
    assert_eq!(
        plan_.question.unwrap().text,
        "https://www.youtube.com/oembed?url=https%3A%2F%2Fyoutu.be%2Fx%3Fy%3D1&format=json"
    );
    let page = plan("https://EXAMPLE.com").unwrap();
    assert!(page.question.is_none());
    assert_eq!(page.page.text, "https://example.com/");
    for address in ["https://host", "https://a.local", "https://b.localhost", "nonsense"] {
        assert!(plan(address).is_none());
    }
    assert!(plan(&format!("https://example.com/{}", "x".repeat(4096))).is_none());
}

fn journey(url: &str) -> Journey {
    Journey::begin(plan(url).unwrap().page).ok().unwrap()
}

#[test]
fn redirects_are_followed_a_few_times_and_checked() {
    let first = journey("https://example.com/a");
    let Ok(Arrival::Onward(second)) = first.arrive(302, &Some("/b".into()), "") else {
        panic!("no redirect");
    };
    assert_eq!(second.url().text, "https://example.com/b");
    let Ok(Arrival::Onward(third)) = second.arrive(301, &Some("https://example.org/c".into()), "")
    else {
        panic!("no redirect");
    };
    assert_eq!(third.url().text, "https://example.org/c");
    assert_eq!(
        third.arrive(302, &Some("/d".into()), "").err(),
        Some(LinkError::TooManyRedirects)
    );
    let at = || journey("https://example.com/a");
    assert_eq!(at().arrive(302, &None, "").err(), Some(LinkError::MissingRedirect));
    assert_eq!(
        at().arrive(302, &Some("https://[".into()), "").err(),
        Some(LinkError::InvalidRedirect)
    );
    assert_eq!(
        at().arrive(302, &Some("http://example.com/".into()), "").err(),
        Some(LinkError::Unsupported)
    );
    assert_eq!(at().arrive(404, &None, "text/html").err(), Some(LinkError::Unavailable));
    assert_eq!(at().arrive(200, &None, "image/png").err(), Some(LinkError::NoDocument));
    assert!(matches!(at().arrive(200, &None, "text/html; charset=utf-8"), Ok(Arrival::Read)));
    assert!(matches!(at().arrive(200, &None, "application/json"), Ok(Arrival::Read)));
}

#[test]
fn only_public_addresses_are_asked() {
    let journey = journey("https://example.com/");
    let public = IpAddr::V4([8, 8, 8, 8]);
    assert_eq!(journey.approve(&vec![public]), Ok(()));
    assert_eq!(journey.approve(&Vec::new()), Err(LinkError::NotPublic));
    assert_eq!(
        journey.approve(&vec![public, IpAddr::V4([127, 0, 0, 1])]),
        Err(LinkError::NotPublic)
    );
}

#[test]
fn documents_are_cut_off() {
    let mut bytes = vec![0u8; DOCUMENT_BYTES - 2];
    assert!(!receive(&mut bytes, &[1]));
    assert!(receive(&mut bytes, &[2, 3, 4]));
    assert_eq!(bytes.len(), DOCUMENT_BYTES);
    assert_eq!(bytes[DOCUMENT_BYTES - 1], 2);
}

#[test]
fn documents_are_read_whatever_their_bytes() {
    assert_eq!(document_text("é<title>".as_bytes()), "é<title>");
    assert_eq!(document_text(b"a\xffb"), "a\u{fffd}b");
    assert_eq!(html_title(&document_text(b"<title>a\xff</title>")).as_deref(), Some("a\u{fffd}"));
}

#[test]
fn long_documents_are_searched() {
    let source = format!("{}<title>\0{}</title>", " ".repeat(3_000_000), "x".repeat(300));
    assert!(source.len() <= SOURCE_BYTES);
    assert_eq!(html_title(&source).unwrap(), format!("\u{fffd}{}", "x".repeat(119)));
    // The longest document that is read, of bytes that are no text.
    let text = document_text(&vec![0xff; DOCUMENT_BYTES]);
    assert_eq!(text.len(), 3 * DOCUMENT_BYTES);
    assert!(text.len() <= SOURCE_BYTES);
    assert_eq!(html_title(&text), None);
}

#[test]
fn links_of_services_are_asked_up_to_the_limit() {
    let start = "https://youtu.be/";
    let longest = format!("{start}{}", "é".repeat((URL_BYTES - start.len()) / 6));
    let found = plan(&longest).unwrap();
    assert!(found.page.text.len() <= URL_BYTES);
    let question = found.question.unwrap();
    assert!(question.text.starts_with("https://www.youtube.com/oembed?url=https%3A%2F%2Fyoutu.be%2F"));
    assert!(question.text.ends_with("&format=json"));
    assert!(plan(&format!("{start}{}", "x".repeat(URL_BYTES))).is_none());
}
