//! Titles of public links. Nothing but public addresses is asked, and failures are no errors.
use vstd::prelude::*;
use vstd::string::*;
use vstd::utf8::{decode_utf8, encode_utf8, valid_utf8};

use crate::discord::{clean, cleaned, defused, law_cleaned_is_safe, printable};
use crate::http::{is_success, succeeded};
use crate::json::{member, text_in, Json, JsonView};
use crate::text::{
    contains, control, ends, ends_with, includes, lemma_normalized_is_spaced, mentions, normalize,
    normalized, same, single_spaced, space, words,
};
use crate::url::{parse_url, url_parts, Url, UrlView};

use scraper::{Html, Selector};

verus! {

/// An address of a host.
#[derive(Clone, Copy, Debug)]
pub enum IpAddr {
    /// The four octets of an IPv4 address.
    V4([u8; 4]),
    /// The eight segments of an IPv6 address.
    V6([u16; 8]),
}

/// IPv4 addresses that are reachable by everybody.
pub open spec fn public_v4(a: u8, b: u8, c: u8) -> bool {
    // This network, private networks, and the space that carriers share.
    &&& a != 0
    &&& a != 10
    &&& !(a == 172 && 16 <= b <= 31)
    &&& !(a == 192 && b == 168)
    &&& !(a == 100 && 64 <= b <= 127)
    // This machine, and this link.
    &&& a != 127
    &&& !(a == 169 && b == 254)
    // Special uses, benchmarks and documentation.
    &&& !(a == 192 && b == 0 && c == 0)
    &&& !(a == 198 && (b == 18 || b == 19))
    &&& !(a == 192 && b == 0 && c == 2)
    &&& !(a == 198 && b == 51 && c == 100)
    &&& !(a == 203 && b == 0 && c == 113)
    // Multicast, reserved addresses and broadcast.
    &&& a < 224
}

/// IPv6 addresses that are reachable by everybody: global unicast, but neither documentation
/// nor tunnels nor special uses.
pub open spec fn public_v6(a: u16, b: u16) -> bool {
    &&& 0x2000 <= a <= 0x3fff
    &&& a != 0x2002
    &&& !(a == 0x2001 && (b < 0x0200 || b == 0x0db8))
    &&& !(a == 0x3fff && b < 0x1000)
}

/// Addresses that are reachable by everybody.
pub open spec fn is_public(ip: IpAddr) -> bool {
    match ip {
        IpAddr::V4(octets) => public_v4(octets@[0], octets@[1], octets@[2]),
        IpAddr::V6(segments) => public_v6(segments@[0], segments@[1]),
    }
}

pub fn public_ip(ip: IpAddr) -> (r: bool)
    ensures
        r == is_public(ip),
{
    match ip {
        IpAddr::V4(octets) => {
            let a = octets[0];
            let b = octets[1];
            let c = octets[2];
            let private = a == 10 || (a == 172 && 16 <= b && b <= 31) || (a == 192 && b == 168);
            let documentation = (a == 192 && b == 0 && c == 2) || (a == 198 && b == 51 && c == 100)
                || (a == 203 && b == 0 && c == 113);
            !(private || a == 127 || (a == 169 && b == 254) || a >= 224 || documentation || a == 0
                || (a == 100 && 64 <= b && b <= 127) || (a == 192 && b == 0 && c == 0) || (a == 198
                && (b == 18 || b == 19)))
        },
        IpAddr::V6(segments) => {
            let a = segments[0];
            let b = segments[1];
            0x2000 <= a && a <= 0x3fff && a != 0x2002 && !(a == 0x2001 && (b < 0x0200 || b
                == 0x0db8)) && !(a == 0x3fff && b < 0x1000)
        },
    }
}

/// The name of a public host: one with a dot, and none of those that are local by convention.
pub open spec fn public_name(host: Seq<char>) -> bool {
    &&& host.contains('.')
    &&& !ends(host, ".local"@)
    &&& !ends(host, ".localhost"@)
    &&& !ends(host, ".internal"@)
}

/// The longest URL that is asked, in bytes.
pub const URL_BYTES: usize = 4096;

/// Whether a text is as short as a URL that is asked.
pub open spec fn fits_url(text: Seq<char>) -> bool {
    encode_utf8(text).len() <= URL_BYTES
}

/// A link that may be asked for its title: a short HTTPS URL of a named public host, without
/// credentials and on the usual port.
pub open spec fn is_valid(url: UrlView) -> bool {
    &&& url.scheme == "https"@
    &&& url.username.len() == 0
    &&& url.password is None
    &&& url.port == Some(443u16)
    &&& fits_url(url.text)
    &&& url.domain is Some
    &&& public_name(url.domain->0)
}

pub fn valid_url(url: &Url) -> (r: bool)
    ensures
        r == is_valid(url@),
{
    let host = match &url.domain {
        Some(host) => host.as_str(),
        None => return false,
    };
    same(url.scheme.as_str(), "https") && url.username.as_str().is_empty()
        && url.password.is_none() && url.port == Some(443u16) && url.text.as_str().as_bytes().len()
        <= URL_BYTES && contains(host, '.') && !ends_with(host, ".local") && !ends_with(
        host,
        ".localhost",
    ) && !ends_with(host, ".internal")
}

/// A title as it is shown: in one line, without control characters and mentions, and not too
/// long.
pub open spec fn titled(value: Seq<char>) -> Option<Seq<char>> {
    let text = cleaned(normalized(value), 120);
    if text.len() == 0 {
        None
    } else {
        Some(text)
    }
}

pub fn clean_title(value: &str) -> (r: Option<String>)
    ensures
        r.deep_view() == titled(value@),
{
    let line = normalize(value);
    let text = clean(line.as_str(), 120);
    if text.as_str().is_empty() {
        None
    } else {
        Some(text)
    }
}

/// A title is told by the words of a text alone: where there are none, there is none.
pub proof fn law_titles_follow_words(a: Seq<char>, b: Seq<char>)
    requires
        words(a) == words(b),
    ensures
        titled(a) == titled(b),
        words(a).len() == 0 ==> titled(a) is None,
{
    if words(a).len() == 0 {
        assert(normalized(a).filter(printable()).len() == 0) by {
            reveal(Seq::filter);
        }
    }
}

/// A title is a short line that mentions nobody: it holds neither control characters nor white
/// space other than spaces.
pub proof fn law_titles_are_one_line(value: Seq<char>)
    ensures
        titled(value) matches Some(t) ==> {
            &&& 1 <= t.len() <= 120
            &&& forall|i: int| 0 <= i < t.len() ==> !control(#[trigger] t[i]) && t[i] != '@'
            &&& single_spaced(t)
        },
{
    let line = normalized(value);
    let t = cleaned(line, 120);
    law_cleaned_is_safe(line, 120);
    lemma_normalized_is_spaced(value);
    let kept = line.filter(printable());
    assert forall|i: int| 0 <= i < t.len() && space(#[trigger] t[i]) implies t[i] == ' ' by {
        line.lemma_filter_contains_rev(printable(), kept[i]);
        let j = choose|j: int| 0 <= j < line.len() && line[j] == kept[i];
        assert(t[i] == defused(kept[i]));
        assert('＠' as u32 == 0xff20);
        assert(space(line[j]) ==> line[j] == ' ');
    }
}

/// The first title among candidates.
pub open spec fn first_title(values: Seq<Seq<char>>) -> Option<Seq<char>>
    decreases values.len(),
{
    if values.len() == 0 {
        None
    } else if titled(values[0]) is Some {
        titled(values[0])
    } else {
        first_title(values.drop_first())
    }
}

fn pick_title(values: &Vec<String>) -> (r: Option<String>)
    ensures
        r.deep_view() == first_title(values.deep_view()),
{
    let ghost shown = values.deep_view();
    let mut i: usize = 0;
    assert(shown.skip(0) =~= shown);
    while i < values.len()
        invariant
            i <= values.len(),
            shown == values.deep_view(),
            first_title(shown) == first_title(shown.skip(i as int)),
        decreases values.len() - i,
    {
        assert(shown.skip(i as int)[0] == values@[i as int]@);
        if let Some(title) = clean_title(values[i].as_str()) {
            return Some(title);
        }
        assert(shown.skip(i as int).drop_first() =~= shown.skip(i + 1));
        i = i + 1;
    }
    None
}

/// An attribute of each element of an HTML document that a CSS selector selects.
pub uninterp spec fn attributes_in(
    source: Seq<char>,
    selector: Seq<char>,
    name: Seq<char>,
) -> Seq<Option<Seq<char>>>;

/// The texts of the elements of an HTML document that a CSS selector selects.
pub uninterp spec fn texts_in(source: Seq<char>, selector: Seq<char>) -> Seq<Seq<char>>;

/// The longest document that is searched, in bytes. A byte of it takes up to three in the
/// buffers of the parser, which grow by doubling and hold a gibibyte at most on every machine.
pub const SOURCE_BYTES: usize = 357_913_941;

/// Whether a document is short enough to be searched.
pub open spec fn searchable(source: Seq<char>) -> bool {
    encode_utf8(source).len() <= SOURCE_BYTES
}

/// The selectors of the elements that can hold a title.
pub open spec fn selects_titles(selector: Seq<char>) -> bool {
    ||| selector == "meta[property='og:title']"@
    ||| selector == "meta[name='twitter:title']"@
    ||| selector == "title"@
}

/// `scraper::Html::parse_document`, `Selector::parse`, `select` and `attr`: the attribute of
/// each selected element, in document order, as far as an element has it. They depend on the
/// three texts alone. A document that does not fit the parser's buffers cannot be parsed.
#[verifier::external_body]
fn select_attributes(source: &str, selector: &str, name: &str) -> (r: Vec<Option<String>>)
    requires
        searchable(source@),
        selects_titles(selector@),
    ensures
        r.deep_view() == attributes_in(source@, selector@, name@),
{
    let Ok(selector) = Selector::parse(selector) else {
        return Vec::new();
    };
    Html::parse_document(source)
        .select(&selector)
        .map(|element| element.value().attr(name).map(str::to_owned))
        .collect()
}

/// `scraper::Html::parse_document`, `Selector::parse`, `select` and `text`: the texts of the
/// selected elements, in document order. They depend on the two texts alone. A document that
/// does not fit the parser's buffers cannot be parsed.
#[verifier::external_body]
fn select_texts(source: &str, selector: &str) -> (r: Vec<String>)
    requires
        searchable(source@),
        selects_titles(selector@),
    ensures
        r.deep_view() == texts_in(source@, selector@),
{
    let Ok(selector) = Selector::parse(selector) else {
        return Vec::new();
    };
    Html::parse_document(source).select(&selector).map(|element| element.text().collect()).collect()
}

/// Texts, empty where there is none.
pub open spec fn or_empty(texts: Seq<Option<Seq<char>>>) -> Seq<Seq<char>> {
    texts.map_values(
        |text: Option<Seq<char>>|
            match text {
                Some(text) => text,
                None => Seq::empty(),
            },
    )
}

fn fill_empty(texts: &Vec<Option<String>>) -> (r: Vec<String>)
    ensures
        r.deep_view() == or_empty(texts.deep_view()),
{
    let ghost shown = texts.deep_view();
    let mut out: Vec<String> = Vec::new();
    assert(out.deep_view() =~= or_empty(shown.take(0)));
    for i in 0..texts.len()
        invariant
            shown == texts.deep_view(),
            out.deep_view() == or_empty(shown.take(i as int)),
    {
        let ghost held = out.deep_view();
        let text = match &texts[i] {
            Some(text) => text.clone(),
            None => String::new(),
        };
        assert(text@ =~= or_empty(shown)[i as int]);
        out.push(text);
        proof {
            assert(out.deep_view() =~= held.push(text@));
            assert(or_empty(shown.take(i + 1)) =~= held.push(text@));
        }
    }
    assert(shown.take(shown.len() as int) =~= shown);
    out
}

/// The title of a page: the one it gives for sharing, the one it gives for short messages, or
/// its own.
pub open spec fn page_title(
    shared: Seq<Seq<char>>,
    short: Seq<Seq<char>>,
    own: Seq<Seq<char>>,
) -> Option<Seq<char>> {
    if first_title(shared) is Some {
        first_title(shared)
    } else if first_title(short) is Some {
        first_title(short)
    } else {
        first_title(own)
    }
}

/// The title of a page, given the candidates of each kind.
pub fn choose_title(shared: &Vec<String>, short: &Vec<String>, own: &Vec<String>) -> (r: Option<
    String,
>)
    ensures
        r.deep_view() == page_title(shared.deep_view(), short.deep_view(), own.deep_view()),
{
    if let Some(title) = pick_title(shared) {
        return Some(title);
    }
    if let Some(title) = pick_title(short) {
        return Some(title);
    }
    pick_title(own)
}

/// The title that an HTML document gives itself.
pub open spec fn document_title(source: Seq<char>) -> Option<Seq<char>> {
    page_title(
        or_empty(attributes_in(source, "meta[property='og:title']"@, "content"@)),
        or_empty(attributes_in(source, "meta[name='twitter:title']"@, "content"@)),
        texts_in(source, "title"@),
    )
}

/// The title of a page. A document that does not fit the parser's buffers cannot be searched.
pub fn html_title(source: &str) -> (r: Option<String>)
    requires
        searchable(source@),
    ensures
        r.deep_view() == document_title(source@),
        r.deep_view() == page_title(
            or_empty(attributes_in(source@, "meta[property='og:title']"@, "content"@)),
            or_empty(attributes_in(source@, "meta[name='twitter:title']"@, "content"@)),
            texts_in(source@, "title"@),
        ),
{
    let shared = fill_empty(&select_attributes(source, "meta[property='og:title']", "content"));
    let short = fill_empty(&select_attributes(source, "meta[name='twitter:title']", "content"));
    let own = select_texts(source, "title");
    choose_title(&shared, &short, &own)
}

/// The service that knows the titles of a host's videos.
pub open spec fn endpoint_of(host: Seq<char>) -> Option<Seq<char>> {
    if host == "youtube.com"@ || host == "www.youtube.com"@ || host == "m.youtube.com"@ || host
        == "youtu.be"@ {
        Some("https://www.youtube.com/oembed"@)
    } else if host == "vimeo.com"@ || host == "www.vimeo.com"@ || host == "player.vimeo.com"@ {
        Some("https://vimeo.com/api/oembed.json"@)
    } else {
        None
    }
}

pub fn endpoint(host: &str) -> (r: Option<&'static str>)
    ensures
        match r {
            Some(text) => endpoint_of(host@) == Some(text@),
            None => endpoint_of(host@) is None,
        },
{
    if same(host, "youtube.com") || same(host, "www.youtube.com") || same(host, "m.youtube.com")
        || same(host, "youtu.be") {
        Some("https://www.youtube.com/oembed")
    } else if same(host, "vimeo.com") || same(host, "www.vimeo.com") || same(
        host,
        "player.vimeo.com",
    ) {
        Some("https://vimeo.com/api/oembed.json")
    } else {
        None
    }
}

/// A URL with pairs of names and values behind those of its query.
pub uninterp spec fn with_query(
    url: Seq<char>,
    pairs: Seq<(Seq<char>, Seq<char>)>,
) -> Option<Seq<char>>;

/// `reqwest::Url::parse` and `extend_pairs` of `query_pairs_mut`: the URL with the pairs,
/// encoded, behind those of its query, or nothing where the text is no URL. It depends on the
/// URL and the pairs alone. The call numbers the places in the URL in 32 bits, so the texts
/// are short and the pairs few.
#[verifier::external_body]
fn add_pairs(url: &str, pairs: &Vec<(String, String)>) -> (r: Option<String>)
    requires
        fits_url(url@),
        pairs@.len() <= 16,
        forall|i: int|
            0 <= i < pairs@.len() ==> fits_url((#[trigger] pairs@[i]).0@) && fits_url(
                pairs@[i].1@,
            ),
    ensures
        r.deep_view() == with_query(url@, pairs.deep_view()),
{
    let mut url = reqwest::Url::parse(url).ok()?;
    url.query_pairs_mut().extend_pairs(pairs);
    Some(url.into())
}

/// What a service is asked: the link whose title is looked for, and that the answer be JSON.
pub open spec fn question_pairs(link: Seq<char>) -> Seq<(Seq<char>, Seq<char>)> {
    seq![("url"@, link), ("format"@, "json"@)]
}

/// The question for a title that is put to a service.
pub open spec fn question_of(endpoint: Seq<char>, link: Seq<char>) -> Option<Seq<char>> {
    with_query(endpoint, question_pairs(link))
}

/// A text of so many characters takes at most four times as many bytes.
proof fn lemma_encoded_length(text: Seq<char>)
    ensures
        encode_utf8(text).len() <= 4 * text.len(),
    decreases text.len(),
{
    if text.len() > 0 {
        lemma_encoded_length(text.drop_first());
    }
}

/// The addresses of the services are short.
proof fn lemma_endpoint_fits(host: Seq<char>)
    ensures
        endpoint_of(host) matches Some(text) ==> fits_url(text),
{
    reveal_strlit("https://www.youtube.com/oembed");
    reveal_strlit("https://vimeo.com/api/oembed.json");
    lemma_encoded_length("https://www.youtube.com/oembed"@);
    lemma_encoded_length("https://vimeo.com/api/oembed.json"@);
}

fn ask_service(endpoint: &str, link: &str) -> (r: Option<String>)
    requires
        fits_url(endpoint@),
        fits_url(link@),
    ensures
        r.deep_view() == question_of(endpoint@, link@),
{
    let mut pairs: Vec<(String, String)> = Vec::new();
    pairs.push(("url".to_owned(), link.to_owned()));
    pairs.push(("format".to_owned(), "json".to_owned()));
    assert(pairs.deep_view() =~= question_pairs(link@));
    proof {
        reveal_strlit("url");
        reveal_strlit("format");
        reveal_strlit("json");
        lemma_encoded_length("url"@);
        lemma_encoded_length("format"@);
        lemma_encoded_length("json"@);
    }
    add_pairs(endpoint, &pairs)
}

/// How a link's title is looked for: first by a question to a service, where one knows the
/// host, then on the page.
pub struct Plan {
    pub question: Option<Url>,
    pub page: Url,
}

pub struct PlanView {
    pub question: Option<UrlView>,
    pub page: UrlView,
}

impl View for Plan {
    type V = PlanView;

    open spec fn view(&self) -> PlanView {
        PlanView { question: self.question.deep_view(), page: self.page@ }
    }
}

impl DeepView for Plan {
    type V = PlanView;

    open spec fn deep_view(&self) -> PlanView {
        self@
    }
}

/// The question that belongs to a URL, taken apart.
pub open spec fn question_for(url: UrlView) -> Option<UrlView> {
    match url.host {
        None => None,
        Some(host) => match endpoint_of(host) {
            None => None,
            Some(endpoint) => match question_of(endpoint, url.text) {
                None => None,
                Some(question) => url_parts(question),
            },
        },
    }
}

/// Plans how to look for a title; nothing for a link that may not be asked.
pub open spec fn planned(url: Option<UrlView>) -> Option<PlanView> {
    match url {
        None => None,
        Some(url) => if is_valid(url) {
            Some(PlanView { question: question_for(url), page: url })
        } else {
            None
        },
    }
}

/// Plans how to look for the title of a link.
pub fn plan(value: &str) -> (r: Option<Plan>)
    ensures
        r.deep_view() == planned(url_parts(value@)),
{
    plan_with(parse_url(value))
}

/// Plans how to look for the title of a link, taken apart.
pub fn plan_with(url: Option<Url>) -> (r: Option<Plan>)
    ensures
        r.deep_view() == planned(url.deep_view()),
{
    let page = match url {
        Some(url) => url,
        None => return None,
    };
    if !valid_url(&page) {
        return None;
    }
    let mut question: Option<Url> = None;
    if let Some(host) = &page.host {
        if let Some(service) = endpoint(host.as_str()) {
            proof {
                lemma_endpoint_fits(host@);
            }
            if let Some(text) = ask_service(service, page.text.as_str()) {
                question = parse_url(text.as_str());
            }
        }
    }
    Some(Plan { question, page })
}

/// The title in a service's answer.
pub open spec fn answered(data: JsonView) -> Option<Seq<char>> {
    match text_in(member(data, "title"@)) {
        Some(text) => titled(text),
        None => None,
    }
}

pub fn oembed_title(data: &Json) -> (r: Option<String>)
    ensures
        r.deep_view() == answered(data@),
{
    match data.get("title").as_text() {
        Some(text) => clean_title(text),
        None => None,
    }
}

/// Why a link has no title to show.
#[derive(Clone, Copy, Debug, PartialEq, Eq, Structural)]
pub enum LinkError {
    Unsupported,
    NotPublic,
    MissingRedirect,
    InvalidRedirect,
    TooManyRedirects,
    Unavailable,
    NoDocument,
}

/// How many addresses are asked at most for one document.
pub const HOPS: u32 = 3;

/// A document that is being asked for.
pub struct Journey {
    url: Url,
    hops: u32,
}

/// What an answer leads to.
pub enum Arrival {
    /// The document can be read.
    Read,
    /// Another address has to be asked.
    Onward(Journey),
}

/// Whether each address is reachable by everybody, and there is one.
pub open spec fn all_public(addresses: Seq<IpAddr>) -> bool {
    addresses.len() > 0 && forall|i: int|
        0 <= i < addresses.len() ==> is_public(#[trigger] addresses[i])
}

/// A kind of document that can hold a title.
pub open spec fn readable(content_type: Seq<char>) -> bool {
    mentions(content_type, "html"@) || mentions(content_type, "json"@)
}

/// The URL that a location stands for, seen from another URL.
pub uninterp spec fn joined(base: Seq<char>, location: Seq<char>) -> Option<Seq<char>>;

/// `reqwest::Url::parse` and `join`: the URL that a location stands for, or nothing where it
/// stands for none. It depends on the two texts alone.
#[verifier::external_body]
fn join_url(base: &str, location: &str) -> (r: Option<String>)
    ensures
        r.deep_view() == joined(base@, location@),
{
    let next = reqwest::Url::parse(base).ok()?.join(location).ok()?;
    Some(next.into())
}

/// Where a location leads, taken apart.
pub open spec fn next_url(base: Seq<char>, location: Option<Seq<char>>) -> Option<UrlView> {
    match location {
        None => None,
        Some(location) => match joined(base, location) {
            None => None,
            Some(text) => url_parts(text),
        },
    }
}

/// What comes of an answer at the hop with this number: the document, or where to ask next.
pub open spec fn arrival(
    hops: u32,
    status: u16,
    redirected: bool,
    next: Option<UrlView>,
    content_type: Seq<char>,
) -> Result<Option<UrlView>, LinkError> {
    if 300 <= status < 400 {
        if !redirected {
            Err(LinkError::MissingRedirect)
        } else if next is None {
            Err(LinkError::InvalidRedirect)
        } else if hops >= HOPS {
            Err(LinkError::TooManyRedirects)
        } else if !is_valid(next->0) {
            Err(LinkError::Unsupported)
        } else {
            Ok(next)
        }
    } else if !succeeded(status) {
        Err(LinkError::Unavailable)
    } else if !readable(content_type) {
        Err(LinkError::NoDocument)
    } else {
        Ok(None)
    }
}

impl Journey {
    /// The URL that is asked.
    pub closed spec fn at(&self) -> UrlView {
        self.url@
    }

    /// How many URLs were asked, this one included.
    pub closed spec fn count(&self) -> u32 {
        self.hops
    }

    /// Only links that may be asked are, and not too many.
    pub open spec fn wf(&self) -> bool {
        is_valid(self.at()) && 1 <= self.count() <= HOPS
    }

    /// Begins at a URL.
    pub fn begin(url: Url) -> (r: Result<Journey, LinkError>)
        ensures
            match r {
                Ok(journey) => is_valid(url@) && journey.wf() && journey.at() == url@
                    && journey.count() == 1,
                Err(e) => !is_valid(url@) && e == LinkError::Unsupported,
            },
    {
        if !valid_url(&url) {
            return Err(LinkError::Unsupported);
        }
        Ok(Journey { url, hops: 1 })
    }

    /// The URL to ask.
    pub fn url(&self) -> (r: &Url)
        ensures
            r@ == self.at(),
    {
        &self.url
    }

    /// Whether the addresses of the host may be asked. No other ones may be.
    pub fn approve(&self, addresses: &Vec<IpAddr>) -> (r: Result<(), LinkError>)
        ensures
            r is Ok <==> all_public(addresses@),
            r matches Err(e) ==> e == LinkError::NotPublic,
    {
        if addresses.len() == 0 {
            return Err(LinkError::NotPublic);
        }
        for i in 0..addresses.len()
            invariant
                forall|j: int| 0 <= j < i ==> is_public(#[trigger] addresses@[j]),
        {
            if !public_ip(addresses[i]) {
                assert(!is_public(addresses@[i as int]));
                return Err(LinkError::NotPublic);
            }
        }
        Ok(())
    }

    /// What comes of an answer.
    pub fn arrive(self, status: u16, location: &Option<String>, content_type: &str) -> (r: Result<
        Arrival,
        LinkError,
    >)
        requires
            self.wf(),
        ensures
            arrived(
                self,
                r,
                arrival(
                    self.count(),
                    status,
                    location is Some,
                    next_url(self.at().text, location.deep_view()),
                    content_type@,
                ),
            ),
    {
        let mut next: Option<Url> = None;
        if let Some(location) = location {
            if let Some(text) = join_url(self.url.text.as_str(), location.as_str()) {
                next = parse_url(text.as_str());
            }
        }
        self.arrive_with(status, location.is_some(), next, content_type)
    }

    /// What comes of an answer, given where it leads.
    pub fn arrive_with(
        self,
        status: u16,
        redirected: bool,
        next: Option<Url>,
        content_type: &str,
    ) -> (r: Result<Arrival, LinkError>)
        requires
            self.wf(),
        ensures
            arrived(
                self,
                r,
                arrival(self.count(), status, redirected, next.deep_view(), content_type@),
            ),
    {
        if 300 <= status && status < 400 {
            if !redirected {
                return Err(LinkError::MissingRedirect);
            }
            return match next {
                None => Err(LinkError::InvalidRedirect),
                Some(url) => if self.hops >= HOPS {
                    Err(LinkError::TooManyRedirects)
                } else if !valid_url(&url) {
                    Err(LinkError::Unsupported)
                } else {
                    Ok(Arrival::Onward(Journey { url, hops: self.hops + 1 }))
                },
            };
        }
        if !is_success(status) {
            return Err(LinkError::Unavailable);
        }
        if !includes(content_type, "html") && !includes(content_type, "json") {
            return Err(LinkError::NoDocument);
        }
        Ok(Arrival::Read)
    }
}

/// Whether what a function returned is what an answer leads to.
pub open spec fn arrived(
    from: Journey,
    r: Result<Arrival, LinkError>,
    wanted: Result<Option<UrlView>, LinkError>,
) -> bool {
    match r {
        Ok(Arrival::Read) => wanted == Ok::<Option<UrlView>, LinkError>(None),
        Ok(Arrival::Onward(journey)) => {
            &&& wanted == Ok::<Option<UrlView>, LinkError>(Some(journey.at()))
            &&& journey.wf()
            &&& journey.count() == from.count() + 1
        },
        Err(e) => wanted == Err::<Option<UrlView>, LinkError>(e),
    }
}

/// The text that bytes spell, with a replacement character for what is no UTF-8.
pub uninterp spec fn lossy_text(bytes: Seq<u8>) -> Seq<char>;

/// `String::from_utf8_lossy`: the text that bytes spell. What is no UTF-8 is replaced, so valid
/// UTF-8 is spelled as it is. It depends on the bytes alone.
#[verifier::external_body]
fn spell_lossy(bytes: &[u8]) -> (r: String)
    ensures
        r@ == lossy_text(bytes@),
        valid_utf8(bytes@) ==> r@ == decode_utf8(bytes@),
{
    String::from_utf8_lossy(bytes).into_owned()
}

/// The text of a document that was read.
pub fn document_text(bytes: &[u8]) -> (r: String)
    ensures
        r@ == lossy_text(bytes@),
        valid_utf8(bytes@) ==> r@ == decode_utf8(bytes@),
{
    spell_lossy(bytes)
}

/// How much of a document is read, in bytes.
pub const DOCUMENT_BYTES: usize = 262_144;

/// What is kept of a document when more of it was received: as much as there is room for.
pub open spec fn received(bytes: Seq<u8>, chunk: Seq<u8>) -> Seq<u8> {
    if bytes.len() + chunk.len() <= DOCUMENT_BYTES {
        bytes + chunk
    } else {
        (bytes + chunk).take(DOCUMENT_BYTES as int)
    }
}

/// Adds what was received, as far as there is room. Tells whether there is none left.
pub fn receive(bytes: &mut Vec<u8>, chunk: &[u8]) -> (r: bool)
    requires
        old(bytes)@.len() <= DOCUMENT_BYTES,
    ensures
        final(bytes)@ == (if old(bytes)@.len() + chunk@.len() <= DOCUMENT_BYTES {
            old(bytes)@ + chunk@
        } else {
            (old(bytes)@ + chunk@).take(DOCUMENT_BYTES as int)
        }),
        final(bytes)@ == received(old(bytes)@, chunk@),
        r == (final(bytes)@.len() == DOCUMENT_BYTES),
{
    let ghost whole = bytes@ + chunk@;
    let ghost start = bytes@.len();
    let mut i: usize = 0;
    assert(whole.take(start as int) =~= bytes@);
    while i < chunk.len() && bytes.len() < DOCUMENT_BYTES
        invariant
            i <= chunk@.len(),
            bytes@.len() == start + i,
            bytes@.len() <= DOCUMENT_BYTES,
            whole == old(bytes)@ + chunk@,
            start == old(bytes)@.len(),
            bytes@ == whole.take(start + i),
        decreases chunk.len() - i,
    {
        bytes.push(chunk[i]);
        assert(bytes@ =~= whole.take(start + i + 1));
        i = i + 1;
    }
    assert(whole.take(whole.len() as int) =~= whole);
    bytes.len() == DOCUMENT_BYTES
}

} // verus!
