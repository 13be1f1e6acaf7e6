//! The titles of links: whom may be asked, and what is taken from the answers.
use vstd::prelude::*;
use vstd::string::*;
use vstd::utf8::encode_utf8;

use crate::discord::cleaned;
use crate::json::{member, JsonView};
use crate::laws::reading::law_cleaned_keeps_the_text;
use crate::link_titles::{
    all_public, answered, arrival, attributes_in, document_title, first_title, is_public, is_valid,
    next_url, or_empty, planned, question_for, texts_in, titled, with_query, IpAddr, LinkError,
    PlanView,
};
use crate::text::{
    control, join, joined_rest, lemma_trim_start, mentions, normalized, space, trim_start, word_len,
    words,
};
use crate::url::{url_parts, UrlView};

verus! {

/// The title in a service's answer is its member `title`, and nothing else of the answer counts.
pub proof fn law_answers_are_titled_by_their_title(data: JsonView, text: Seq<char>)
    ensures
        member(data, "title"@) == JsonView::Text(text) ==> answered(data) == titled(text),
        !(member(data, "title"@) is Text) ==> answered(data) is None,
        forall|other: JsonView|
            member(other, "title"@) == member(data, "title"@) ==> #[trigger] answered(other)
                == answered(data),
{
}

/// Whether a text is a word.
pub open spec fn is_word(text: Seq<char>) -> bool {
    text.len() > 0 && forall|i: int| 0 <= i < text.len() ==> !space(#[trigger] text[i])
}

proof fn lemma_word_len_of(word: Seq<char>, rest: Seq<char>)
    requires
        forall|i: int| 0 <= i < word.len() ==> !space(#[trigger] word[i]),
        rest.len() == 0 || space(rest[0]),
    ensures
        word_len(word + rest) == word.len(),
    decreases word.len(),
{
    let text = word + rest;
    if word.len() > 0 {
        assert(!space(word[0]));
        let tail = word.drop_first();
        assert forall|i: int| 0 <= i < tail.len() implies !space(#[trigger] tail[i]) by {
            assert(tail[i] == word[i + 1]);
        }
        lemma_word_len_of(tail, rest);
        assert(text.drop_first() =~= tail + rest);
    } else {
        assert(text =~= rest);
    }
}

/// Words that are joined by single spaces are read back as they are.
pub proof fn law_words_are_read_back(list: Seq<Seq<char>>)
    requires
        forall|i: int| 0 <= i < list.len() ==> is_word(#[trigger] list[i]),
    ensures
        words(join(list, seq![' '])) == list,
        normalized(join(list, seq![' '])) == join(list, seq![' ']),
    decreases list.len(),
{
    let text = join(list, seq![' ']);
    if list.len() == 0 {
        lemma_trim_start(text);
        assert(words(text) =~= list);
    } else {
        let rest = list.drop_first();
        assert forall|i: int| 0 <= i < rest.len() implies is_word(#[trigger] rest[i]) by {
            assert(rest[i] == list[i + 1]);
        }
        law_words_are_read_back(rest);
        let first = list[0];
        assert(is_word(first));
        let tail = joined_rest(rest, seq![' ']);
        assert(text == first + tail);
        assert(space(' '));
        assert(!space(first[0]));
        assert(text[0] == first[0]);
        assert(trim_start(text) == text);
        if rest.len() == 0 {
            assert(tail.len() == 0);
        } else {
            assert(tail[0] == ' ');
        }
        lemma_word_len_of(first, tail);
        assert(text.take(first.len() as int) =~= first);
        assert(text.skip(first.len() as int) =~= tail);
        assert(words(tail) == rest) by {
            if rest.len() == 0 {
                lemma_trim_start(tail);
                assert(words(tail) =~= rest);
            } else {
                let inner = join(rest, seq![' ']);
                assert(tail =~= seq![' '] + inner);
                assert(tail.drop_first() =~= inner);
                assert(trim_start(tail) == trim_start(inner));
                assert(words(tail) == words(inner));
            }
        }
        assert(seq![first] + rest =~= list);
    }
}

proof fn lemma_words_of_skip(text: Seq<char>)
    ensures
        forall|k: int| 0 <= k < words(text).len() ==> is_word(#[trigger] words(text)[k]),
        flat(words(text)) == text.filter(|c: char| !space(c)),
    decreases text.len(),
{
    let solid = |c: char| !space(c);
    let body = trim_start(text);
    lemma_trim_start(text);
    crate::text::lemma_word_len(body);
    let lead = text.take(text.len() - body.len());
    assert(text =~= lead + body);
    lemma_leading(text);
    Seq::filter_distributes_over_add(lead, body, solid);
    if body.len() == 0 {
        assert(body.filter(solid).len() == 0) by {
            body.lemma_filter_len(solid);
        }
        assert(text.filter(solid) =~= Seq::<char>::empty());
    } else {
        let n = word_len(body) as int;
        let word = body.take(n);
        let rest = body.skip(n);
        lemma_words_of_skip(rest);
        lemma_solid(body);
        assert(body =~= word + rest);
        Seq::filter_distributes_over_add(word, rest, solid);
        lemma_filter_word(word);
        assert(words(text) == seq![word] + words(rest));
        assert(text.filter(solid) =~= word + rest.filter(solid));
        let all = words(text);
        assert(all.drop_first() =~= words(rest));
        assert(flat(all) =~= word + flat(words(rest)));
        assert forall|k: int| 0 <= k < all.len() implies is_word(#[trigger] all[k]) by {
            if k > 0 {
                assert(all[k] == words(rest)[k - 1]);
            }
        }
    }
}

proof fn lemma_solid(text: Seq<char>)
    ensures
        forall|i: int| 0 <= i < word_len(text) ==> !space(#[trigger] text[i]),
        word_len(text) <= text.len(),
    decreases text.len(),
{
    if text.len() > 0 && !space(text[0]) {
        let rest = text.drop_first();
        lemma_solid(rest);
        assert forall|i: int| 0 <= i < word_len(text) implies !space(#[trigger] text[i]) by {
            if i > 0 {
                assert(rest[i - 1] == text[i]);
            }
        }
    }
}

proof fn lemma_leading(text: Seq<char>)
    ensures
        text.take(text.len() - trim_start(text).len()).filter(|c: char| !space(c)) == Seq::<
            char,
        >::empty(),
    decreases text.len(),
{
    let solid = |c: char| !space(c);
    lemma_trim_start(text);
    let n = text.len() - trim_start(text).len();
    let lead = text.take(n);
    if text.len() > 0 && space(text[0]) {
        let rest = text.drop_first();
        lemma_trim_start(rest);
        lemma_leading(rest);
        let inner = rest.take(n - 1);
        assert(lead =~= seq![text[0]] + inner);
        Seq::filter_distributes_over_add(seq![text[0]], inner, solid);
        assert(seq![text[0]].filter(solid) =~= Seq::<char>::empty()) by {
            let one = seq![text[0]];
            if one.filter(solid).len() > 0 {
                let c = one.filter(solid)[0];
                one.lemma_filter_pred(solid, 0);
                assert(one.filter(solid).contains(c));
                one.lemma_filter_contains_rev(solid, c);
                assert(c == text[0]);
            }
        }
        assert(lead.filter(solid) =~= Seq::<char>::empty());
    } else {
        lead.lemma_filter_len(solid);
        assert(lead.filter(solid) =~= Seq::<char>::empty());
    }
}

proof fn lemma_filter_word(word: Seq<char>)
    requires
        forall|i: int| 0 <= i < word.len() ==> !space(#[trigger] word[i]),
    ensures
        word.filter(|c: char| !space(c)) == word,
    decreases word.len(),
{
    reveal(Seq::filter);
    if word.len() > 0 {
        let front = word.drop_last();
        assert forall|i: int| 0 <= i < front.len() implies !space(#[trigger] front[i]) by {
            assert(front[i] == word[i]);
        }
        lemma_filter_word(front);
        assert(front.push(word.last()) =~= word);
    }
}

/// Texts behind one another.
pub open spec fn flat(list: Seq<Seq<char>>) -> Seq<char>
    decreases list.len(),
{
    if list.len() == 0 {
        Seq::empty()
    } else {
        list[0] + flat(list.drop_first())
    }
}

/// The words of a text hold all of its characters but white space, in order.
pub proof fn law_words_hold_every_character(text: Seq<char>)
    ensures
        forall|k: int| 0 <= k < words(text).len() ==> is_word(#[trigger] words(text)[k]),
        flat(words(text)) == text.filter(|c: char| !space(c)),
        normalized(text) == join(words(text), seq![' ']),
{
    lemma_words_of_skip(text);
}

/// A title is its words, as far as 120 characters of them may be published; words that need no
/// cleaning are kept as they are.
pub proof fn law_titles_keep_their_words(value: Seq<char>, list: Seq<Seq<char>>)
    requires
        forall|i: int| 0 <= i < list.len() ==> is_word(#[trigger] list[i]),
    ensures
        words(value) == list ==> {
            let line = join(list, seq![' ']);
            &&& cleaned(line, 120).len() == 0 ==> titled(value) is None
            &&& cleaned(line, 120).len() > 0 ==> titled(value) == Some(cleaned(line, 120))
            &&& 0 < line.len() <= 120 && (forall|i: int|
                0 <= i < line.len() ==> !control(#[trigger] line[i]) && line[i] != '@') ==> titled(
                value,
            ) == Some(line)
        },
{
    let line = join(list, seq![' ']);
    law_cleaned_keeps_the_text(line, 120);
}

/// The first of several texts that makes a title is taken.
pub proof fn law_the_first_title_is_taken(values: Seq<Seq<char>>)
    ensures
        first_title(values) matches Some(title) ==> exists|i: int|
            0 <= i < values.len() && titled(#[trigger] values[i]) == Some(title) && forall|j: int|
                0 <= j < i ==> titled(#[trigger] values[j]) is None,
        first_title(values) is None <==> forall|i: int|
            0 <= i < values.len() ==> titled(#[trigger] values[i]) is None,
    decreases values.len(),
{
    if values.len() > 0 {
        if titled(values[0]) is Some {
            assert(titled(values[0]) == first_title(values));
        } else {
            let rest = values.drop_first();
            law_the_first_title_is_taken(rest);
            assert forall|i: int| 0 <= i < rest.len() implies #[trigger] rest[i] == values[i + 1] by {}
            if first_title(values) is Some {
                let title = first_title(values)->0;
                let i = choose|i: int|
                    0 <= i < rest.len() && titled(#[trigger] rest[i]) == Some(title) && forall|
                        j: int,
                    |
                        0 <= j < i ==> titled(#[trigger] rest[j]) is None;
                assert(titled(values[i + 1]) == Some(title));
                assert forall|j: int| 0 <= j < i + 1 implies titled(#[trigger] values[j]) is None by {
                    if j > 0 {
                        assert(titled(rest[j - 1]) is None);
                    }
                }
            } else {
                assert forall|i: int| 0 <= i < values.len() implies titled(
                    #[trigger] values[i],
                ) is None by {
                    if i > 0 {
                        assert(titled(rest[i - 1]) is None);
                    }
                }
            }
        }
    }
}

/// A page is called by what it gives for sharing, else by what it gives for short messages, else
/// by its own title.
pub proof fn law_pages_are_called_by_what_they_share(source: Seq<char>)
    ensures
        ({
            let shared = attributes_in(source, "meta[property='og:title']"@, "content"@);
            let short = attributes_in(source, "meta[name='twitter:title']"@, "content"@);
            let own = texts_in(source, "title"@);
            let has_shared = exists|i: int|
                0 <= i < shared.len() && (#[trigger] shared[i]) is Some && titled(shared[i]->0)
                    is Some;
            let has_short = exists|i: int|
                0 <= i < short.len() && (#[trigger] short[i]) is Some && titled(short[i]->0)
                    is Some;
            &&& has_shared ==> document_title(source) == first_title(or_empty(shared))
            &&& !has_shared && has_short ==> document_title(source) == first_title(or_empty(short))
            &&& !has_shared && !has_short ==> document_title(source) == first_title(own)
        }),
{
    let shared = attributes_in(source, "meta[property='og:title']"@, "content"@);
    let short = attributes_in(source, "meta[name='twitter:title']"@, "content"@);
    lemma_attributes(shared);
    lemma_attributes(short);
}

proof fn lemma_attributes(list: Seq<Option<Seq<char>>>)
    ensures
        first_title(or_empty(list)) is Some <==> exists|i: int|
            0 <= i < list.len() && (#[trigger] list[i]) is Some && titled(list[i]->0) is Some,
{
    let texts = or_empty(list);
    law_the_first_title_is_taken(texts);
    assert(titled(Seq::<char>::empty()) is None) by {
        let none = Seq::<char>::empty();
        lemma_trim_start(none);
        assert(words(none) =~= Seq::<Seq<char>>::empty());
        assert(normalized(none) =~= none);
        law_cleaned_keeps_the_text(none, 120);
    }
    if first_title(texts) is Some {
        let title = first_title(texts)->0;
        let i = choose|i: int|
            0 <= i < texts.len() && titled(#[trigger] texts[i]) == Some(title) && forall|j: int|
                0 <= j < i ==> titled(#[trigger] texts[j]) is None;
        if list[i] is None {
            assert(texts[i] =~= Seq::<char>::empty());
        }
        assert(list[i] is Some && titled(list[i]->0) is Some);
    }
    if exists|i: int|
        0 <= i < list.len() && (#[trigger] list[i]) is Some && titled(list[i]->0) is Some {
        let i = choose|i: int|
            0 <= i < list.len() && (#[trigger] list[i]) is Some && titled(list[i]->0) is Some;
        assert(texts[i] == list[i]->0);
    }
}

/// Where the text of an attribute is taken from: the attribute itself, and nothing where an
/// element lacks it.
pub proof fn law_attributes_are_taken_as_they_are(list: Seq<Option<Seq<char>>>, i: int)
    requires
        0 <= i < list.len(),
    ensures
        or_empty(list).len() == list.len(),
        list[i] matches Some(text) ==> or_empty(list)[i] == text,
        list[i] is None ==> or_empty(list)[i].len() == 0,
{
}

/// An IPv4 address is public where it lies in none of the special blocks.
pub proof fn law_special_addresses_are_not_public(octets: [u8; 4])
    ensures
        ({
            let ip = octets@[0] as int * 0x100_0000 + octets@[1] as int * 0x1_0000 + octets@[2]
                as int * 0x100 + octets@[3] as int;
            is_public(IpAddr::V4(octets)) <==> {
                &&& 0x0100_0000 <= ip < 0xe000_0000
                &&& !(0x0a00_0000 <= ip < 0x0b00_0000)
                &&& !(0x6440_0000 <= ip < 0x6480_0000)
                &&& !(0x7f00_0000 <= ip < 0x8000_0000)
                &&& !(0xa9fe_0000 <= ip < 0xa9ff_0000)
                &&& !(0xac10_0000 <= ip < 0xac20_0000)
                &&& !(0xc000_0000 <= ip < 0xc000_0100)
                &&& !(0xc000_0200 <= ip < 0xc000_0300)
                &&& !(0xc0a8_0000 <= ip < 0xc0a9_0000)
                &&& !(0xc612_0000 <= ip < 0xc614_0000)
                &&& !(0xc633_6400 <= ip < 0xc633_6500)
                &&& !(0xcb00_7100 <= ip < 0xcb00_7200)
            }
        }),
{
}

/// An IPv6 address is public where it is global unicast and lies in none of the special blocks.
pub proof fn law_special_addresses_of_the_other_kind_are_not_public(segments: [u16; 8])
    ensures
        ({
            let ip = segments@[0] as int * 0x1_0000 + segments@[1] as int;
            is_public(IpAddr::V6(segments)) <==> {
                &&& 0x2000_0000 <= ip < 0x4000_0000
                &&& !(0x2001_0000 <= ip < 0x2001_0200)
                &&& ip != 0x2001_0db8
                &&& !(0x2002_0000 <= ip < 0x2003_0000)
                &&& !(0x3fff_0000 <= ip < 0x3fff_1000)
            }
        }),
{
}

/// A host is asked only where all of its addresses are public, and it has one.
pub proof fn law_one_private_address_is_enough_to_refuse(addresses: Seq<IpAddr>, i: int)
    ensures
        0 <= i < addresses.len() && !is_public(addresses[i]) ==> !all_public(addresses),
        addresses.len() == 0 ==> !all_public(addresses),
        addresses.len() > 0 && (forall|j: int|
            0 <= j < addresses.len() ==> is_public(#[trigger] addresses[j])) ==> all_public(
            addresses,
        ),
{
}

/// A link may be asked where it is a short HTTPS URL of a named host on the usual port, without
/// credentials, and the host's name has a dot and does not end as local names do.
pub proof fn law_only_public_links_are_asked(url: UrlView)
    ensures
        is_valid(url) <==> {
            &&& url.scheme == "https"@
            &&& url.username == Seq::<char>::empty()
            &&& url.password is None
            &&& url.port == Some(443u16)
            &&& encode_utf8(url.text).len() <= 4096
            &&& url.domain is Some
            &&& url.domain->0.contains('.')
            &&& crate::text::before(url.domain->0, ".local"@) is None
            &&& crate::text::before(url.domain->0, ".localhost"@) is None
            &&& crate::text::before(url.domain->0, ".internal"@) is None
        },
{
    if url.username.len() == 0 {
        assert(url.username =~= Seq::<char>::empty());
    }
}

/// A title is looked for on the page itself, and before that at the service that knows the
/// videos of its host, which is asked for that very link.
pub proof fn law_services_are_asked_for_the_link(url: UrlView, host: Seq<char>)
    ensures
        planned(None) is None,
        !is_valid(url) ==> planned(Some(url)) is None,
        is_valid(url) ==> planned(Some(url)) == Some(
            PlanView { question: question_for(url), page: url },
        ),
        url.host is None ==> question_for(url) is None,
        url.host == Some(host) && (host == "youtube.com"@ || host == "www.youtube.com"@ || host
            == "m.youtube.com"@ || host == "youtu.be"@) ==> question_for(url) == asked(
            "https://www.youtube.com/oembed"@,
            url.text,
        ),
        url.host == Some(host) && (host == "vimeo.com"@ || host == "www.vimeo.com"@ || host
            == "player.vimeo.com"@) ==> question_for(url) == asked(
            "https://vimeo.com/api/oembed.json"@,
            url.text,
        ),
        url.host == Some(host) && host != "youtube.com"@ && host != "www.youtube.com"@ && host
            != "m.youtube.com"@ && host != "youtu.be"@ && host != "vimeo.com"@ && host
            != "www.vimeo.com"@ && host != "player.vimeo.com"@ ==> question_for(url) is None,
{
    reveal_strlit("youtube.com");
    reveal_strlit("www.youtube.com");
    reveal_strlit("m.youtube.com");
    reveal_strlit("youtu.be");
    reveal_strlit("vimeo.com");
    reveal_strlit("www.vimeo.com");
    reveal_strlit("player.vimeo.com");
    assert("youtube.com"@[0] == 'y' && "www.youtube.com"@[4] == 'y' && "m.youtube.com"@[0] == 'm'
        && "youtu.be"@.len() == 8 && "vimeo.com"@[0] == 'v' && "www.vimeo.com"@[4] == 'v'
        && "player.vimeo.com"@[0] == 'p' && "www.vimeo.com"@[0] == 'w' && "www.youtube.com"@[0]
        == 'w' && "youtu.be"@[0] == 'y');
}

/// A question for a title at an address, taken apart.
pub open spec fn asked(service: Seq<char>, link: Seq<char>) -> Option<UrlView> {
    match with_query(service, seq![("url"@, link), ("format"@, "json"@)]) {
        Some(text) => url_parts(text),
        None => None,
    }
}

/// What an answer leads to: a document is read only from a success that is HTML or JSON; a
/// redirection is followed to where it points, to a link that may be asked, twice at most; and
/// everything else is no document.
pub proof fn law_answers_lead_to_documents(
    hops: u32,
    status: u16,
    redirected: bool,
    next: Option<UrlView>,
    content_type: Seq<char>,
)
    ensures
        ({
            let r = arrival(hops, status, redirected, next, content_type);
            let moved = 300 <= status < 400;
            let done = 200 <= status < 300;
            let document = mentions(content_type, "html"@) || mentions(content_type, "json"@);
            &&& r == Ok::<Option<UrlView>, LinkError>(None) <==> done && document
            &&& r matches Ok(Some(url)) ==> moved && redirected && next == Some(url) && hops < 3
                && is_valid(url)
            &&& moved && redirected && hops < 3 && next is Some && is_valid(next->0) ==> r == Ok::<
                Option<UrlView>,
                LinkError,
            >(next)
            &&& moved && !redirected ==> r == Err::<Option<UrlView>, LinkError>(
                LinkError::MissingRedirect,
            )
            &&& moved && redirected && next is None ==> r == Err::<Option<UrlView>, LinkError>(
                LinkError::InvalidRedirect,
            )
            &&& moved && redirected && next is Some && hops >= 3 ==> r == Err::<
                Option<UrlView>,
                LinkError,
            >(LinkError::TooManyRedirects)
            &&& moved && redirected && next is Some && hops < 3 && !is_valid(next->0) ==> r == Err::<
                Option<UrlView>,
                LinkError,
            >(LinkError::Unsupported)
            &&& !moved && !done ==> r == Err::<Option<UrlView>, LinkError>(LinkError::Unavailable)
            &&& done && !document ==> r == Err::<Option<UrlView>, LinkError>(LinkError::NoDocument)
        }),
{
}

/// A redirection leads where its location stands, seen from the page.
pub proof fn law_redirections_lead_where_they_say(base: Seq<char>, location: Seq<char>)
    ensures
        next_url(base, None) is None,
        crate::link_titles::joined(base, location) matches Some(text) ==> next_url(
            base,
            Some(location),
        ) == url_parts(text),
        crate::link_titles::joined(base, location) is None ==> next_url(base, Some(location))
            is None,
{
}

} // verus!
