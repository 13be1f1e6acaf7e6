//! URLs, taken apart.
use crate::text::{alphanumeric, find, lemma_find, pieces};
use vstd::prelude::*;
use vstd::string::*;

verus! {

/// The parts of a URL.
#[derive(Debug)]
pub struct Url {
    /// The whole URL, in its normal form.
    pub text: String,
    pub scheme: String,
    pub username: String,
    pub password: Option<String>,
    pub host: Option<String>,
    /// The host where it is a name, not an address.
    pub domain: Option<String>,
    /// The port, or the scheme's own where none is given.
    pub port: Option<u16>,
    pub path: String,
    pub query: Option<String>,
    pub fragment: Option<String>,
}

pub struct UrlView {
    pub text: Seq<char>,
    pub scheme: Seq<char>,
    pub username: Seq<char>,
    pub password: Option<Seq<char>>,
    pub host: Option<Seq<char>>,
    pub domain: Option<Seq<char>>,
    pub port: Option<u16>,
    pub path: Seq<char>,
    pub query: Option<Seq<char>>,
    pub fragment: Option<Seq<char>>,
}

impl View for Url {
    type V = UrlView;

    open spec fn view(&self) -> UrlView {
        UrlView {
            text: self.text@,
            scheme: self.scheme@,
            username: self.username@,
            password: self.password.deep_view(),
            host: self.host.deep_view(),
            domain: self.domain.deep_view(),
            port: self.port,
            path: self.path@,
            query: self.query.deep_view(),
            fragment: self.fragment.deep_view(),
        }
    }
}

impl DeepView for Url {
    type V = UrlView;

    open spec fn deep_view(&self) -> UrlView {
        self@
    }
}

/// The name of a host in its normal form: words of small letters, with dots between them.
pub open spec fn plain_host(host: Seq<char>) -> bool {
    &&& host.len() > 0
    &&& host[0] != '.'
    &&& host.last() != '.'
    &&& forall|i: int|
        0 <= i < host.len() ==> 'a' <= #[trigger] host[i] <= 'z' || host[i] == '.'
    &&& forall|i: int, j: int|
        0 <= i && j == i + 1 && j < host.len() ==> #[trigger] host[i] != '.' || #[trigger] host[j]
            != '.'
}

/// A part of a path that stands in a URL as it is.
pub open spec fn plain_part(part: Seq<char>) -> bool {
    &&& part.len() > 0
    &&& part[0] != '.'
    &&& forall|i: int|
        0 <= i < part.len() ==> alphanumeric(#[trigger] part[i]) || part[i] == '_' || part[i] == '-'
            || part[i] == '.'
}

pub open spec fn plain_parts(parts: Seq<Seq<char>>) -> bool {
    &&& parts.len() > 0
    &&& forall|i: int| 0 <= i < parts.len() ==> plain_part(#[trigger] parts[i])
}

/// A query that stands in a URL as it is.
pub open spec fn plain_query(query: Seq<char>) -> bool {
    forall|i: int| 0 <= i < query.len() ==> alphanumeric(#[trigger] query[i]) || query[i] == '='
}

/// A path: its parts, each behind a slash.
pub open spec fn slashed(parts: Seq<Seq<char>>) -> Seq<char>
    decreases parts.len(),
{
    if parts.len() == 0 {
        Seq::empty()
    } else {
        seq!['/'] + parts[0] + slashed(parts.drop_first())
    }
}

/// The HTTPS URL of a host, a path and a query.
pub open spec fn address(host: Seq<char>, parts: Seq<Seq<char>>, query: Seq<char>) -> Seq<char> {
    "https://"@ + host + slashed(parts) + "?"@ + query
}

/// The parts of such a URL.
pub open spec fn address_parts(
    host: Seq<char>,
    parts: Seq<Seq<char>>,
    query: Seq<char>,
) -> UrlView {
    UrlView {
        text: address(host, parts, query),
        scheme: "https"@,
        username: Seq::empty(),
        password: None,
        host: Some(host),
        domain: Some(host),
        port: Some(443),
        path: slashed(parts),
        query: Some(query),
        fragment: None,
    }
}

/// The parts of a path are what stands between its slashes.
pub proof fn lemma_slashed(first: Seq<char>, parts: Seq<Seq<char>>)
    requires
        !first.contains('/'),
        forall|i: int| 0 <= i < parts.len() ==> !(#[trigger] parts[i]).contains('/'),
    ensures
        pieces(first + slashed(parts), '/') == seq![first] + parts,
    decreases parts.len(),
{
    let text = first + slashed(parts);
    lemma_find(text, '/');
    if parts.len() == 0 {
        assert(text =~= first);
        assert(seq![first] + parts =~= seq![first]);
    } else {
        let rest = parts.drop_first();
        let tail = slashed(parts);
        assert(tail[0] == '/');
        assert(text[first.len() as int] == '/');
        let n = find(text, '/') as int;
        if n < first.len() {
            assert(text[n] == first[n]);
            assert(first.contains('/'));
        }
        assert(n == first.len());
        assert(text.take(n) =~= first);
        assert(text.skip(n + 1) =~= parts[0] + slashed(rest));
        assert forall|i: int| 0 <= i < rest.len() implies !(#[trigger] rest[i]).contains('/') by {
            assert(rest[i] == parts[i + 1]);
        }
        lemma_slashed(parts[0], rest);
        assert(seq![first] + (seq![parts[0]] + rest) =~= seq![first] + parts);
    }
}

/// A plain part holds no slash.
pub proof fn lemma_plain_part(part: Seq<char>)
    requires
        plain_part(part),
    ensures
        !part.contains('/'),
{
    if part.contains('/') {
        let i = part.index_of('/');
        assert(part[i] == '/');
    }
}

/// The text is short enough for every place in it to be numbered in 32 bits.
pub open spec fn short(text: Seq<char>) -> bool {
    text.len() <= u32::MAX
}

/// The parts of the URL that a text spells, where it spells one.
pub uninterp spec fn url_parts(text: Seq<char>) -> Option<UrlView>;

/// `reqwest::Url::parse`, with the accessors of the URL it returns: the parts of an absolute
/// URL, or nothing where the text is not one. They depend on the text alone. An HTTPS URL that
/// is in its normal form already, of a host's name, a path and a query, is taken apart into
/// these.
#[verifier::external_body]
pub(crate) fn parse_url(text: &str) -> (r: Option<Url>)
    ensures
        r.deep_view() == url_parts(text@),
        forall|host: Seq<char>, parts: Seq<Seq<char>>, query: Seq<char>|
            text@ == #[trigger] address(host, parts, query) && short(text@) && plain_host(host)
                && plain_parts(parts) && plain_query(query) ==> r.deep_view() == Some(
                address_parts(host, parts, query),
            ),
{
    let url = reqwest::Url::parse(text).ok()?;
    Some(Url {
        text: url.as_str().to_owned(),
        scheme: url.scheme().to_owned(),
        username: url.username().to_owned(),
        password: url.password().map(str::to_owned),
        host: url.host_str().map(str::to_owned),
        domain: url.domain().map(str::to_owned),
        port: url.port_or_known_default(),
        path: url.path().to_owned(),
        query: url.query().map(str::to_owned),
        fragment: url.fragment().map(str::to_owned),
    })
}

} // verus!
