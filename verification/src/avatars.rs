//! Portraits of participants. They come from Discord's CDN alone.
use vstd::prelude::*;
use vstd::string::*;

use crate::activity::{is_snowflake, snowflake};
use crate::discord::{clean, cleaned, clone_text};
use crate::json::{member, text_in, Json, JsonView};
use crate::number::{decimal, decimal_text, numeral, parse_u64, parsed, value};
use crate::text::{
    after, alphanumeric, before, behind, chars_of, first, hex, is_hex, join, join_texts, pieces,
    prefix, same, skip_leading, split, strip_prefix, strip_suffix,
};
use crate::url::{
    address, address_parts, lemma_plain_part, lemma_slashed, parse_url, plain_host, plain_part,
    plain_parts, plain_query, short, slashed, url_parts, Url, UrlView,
};

verus! {

/// A participant of a call, as a card shows them.
#[derive(Debug)]
pub struct Avatar {
    pub name: String,
    pub url: String,
    pub streaming: bool,
    pub game: Option<String>,
}

pub struct AvatarView {
    pub name: Seq<char>,
    pub url: Seq<char>,
    pub streaming: bool,
    pub game: Option<Seq<char>>,
}

impl View for Avatar {
    type V = AvatarView;

    open spec fn view(&self) -> AvatarView {
        AvatarView {
            name: self.name@,
            url: self.url@,
            streaming: self.streaming,
            game: self.game.deep_view(),
        }
    }
}

impl DeepView for Avatar {
    type V = AvatarView;

    open spec fn deep_view(&self) -> AvatarView {
        self@
    }
}

impl Clone for Avatar {
    fn clone(&self) -> (r: Self)
        ensures
            r@ == self@,
    {
        Avatar {
            name: self.name.clone(),
            url: self.url.clone(),
            streaming: self.streaming,
            game: clone_text(&self.game),
        }
    }
}

/// A copy of a list of participants.
pub fn clone_avatars(avatars: &Vec<Avatar>) -> (r: Vec<Avatar>)
    ensures
        r.deep_view() == avatars.deep_view(),
{
    let mut out: Vec<Avatar> = Vec::new();
    for i in 0..avatars.len()
        invariant
            out.deep_view() == avatars.deep_view().take(i as int),
    {
        let ghost held = out.deep_view();
        out.push(avatars[i].clone());
        proof {
            assert(out.deep_view() =~= held.push(avatars@[i as int]@));
            assert(avatars.deep_view().take(i + 1) =~= held.push(avatars@[i as int]@));
        }
    }
    assert(avatars.deep_view().take(avatars@.len() as int) =~= avatars.deep_view());
    out
}

/// The name of an image: 32 hexadecimal digits, with a mark where the image moves.
pub open spec fn is_hash(text: Seq<char>) -> bool {
    let digits = match after(text, "a_"@) {
        Some(rest) => rest,
        None => text,
    };
    digits.len() == 32 && all_hex(digits)
}

pub open spec fn all_hex(text: Seq<char>) -> bool {
    forall|i: int| 0 <= i < text.len() ==> hex(#[trigger] text[i])
}

pub fn hash(text: &str) -> (r: bool)
    ensures
        r == is_hash(text@),
{
    let digits = match strip_prefix(text, "a_") {
        Some(rest) => rest,
        None => text.to_owned(),
    };
    let chars = chars_of(digits.as_str());
    if chars.len() != 32 {
        return false;
    }
    for i in 0..chars.len()
        invariant
            chars@ == digits@,
            chars@.len() == 32,
            is_hash(text@) == all_hex(digits@),
            forall|j: int| 0 <= j < i ==> hex(#[trigger] digits@[j]),
    {
        if !is_hex(chars[i]) {
            assert(!hex(digits@[i as int]));
            return false;
        }
    }
    true
}

/// What a person is called: by their name on the server, else by their global name, else by
/// their account's name.
pub open spec fn shown_name(person: JsonView, fallback: Seq<char>) -> Seq<char> {
    let user = member(person, "user"@);
    match text_in(member(person, "nick"@)) {
        Some(name) => name,
        None => global_name(user, fallback),
    }
}

/// What an account is called: by its global name, else by its own.
pub open spec fn global_name(user: JsonView, fallback: Seq<char>) -> Seq<char> {
    match text_in(member(user, "global_name"@)) {
        Some(name) => name,
        None => match text_in(member(user, "username"@)) {
            Some(name) => name,
            None => fallback,
        },
    }
}

pub fn name_of_user<'a>(user: &'a Json, fallback: &'a str) -> (r: &'a str)
    ensures
        r@ == global_name(user@, fallback@),
{
    match user.get("global_name").as_text() {
        Some(name) => name,
        None => match user.get("username").as_text() {
            Some(name) => name,
            None => fallback,
        },
    }
}

pub fn name_of<'a>(person: &'a Json, fallback: &'a str) -> (r: &'a str)
    ensures
        r@ == shown_name(person@, fallback@),
{
    match person.get("nick").as_text() {
        Some(name) => name,
        None => name_of_user(person.get("user"), fallback),
    }
}

/// Why an avatar is refused.
#[derive(Clone, Copy, Debug, PartialEq, Eq, Structural)]
pub enum AvatarError {
    MissingId,
    InvalidId,
    NoUrl,
    Host,
    Path,
    Count,
}

impl AvatarError {
    pub fn message(&self) -> (r: &'static str)
        ensures
            r@ == (match *self {
                AvatarError::MissingId => "Missing member ID"@,
                AvatarError::InvalidId => "Invalid member ID"@,
                AvatarError::NoUrl => "Invalid avatar URL"@,
                AvatarError::Host => "Invalid avatar host"@,
                AvatarError::Path => "Invalid avatar path"@,
                AvatarError::Count => "Avatar grid requires 2–256 participants"@,
            }),
    {
        match self {
            AvatarError::MissingId => "Missing member ID",
            AvatarError::InvalidId => "Invalid member ID",
            AvatarError::NoUrl => "Invalid avatar URL",
            AvatarError::Host => "Invalid avatar host",
            AvatarError::Path => "Invalid avatar path",
            AvatarError::Count => "Avatar grid requires 2–256 participants",
        }
    }
}

/// The number of the default portrait: by the account's old number where it has one, else by
/// its ID.
pub open spec fn default_portrait(id: Seq<char>, user: JsonView) -> nat {
    let number = match text_in(member(user, "discriminator"@)) {
        Some(text) => match parsed(text) {
            Some(n) => n as nat,
            None => 0,
        },
        None => 0,
    };
    if number == 0 {
        (value(id) / 0x40_0000) % 6
    } else {
        number % 5
    }
}

/// The text of a JSON string that names an image.
pub open spec fn hash_in(value: JsonView) -> Option<Seq<char>> {
    match text_in(value) {
        Some(text) => if is_hash(text) {
            Some(text)
        } else {
            None
        },
        None => None,
    }
}

fn hash_of(value: &Json) -> (r: Option<&str>)
    ensures
        match r {
            Some(text) => hash_in(value@) == Some(text@),
            None => hash_in(value@) is None,
        },
{
    match value.as_text() {
        Some(text) => if hash(text) {
            Some(text)
        } else {
            None
        },
        None => None,
    }
}

/// Where a portrait stands on the CDN: the server's own, else the account's, else a default.
pub open spec fn portrait_path(person: JsonView, guild: Seq<char>, id: Seq<char>) -> Seq<char> {
    let user = member(person, "user"@);
    let own = hash_in(member(person, "avatar"@));
    let account = hash_in(member(user, "avatar"@));
    if own is Some && is_snowflake(guild) {
        "guilds/"@ + guild + "/users/"@ + id + "/avatars/"@ + own->0 + ".png"@
    } else if account is Some {
        "avatars/"@ + id + "/"@ + account->0 + ".png"@
    } else {
        "embed/avatars/"@ + decimal(default_portrait(id, user)) + ".png"@
    }
}

/// The URL of a portrait.
pub open spec fn portrait_url(path: Seq<char>) -> Seq<char> {
    "https://cdn.discordapp.com/"@ + path + "?size=128"@
}

fn path_of(person: &Json, guild: &str, id: &str) -> (r: String)
    requires
        is_snowflake(id@),
    ensures
        r@ == portrait_path(person@, guild@, id@),
{
    let user = person.get("user");
    let mut path = String::new();
    if let Some(own) = hash_of(person.get("avatar")) {
        if snowflake(guild) {
            path.append("guilds/");
            path.append(guild);
            path.append("/users/");
            path.append(id);
            path.append("/avatars/");
            path.append(own);
            path.append(".png");
            assert(path@ =~= portrait_path(person@, guild@, id@));
            return path;
        }
    }
    if let Some(account) = hash_of(user.get("avatar")) {
        path.append("avatars/");
        path.append(id);
        path.append("/");
        path.append(account);
        path.append(".png");
        assert(path@ =~= portrait_path(person@, guild@, id@));
        return path;
    }
    let number: u64 = match user.get("discriminator").as_text() {
        Some(text) => match parse_u64(text) {
            Some(n) => n,
            None => 0,
        },
        None => 0,
    };
    let account: u64 = match parse_u64(id) {
        Some(n) => n,
        None => 0,
    };
    proof {
        assert(crate::text::digit(id@[0]));
        assert(account == value(id@));
    }
    let index: u64 = if number == 0 {
        (account / 0x40_0000) % 6
    } else {
        number % 5
    };
    let digits = decimal_text(index);
    path.append("embed/avatars/");
    path.append(digits.as_str());
    path.append(".png");
    assert(path@ =~= portrait_path(person@, guild@, id@));
    path
}

/// The avatar of a member of a server.
pub open spec fn avatar_of(person: JsonView, guild: Seq<char>, id: Seq<char>) -> AvatarView {
    AvatarView {
        name: cleaned(shown_name(person, "Discord参加者"@), 60),
        url: portrait_url(portrait_path(person, guild, id)),
        streaming: false,
        game: None,
    }
}

/// The avatar of a member, or what is wrong with the member's ID.
pub open spec fn member_result(person: JsonView, guild: Seq<char>) -> Result<
    AvatarView,
    AvatarError,
> {
    match text_in(member(member(person, "user"@), "id"@)) {
        None => Err(AvatarError::MissingId),
        Some(id) => if is_snowflake(id) {
            Ok(avatar_of(person, guild, id))
        } else {
            Err(AvatarError::InvalidId)
        },
    }
}

pub fn member_avatar(person: &Json, guild: &str) -> (r: Result<Avatar, AvatarError>)
    ensures
        match r {
            Ok(avatar) => member_result(person@, guild@) == Ok::<AvatarView, AvatarError>(avatar@),
            Err(e) => member_result(person@, guild@) == Err::<AvatarView, AvatarError>(e),
        },
{
    let id = match person.get("user").get("id").as_text() {
        Some(id) => id,
        None => return Err(AvatarError::MissingId),
    };
    if !snowflake(id) {
        return Err(AvatarError::InvalidId);
    }
    let path = path_of(person, guild, id);
    let mut url = "https://cdn.discordapp.com/".to_owned();
    url.append(path.as_str());
    url.append("?size=128");
    let avatar = Avatar {
        name: clean(name_of(person, "Discord参加者"), 60),
        url,
        streaming: false,
        game: None,
    };
    assert(avatar@.url =~= portrait_url(path@));
    Ok(avatar)
}

/// A plain HTTPS URL of one host.
pub open spec fn on_host(url: UrlView, host: Seq<char>) -> bool {
    &&& url.scheme == "https"@
    &&& url.host == Some(host)
    &&& url.username.len() == 0
    &&& url.password is None
    &&& url.port == Some(443u16)
}

/// A host that is present and has this name.
pub fn names_host(host: &Option<String>, name: &str) -> (r: bool)
    ensures
        r == (host.deep_view() == Some(name@)),
{
    match host {
        Some(text) => same(text.as_str(), name),
        None => false,
    }
}

pub fn is_on_host(url: &Url, host: &str) -> (r: bool)
    ensures
        r == on_host(url@, host@),
{
    same(url.scheme.as_str(), "https") && names_host(&url.host, host)
        && url.username.as_str().is_empty() && url.password.is_none() && url.port == Some(443u16)
}

/// An image's name with its ending.
pub open spec fn is_hash_file(text: Seq<char>) -> bool {
    match before(text, ".png"@) {
        Some(name) => is_hash(name),
        None => false,
    }
}

fn hash_file(text: &str) -> (r: bool)
    ensures
        r == is_hash_file(text@),
{
    match strip_suffix(text, ".png") {
        Some(name) => hash(name.as_str()),
        None => false,
    }
}

/// A default portrait's name with its ending.
pub open spec fn is_default_file(text: Seq<char>) -> bool {
    match before(text, ".png"@) {
        Some(name) => name == "0"@ || name == "1"@ || name == "2"@ || name == "3"@ || name == "4"@
            || name == "5"@,
        None => false,
    }
}

fn default_file(text: &str) -> (r: bool)
    ensures
        r == is_default_file(text@),
{
    match strip_suffix(text, ".png") {
        Some(name) => {
            let n = name.as_str();
            same(n, "0") || same(n, "1") || same(n, "2") || same(n, "3") || same(n, "4") || same(
                n,
                "5",
            )
        },
        None => false,
    }
}

/// The path of an account's portrait, of a server's own portrait, or of a default.
pub open spec fn is_portrait_path(parts: Seq<Seq<char>>) -> bool {
    ||| {
        &&& parts.len() == 3
        &&& parts[0] == "avatars"@
        &&& is_snowflake(parts[1])
        &&& is_hash_file(parts[2])
    }
    ||| {
        &&& parts.len() == 6
        &&& parts[0] == "guilds"@
        &&& is_snowflake(parts[1])
        &&& parts[2] == "users"@
        &&& is_snowflake(parts[3])
        &&& parts[4] == "avatars"@
        &&& is_hash_file(parts[5])
    }
    ||| {
        &&& parts.len() == 3
        &&& parts[0] == "embed"@
        &&& parts[1] == "avatars"@
        &&& is_default_file(parts[2])
    }
}

/// What is wrong with the URL of a portrait.
pub open spec fn url_error(url: Option<UrlView>) -> Option<AvatarError> {
    match url {
        None => Some(AvatarError::NoUrl),
        Some(url) => if !on_host(url, "cdn.discordapp.com"@) {
            Some(AvatarError::Host)
        } else if !is_portrait_path(pieces(behind(url.path, '/'), '/')) {
            Some(AvatarError::Path)
        } else {
            None
        },
    }
}

/// The URL of a portrait on Discord's CDN, of the size that is asked for.
pub open spec fn portrait_address(text: Seq<char>) -> bool {
    exists|parts: Seq<Seq<char>>|
        is_portrait_path(parts) && text == #[trigger] address(
            "cdn.discordapp.com"@,
            parts,
            "size=128"@,
        )
}

/// Accepts the URLs of portraits on Discord's CDN, and no others.
pub fn validate_url(text: &str) -> (r: Result<(), AvatarError>)
    ensures
        match r {
            Ok(_) => url_error(url_parts(text@)) is None,
            Err(e) => url_error(url_parts(text@)) == Some(e),
        },
        portrait_address(text@) ==> r is Ok,
{
    let url = parse_url(text);
    proof {
        if portrait_address(text@) {
            let parts = choose|parts: Seq<Seq<char>>|
                is_portrait_path(parts) && text@ == #[trigger] address(
                    "cdn.discordapp.com"@,
                    parts,
                    "size=128"@,
                );
            lemma_portrait_address(parts);
        }
    }
    validate_parts(&url)
}

/// The CDN's name is in its normal form.
pub proof fn lemma_cdn()
    ensures
        plain_host("cdn.discordapp.com"@),
        "cdn.discordapp.com"@.len() == 18,
{
    reveal_strlit("cdn.discordapp.com");
    let host = "cdn.discordapp.com"@;
    assert forall|i: int| 0 <= i < host.len() implies 'a' <= #[trigger] host[i] <= 'z' || host[i]
        == '.' by {
        assert(i == 0 || i == 1 || i == 2 || i == 3 || i == 4 || i == 5 || i == 6 || i == 7 || i
            == 8 || i == 9 || i == 10 || i == 11 || i == 12 || i == 13 || i == 14 || i == 15 || i
            == 16 || i == 17);
    }
    assert forall|i: int, j: int| 0 <= i && j == i + 1 && j < host.len() implies #[trigger] host[i]
        != '.' || #[trigger] host[j] != '.' by {
        if host[i] == '.' {
            assert(i == 3 || i == 14) by {
                assert(i == 0 || i == 1 || i == 2 || i == 3 || i == 4 || i == 5 || i == 6 || i == 7
                    || i == 8 || i == 9 || i == 10 || i == 11 || i == 12 || i == 13 || i == 14 || i
                    == 15 || i == 16);
            }
        }
    }
}

/// An ID may stand in a URL.
pub proof fn lemma_plain_id(id: Seq<char>)
    requires
        is_snowflake(id),
    ensures
        plain_part(id),
        id.len() <= 20,
{
    assert(crate::text::digit(id[0]));
    assert forall|i: int| 0 <= i < id.len() implies alphanumeric(#[trigger] id[i]) by {
        assert(crate::text::digit(id[i]));
    }
}

/// A name with an image's ending may stand in a URL, where the name may.
pub proof fn lemma_plain_file(text: Seq<char>, name: Seq<char>)
    requires
        before(text, ".png"@) == Some(name),
        plain_part(name),
    ensures
        plain_part(text),
        text.len() == name.len() + 4,
{
    reveal_strlit(".png");
    let end = ".png"@;
    assert forall|i: int| 0 <= i < text.len() implies alphanumeric(#[trigger] text[i]) || text[i]
        == '_' || text[i] == '-' || text[i] == '.' by {
        if i < name.len() {
            assert(text[i] == name[i]);
        } else {
            let k = i - name.len();
            assert(text.skip(text.len() - end.len())[k] == text[i]);
            assert(k == 0 || k == 1 || k == 2 || k == 3);
        }
    }
    assert(text[0] == name[0]);
}

/// An image's name may stand in a URL.
proof fn lemma_plain_hash(name: Seq<char>)
    requires
        is_hash(name),
    ensures
        plain_part(name),
        name.len() <= 34,
{
    reveal_strlit("a_");
    let start = "a_"@;
    let digits = match after(name, start) {
        Some(rest) => rest,
        None => name,
    };
    assert forall|i: int| 0 <= i < name.len() implies (alphanumeric(#[trigger] name[i]) || name[i]
        == '_') && (i == 0 ==> name[i] != '.') by {
        if after(name, start) is Some {
            if i < 2 {
                assert(name.take(2)[i] == name[i]);
                assert(i == 0 || i == 1);
            } else {
                assert(name[i] == digits[i - 2]);
                assert(hex(digits[i - 2]));
            }
        } else {
            assert(hex(digits[i]));
        }
    }
    assert(name[0] != '.');
}

/// The parts of a portrait's path may stand in a URL.
proof fn lemma_plain_portrait(parts: Seq<Seq<char>>)
    requires
        is_portrait_path(parts),
    ensures
        plain_parts(parts),
        forall|i: int| 0 <= i < parts.len() ==> (#[trigger] parts[i]).len() <= 38,
        parts.len() <= 6,
{
    assert forall|i: int| 0 <= i < parts.len() implies plain_part(#[trigger] parts[i])
        && parts[i].len() <= 38 by {
        let part = parts[i];
        reveal_strlit("avatars");
        reveal_strlit("guilds");
        reveal_strlit("users");
        reveal_strlit("embed");
        lemma_small_word("avatars"@);
        lemma_small_word("guilds"@);
        lemma_small_word("users"@);
        lemma_small_word("embed"@);
        if is_snowflake(part) {
            lemma_plain_id(part);
        }
        if is_hash_file(part) {
            let name = before(part, ".png"@)->0;
            lemma_plain_hash(name);
            lemma_plain_file(part, name);
        }
        if is_default_file(part) {
            let name = before(part, ".png"@)->0;
            reveal_strlit("0");
            reveal_strlit("1");
            reveal_strlit("2");
            reveal_strlit("3");
            reveal_strlit("4");
            reveal_strlit("5");
            assert(name.len() == 1 && alphanumeric(name[0]));
            lemma_plain_file(part, name);
        }
    }
}

/// The words of a path may stand in a URL.
proof fn lemma_small_word(word: Seq<char>)
    requires
        word == "avatars"@ || word == "guilds"@ || word == "users"@ || word == "embed"@,
    ensures
        plain_part(word),
        word.len() <= 7,
{
    reveal_strlit("avatars");
    reveal_strlit("guilds");
    reveal_strlit("users");
    reveal_strlit("embed");
    assert forall|i: int| 0 <= i < word.len() implies alphanumeric(#[trigger] word[i]) by {
        assert(i == 0 || i == 1 || i == 2 || i == 3 || i == 4 || i == 5 || i == 6);
    }
}

/// The path of a few short parts is short.
pub proof fn lemma_slashed_length(parts: Seq<Seq<char>>)
    requires
        forall|i: int| 0 <= i < parts.len() ==> (#[trigger] parts[i]).len() <= 38,
    ensures
        slashed(parts).len() <= 39 * parts.len(),
    decreases parts.len(),
{
    if parts.len() > 0 {
        let rest = parts.drop_first();
        assert forall|i: int| 0 <= i < rest.len() implies (#[trigger] rest[i]).len() <= 38 by {
            assert(rest[i] == parts[i + 1]);
        }
        lemma_slashed_length(rest);
    }
}

/// What is asked of an image's URL: its size.
pub proof fn lemma_plain_size(query: Seq<char>)
    requires
        query == "size=128"@ || query == "size=512"@,
    ensures
        plain_query(query),
        query.len() == 8,
{
    reveal_strlit("size=128");
    reveal_strlit("size=512");
    assert forall|i: int| 0 <= i < query.len() implies alphanumeric(#[trigger] query[i]) || query[i]
        == '=' by {
        assert(i == 0 || i == 1 || i == 2 || i == 3 || i == 4 || i == 5 || i == 6 || i == 7);
    }
}

/// Nothing is wrong with the URL of a portrait.
proof fn lemma_portrait_address(parts: Seq<Seq<char>>)
    requires
        is_portrait_path(parts),
    ensures
        plain_host("cdn.discordapp.com"@),
        plain_parts(parts),
        plain_query("size=128"@),
        short(address("cdn.discordapp.com"@, parts, "size=128"@)),
        url_error(Some(address_parts("cdn.discordapp.com"@, parts, "size=128"@))) is None,
{
    reveal_strlit("https://");
    reveal_strlit("?");
    lemma_cdn();
    lemma_plain_portrait(parts);
    lemma_plain_size("size=128"@);
    lemma_slashed_length(parts);
    let path = slashed(parts);
    let rest = parts.drop_first();
    assert forall|i: int| 0 <= i < parts.len() implies !(#[trigger] parts[i]).contains('/') by {
        lemma_plain_part(parts[i]);
    }
    assert forall|i: int| 0 <= i < rest.len() implies !(#[trigger] rest[i]).contains('/') by {
        assert(rest[i] == parts[i + 1]);
    }
    assert(path[0] == '/');
    let bare = parts[0] + slashed(rest);
    assert(path.drop_first() =~= bare);
    assert(bare[0] == parts[0][0]);
    assert(alphanumeric(parts[0][0]) || parts[0][0] == '_' || parts[0][0] == '-');
    assert(behind(bare, '/') == bare);
    assert(behind(path, '/') == bare);
    lemma_slashed(parts[0], rest);
    assert(seq![parts[0]] + rest =~= parts);
}

/// The URL that a member's avatar is given is one that is accepted.
pub proof fn law_members_portraits_are_accepted(person: JsonView, guild: Seq<char>)
    ensures
        match member_result(person, guild) {
            Ok(avatar) => portrait_address(avatar.url),
            Err(_) => true,
        },
{
    if let Ok(avatar) = member_result(person, guild) {
        let id = text_in(member(member(person, "user"@), "id"@))->0;
        lemma_portrait_path(person, guild, id);
    }
}

/// Accepts the URLs of portraits on Discord's CDN, taken apart.
pub fn validate_parts(url: &Option<Url>) -> (r: Result<(), AvatarError>)
    ensures
        match r {
            Ok(_) => url_error(url.deep_view()) is None,
            Err(e) => url_error(url.deep_view()) == Some(e),
        },
{
    let url = match url {
        Some(u) => u,
        None => return Err(AvatarError::NoUrl),
    };
    if !is_on_host(url, "cdn.discordapp.com") {
        return Err(AvatarError::Host);
    }
    let path = skip_leading(url.path.as_str(), '/');
    let parts = split(path.as_str(), '/');
    let ghost views = parts.deep_view();
    assert(views.len() == parts.len());
    assert(forall|i: int| 0 <= i < parts.len() ==> #[trigger] views[i] == parts[i]@);
    let valid = if parts.len() == 3 {
        (same(parts[0].as_str(), "avatars") && snowflake(parts[1].as_str()) && hash_file(
            parts[2].as_str(),
        )) || (same(parts[0].as_str(), "embed") && same(parts[1].as_str(), "avatars")
            && default_file(parts[2].as_str()))
    } else if parts.len() == 6 {
        same(parts[0].as_str(), "guilds") && snowflake(parts[1].as_str()) && same(
            parts[2].as_str(),
            "users",
        ) && snowflake(parts[3].as_str()) && same(parts[4].as_str(), "avatars") && hash_file(
            parts[5].as_str(),
        )
    } else {
        false
    };
    if !valid {
        return Err(AvatarError::Path);
    }
    Ok(())
}

/// The largest portrait that is downloaded, in bytes.
pub const PORTRAIT_BYTES: usize = 1_048_576;

/// Whether a card can show this many participants.
pub fn card_fits(count: usize) -> (r: bool)
    ensures
        r == (2 <= count <= 256),
{
    2 <= count && count <= 256
}

/// What a card says of a participant.
pub open spec fn participant_text(avatar: AvatarView) -> Seq<char> {
    avatar.name + "："@ + (if avatar.streaming {
        "配信中"@
    } else {
        "通話中"@
    }) + (match avatar.game {
        Some(game) => "、プレイ中："@ + game,
        None => Seq::empty(),
    })
}

/// What a card shows, in words.
pub open spec fn card_text(avatars: Seq<AvatarView>, missing: nat) -> Seq<char> {
    "通話参加者（左から右、上から下）："@ + join(
        avatars.map_values(|a: AvatarView| a.name),
        "、"@,
    ) + "。"@ + join(avatars.map_values(|a: AvatarView| participant_text(a)), "。"@) + (if missing
        > 0 {
        "。取得できないアイコンは灰色の人型で表示"@
    } else {
        Seq::empty()
    })
}

/// The description of a card, `missing` of whose portraits could not be had.
pub fn describe(avatars: &Vec<Avatar>, missing: usize) -> (r: String)
    ensures
        r@ == first(card_text(avatars.deep_view(), missing as nat), 1500),
{
    let ghost views = avatars.deep_view();
    let mut names: Vec<String> = Vec::new();
    let mut notes: Vec<String> = Vec::new();
    for i in 0..avatars.len()
        invariant
            views == avatars.deep_view(),
            names.deep_view() == views.take(i as int).map_values(|a: AvatarView| a.name),
            notes.deep_view() == views.take(i as int).map_values(
                |a: AvatarView| participant_text(a),
            ),
    {
        let ghost held = names.deep_view();
        let ghost said = notes.deep_view();
        let a = &avatars[i];
        let mut note = a.name.clone();
        note.append("：");
        if a.streaming {
            note.append("配信中");
        } else {
            note.append("通話中");
        }
        if let Some(game) = &a.game {
            note.append("、プレイ中：");
            note.append(game.as_str());
        }
        assert(note@ =~= participant_text(a@));
        names.push(a.name.clone());
        notes.push(note);
        proof {
            assert(names.deep_view() =~= held.push(a.name@));
            assert(notes.deep_view() =~= said.push(participant_text(a@)));
            assert(views.take(i + 1).map_values(|a: AvatarView| a.name) =~= held.push(a.name@));
            assert(views.take(i + 1).map_values(|a: AvatarView| participant_text(a)) =~= said.push(
                participant_text(a@),
            ));
        }
    }
    assert(views.take(views.len() as int) =~= views);
    let mut text = "通話参加者（左から右、上から下）：".to_owned();
    text.append(join_texts(&names, "、").as_str());
    text.append("。");
    text.append(join_texts(&notes, "。").as_str());
    if missing > 0 {
        text.append("。取得できないアイコンは灰色の人型で表示");
    }
    assert(text@ =~= card_text(views, missing as nat));
    prefix(text.as_str(), 1500)
}

/// Whether a point of the placeholder lies on the figure: a head above shoulders.
pub open spec fn on_figure(x: int, y: int) -> bool {
    ||| (x - 64) * (x - 64) + (y - 43) * (y - 43) < 400
    ||| (x - 64) * (x - 64) + (y - 110) * (y - 110) < 1600 && y > 73
}

/// A pixel of the portrait that stands for one that could not be had.
pub fn placeholder_pixel(x: u32, y: u32) -> (r: [u8; 4])
    requires
        x < 128,
        y < 128,
    ensures
        r@ == (if on_figure(x as int, y as int) {
            seq![210u8, 215, 225, 255]
        } else {
            seq![74u8, 82, 101, 255]
        }),
{
    let dx: i64 = x as i64 - 64;
    let head: i64 = y as i64 - 43;
    let body: i64 = y as i64 - 110;
    assert(0 <= dx * dx <= 16384) by (nonlinear_arith)
        requires
            -64 <= dx <= 64,
    ;
    assert(0 <= head * head <= 16384) by (nonlinear_arith)
        requires
            -43 <= head <= 84,
    ;
    assert(0 <= body * body <= 16384) by (nonlinear_arith)
        requires
            -110 <= body <= 17,
    ;
    if dx * dx + head * head < 400 || (dx * dx + body * body < 1600 && y > 73) {
        [210, 215, 225, 255]
    } else {
        [74, 82, 101, 255]
    }
}

/// A file's name is what precedes its ending.
pub proof fn lemma_file(name: Seq<char>)
    ensures
        before(name + ".png"@, ".png"@) == Some(name),
{
    let end = ".png"@;
    let text = name + end;
    assert(text.skip(text.len() - end.len()) =~= end);
    assert(text.take(text.len() - end.len()) =~= name);
}

/// A portrait's URL has the parts of a portrait's path.
#[verifier::rlimit(40)]
proof fn lemma_portrait_path(person: JsonView, guild: Seq<char>, id: Seq<char>)
    requires
        is_snowflake(id),
    ensures
        portrait_address(portrait_url(portrait_path(person, guild, id))),
{
    let user = member(person, "user"@);
    let own = hash_in(member(person, "avatar"@));
    let account = hash_in(member(user, "avatar"@));
    let path = portrait_path(person, guild, id);
    let parts = if own is Some && is_snowflake(guild) {
        seq!["guilds"@, guild, "users"@, id, "avatars"@, own->0 + ".png"@]
    } else if account is Some {
        seq!["avatars"@, id, account->0 + ".png"@]
    } else {
        seq!["embed"@, "avatars"@, decimal(default_portrait(id, user)) + ".png"@]
    };
    reveal_with_fuel(slashed, 7);
    if own is Some && is_snowflake(guild) {
        lemma_file(own->0);
        reveal_strlit("guilds/");
        reveal_strlit("guilds");
        reveal_strlit("/users/");
        reveal_strlit("users");
        reveal_strlit("/avatars/");
        reveal_strlit("avatars");
        assert("guilds/"@ =~= "guilds"@ + seq!['/']);
        assert("/users/"@ =~= seq!['/'] + "users"@ + seq!['/']);
        assert("/avatars/"@ =~= seq!['/'] + "avatars"@ + seq!['/']);
    } else if account is Some {
        lemma_file(account->0);
        reveal_strlit("avatars/");
        reveal_strlit("avatars");
        reveal_strlit("/");
        assert("avatars/"@ =~= "avatars"@ + seq!['/']);
        assert("/"@ =~= seq!['/']);
    } else {
        let n = default_portrait(id, user);
        assert(n < 6) by {
            assert((value(id) / 0x40_0000) % 6 < 6);
        }
        lemma_file(decimal(n));
        reveal_strlit("embed/avatars/");
        reveal_strlit("embed");
        reveal_strlit("avatars");
        assert("embed/avatars/"@ =~= "embed"@ + seq!['/'] + "avatars"@ + seq!['/']);
        reveal_strlit("0");
        reveal_strlit("1");
        reveal_strlit("2");
        reveal_strlit("3");
        reveal_strlit("4");
        reveal_strlit("5");
        assert(decimal(n) =~= seq![numeral(n as int)]);
        assert(decimal(n) =~= "0"@ || decimal(n) =~= "1"@ || decimal(n) =~= "2"@ || decimal(n)
            =~= "3"@ || decimal(n) =~= "4"@ || decimal(n) =~= "5"@);
    }
    assert(is_portrait_path(parts));
    assert(slashed(parts) =~= seq!['/'] + path);
    reveal_strlit("https://cdn.discordapp.com/");
    reveal_strlit("https://");
    reveal_strlit("cdn.discordapp.com");
    reveal_strlit("?size=128");
    reveal_strlit("?");
    reveal_strlit("size=128");
    assert("https://cdn.discordapp.com/"@ =~= "https://"@ + "cdn.discordapp.com"@ + seq!['/']);
    assert("?size=128"@ =~= "?"@ + "size=128"@);
    assert(portrait_url(path) =~= address("cdn.discordapp.com"@, parts, "size=128"@));
}

} // verus!
