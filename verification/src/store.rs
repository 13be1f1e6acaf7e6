//! Where the state is kept between runs: encrypted, and never lost by mistake.
use vstd::prelude::*;
use vstd::string::*;
use vstd::utf8::{
    decode_utf8, encode_utf8, encode_utf8_decode_utf8, encode_utf8_valid_utf8, is_ascii_chars,
    is_ascii_chars_encode_utf8, valid_utf8,
};

use crate::codec::{
    base64_char, base64_in, base64_of, decode64, derive_key, encode64, fresh_nonce, hkdf_sha256,
    open, opened, seal, sealed, text_from, SEALED_BYTES,
};
use crate::http::{
    failure, failure_text, is_success, read, reading, succeeded, Method, Request, RequestView,
};
use crate::json::{member, member_views, named, text_in, Json, JsonView, Member};
use crate::text::{
    after, alphanumeric, blank, chars_of, is_alphanumeric, is_blank, lemma_filter_step, pieces,
    split, strip_prefix,
};

verus! {

/// Where a state is kept.
pub enum Backend {
    /// In a file.
    Local(String),
    /// On a branch of a repository. The SHA is that of the state that was read or written last.
    Github { base: String, repository: String, token: String, sha: Option<String> },
}

/// Keeps a state under a key.
pub struct Store {
    pub backend: Backend,
    key: [u8; 32],
}

/// The request of a store that failed.
#[derive(Clone, Copy, Debug, PartialEq, Eq, Structural)]
pub enum Service {
    Read,
    Branch,
    Repository,
    Head,
    Creation,
    Write,
}

/// Why a state could not be read or written.
#[derive(Clone, Copy, Debug, PartialEq, Eq, Structural)]
pub enum StoreError {
    Envelope,
    Base64,
    Truncated,
    Key,
    Encryption,
    Version,
    Lost,
    Status(Service, u16),
    MissingSha,
    MissingContent,
    NoText,
    MissingDefaultBranch,
    MissingSavedSha,
}

/// The key that a secret stands for.
pub open spec fn key_of(secret: Seq<char>) -> Seq<u8> {
    hkdf_sha256(
        encode_utf8("sirucord-state-v1"@),
        encode_utf8(secret),
        encode_utf8("AES-256-GCM encryption"@),
    )
}

/// Whether so many bytes can be encrypted.
pub open spec fn fits(n: nat) -> bool {
    n <= SEALED_BYTES && n + 28 <= usize::MAX / 16
}

/// An encrypted text: the nonce and what was sealed under it.
pub open spec fn envelope(key: Seq<u8>, nonce: Seq<u8>, plain: Seq<u8>) -> Seq<char> {
    "sirucord-state-v1:"@ + base64_of(nonce + sealed(key, nonce, plain))
}

/// The nonce and the sealed bytes of an envelope.
pub open spec fn frame(data: Option<Seq<u8>>) -> Result<(Seq<u8>, Seq<u8>), StoreError> {
    match data {
        None => Err(StoreError::Base64),
        Some(bytes) => if bytes.len() < 28 {
            Err(StoreError::Truncated)
        } else {
            Ok((bytes.take(12), bytes.skip(12)))
        },
    }
}

/// What is in an envelope.
pub open spec fn unwrapped(key: Seq<u8>, text: Seq<char>) -> Result<Seq<u8>, StoreError> {
    match after(text, "sirucord-state-v1:"@) {
        None => Err(StoreError::Envelope),
        Some(rest) => match frame(base64_in(rest)) {
            Err(e) => Err(e),
            Ok((nonce, data)) => if data.len() > SEALED_BYTES + 16 {
                Err(StoreError::Key)
            } else {
                match opened(key, nonce, data) {
                    None => Err(StoreError::Key),
                    Some(plain) => Ok(plain),
                }
            },
        },
    }
}

/// Takes the bytes of an envelope apart.
pub fn split_frame(data: &Option<Vec<u8>>) -> (r: Result<(Vec<u8>, Vec<u8>), StoreError>)
    ensures
        match r {
            Ok((nonce, sealed)) => frame(data.deep_view()) == Ok::<
                (Seq<u8>, Seq<u8>),
                StoreError,
            >((nonce@, sealed@)),
            Err(e) => frame(data.deep_view()) == Err::<(Seq<u8>, Seq<u8>), StoreError>(e),
        },
{
    let bytes = match data {
        Some(bytes) => bytes,
        None => return Err(StoreError::Base64),
    };
    assert(data.deep_view() == Some(bytes@)) by {
        assert(bytes.deep_view() =~= bytes@);
    }
    if bytes.len() < 28 {
        return Err(StoreError::Truncated);
    }
    let mut nonce: Vec<u8> = Vec::new();
    let mut sealed: Vec<u8> = Vec::new();
    for i in 0..bytes.len()
        invariant
            bytes@.len() >= 28,
            i <= 12 ==> nonce@ == bytes@.take(i as int) && sealed@.len() == 0,
            i > 12 ==> nonce@ == bytes@.take(12) && sealed@ == bytes@.subrange(12, i as int),
    {
        if i < 12 {
            nonce.push(bytes[i]);
            assert(nonce@ =~= bytes@.take(i + 1));
        } else {
            sealed.push(bytes[i]);
            assert(sealed@ =~= bytes@.subrange(12, i + 1));
        }
    }
    assert(sealed@ =~= bytes@.skip(12));
    Ok((nonce, sealed))
}

impl Store {
    /// The key that everything is encrypted under.
    pub closed spec fn key(&self) -> Seq<u8> {
        self.key@
    }

    /// Where the state is kept.
    pub closed spec fn place(&self) -> Backend {
        self.backend
    }

    pub fn new(backend: Backend, secret: &str) -> (r: Store)
        ensures
            r.place() == backend,
            r.key() == key_of(secret@),
    {
        let key = derive_key(
            "sirucord-state-v1".as_bytes(),
            secret.as_bytes(),
            "AES-256-GCM encryption".as_bytes(),
        );
        Store { backend, key }
    }

    /// Encrypts bytes under a nonce. Decrypting gives them back.
    pub fn encrypt_with(&self, nonce: &[u8; 12], plain: &[u8]) -> (r: Result<String, StoreError>)
        ensures
            match r {
                Ok(text) => {
                    &&& fits(plain@.len())
                    &&& text@ == envelope(self.key(), nonce@, plain@)
                    &&& unwrapped(self.key(), text@) == Ok::<Seq<u8>, StoreError>(plain@)
                    &&& encode_utf8(text@).len() <= usize::MAX / 4
                },
                Err(e) => !fits(plain@.len()) && e == StoreError::Encryption,
            },
    {
        if plain.len() as u64 > SEALED_BYTES || plain.len() > usize::MAX / 16 - 28 {
            return Err(StoreError::Encryption);
        }
        let mut body = seal(&self.key, nonce, plain);
        let ghost sealed_body = body@;
        let mut data: Vec<u8> = Vec::new();
        for i in 0..12usize
            invariant
                data@ == nonce@.take(i as int),
        {
            data.push(nonce[i]);
            assert(data@ =~= nonce@.take(i + 1));
        }
        assert(nonce@.take(12) =~= nonce@);
        data.append(&mut body);
        assert(data@ =~= nonce@ + sealed_body);
        let mut text = "sirucord-state-v1:".to_owned();
        let code = encode64(data.as_slice());
        text.append(code.as_str());
        proof {
            let start = "sirucord-state-v1:"@;
            assert(text@.take(start.len() as int) =~= start);
            assert(text@.skip(start.len() as int) =~= code@);
            assert(data@.take(12) =~= nonce@);
            assert(data@.skip(12) =~= sealed_body);
            reveal_strlit("sirucord-state-v1:");
            assert(is_ascii_chars(text@)) by {
                assert forall|i: int| 0 <= i < text@.len() implies '\0' <= #[trigger] text@[i]
                    <= '\u{7f}' by {
                    if i >= start.len() {
                        assert(text@[i] == code@[i - start.len()]);
                        assert(base64_char(code@[i - start.len()]));
                    }
                }
            }
            is_ascii_chars_encode_utf8(text@);
        }
        Ok(text)
    }

    /// Encrypts bytes under a random nonce. Decrypting gives them back.
    pub fn encrypt(&self, plain: &[u8]) -> (r: Result<String, StoreError>)
        ensures
            match r {
                Ok(text) => {
                    &&& fits(plain@.len())
                    &&& exists|nonce: Seq<u8>|
                        nonce.len() == 12 && text@ == #[trigger] envelope(
                            self.key(),
                            nonce,
                            plain@,
                        )
                    &&& unwrapped(self.key(), text@) == Ok::<Seq<u8>, StoreError>(plain@)
                    &&& encode_utf8(text@).len() <= usize::MAX / 4
                },
                Err(e) => !fits(plain@.len()) && e == StoreError::Encryption,
            },
    {
        let nonce = fresh_nonce();
        self.encrypt_with(&nonce, plain)
    }

    /// Decrypts a text.
    pub fn decrypt(&self, encoded: &str) -> (r: Result<Vec<u8>, StoreError>)
        ensures
            match r {
                Ok(plain) => unwrapped(self.key(), encoded@) == Ok::<Seq<u8>, StoreError>(plain@),
                Err(e) => unwrapped(self.key(), encoded@) == Err::<Seq<u8>, StoreError>(e),
            },
    {
        let rest = match strip_prefix(encoded, "sirucord-state-v1:") {
            Some(rest) => rest,
            None => return Err(StoreError::Envelope),
        };
        let bytes = decode64(rest.as_str());
        let (nonce, data) = match split_frame(&bytes) {
            Ok(parts) => parts,
            Err(e) => return Err(e),
        };
        if data.len() as u64 > SEALED_BYTES + 16 {
            return Err(StoreError::Key);
        }
        match open(&self.key, nonce.as_slice(), data.as_slice()) {
            Some(plain) => {
                assert(plain.deep_view() =~= plain@);
                Ok(plain)
            },
            None => Err(StoreError::Key),
        }
    }
}

/// A test for characters that do not break lines.
pub open spec fn unbroken() -> spec_fn(char) -> bool {
    |c: char| c != '\n' && c != '\r'
}

/// The text that bytes spell.
pub open spec fn spelled(bytes: Option<Seq<u8>>) -> Result<Seq<char>, StoreError> {
    match bytes {
        None => Err(StoreError::Base64),
        Some(b) => if valid_utf8(b) {
            Ok(decode_utf8(b))
        } else {
            Err(StoreError::NoText)
        },
    }
}

/// The text that the content of a file on a branch stands for. Its base64 may be broken into
/// lines.
pub open spec fn content_text(content: Seq<char>) -> Result<Seq<char>, StoreError> {
    spelled(base64_in(content.filter(unbroken())))
}

/// The text that bytes spell.
pub fn spell(bytes: Option<Vec<u8>>) -> (r: Result<String, StoreError>)
    ensures
        match r {
            Ok(text) => spelled(bytes.deep_view()) == Ok::<Seq<char>, StoreError>(text@),
            Err(e) => spelled(bytes.deep_view()) == Err::<Seq<char>, StoreError>(e),
        },
{
    match bytes {
        None => Err(StoreError::Base64),
        Some(b) => {
            assert(b.deep_view() =~= b@);
            match text_from(b) {
                Some(text) => Ok(text),
                None => Err(StoreError::NoText),
            }
        },
    }
}

/// The text that the content of a file on a branch stands for.
pub fn read_content(content: &str) -> (r: Result<String, StoreError>)
    ensures
        match r {
            Ok(text) => content_text(content@) == Ok::<Seq<char>, StoreError>(text@),
            Err(e) => content_text(content@) == Err::<Seq<char>, StoreError>(e),
        },
{
    let chars = chars_of(content);
    let mut code = String::new();
    assert(code@ =~= chars@.take(0).filter(unbroken())) by {
        reveal(Seq::filter);
    }
    for i in 0..chars.len()
        invariant
            code@ == chars@.take(i as int).filter(unbroken()),
    {
        proof {
            lemma_filter_step(chars@, unbroken(), i as int);
        }
        if chars[i] != '\n' && chars[i] != '\r' {
            code.push(chars[i]);
        }
    }
    assert(chars@.take(chars@.len() as int) =~= chars@);
    spell(decode64(code.as_str()))
}

/// A filter keeps a sequence whose items it all accepts.
proof fn lemma_filter_keeps(s: Seq<char>, test: spec_fn(char) -> bool)
    requires
        forall|i: int| 0 <= i < s.len() ==> test(#[trigger] s[i]),
    ensures
        s.filter(test) == s,
    decreases s.len(),
{
    reveal(Seq::filter);
    if s.len() > 0 {
        let front = s.drop_last();
        assert forall|i: int| 0 <= i < front.len() implies test(#[trigger] front[i]) by {
            assert(test(s[i]));
        }
        lemma_filter_keeps(front, test);
        assert(test(s[s.len() - 1]));
        assert(s =~= front.push(s.last()));
    } else {
        assert(s.filter(test) =~= s);
    }
}

/// A text as the content of a file on a branch. Reading it gives the text back.
pub fn write_content(text: &str) -> (r: Result<String, StoreError>)
    ensures
        match r {
            Ok(content) => {
                &&& encode_utf8(text@).len() <= usize::MAX / 4
                &&& content@ == base64_of(encode_utf8(text@))
                &&& content_text(content@) == Ok::<Seq<char>, StoreError>(text@)
            },
            Err(e) => encode_utf8(text@).len() > usize::MAX / 4 && e == StoreError::Encryption,
        },
{
    let bytes = text.as_bytes();
    if bytes.len() > usize::MAX / 4 {
        return Err(StoreError::Encryption);
    }
    let content = encode64(bytes);
    proof {
        assert forall|i: int| 0 <= i < content@.len() implies unbroken()(#[trigger] content@[i]) by {
            assert(base64_char(content@[i]));
        }
        lemma_filter_keeps(content@, unbroken());
        encode_utf8_valid_utf8(text@);
        encode_utf8_decode_utf8(text@);
    }
    Ok(content)
}

/// A backend as a mathematical value.
pub enum BackendView {
    Local(Seq<char>),
    Github {
        base: Seq<char>,
        repository: Seq<char>,
        token: Seq<char>,
        sha: Option<Seq<char>>,
    },
}

impl Backend {
    pub open spec fn view(&self) -> BackendView {
        match *self {
            Backend::Local(path) => BackendView::Local(path@),
            Backend::Github { base, repository, token, sha } => BackendView::Github {
                base: base@,
                repository: repository@,
                token: token@,
                sha: sha.deep_view(),
            },
        }
    }
}

/// A backend that knows of another revision.
pub open spec fn with_sha(b: BackendView, sha: Seq<char>) -> BackendView {
    match b {
        BackendView::Local(path) => b,
        BackendView::Github { base, repository, token, sha: _ } => BackendView::Github {
            base,
            repository,
            token,
            sha: Some(sha),
        },
    }
}

/// Where a repository is.
pub open spec fn repository_url(b: BackendView) -> Seq<char> {
    b->base + "/repos/"@ + b->repository
}

/// How a token says who asks.
pub open spec fn bearer(token: Seq<char>) -> Seq<char> {
    "Bearer "@ + token
}

/// Asks for the file that holds the state.
pub open spec fn contents_request(b: BackendView) -> RequestView {
    RequestView {
        accept: Some("application/vnd.github+json"@),
        ..reading(
            repository_url(b) + "/contents/state.enc?ref=sirucord-state"@,
            bearer(b->token),
        )
    }
}

/// Asks for a branch.
pub open spec fn head_request(b: BackendView, branch: Seq<char>) -> RequestView {
    reading(repository_url(b) + "/git/ref/heads/"@ + branch, bearer(b->token))
}

/// Asks for a repository.
pub open spec fn repository_request(b: BackendView) -> RequestView {
    reading(repository_url(b), bearer(b->token))
}

/// Asks for the creation of the branch that holds the state.
pub open spec fn creation_request(b: BackendView, sha: JsonView) -> RequestView {
    RequestView {
        method: Method::Post,
        body: Some(
            JsonView::Object(
                seq![("ref"@, JsonView::Text("refs/heads/sirucord-state"@)), ("sha"@, sha)],
            ),
        ),
        ..reading(repository_url(b) + "/git/refs"@, bearer(b->token))
    }
}

/// Asks for the state to be written over the revision that is known. It is asked for once: an
/// answer that does not arrive may hide a success.
pub open spec fn write_request(b: BackendView, text: Seq<char>) -> RequestView {
    let body = seq![
        (
            "message"@,
            JsonView::Text("Persist encrypted Sirucord delivery state [skip ci]"@),
        ),
        ("content"@, JsonView::Text(base64_of(encode_utf8(text)))),
        ("branch"@, JsonView::Text("sirucord-state"@)),
    ];
    RequestView {
        method: Method::Put,
        body: Some(
            JsonView::Object(
                match b->sha {
                    Some(sha) => body.push(("sha"@, JsonView::Text(sha))),
                    None => body,
                },
            ),
        ),
        repeatable: false,
        ..reading(repository_url(b) + "/contents/state.enc"@, bearer(b->token))
    }
}

impl Backend {
    /// A request to read something at an address behind the repository's.
    fn ask(&self, behind: &str) -> (r: Request)
        requires
            self@ is Github,
        ensures
            r@ == reading(repository_url(self@) + behind@, bearer(self@->token)),
    {
        match self {
            Backend::Github { base, repository, token, sha: _ } => {
                let mut url = base.clone();
                url.append("/repos/");
                url.append(repository.as_str());
                url.append(behind);
                let mut who = "Bearer ".to_owned();
                who.append(token.as_str());
                read(url, who)
            },
            Backend::Local(_) => read(String::new(), String::new()),
        }
    }

    fn ask_contents(&self) -> (r: Request)
        requires
            self@ is Github,
        ensures
            r@ == contents_request(self@),
    {
        let mut request = self.ask("/contents/state.enc?ref=sirucord-state");
        request.accept = Some("application/vnd.github+json".to_owned());
        request
    }

    fn ask_head(&self, branch: &str) -> (r: Request)
        requires
            self@ is Github,
        ensures
            r@ == head_request(self@, branch@),
    {
        let mut behind = "/git/ref/heads/".to_owned();
        behind.append(branch);
        let request = self.ask(behind.as_str());
        assert(request@.url =~= head_request(self@, branch@).url);
        request
    }

    fn ask_repository(&self) -> (r: Request)
        requires
            self@ is Github,
        ensures
            r@ == repository_request(self@),
    {
        proof {
            reveal_strlit("");
        }
        let request = self.ask("");
        assert(request@.url =~= repository_request(self@).url);
        request
    }

    fn ask_creation(&self, sha: &Json) -> (r: Request)
        requires
            self@ is Github,
        ensures
            r@ == creation_request(self@, sha@),
    {
        let mut members: Vec<Member> = Vec::new();
        members.push(named("ref", Json::text("refs/heads/sirucord-state")));
        members.push(named("sha", sha.clone()));
        assert(member_views(members@) =~= creation_request(self@, sha@).body->0->Object_0);
        let mut request = self.ask("/git/refs");
        request.method = Method::Post;
        request.body = Some(Json::object(members));
        request
    }

    fn ask_write(&self, text: &str) -> (r: Result<Request, StoreError>)
        requires
            self@ is Github,
        ensures
            match r {
                Ok(request) => request@ == write_request(self@, text@) && encode_utf8(text@).len()
                    <= usize::MAX / 4,
                Err(e) => encode_utf8(text@).len() > usize::MAX / 4 && e
                    == StoreError::Encryption,
            },
    {
        let content = match write_content(text) {
            Ok(content) => content,
            Err(e) => return Err(e),
        };
        let mut members: Vec<Member> = Vec::new();
        members.push(
            named("message", Json::text("Persist encrypted Sirucord delivery state [skip ci]")),
        );
        members.push(named("content", Json::Text(content)));
        members.push(named("branch", Json::text("sirucord-state")));
        if let Backend::Github { base: _, repository: _, token: _, sha } = self {
            if let Some(sha) = sha {
                members.push(named("sha", Json::text(sha.as_str())));
            }
        }
        assert(member_views(members@) =~= write_request(self@, text@).body->0->Object_0);
        let mut request = self.ask("/contents/state.enc");
        request.method = Method::Put;
        request.body = Some(Json::object(members));
        request.repeatable = false;
        Ok(request)
    }
}

/// What is being asked for while a state is read.
#[derive(Clone, Copy, Debug, PartialEq, Eq, Structural)]
pub enum Loading {
    Contents,
    Branch,
}

/// What to do to read a state.
pub enum LoadStep {
    /// Read a file.
    File(String),
    /// Make a request.
    Ask(Loading, Request),
    /// Nothing more: this is what is kept, if anything is.
    Loaded(Option<String>),
}

pub enum LoadStepView {
    File(Seq<char>),
    Ask(Loading, RequestView),
    Loaded(Option<Seq<char>>),
}

impl LoadStep {
    pub open spec fn view(&self) -> LoadStepView {
        match *self {
            LoadStep::File(path) => LoadStepView::File(path@),
            LoadStep::Ask(at, request) => LoadStepView::Ask(at, request@),
            LoadStep::Loaded(text) => LoadStepView::Loaded(text.deep_view()),
        }
    }
}

/// How reading begins.
pub open spec fn load_begin(b: BackendView) -> LoadStepView {
    match b {
        BackendView::Local(path) => LoadStepView::File(path),
        BackendView::Github { .. } => LoadStepView::Ask(Loading::Contents, contents_request(b)),
    }
}

/// How reading goes on after an answer. A file that is missing is a first run only where the
/// branch is missing too; else the state is lost, and nothing may be posted again.
pub open spec fn load_step(b: BackendView, at: Loading, status: u16, body: JsonView) -> Result<
    LoadStepView,
    StoreError,
> {
    match at {
        Loading::Contents => if status == 404 {
            Ok(LoadStepView::Ask(Loading::Branch, head_request(b, "sirucord-state"@)))
        } else if !succeeded(status) {
            Err(StoreError::Status(Service::Read, status))
        } else {
            match text_in(member(body, "sha"@)) {
                None => Err(StoreError::MissingSha),
                Some(sha) => match text_in(member(body, "content"@)) {
                    None => Err(StoreError::MissingContent),
                    Some(content) => match content_text(content) {
                        Err(e) => Err(e),
                        Ok(text) => Ok(LoadStepView::Loaded(Some(text))),
                    },
                },
            }
        },
        Loading::Branch => if status == 404 {
            Ok(LoadStepView::Loaded(None))
        } else {
            Err(StoreError::Lost)
        },
    }
}

/// What is known after an answer: the revision that it names, even where its content cannot be
/// read.
pub open spec fn load_learned(
    b: BackendView,
    at: Loading,
    status: u16,
    body: JsonView,
) -> BackendView {
    match text_in(member(body, "sha"@)) {
        Some(sha) => if at == Loading::Contents && succeeded(status) {
            with_sha(b, sha)
        } else {
            b
        },
        None => b,
    }
}

/// What is being asked for while a state is written.
#[derive(Clone, Copy, Debug, PartialEq, Eq, Structural)]
pub enum Saving {
    Branch,
    Repository,
    Head,
    Creation,
    Write,
}

/// What to do to write a state.
pub enum SaveStep {
    /// Write a text to a file, in one go.
    File(String, String),
    /// Make a request.
    Ask(Saving, Request),
    /// Nothing more.
    Saved,
}

pub enum SaveStepView {
    File(Seq<char>, Seq<char>),
    Ask(Saving, RequestView),
    Saved,
}

impl SaveStep {
    pub open spec fn view(&self) -> SaveStepView {
        match *self {
            SaveStep::File(path, text) => SaveStepView::File(path@, text@),
            SaveStep::Ask(at, request) => SaveStepView::Ask(at, request@),
            SaveStep::Saved => SaveStepView::Saved,
        }
    }
}

/// Asks for a text to be written.
pub open spec fn save_write(b: BackendView, text: Seq<char>) -> Result<
    (BackendView, SaveStepView),
    StoreError,
> {
    if encode_utf8(text).len() > usize::MAX / 4 {
        Err(StoreError::Encryption)
    } else {
        Ok((b, SaveStepView::Ask(Saving::Write, write_request(b, text))))
    }
}

/// How writing a text begins. Where no revision is known, the branch is looked for.
pub open spec fn save_begin(b: BackendView, text: Seq<char>) -> Result<
    (BackendView, SaveStepView),
    StoreError,
> {
    match b {
        BackendView::Local(path) => Ok((b, SaveStepView::File(path, text))),
        BackendView::Github { sha, .. } => if sha is None {
            Ok((b, SaveStepView::Ask(Saving::Branch, head_request(b, "sirucord-state"@))))
        } else {
            save_write(b, text)
        },
    }
}

/// How writing a text goes on after an answer. A branch that is missing is made from the
/// default branch.
pub open spec fn save_step(
    b: BackendView,
    text: Seq<char>,
    at: Saving,
    status: u16,
    body: JsonView,
) -> Result<(BackendView, SaveStepView), StoreError> {
    match at {
        Saving::Branch => if status == 404 {
            Ok((b, SaveStepView::Ask(Saving::Repository, repository_request(b))))
        } else if !succeeded(status) {
            Err(StoreError::Status(Service::Branch, status))
        } else {
            save_write(b, text)
        },
        Saving::Repository => if !succeeded(status) {
            Err(StoreError::Status(Service::Repository, status))
        } else {
            match text_in(member(body, "default_branch"@)) {
                None => Err(StoreError::MissingDefaultBranch),
                Some(branch) => Ok(
                    (b, SaveStepView::Ask(Saving::Head, head_request(b, branch))),
                ),
            }
        },
        Saving::Head => if !succeeded(status) {
            Err(StoreError::Status(Service::Head, status))
        } else {
            Ok(
                (
                    b,
                    SaveStepView::Ask(
                        Saving::Creation,
                        creation_request(b, member(member(body, "object"@), "sha"@)),
                    ),
                ),
            )
        },
        Saving::Creation => if !succeeded(status) {
            Err(StoreError::Status(Service::Creation, status))
        } else {
            save_write(b, text)
        },
        Saving::Write => if !succeeded(status) {
            Err(StoreError::Status(Service::Write, status))
        } else {
            match text_in(member(member(body, "content"@), "sha"@)) {
                None => Err(StoreError::MissingSavedSha),
                Some(sha) => Ok((with_sha(b, sha), SaveStepView::Saved)),
            }
        },
    }
}

impl Backend {
    /// How reading begins.
    pub fn begin_load(&self) -> (r: LoadStep)
        ensures
            r@ == load_begin(self@),
    {
        match self {
            Backend::Local(path) => LoadStep::File(path.clone()),
            Backend::Github { .. } => LoadStep::Ask(Loading::Contents, self.ask_contents()),
        }
    }

    /// Remembers a revision.
    fn learn(&mut self, sha: &str)
        ensures
            final(self)@ == with_sha(old(self)@, sha@),
    {
        if let Backend::Github { base, repository, token, sha: _ } = self {
            let next = Backend::Github {
                base: base.clone(),
                repository: repository.clone(),
                token: token.clone(),
                sha: Some(sha.to_owned()),
            };
            *self = next;
        }
    }

    /// How reading goes on after an answer. The revision that it names is kept, even where its
    /// content cannot be read.
    pub fn continue_load(&mut self, at: Loading, status: u16, body: &Json) -> (r: Result<
        LoadStep,
        StoreError,
    >)
        requires
            old(self)@ is Github,
        ensures
            final(self)@ == load_learned(old(self)@, at, status, body@),
            match r {
                Ok(step) => load_step(old(self)@, at, status, body@) == Ok::<
                    LoadStepView,
                    StoreError,
                >(step@),
                Err(e) => load_step(old(self)@, at, status, body@) == Err::<
                    LoadStepView,
                    StoreError,
                >(e),
            },
    {
        match at {
            Loading::Contents => {
                if status == 404 {
                    return Ok(LoadStep::Ask(Loading::Branch, self.ask_head("sirucord-state")));
                }
                if !is_success(status) {
                    return Err(StoreError::Status(Service::Read, status));
                }
                let sha = match body.get("sha").as_text() {
                    Some(sha) => sha,
                    None => return Err(StoreError::MissingSha),
                };
                self.learn(sha);
                let content = match body.get("content").as_text() {
                    Some(content) => content,
                    None => return Err(StoreError::MissingContent),
                };
                match read_content(content) {
                    Err(e) => Err(e),
                    Ok(text) => Ok(LoadStep::Loaded(Some(text))),
                }
            },
            Loading::Branch => if status == 404 {
                Ok(LoadStep::Loaded(None))
            } else {
                Err(StoreError::Lost)
            },
        }
    }

    fn write(&self, text: &str) -> (r: Result<SaveStep, StoreError>)
        requires
            self@ is Github,
        ensures
            match r {
                Ok(step) => save_write(self@, text@) == Ok::<(BackendView, SaveStepView), StoreError>(
                    (self@, step@),
                ),
                Err(e) => save_write(self@, text@) == Err::<
                    (BackendView, SaveStepView),
                    StoreError,
                >(e),
            },
    {
        match self.ask_write(text) {
            Ok(request) => Ok(SaveStep::Ask(Saving::Write, request)),
            Err(e) => Err(e),
        }
    }

    /// How writing a text begins.
    pub fn begin_save(&self, text: &str) -> (r: Result<SaveStep, StoreError>)
        ensures
            match r {
                Ok(step) => save_begin(self@, text@) == Ok::<(BackendView, SaveStepView), StoreError>(
                    (self@, step@),
                ),
                Err(e) => save_begin(self@, text@) == Err::<
                    (BackendView, SaveStepView),
                    StoreError,
                >(e),
            },
    {
        match self {
            Backend::Local(path) => Ok(SaveStep::File(path.clone(), text.to_owned())),
            Backend::Github { base: _, repository: _, token: _, sha } => if sha.is_none() {
                Ok(SaveStep::Ask(Saving::Branch, self.ask_head("sirucord-state")))
            } else {
                self.write(text)
            },
        }
    }

    /// How writing a text goes on after an answer. An error changes nothing.
    pub fn continue_save(&mut self, text: &str, at: Saving, status: u16, body: &Json) -> (r: Result<
        SaveStep,
        StoreError,
    >)
        requires
            old(self)@ is Github,
        ensures
            match r {
                Ok(step) => save_step(old(self)@, text@, at, status, body@) == Ok::<
                    (BackendView, SaveStepView),
                    StoreError,
                >((final(self)@, step@)),
                Err(e) => save_step(old(self)@, text@, at, status, body@) == Err::<
                    (BackendView, SaveStepView),
                    StoreError,
                >(e) && final(self)@ == old(self)@,
            },
    {
        if status == 404 && at == Saving::Branch {
            return Ok(SaveStep::Ask(Saving::Repository, self.ask_repository()));
        }
        if !is_success(status) {
            let service = match at {
                Saving::Branch => Service::Branch,
                Saving::Repository => Service::Repository,
                Saving::Head => Service::Head,
                Saving::Creation => Service::Creation,
                Saving::Write => Service::Write,
            };
            return Err(StoreError::Status(service, status));
        }
        match at {
            Saving::Branch => self.write(text),
            Saving::Repository => match body.get("default_branch").as_text() {
                None => Err(StoreError::MissingDefaultBranch),
                Some(branch) => Ok(SaveStep::Ask(Saving::Head, self.ask_head(branch))),
            },
            Saving::Head => Ok(
                SaveStep::Ask(Saving::Creation, self.ask_creation(body.get("object").get("sha"))),
            ),
            Saving::Creation => self.write(text),
            Saving::Write => match body.get("content").get("sha").as_text() {
                None => Err(StoreError::MissingSavedSha),
                Some(sha) => {
                    self.learn(sha);
                    Ok(SaveStep::Saved)
                },
            },
        }
    }
}

impl Store {
    /// What is kept, decrypted; nothing where nothing is kept.
    pub fn load(&self, text: &Option<String>) -> (r: Result<Option<Vec<u8>>, StoreError>)
        ensures
            match (text, r) {
                (None, r) => r == Ok::<Option<Vec<u8>>, StoreError>(None),
                (Some(text), Ok(Some(plain))) => unwrapped(self.key(), text@) == Ok::<
                    Seq<u8>,
                    StoreError,
                >(plain@),
                (Some(text), Ok(None)) => false,
                (Some(text), Err(e)) => unwrapped(self.key(), text@) == Err::<Seq<u8>, StoreError>(
                    e,
                ),
            },
    {
        match text {
            None => Ok(None),
            Some(text) => match self.decrypt(text.as_str()) {
                Ok(plain) => Ok(Some(plain)),
                Err(e) => Err(e),
            },
        }
    }

    /// Encrypts what is to be kept and begins to write it. Loading the text that is written
    /// gives it back.
    pub fn save(&self, plain: &[u8]) -> (r: Result<(String, SaveStep), StoreError>)
        ensures
            match r {
                Ok((text, step)) => {
                    &&& fits(plain@.len())
                    &&& unwrapped(self.key(), text@) == Ok::<Seq<u8>, StoreError>(plain@)
                    &&& save_begin(self.place()@, text@) == Ok::<
                        (BackendView, SaveStepView),
                        StoreError,
                    >((self.place()@, step@))
                },
                Err(e) => !fits(plain@.len()) && e == StoreError::Encryption,
            },
    {
        let text = match self.encrypt(plain) {
            Ok(text) => text,
            Err(e) => return Err(e),
        };
        match self.backend.begin_save(text.as_str()) {
            Ok(step) => Ok((text, step)),
            Err(e) => Err(e),
        }
    }
}

/// The only version of the state that is understood.
pub const STATE_VERSION: u32 = 1;

/// Whether a state of this version can be read.
pub open spec fn is_current(version: u32) -> bool {
    version == STATE_VERSION
}

/// Refuses a state of another version.
pub fn check_version(version: u32) -> (r: Result<(), StoreError>)
    ensures
        r is Ok <==> version == STATE_VERSION,
        r matches Err(e) ==> e == StoreError::Version,
        r is Ok <==> is_current(version),
{
    if version == STATE_VERSION {
        Ok(())
    } else {
        Err(StoreError::Version)
    }
}

/// What a service is called where it failed.
pub open spec fn service_name(service: Service) -> Seq<char> {
    match service {
        Service::Read => "GitHub state read"@,
        Service::Branch => "GitHub state branch"@,
        Service::Repository => "GitHub repository"@,
        Service::Head => "GitHub main ref"@,
        Service::Creation => "GitHub state branch creation"@,
        Service::Write => "GitHub state write (check contents:write permission)"@,
    }
}

/// What is said where a state could not be read or written.
pub open spec fn store_message(e: StoreError) -> Seq<char> {
    match e {
        StoreError::Envelope => "Unknown state envelope version"@,
        StoreError::Base64 => "State is not base64"@,
        StoreError::Truncated => "Truncated encrypted state"@,
        StoreError::Key => "Cannot decrypt state: wrong SIRUCORD_STATE_KEY or corrupted state. Do not delete state to retry."@,
        StoreError::Encryption => "State encryption failed"@,
        StoreError::Version => "Unsupported state version"@,
        StoreError::Lost => "State branch exists but state.enc is missing; restore it before running"@,
        StoreError::Status(service, status) => failure(service_name(service), status),
        StoreError::MissingSha => "Missing state SHA"@,
        StoreError::MissingContent => "Missing state content"@,
        StoreError::NoText => "State is not text"@,
        StoreError::MissingDefaultBranch => "Missing default branch"@,
        StoreError::MissingSavedSha => "Missing saved state SHA"@,
    }
}

impl StoreError {
    pub fn message(&self) -> (r: String)
        ensures
            r@ == store_message(*self),
    {
        let text = match self {
            StoreError::Envelope => "Unknown state envelope version",
            StoreError::Base64 => "State is not base64",
            StoreError::Truncated => "Truncated encrypted state",
            StoreError::Key => "Cannot decrypt state: wrong SIRUCORD_STATE_KEY or corrupted state. Do not delete state to retry.",
            StoreError::Encryption => "State encryption failed",
            StoreError::Version => "Unsupported state version",
            StoreError::Lost => "State branch exists but state.enc is missing; restore it before running",
            StoreError::Status(service, status) => {
                let name = match service {
                    Service::Read => "GitHub state read",
                    Service::Branch => "GitHub state branch",
                    Service::Repository => "GitHub repository",
                    Service::Head => "GitHub main ref",
                    Service::Creation => "GitHub state branch creation",
                    Service::Write => "GitHub state write (check contents:write permission)",
                };
                return failure_text(name, *status);
            },
            StoreError::MissingSha => "Missing state SHA",
            StoreError::MissingContent => "Missing state content",
            StoreError::NoText => "State is not text",
            StoreError::MissingDefaultBranch => "Missing default branch",
            StoreError::MissingSavedSha => "Missing saved state SHA",
        };
        text.to_owned()
    }
}

/// A failure to read is never taken for an empty state: nothing is loaded only after the file
/// and the branch were both found missing.
pub proof fn law_only_a_missing_branch_is_a_first_run(
    b: BackendView,
    at: Loading,
    status: u16,
    body: JsonView,
)
    requires
        load_step(b, at, status, body) is Ok,
        load_step(b, at, status, body)->Ok_0 == LoadStepView::Loaded(None),
    ensures
        at == Loading::Branch,
        status == 404,
{
}

/// A state that was read or written is written over by its revision: after a load, the next
/// write names the SHA that was loaded, and after a write, the SHA that was written.
pub proof fn law_writes_name_the_last_revision(
    b: BackendView,
    sha: Seq<char>,
    text: Seq<char>,
)
    requires
        b is Github,
        encode_utf8(text).len() <= usize::MAX / 4,
    ensures
        save_begin(with_sha(b, sha), text) == Ok::<(BackendView, SaveStepView), StoreError>(
            (
                with_sha(b, sha),
                SaveStepView::Ask(Saving::Write, write_request(with_sha(b, sha), text)),
            ),
        ),
        write_request(with_sha(b, sha), text).body->0->Object_0.last() == (
            "sha"@,
            JsonView::Text(sha),
        ),
        !write_request(with_sha(b, sha), text).repeatable,
{
}

/// A secret that says something.
pub fn is_secret(value: &str) -> (r: bool)
    ensures
        r == !blank(value@),
{
    !is_blank(value)
}

/// The shortest secret that a state is encrypted under, in bytes.
pub const SECRET_BYTES: usize = 32;

/// Whether a secret is long enough to draw a key from.
pub open spec fn is_long_enough(value: Seq<char>) -> bool {
    encode_utf8(value).len() >= SECRET_BYTES
}

/// A secret that is long enough to encrypt under.
pub fn is_state_key(value: &str) -> (r: bool)
    ensures
        r == (encode_utf8(value@).len() >= SECRET_BYTES),
        r == is_long_enough(value@),
{
    value.as_bytes().len() >= SECRET_BYTES
}

/// A character of a repository's name.
pub open spec fn name_char(c: char) -> bool {
    alphanumeric(c) || c == '-' || c == '.' || c == '_' || c == '/'
}

/// The name of a repository: an owner and a name, with one slash between them.
pub open spec fn is_repository(text: Seq<char>) -> bool {
    &&& pieces(text, '/').len() == 2
    &&& forall|i: int| 0 <= i < text.len() ==> name_char(#[trigger] text[i])
}

pub fn valid_repository(text: &str) -> (r: bool)
    ensures
        r == is_repository(text@),
{
    let parts = split(text, '/');
    assert(parts.deep_view().len() == parts.len());
    if parts.len() != 2 {
        return false;
    }
    let chars = chars_of(text);
    for i in 0..chars.len()
        invariant
            chars@ == text@,
            forall|j: int| 0 <= j < i ==> name_char(#[trigger] text@[j]),
    {
        let c = chars[i];
        if !is_alphanumeric(c) && c != '-' && c != '.' && c != '_' && c != '/' {
            assert(!name_char(text@[i as int]));
            return false;
        }
    }
    true
}

} // verus!
