//! What is remembered between two runs, and how it is kept.
use vstd::prelude::*;
use vstd::string::*;
use vstd::utf8::*;

use crate::codec::{base64_in, base64_of, hkdf_sha256, opened, sealed, SEALED_BYTES};
use crate::http::{Method, RequestView};
use crate::json::{first_member, member, JsonView};
use crate::number::decimal;
use crate::store::{
    contents_request, envelope, head_request, is_current, is_long_enough, is_repository, key_of,
    load_begin, load_learned, load_step, repository_request, save_begin, save_step, store_message,
    unwrapped, write_request, BackendView, LoadStepView, Loading, SaveStepView, Saving, Service,
    StoreError,
};
use crate::text::{find, lemma_find, pieces};

verus! {

/// What is read of a state is what stands behind its heading and its nonce, opened with the
/// key: a text without the heading, or one too short for a nonce and a tag, is none.
pub proof fn law_a_state_is_opened_behind_its_nonce(key: Seq<u8>, rest: Seq<char>, text: Seq<char>)
    ensures
        !"sirucord-state-v1:"@.is_prefix_of(text) ==> unwrapped(key, text) == Err::<
            Seq<u8>,
            StoreError,
        >(StoreError::Envelope),
        base64_in(rest) is None ==> unwrapped(key, "sirucord-state-v1:"@ + rest) == Err::<
            Seq<u8>,
            StoreError,
        >(StoreError::Base64),
        base64_in(rest) matches Some(bytes) ==> {
            let read = unwrapped(key, "sirucord-state-v1:"@ + rest);
            let within = opened(
                key,
                bytes.subrange(0, 12),
                bytes.subrange(12, bytes.len() as int),
            );
            &&& bytes.len() < 28 ==> read == Err::<Seq<u8>, StoreError>(StoreError::Truncated)
            &&& 28 <= bytes.len() <= SEALED_BYTES + 28 ==> match within {
                Some(plain) => read == Ok::<Seq<u8>, StoreError>(plain),
                None => read == Err::<Seq<u8>, StoreError>(StoreError::Key),
            }
            &&& bytes.len() > SEALED_BYTES + 28 ==> read is Err
        },
{
    reveal_strlit("sirucord-state-v1:");
    let start = "sirucord-state-v1:"@;
    let whole = start + rest;
    assert(whole.take(start.len() as int) == start);
    assert(whole.skip(start.len() as int) == rest);
    if base64_in(rest) is Some {
        let bytes = base64_in(rest)->0;
        if bytes.len() >= 28 {
            assert(bytes.take(12) == bytes.subrange(0, 12));
            assert(bytes.skip(12) == bytes.subrange(12, bytes.len() as int));
        }
    }
}

/// What was sealed is opened again with the same key, wherever opening undoes sealing and
/// reading a coded text undoes coding.
pub proof fn law_a_state_is_read_back(key: Seq<u8>, nonce: Seq<u8>, plain: Seq<u8>)
    requires
        nonce.len() == 12,
        sealed(key, nonce, plain).len() == plain.len() + 16,
        plain.len() <= SEALED_BYTES,
        opened(key, nonce, sealed(key, nonce, plain)) == Some(plain),
        base64_in(base64_of(nonce + sealed(key, nonce, plain))) == Some(
            nonce + sealed(key, nonce, plain),
        ),
    ensures
        unwrapped(key, envelope(key, nonce, plain)) == Ok::<Seq<u8>, StoreError>(plain),
        "sirucord-state-v1:"@.is_prefix_of(envelope(key, nonce, plain)),
{
    let bytes = nonce + sealed(key, nonce, plain);
    law_a_state_is_opened_behind_its_nonce(
        key,
        base64_of(bytes),
        envelope(key, nonce, plain),
    );
    assert(bytes.subrange(0, 12) == nonce);
    assert(bytes.subrange(12, bytes.len() as int) == sealed(key, nonce, plain));
    let start = "sirucord-state-v1:"@;
    assert((start + base64_of(bytes)).subrange(0, start.len() as int) == start);
}

/// The key is drawn from the whole secret, under the name of this kind of state.
pub proof fn law_keys_are_drawn_from_the_secret(secret: Seq<char>)
    ensures
        key_of(secret) == hkdf_sha256(
            encode_utf8("sirucord-state-v1"@),
            encode_utf8(secret),
            encode_utf8("AES-256-GCM encryption"@),
        ),
{
}

/// Every request to the service goes to the repository, and says who asks; only the writing of
/// the state must not be made twice.
pub proof fn law_requests_go_to_the_repository(b: BackendView, branch: Seq<char>, text: Seq<char>)
    requires
        b is Github,
    ensures
        ({
            let base = b->base + "/repos/"@ + b->repository;
            let who = Some("Bearer "@ + b->token);
            &&& contents_request(b).url == base + "/contents/state.enc?ref=sirucord-state"@
            &&& contents_request(b).method == Method::Get
            &&& contents_request(b).authorization == who
            &&& contents_request(b).accept == Some("application/vnd.github+json"@)
            &&& contents_request(b).body is None
            &&& contents_request(b).repeatable
            &&& head_request(b, branch).url == base + "/git/ref/heads/"@ + branch
            &&& head_request(b, branch).method == Method::Get
            &&& head_request(b, branch).authorization == who
            &&& head_request(b, branch).body is None
            &&& head_request(b, branch).repeatable
            &&& repository_request(b).url == base
            &&& repository_request(b).method == Method::Get
            &&& repository_request(b).authorization == who
            &&& repository_request(b).body is None
            &&& repository_request(b).repeatable
            &&& write_request(b, text).url == base + "/contents/state.enc"@
            &&& write_request(b, text).method == Method::Put
            &&& write_request(b, text).authorization == who
            &&& !write_request(b, text).repeatable
        }),
{
}

/// What is written is the whole text, on the branch of the state, over the revision that was
/// read or written last; where there was none, no revision is named.
pub proof fn law_the_whole_state_is_written(b: BackendView, text: Seq<char>)
    requires
        b is Github,
    ensures
        write_request(b, text).body matches Some(body) && {
            &&& member(body, "content"@) == JsonView::Text(base64_of(encode_utf8(text)))
            &&& member(body, "branch"@) == JsonView::Text("sirucord-state"@)
            &&& member(body, "message"@) == JsonView::Text(
                "Persist encrypted Sirucord delivery state [skip ci]"@,
            )
            &&& member(body, "sha"@) == (match b->sha {
                Some(sha) => JsonView::Text(sha),
                None => JsonView::Null,
            })
            &&& body is Object
            &&& body->Object_0.len() == (if b->sha is Some {
                4int
            } else {
                3
            })
        },
{
    reveal_strlit("message");
    reveal_strlit("content");
    reveal_strlit("branch");
    reveal_strlit("sha");
    lemma_names_differ();
    let all = write_request(b, text).body->0->Object_0;
    reveal_with_fuel(first_member, 5);
    assert(all.drop_first()[0] == all[1]);
    assert(all.drop_first().drop_first()[0] == all[2]);
    if b->sha is Some {
        assert(all.drop_first().drop_first().drop_first()[0] == all[3]);
    }
}

proof fn lemma_names_differ()
    ensures
        "message"@ != "content"@,
        "message"@ != "branch"@,
        "message"@ != "sha"@,
        "content"@ != "branch"@,
        "content"@ != "sha"@,
        "branch"@ != "sha"@,
{
    reveal_strlit("message");
    reveal_strlit("content");
    reveal_strlit("branch");
    reveal_strlit("sha");
    assert("message"@[0] != "content"@[0]);
    assert("message"@[0] != "branch"@[0]);
    assert("message"@[0] != "sha"@[0]);
    assert("content"@[0] != "branch"@[0]);
    assert("content"@[0] != "sha"@[0]);
    assert("branch"@[0] != "sha"@[0]);
}

/// A state in a file is read from that file, and written to it.
pub proof fn law_files_are_read_and_written_whole(path: Seq<char>, text: Seq<char>)
    ensures
        load_begin(BackendView::Local(path)) == LoadStepView::File(path),
        save_begin(BackendView::Local(path), text) == Ok::<
            (BackendView, SaveStepView),
            StoreError,
        >((BackendView::Local(path), SaveStepView::File(path, text))),
{
}

/// What a repository holds is read where the service gives it, line breaks or not; where the
/// service says that there is none, there is none only if the branch is missing too.
pub proof fn law_what_is_kept_is_loaded(
    b: BackendView,
    status: u16,
    body: JsonView,
    sha: Seq<char>,
    content: Seq<char>,
    bytes: Seq<u8>,
)
    requires
        b is Github,
    ensures
        load_begin(b) == LoadStepView::Ask(Loading::Contents, contents_request(b)),
        200 <= status <= 299 && member(body, "sha"@) == JsonView::Text(sha) && member(
            body,
            "content"@,
        ) == JsonView::Text(content) && base64_in(
            content.filter(|c: char| c != '\n' && c != '\r'),
        ) == Some(bytes) && valid_utf8(bytes) ==> {
            &&& load_step(b, Loading::Contents, status, body) == Ok::<LoadStepView, StoreError>(
                LoadStepView::Loaded(Some(decode_utf8(bytes))),
            )
            &&& load_learned(b, Loading::Contents, status, body)->sha == Some(sha)
        },
        load_step(b, Loading::Contents, 404, body) == Ok::<LoadStepView, StoreError>(
            LoadStepView::Ask(Loading::Branch, head_request(b, "sirucord-state"@)),
        ),
        status != 404 && !(200 <= status <= 299) ==> load_step(
            b,
            Loading::Contents,
            status,
            body,
        ) == Err::<LoadStepView, StoreError>(StoreError::Status(Service::Read, status)),
        load_step(b, Loading::Branch, status, body) == (if status == 404 {
            Ok::<LoadStepView, StoreError>(LoadStepView::Loaded(None))
        } else {
            Err(StoreError::Lost)
        }),
{
    assert(crate::store::unbroken() =~= (|c: char| c != '\n' && c != '\r'));
}

/// What was not given whole is not loaded: it is an error that says what is missing.
pub proof fn law_half_a_state_is_no_state(b: BackendView, status: u16, body: JsonView)
    requires
        b is Github,
        200 <= status <= 299,
    ensures
        ({
            let got = load_step(b, Loading::Contents, status, body);
            let sha = member(body, "sha"@);
            let content = member(body, "content"@);
            &&& !(sha is Text) ==> got == Err::<LoadStepView, StoreError>(StoreError::MissingSha)
            &&& sha is Text && !(content is Text) ==> got == Err::<LoadStepView, StoreError>(
                StoreError::MissingContent,
            )
            &&& sha is Text && content is Text ==> {
                let read = base64_in(content->Text_0.filter(|c: char| c != '\n' && c != '\r'));
                &&& read is None ==> got == Err::<LoadStepView, StoreError>(StoreError::Base64)
                &&& read is Some && !valid_utf8(read->0) ==> got == Err::<
                    LoadStepView,
                    StoreError,
                >(StoreError::NoText)
            }
        }),
{
    assert(crate::store::unbroken() =~= (|c: char| c != '\n' && c != '\r'));
}

/// Loading changes nothing of what is known of the place but the revision, and that only where
/// the state itself was given.
pub proof fn law_loading_learns_the_revision_only(
    b: BackendView,
    at: Loading,
    status: u16,
    body: JsonView,
)
    requires
        b is Github,
    ensures
        ({
            let next = load_learned(b, at, status, body);
            &&& next is Github
            &&& next->base == b->base
            &&& next->repository == b->repository
            &&& next->token == b->token
            &&& at == Loading::Branch || !(200 <= status <= 299) || !(member(
                body,
                "sha"@,
            ) is Text) ==> next->sha == b->sha
        }),
{
}

/// The first state of a repository is written on a branch of its own: where the branch is
/// missing, it is made at the head of the default branch, and the state is written then.
pub proof fn law_the_first_state_gets_a_branch(
    b: BackendView,
    text: Seq<char>,
    body: JsonView,
    branch: Seq<char>,
    ok: u16,
)
    requires
        b is Github,
        200 <= ok <= 299,
        encode_utf8(text).len() <= usize::MAX / 4,
    ensures
        b->sha is None ==> save_begin(b, text) == Ok::<(BackendView, SaveStepView), StoreError>(
            (b, SaveStepView::Ask(Saving::Branch, head_request(b, "sirucord-state"@))),
        ),
        b->sha is Some ==> save_begin(b, text) == Ok::<(BackendView, SaveStepView), StoreError>(
            (b, SaveStepView::Ask(Saving::Write, write_request(b, text))),
        ),
        save_step(b, text, Saving::Branch, ok, body) == Ok::<
            (BackendView, SaveStepView),
            StoreError,
        >((b, SaveStepView::Ask(Saving::Write, write_request(b, text)))),
        save_step(b, text, Saving::Branch, 404, body) == Ok::<
            (BackendView, SaveStepView),
            StoreError,
        >((b, SaveStepView::Ask(Saving::Repository, repository_request(b)))),
        member(body, "default_branch"@) == JsonView::Text(branch) ==> save_step(
            b,
            text,
            Saving::Repository,
            ok,
            body,
        ) == Ok::<(BackendView, SaveStepView), StoreError>(
            (b, SaveStepView::Ask(Saving::Head, head_request(b, branch))),
        ),
        !(member(body, "default_branch"@) is Text) ==> save_step(
            b,
            text,
            Saving::Repository,
            ok,
            body,
        ) == Err::<(BackendView, SaveStepView), StoreError>(StoreError::MissingDefaultBranch),
        save_step(b, text, Saving::Head, ok, body) matches Ok((same, step)) && same == b && {
            &&& step matches SaveStepView::Ask(at, request)
            &&& at == Saving::Creation
            &&& creates(b, request, member(member(body, "object"@), "sha"@))
        },
        save_step(b, text, Saving::Creation, ok, body) == Ok::<
            (BackendView, SaveStepView),
            StoreError,
        >((b, SaveStepView::Ask(Saving::Write, write_request(b, text)))),
{
    let step = save_step(b, text, Saving::Head, ok, body)->Ok_0.1;
    let all = step->Ask_1.body->0->Object_0;
    reveal_strlit("ref");
    reveal_strlit("sha");
    assert("ref"@[0] != "sha"@[0]);
    reveal_with_fuel(first_member, 3);
    assert(all.drop_first()[0] == all[1]);
}

/// Whether a request makes the branch of the state, at this revision.
pub open spec fn creates(b: BackendView, request: RequestView, sha: JsonView) -> bool {
    &&& request.method == Method::Post
    &&& request.url == b->base + "/repos/"@ + b->repository + "/git/refs"@
    &&& request.authorization == Some("Bearer "@ + b->token)
    &&& request.body matches Some(body) && {
        &&& member(body, "ref"@) == JsonView::Text("refs/heads/sirucord-state"@)
        &&& member(body, "sha"@) == sha
    }
}

/// A state is saved where the service says so and names the revision, which the next writing
/// goes over; whatever else is answered, saving ends with an error that says where.
pub proof fn law_a_saved_state_is_named(
    b: BackendView,
    text: Seq<char>,
    at: Saving,
    status: u16,
    body: JsonView,
    sha: Seq<char>,
)
    requires
        b is Github,
    ensures
        200 <= status <= 299 && member(member(body, "content"@), "sha"@) == JsonView::Text(sha)
            ==> save_step(b, text, Saving::Write, status, body) == Ok::<
            (BackendView, SaveStepView),
            StoreError,
        >(
            (
                BackendView::Github {
                    base: b->base,
                    repository: b->repository,
                    token: b->token,
                    sha: Some(sha),
                },
                SaveStepView::Saved,
            ),
        ),
        200 <= status <= 299 && !(member(member(body, "content"@), "sha"@) is Text) ==> save_step(
            b,
            text,
            Saving::Write,
            status,
            body,
        ) == Err::<(BackendView, SaveStepView), StoreError>(StoreError::MissingSavedSha),
        !(200 <= status <= 299) && !(at == Saving::Branch && status == 404) ==> save_step(
            b,
            text,
            at,
            status,
            body,
        ) == Err::<(BackendView, SaveStepView), StoreError>(
            StoreError::Status(
                match at {
                    Saving::Branch => Service::Branch,
                    Saving::Repository => Service::Repository,
                    Saving::Head => Service::Head,
                    Saving::Creation => Service::Creation,
                    Saving::Write => Service::Write,
                },
                status,
            ),
        ),
        save_step(b, text, at, status, body) matches Ok((next, step)) ==> (step is Saved <==> at
            == Saving::Write),
{
}

/// A name of a repository is an owner and a name with one slash between them, in letters,
/// digits, hyphens, dots and underscores.
pub proof fn law_repositories_are_named_by_owner_and_name(text: Seq<char>, at: int)
    requires
        0 <= at < text.len(),
        text[at] == '/',
    ensures
        is_repository(text) <==> forall|i: int|
            0 <= i < text.len() && i != at ==> is_name_char(#[trigger] text[i]),
{
    lemma_find(text, '/');
    let n = find(text, '/') as int;
    let rest = text.skip(n + 1);
    lemma_find(rest, '/');
    reveal_with_fuel(pieces, 3);
    if is_repository(text) {
        assert(!rest.contains('/')) by {
            if find(rest, '/') < rest.len() {
                let m = find(rest, '/') as int;
                let more = pieces(rest.skip(m + 1), '/');
                assert(more.len() >= 1);
                assert(pieces(rest, '/').len() == 1 + more.len());
            }
        }
        assert forall|i: int| 0 <= i < text.len() && i != at implies is_name_char(
            #[trigger] text[i],
        ) by {
            if text[i] == '/' {
                if i > n {
                    assert(rest[i - n - 1] == '/');
                }
                if at > n {
                    assert(rest[at - n - 1] == '/');
                }
            }
        }
    }
    if forall|i: int| 0 <= i < text.len() && i != at ==> is_name_char(#[trigger] text[i]) {
        assert(n == at);
        assert(!rest.contains('/')) by {
            if rest.contains('/') {
                let m = find(rest, '/') as int;
                assert(rest[m] == text[m + n + 1]);
            }
        }
        assert(pieces(rest, '/').len() == 1);
    }
}

/// Whether a character may stand in the name of a repository.
pub open spec fn is_name_char(c: char) -> bool {
    ||| 0x30 <= c as u32 <= 0x39
    ||| 0x41 <= c as u32 <= 0x5a
    ||| 0x61 <= c as u32 <= 0x7a
    ||| c == '-'
    ||| c == '.'
    ||| c == '_'
}

/// A text without a slash names no repository.
pub proof fn law_a_repository_has_an_owner(text: Seq<char>)
    requires
        !text.contains('/'),
    ensures
        !is_repository(text),
{
    lemma_find(text, '/');
    assert(pieces(text, '/').len() == 1);
}

/// No two errors of the service are told in the same words but by the status, and what the
/// service answered is not told.
pub proof fn law_failures_are_told_by_place_and_status(service: Service, status: u16)
    ensures
        store_message(StoreError::Status(service, status)) == (match service {
            Service::Read => "GitHub state read"@,
            Service::Branch => "GitHub state branch"@,
            Service::Repository => "GitHub repository"@,
            Service::Head => "GitHub main ref"@,
            Service::Creation => "GitHub state branch creation"@,
            Service::Write => "GitHub state write (check contents:write permission)"@,
        }) + ": HTTP "@ + decimal(status as nat) + " (body redacted)"@,
        store_message(StoreError::Key)
            == "Cannot decrypt state: wrong SIRUCORD_STATE_KEY or corrupted state. Do not delete state to retry."@,
        store_message(StoreError::Lost)
            == "State branch exists but state.enc is missing; restore it before running"@,
        store_message(StoreError::Envelope) == "Unknown state envelope version"@,
        store_message(StoreError::Truncated) == "Truncated encrypted state"@,
        store_message(StoreError::Version) == "Unsupported state version"@,
{
}

/// States of the first version are read, and of no other.
pub proof fn law_only_the_first_version_is_read(version: u32)
    ensures
        is_current(version) <==> version == 1,
{
}

/// A key is drawn only from a secret of thirty-two bytes or more.
pub proof fn law_short_secrets_are_refused(secret: Seq<char>)
    ensures
        is_long_enough(secret) <==> encode_utf8(secret).len() >= 32,
{
}

} // verus!
