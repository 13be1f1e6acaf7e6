//! Posts and images on Mastodon.
use vstd::prelude::*;
use vstd::string::*;

use crate::engine::PostView;
use crate::http::Method;
use crate::json::{first_member, member, JsonView};
use crate::mastodon::{
    image_kind, poll_result, post_json, post_request, post_result, upload_result, MastodonError,
    MediaView, Service,
};

verus! {

/// A post is published with its whole text, for those who may see it, and with its image where
/// it has one, whatever else it holds.
pub proof fn law_posts_are_published_whole(
    base: Seq<char>,
    token: Seq<char>,
    visibility: Seq<char>,
    post: PostView,
)
    ensures
        ({
            let request = post_request(base, token, visibility, post);
            let body = request.body->0;
            &&& request.method == Method::Post
            &&& request.url == base + "/api/v1/statuses"@
            &&& request.authorization == Some("Bearer "@ + token)
            &&& request.idempotency_key == Some(post.key)
            &&& request.body is Some
            &&& member(body, "status"@) == JsonView::Text(post.text)
            &&& member(body, "visibility"@) == JsonView::Text(visibility)
            &&& member(body, "language"@) == JsonView::Text("ja"@)
            &&& match post.media_id {
                Some(id) => member(body, "media_ids"@) == JsonView::List(seq![JsonView::Text(id)]),
                None => member(body, "media_ids"@) == JsonView::List(Seq::empty()),
            }
            &&& body->Object_0.len() == 4
        }),
{
    reveal_strlit("status");
    reveal_strlit("visibility");
    reveal_strlit("language");
    reveal_strlit("media_ids");
    let members = post_json(post, visibility)->Object_0;
    assert("status"@.len() == 6 && "visibility"@.len() == 10 && "language"@.len() == 8
        && "media_ids"@.len() == 9);
    reveal_with_fuel(first_member, 5);
    assert(members.drop_first()[0] == members[1]);
    assert(members.drop_first().drop_first()[0] == members[2]);
    assert(members.drop_first().drop_first().drop_first()[0] == members[3]);
}

/// Two posts that are told apart by anything are published by requests that are, too.
pub proof fn law_no_two_posts_are_confused(
    base: Seq<char>,
    token: Seq<char>,
    visibility: Seq<char>,
    a: PostView,
    b: PostView,
)
    requires
        post_request(base, token, visibility, a) == post_request(base, token, visibility, b),
    ensures
        a == b,
{
    law_posts_are_published_whole(base, token, visibility, a);
    law_posts_are_published_whole(base, token, visibility, b);
    if a.media_id is Some && b.media_id is Some {
        assert(seq![JsonView::Text(a.media_id->0)][0] == seq![JsonView::Text(b.media_id->0)][0]);
    }
    if a.media_id is Some && b.media_id is None {
        assert(seq![JsonView::Text(a.media_id->0)].len() == 1);
    }
    if a.media_id is None && b.media_id is Some {
        assert(seq![JsonView::Text(b.media_id->0)].len() == 1);
    }
}

/// A post was published exactly where the answer is a success that names it.
pub proof fn law_published_posts_are_named(status: u16, body: JsonView, id: Seq<char>)
    ensures
        post_result(status, body) == Ok::<Seq<char>, MastodonError>(id) <==> 200 <= status < 300
            && member(body, "id"@) == JsonView::Text(id),
        !(200 <= status < 300) ==> post_result(status, body) == Err::<Seq<char>, MastodonError>(
            MastodonError::Status(Service::Status, status),
        ),
        200 <= status < 300 && !(member(body, "id"@) is Text) ==> post_result(status, body) == Err::<
            Seq<char>,
            MastodonError,
        >(MastodonError::MissingStatusId),
{
}

/// An image that was uploaded can be posted under the name that the answer gives it, once it
/// has an address; until then it is asked for again under that name.
pub proof fn law_uploads_are_named(status: u16, body: JsonView, id: Seq<char>)
    ensures
        200 <= status < 300 && member(body, "id"@) == JsonView::Text(id) ==> upload_result(
            status,
            body,
        ) == (if member(body, "url"@) is Text {
            Ok::<MediaView, MastodonError>(MediaView::Ready(id))
        } else {
            Ok::<MediaView, MastodonError>(MediaView::Processing(id))
        }),
        200 <= status < 300 && !(member(body, "id"@) is Text) ==> upload_result(status, body)
            == Err::<MediaView, MastodonError>(MastodonError::MissingMediaId),
        !(200 <= status < 300) ==> upload_result(status, body) == Err::<MediaView, MastodonError>(
            MastodonError::Status(Service::Upload, status),
        ),
{
}

/// An image that is being processed keeps its name, is ready when a success gives it an address,
/// and is asked for ten times at most.
pub proof fn law_processing_ends(id: Seq<char>, polls: u32, status: u16, body: JsonView)
    ensures
        poll_result(id, polls, status, body) matches Ok(MediaView::Ready(named)) ==> named == id
            && 200 <= status < 300 && status != 206 && member(body, "url"@) is Text,
        poll_result(id, polls, status, body) matches Ok(MediaView::Processing(named)) ==> named
            == id && polls < 10,
        200 <= status < 300 && status != 206 && member(body, "url"@) is Text ==> poll_result(
            id,
            polls,
            status,
            body,
        ) == Ok::<MediaView, MastodonError>(MediaView::Ready(id)),
        200 <= status < 300 && (status == 206 || !(member(body, "url"@) is Text)) ==> poll_result(
            id,
            polls,
            status,
            body,
        ) == (if polls < 10 {
            Ok::<MediaView, MastodonError>(MediaView::Processing(id))
        } else {
            Err::<MediaView, MastodonError>(MastodonError::Timeout)
        }),
        !(200 <= status < 300) ==> poll_result(id, polls, status, body) == Err::<
            MediaView,
            MastodonError,
        >(MastodonError::Status(Service::Processing, status)),
{
}

/// An image is sent as what its first bytes say it is; what is none of the three kinds is not
/// sent.
pub proof fn law_images_are_told_by_their_bytes(bytes: Seq<u8>)
    ensures
        ({
            let is_png = bytes.len() >= 8 && bytes[0] == 0x89 && bytes[1] == 0x50 && bytes[2]
                == 0x4e && bytes[3] == 0x47 && bytes[4] == 0x0d && bytes[5] == 0x0a && bytes[6]
                == 0x1a && bytes[7] == 0x0a;
            let is_jpeg = bytes.len() >= 3 && bytes[0] == 0xff && bytes[1] == 0xd8 && bytes[2]
                == 0xff;
            let is_webp = bytes.len() >= 12 && bytes[0] == 0x52 && bytes[1] == 0x49 && bytes[2]
                == 0x46 && bytes[3] == 0x46 && bytes[8] == 0x57 && bytes[9] == 0x45 && bytes[10]
                == 0x42 && bytes[11] == 0x50;
            &&& is_png ==> image_kind(bytes) == Some(("image/png"@, "screenshot.png"@))
            &&& is_jpeg ==> image_kind(bytes) == Some(("image/jpeg"@, "screenshot.jpg"@))
            &&& is_webp ==> image_kind(bytes) == Some(("image/webp"@, "screenshot.webp"@))
            &&& !is_png && !is_jpeg && !is_webp ==> image_kind(bytes) is None
        }),
{
    let png = crate::mastodon::png();
    let jpeg = crate::mastodon::jpeg();
    let riff = crate::mastodon::riff();
    let webp = crate::mastodon::webp();
    if bytes.len() >= 8 {
        let head = bytes.take(8);
        assert(head[0] == bytes[0] && head[1] == bytes[1] && head[2] == bytes[2] && head[3]
            == bytes[3] && head[4] == bytes[4] && head[5] == bytes[5] && head[6] == bytes[6]
            && head[7] == bytes[7]);
        if bytes[0] == 0x89 && bytes[1] == 0x50 && bytes[2] == 0x4e && bytes[3] == 0x47 && bytes[4]
            == 0x0d && bytes[5] == 0x0a && bytes[6] == 0x1a && bytes[7] == 0x0a {
            assert(head =~= png);
        }
        if crate::mastodon::starts(bytes, png) {
            assert(png[0] == 0x89 && png[1] == 0x50 && png[2] == 0x4e && png[3] == 0x47 && png[4]
                == 0x0d && png[5] == 0x0a && png[6] == 0x1a && png[7] == 0x0a);
        }
    }
    if bytes.len() >= 3 {
        let head = bytes.take(3);
        assert(head[0] == bytes[0] && head[1] == bytes[1] && head[2] == bytes[2]);
        if bytes[0] == 0xff && bytes[1] == 0xd8 && bytes[2] == 0xff {
            assert(head =~= jpeg);
        }
        if crate::mastodon::starts(bytes, jpeg) {
            assert(jpeg[0] == 0xff && jpeg[1] == 0xd8 && jpeg[2] == 0xff);
        }
    }
    if bytes.len() >= 12 {
        let head = bytes.take(4);
        let mark = bytes.subrange(8, 12);
        assert(head[0] == bytes[0] && head[1] == bytes[1] && head[2] == bytes[2] && head[3]
            == bytes[3]);
        assert(mark[0] == bytes[8] && mark[1] == bytes[9] && mark[2] == bytes[10] && mark[3]
            == bytes[11]);
        if bytes[0] == 0x52 && bytes[1] == 0x49 && bytes[2] == 0x46 && bytes[3] == 0x46 {
            assert(head =~= riff);
        }
        if bytes[8] == 0x57 && bytes[9] == 0x45 && bytes[10] == 0x42 && bytes[11] == 0x50 {
            assert(mark =~= webp);
        }
        if crate::mastodon::starts(bytes, riff) && mark == webp {
            assert(riff[0] == 0x52 && riff[1] == 0x49 && riff[2] == 0x46 && riff[3] == 0x46);
            assert(webp[0] == 0x57 && webp[1] == 0x45 && webp[2] == 0x42 && webp[3] == 0x50);
        }
    }
}

} // verus!
