//! Asking registries: what is requested, and what the answers mean.

use crate::config::{Context, UpdateType};
use crate::json::{
    document_text, document_text_list, json_document, law_text_lists, read_text, read_text_list, JsonTree,
    ListError,
};
use crate::lists::{
    batch_texts, batch_views, batches, dedup, law_batches, law_dedup, law_unique,
    law_unique_keeps_the_order, str_views, unique, unique_texts,
};
use crate::request::{
    bearer, challenge_url, following_page, get_protocol, header_views, parse_link,
    parse_www_authenticate, protocol, to_bearer_string, Header, NextPage, NextPageView,
};
use crate::structs::image::{
    DigestInfo, DigestInfoView, Image, ImageView, VersionInfo, VersionInfoView,
};
use crate::structs::version::{
    is_newest, law_format_and_version_make_the_tag, law_newest_is_unique,
    law_status_names_the_kind_of_update, newest, tag_version, unambiguous, Version,
};
use crate::text::{
    clone_strings, fill, result_view, same, starts_with, str_view_of, view_of, views,
};
use vstd::prelude::*;

verus! {

/// The address at which a registry says whether it wants a token.
pub open spec fn auth_url(ctx: Context, registry: Seq<char>) -> Seq<char> {
    protocol(ctx, registry) + "://"@ + registry + "/v2/"@
}

/// The address at which a registry says whether it wants a token.
pub fn auth_check_url(registry: &str, ctx: &Context) -> (r: String)
    ensures
        r@ == auth_url(*ctx, registry@),
{
    let mut r = get_protocol(registry, ctx).to_owned();
    r.append("://");
    r.append(registry);
    r.append("/v2/");
    r
}

/// What a registry answered when it was asked whether it wants a token.
#[derive(Debug, PartialEq)]
pub struct AuthReply {
    pub status: u16,
    /// The `www-authenticate` header.
    pub challenge: Option<String>,
}

/// Where to get a token for a registry, if it wants one; an error where it wants something
/// that cannot be given.
pub open spec fn auth_outcome(registry: Seq<char>, reply: Option<AuthReply>) -> Result<
    Option<Seq<char>>,
    Seq<char>,
> {
    match reply {
        Some(reply) if reply.status == 401 => match reply.challenge {
            Some(challenge) => match challenge_url(challenge@) {
                Some(url) => Ok(Some(url)),
                None => Err("Unsupported challenge "@ + challenge@),
            },
            None => Err(
                "Unauthorized to access registry "@ + registry
                    + " and no way to authenticate was provided"@,
            ),
        },
        _ => Ok(None),
    }
}

/// Decides where to get a token for a registry. A registry that does not answer, `None`, is
/// asked without one, and so is one that answers with anything but a 401.
///
/// The error is a message for the user, who has to change the configuration.
pub fn check_auth(registry: &str, reply: &Option<AuthReply>) -> (r: Result<Option<String>, String>)
    ensures
        match r {
            Ok(url) => auth_outcome(registry@, *reply) == Ok::<_, Seq<char>>(
                view_of(url),
            ),
            Err(message) => auth_outcome(registry@, *reply) == Err::<Option<Seq<char>>, _>(
                message@,
            ),
        },
{
    match reply {
        Some(reply) => {
            if reply.status == 401 {
                match &reply.challenge {
                    Some(challenge) => match parse_www_authenticate(challenge.as_str()) {
                        Some(url) => Ok(Some(url)),
                        None => {
                            let mut message = "Unsupported challenge ".to_owned();
                            message.append(challenge.as_str());
                            Err(message)
                        },
                    },
                    None => {
                        let mut message = "Unauthorized to access registry ".to_owned();
                        message.append(registry);
                        message.append(" and no way to authenticate was provided");
                        Err(message)
                    },
                }
            } else {
                Ok(None)
            }
        },
        None => Ok(None),
    }
}

/// The address of an image's manifest.
pub open spec fn image_manifest(ctx: Context, image: ImageView) -> Seq<char> {
    protocol(ctx, image.parts.registry) + "://"@ + image.parts.registry + "/v2/"@
        + image.parts.repository + "/manifests/"@ + image.parts.tag
}

/// The address of an image's manifest.
pub fn manifest_url(image: &Image, ctx: &Context) -> (r: String)
    ensures
        r@ == image_manifest(*ctx, image@),
{
    let mut r = get_protocol(image.parts.registry.as_str(), ctx).to_owned();
    r.append("://");
    r.append(image.parts.registry.as_str());
    r.append("/v2/");
    r.append(image.parts.repository.as_str());
    r.append("/manifests/");
    r.append(image.parts.tag.as_str());
    r
}

/// The headers of a request for something that a token may be needed for.
pub open spec fn registry_headers(accept: Seq<char>, token: Option<Seq<char>>) -> Seq<
    (Seq<char>, Option<Seq<char>>),
> {
    seq![("Accept"@, Some(accept)), ("Authorization"@, bearer(token))]
}

fn headers_with_token(accept: &str, token: Option<&str>) -> (r: Vec<Header>)
    ensures
        header_views(r@) == registry_headers(accept@, str_view_of(token)),
{
    let mut r: Vec<Header> = Vec::new();
    r.push(("Accept".to_owned(), Some(accept.to_owned())));
    r.push(("Authorization".to_owned(), to_bearer_string(token)));
    assert(header_views(r@) =~= registry_headers(accept@, str_view_of(token)));
    r
}

/// The headers of a request for a manifest.
pub open spec fn manifest_request(token: Option<Seq<char>>) -> Seq<(Seq<char>, Option<Seq<char>>)> {
    registry_headers(
        "application/vnd.docker.distribution.manifest.list.v2+json, application/vnd.docker.distribution.manifest.v2+json, application/vnd.oci.image.index.v1+json, application/vnd.oci.image.manifest.v1+json"@,
        token,
    )
}

/// The headers of a request for a manifest.
pub fn manifest_headers(token: Option<&str>) -> (r: Vec<Header>)
    ensures
        header_views(r@) == manifest_request(str_view_of(token)),
{
    headers_with_token(
        "application/vnd.docker.distribution.manifest.list.v2+json, application/vnd.docker.distribution.manifest.v2+json, application/vnd.oci.image.index.v1+json, application/vnd.oci.image.manifest.v1+json",
        token,
    )
}

/// What came of a request for a manifest.
#[derive(Debug, PartialEq)]
pub enum DigestReply {
    /// The request failed, with this message.
    Failed(String),
    /// There was no `docker-content-digest` header. The response is written for a reader.
    Missing(String),
    /// The header is no text. Its value is written for a reader.
    Unreadable(String),
    /// The digest.
    Digest(String),
}

/// The image after its digest was asked for at `url`, which took `time`.
pub open spec fn digest_checked(
    image: ImageView,
    url: Seq<char>,
    time: u32,
    reply: DigestReply,
) -> ImageView {
    match reply {
        DigestReply::Failed(message) => image.errored(message@, time),
        DigestReply::Missing(response) => image.errored(
            url + ": server returned no docker-content-digest\n"@ + response@,
            time,
        ),
        DigestReply::Unreadable(value) => if image.digest_info is Some {
            image.errored(url + ": docker-content-digest is not readable text: "@ + value@, time)
        } else {
            image
        },
        DigestReply::Digest(digest) => match image.digest_info {
            Some(info) => ImageView {
                digest_info: Some(
                    DigestInfoView {
                        local_digests: info.local_digests,
                        remote_digest: Some(digest@),
                    },
                ),
                time_ms: (image.time_ms + time) as u32,
                ..image
            },
            None => image,
        },
    }
}

/// Records what came of asking for an image's digest. An answer without a legible digest costs
/// this one image its freshness, and nothing else.
pub fn get_latest_digest(image: &Image, url: &str, time: u32, reply: DigestReply) -> (r: Image)
    requires
        image.time_ms + time <= u32::MAX,
    ensures
        r@ == digest_checked(image@, url@, time, reply),
{
    match reply {
        DigestReply::Failed(message) => image.errored(message, time),
        DigestReply::Missing(response) => {
            let mut message = url.to_owned();
            message.append(": server returned no docker-content-digest\n");
            message.append(response.as_str());
            image.errored(message, time)
        },
        DigestReply::Unreadable(value) => match &image.digest_info {
            Some(_) => {
                let mut message = url.to_owned();
                message.append(": docker-content-digest is not readable text: ");
                message.append(value.as_str());
                image.errored(message, time)
            },
            None => image.clone(),
        },
        DigestReply::Digest(digest) => match &image.digest_info {
            Some(info) => {
                let mut r = image.clone();
                r.digest_info = Some(
                    DigestInfo {
                        local_digests: clone_strings(&info.local_digests),
                        remote_digest: Some(digest),
                    },
                );
                r.time_ms = image.time_ms + time;
                r
            },
            None => image.clone(),
        },
    }
}

/// The largest number of repositories that a single token is allowed to cover.
///
/// A registry's token embeds one entry per repository that it grants, so that it grows with
/// the number of repositories that it is asked for: on Docker Hub by about 215 bytes each, on
/// top of some 2.7 KiB. The load balancer in front of `registry-1.docker.io` rejects requests
/// with a header line of more than 16 KiB. Batches of this size keep the line far enough below
/// that limit for long repository names, too.
pub const MAX_REPOSITORIES_PER_TOKEN: usize = 20;

/// The repositories of some images.
pub open spec fn repositories(images: Seq<&Image>) -> Seq<Seq<char>> {
    images.map_values(|image: &Image| image.parts.repository@)
}

/// The batches of repositories to ask tokens for: each repository once, in the order in which they
/// first occur.
pub open spec fn repository_batches(names: Seq<Seq<char>>) -> Seq<Seq<Seq<char>>> {
    batches(unique(names), MAX_REPOSITORIES_PER_TOKEN as nat)
}

/// Splits the images of a registry into the batches of repositories to ask tokens for: each
/// repository once, since several tags of one image need one grant, and no batch larger than
/// [`MAX_REPOSITORIES_PER_TOKEN`].
pub fn batch_repositories<'a>(images: &[&'a Image]) -> (r: Vec<Vec<&'a str>>)
    ensures
        batch_views(r@) == repository_batches(repositories(images@)),
{
    let mut names: Vec<&'a str> = Vec::new();
    let mut i: usize = 0;
    while i < images.len()
        invariant
            i <= images@.len(),
            names@.len() == i,
            forall|j: int| 0 <= j < i ==> (#[trigger] names@[j])@ == images@[j].parts.repository@,
        decreases images@.len() - i,
    {
        let image: &'a Image = images[i];
        names.push(image.parts.repository.as_str());
        i += 1;
    }
    assert(str_views(names@) =~= repositories(images@));
    let names = unique_texts(&names);
    batch_texts(&names, MAX_REPOSITORIES_PER_TOKEN)
}

/// The address to get a token for some repositories at.
pub open spec fn token_address(auth_url: Seq<char>, repositories: Seq<Seq<char>>) -> Seq<char>
    decreases repositories.len(),
{
    if repositories.len() == 0 {
        auth_url
    } else {
        token_address(auth_url, repositories.drop_last()) + "&scope=repository:"@
            + repositories.last() + ":pull"@
    }
}

/// The address to get a token for some repositories at.
pub fn token_url(auth_url: &str, repositories: &Vec<String>) -> (r: String)
    ensures
        r@ == token_address(auth_url@, views(repositories@)),
{
    let mut r = auth_url.to_owned();
    let ghost all = views(repositories@);
    let mut i: usize = 0;
    assert(all.take(0) =~= Seq::<Seq<char>>::empty());
    while i < repositories.len()
        invariant
            i <= repositories@.len(),
            all == views(repositories@),
            r@ == token_address(auth_url@, all.take(i as int)),
        decreases repositories@.len() - i,
    {
        assert(all.take(i + 1).drop_last() =~= all.take(i as int));
        r.append("&scope=repository:");
        r.append(repositories[i].as_str());
        r.append(":pull");
        i += 1;
    }
    assert(all.take(repositories@.len() as int) =~= all);
    r
}

/// The headers of a request for a token.
pub open spec fn token_request(credentials: Option<Seq<char>>) -> Seq<
    (Seq<char>, Option<Seq<char>>),
> {
    seq![
        (
            "Authorization"@,
            match credentials {
                Some(credentials) => Some("Basic "@ + credentials),
                None => None,
            },
        ),
    ]
}

/// The headers of a request for a token.
pub fn token_headers(credentials: Option<&str>) -> (r: Vec<Header>)
    ensures
        header_views(r@) == token_request(str_view_of(credentials)),
{
    let value = match credentials {
        Some(credentials) => {
            let mut value = "Basic ".to_owned();
            value.append(credentials);
            Some(value)
        },
        None => None,
    };
    let mut r: Vec<Header> = Vec::new();
    r.push(("Authorization".to_owned(), value));
    assert(header_views(r@) =~= token_request(str_view_of(credentials)));
    r
}

/// The token in a registry's answer, or the error that there is none.
pub open spec fn granted(url: Seq<char>, token: Option<Seq<char>>) -> Result<Seq<char>, Seq<char>> {
    match token {
        Some(token) => Ok(token),
        None => Err(
            "GET "@ + url + ": Registry did not include a token in its response."@,
        ),
    }
}

/// The token in a registry's answer, or the error that there is none.
pub fn token_or_error(url: &str, token: Option<String>) -> (r: Result<String, String>)
    ensures
        match r {
            Ok(token_found) => granted(url@, view_of(token)) == Ok::<_, Seq<char>>(
                token_found@,
            ),
            Err(message) => granted(url@, view_of(token)) == Err::<Seq<char>, _>(
                message@,
            ),
        },
{
    match token {
        Some(token) => Ok(token),
        None => {
            let mut message = "GET ".to_owned();
            message.append(url);
            message.append(": Registry did not include a token in its response.");
            Err(message)
        },
    }
}

/// What comes of a request for a token at `url`: the token in the body of the response, or an
/// error.
pub open spec fn token_outcome(url: Seq<char>, reply: Result<Seq<char>, Seq<char>>) -> Result<
    Seq<char>,
    Seq<char>,
> {
    match reply {
        Ok(body) => granted(url, document_text(json_document(body), "token"@)),
        Err(message) => Err(message),
    }
}

/// Reads the token out of what came of the request to `url`: the body of the response, or the
/// error. A failed request is no reason to stop: the images that the token is for are skipped.
pub fn get_token(url: &str, reply: Result<String, String>) -> (r: Result<String, String>)
    ensures
        result_view(r) == token_outcome(url@, result_view(reply)),
{
    match reply {
        Ok(body) => token_or_error(url, read_text(body.as_str(), "token")),
        Err(message) => Err(message),
    }
}

/// Whether a tag begins with one of the excluded prefixes.
pub open spec fn excluded(tag: Seq<char>, excluded_tags: Seq<Seq<char>>) -> bool {
    exists|i: int| 0 <= i < excluded_tags.len() && (#[trigger] excluded_tags[i]).is_prefix_of(tag)
}

/// Checks if a tag begins with one of the excluded prefixes.
pub fn is_excluded_tag(tag: &str, excluded_tags: &Vec<String>) -> (r: bool)
    ensures
        r == excluded(tag@, views(excluded_tags@)),
{
    let ghost prefixes = views(excluded_tags@);
    let mut i: usize = 0;
    while i < excluded_tags.len()
        invariant
            i <= excluded_tags@.len(),
            prefixes == views(excluded_tags@),
            forall|j: int| 0 <= j < i ==> !(#[trigger] prefixes[j]).is_prefix_of(tag@),
        decreases excluded_tags@.len() - i,
    {
        assert(prefixes[i as int] == excluded_tags@[i as int]@);
        if starts_with(tag, excluded_tags[i].as_str()) {
            return true;
        }
        i += 1;
    }
    false
}

/// The version of a tag that is an alternative to `base`: it is not excluded, looks like the
/// image's own tag, and is not a kind of update to ignore.
pub open spec fn alternative(
    tag: Seq<char>,
    base: Version,
    format_str: Seq<char>,
    ignored: UpdateType,
    excluded_tags: Seq<Seq<char>>,
) -> Option<Version> {
    match tag_version(tag) {
        Some((version, format)) => if !excluded(tag, excluded_tags) && version.same_shape(base)
            && format == format_str && version.allowed(base, ignored) {
            Some(version)
        } else {
            None
        },
        None => None,
    }
}

/// The versions of the tags that are alternatives to `base`, in order.
pub open spec fn alternatives(
    tags: Seq<Seq<char>>,
    base: Version,
    format_str: Seq<char>,
    ignored: UpdateType,
    excluded_tags: Seq<Seq<char>>,
) -> Seq<Version>
    decreases tags.len(),
{
    if tags.len() == 0 {
        Seq::empty()
    } else {
        let rest = alternatives(tags.drop_last(), base, format_str, ignored, excluded_tags);
        match alternative(tags.last(), base, format_str, ignored, excluded_tags) {
            Some(version) => rest.push(version),
            None => rest,
        }
    }
}

/// The versions among `tags` that are alternatives to `base`, without repeats in a row.
pub fn select_tags(
    tags: &Vec<String>,
    base: &Version,
    format_str: &str,
    ignored: UpdateType,
    excluded_tags: &Vec<String>,
) -> (r: Vec<Version>)
    ensures
        r@ == dedup(
            alternatives(
                views(tags@),
                *base,
                format_str@,
                ignored,
                views(excluded_tags@),
            ),
        ),
{
    let ghost all = views(tags@);
    let ghost prefixes = views(excluded_tags@);
    let mut r: Vec<Version> = Vec::new();
    let mut i: usize = 0;
    assert(all.take(0) =~= Seq::<Seq<char>>::empty());
    while i < tags.len()
        invariant
            i <= tags@.len(),
            all == views(tags@),
            prefixes == views(excluded_tags@),
            r@ == dedup(
                alternatives(all.take(i as int), *base, format_str@, ignored, prefixes),
            ),
        decreases tags@.len() - i,
    {
        let tag = tags[i].as_str();
        let ghost found = alternatives(all.take(i as int), *base, format_str@, ignored, prefixes);
        assert(all.take(i + 1).drop_last() =~= all.take(i as int));
        assert(all.take(i + 1).last() == tag@);
        if !is_excluded_tag(tag, excluded_tags) {
            if let Some((version, format)) = Version::from_tag(tag) {
                if version.matches_shape(base) && same(format.as_str(), format_str)
                    && version.is_allowed(base, ignored) {
                    assert(found.push(version).drop_last() =~= found);
                    if r.len() == 0 || r[r.len() - 1] != version {
                        r.push(version);
                    }
                }
            }
        }
        i += 1;
    }
    assert(all.take(tags@.len() as int) =~= all);
    r
}

/// The address of the list of an image's tags.
pub open spec fn image_tags(ctx: Context, image: ImageView) -> Seq<char> {
    protocol(ctx, image.parts.registry) + "://"@ + image.parts.registry + "/v2/"@
        + image.parts.repository + "/tags/list"@
}

/// The address of the list of an image's tags.
pub fn tag_list_url(image: &Image, ctx: &Context) -> (r: String)
    ensures
        r@ == image_tags(*ctx, image@),
{
    let mut r = get_protocol(image.parts.registry.as_str(), ctx).to_owned();
    r.append("://");
    r.append(image.parts.registry.as_str());
    r.append("/v2/");
    r.append(image.parts.repository.as_str());
    r.append("/tags/list");
    r
}

/// The headers of a request for a list of tags.
pub open spec fn tag_list_request(token: Option<Seq<char>>) -> Seq<(Seq<char>, Option<Seq<char>>)> {
    registry_headers("application/json"@, token)
}

/// The headers of a request for a list of tags.
pub fn tag_list_headers(token: Option<&str>) -> (r: Vec<Header>)
    ensures
        header_views(r@) == tag_list_request(str_view_of(token)),
{
    headers_with_token("application/json", token)
}

/// A page of a list of tags.
#[derive(Debug, PartialEq)]
pub struct TagPage {
    /// The body of the response.
    pub body: String,
    /// The `Link` header.
    pub link: Option<String>,
}

/// What a page of a list of tags holds: versions and the address of the next page, or an error.
pub type PageView = Result<(Seq<Version>, Option<Seq<char>>), Seq<char>>;

/// What a page of tags at `url` holds: the versions on it that are alternatives to `base`, and
/// the address of the next page. A page that is no list of tags, or whose link to the next page
/// leads nowhere, is an error.
pub open spec fn page_outcome(
    url: Seq<char>,
    tags: Result<Seq<Seq<char>>, ListError>,
    next: NextPageView,
    base: Version,
    format_str: Seq<char>,
    ignored: UpdateType,
    excluded_tags: Seq<Seq<char>>,
) -> PageView {
    match (next, tags) {
        (NextPageView::Unreadable, _) => Err(
            "GET "@ + url + ": Registry sent a link to more tags that leads nowhere."@,
        ),
        (_, Err(_)) => Err(
            "GET "@ + url + ": Registry did not include a list of tags in its response."@,
        ),
        (_, Ok(tags)) => Ok(
            (
                dedup(alternatives(tags, base, format_str, ignored, excluded_tags)),
                match next {
                    NextPageView::At(next) => Some(next),
                    _ => None,
                },
            ),
        ),
    }
}

/// The views of what a page of tags holds.
pub open spec fn page_view(page: Result<(Vec<Version>, Option<String>), String>) -> PageView {
    match page {
        Ok((versions, next_url)) => Ok((versions@, view_of(next_url))),
        Err(message) => Err(message@),
    }
}

/// The views of a list of tags, or the reason why there is none.
pub open spec fn tag_list_view(tags: Result<Vec<String>, ListError>) -> Result<
    Seq<Seq<char>>,
    ListError,
> {
    match tags {
        Ok(tags) => Ok(views(tags@)),
        Err(e) => Err(e),
    }
}

/// Concludes what a page of tags at `url` holds from the tags on it and from what follows it.
pub fn extra_tags(
    url: &str,
    tags: Result<Vec<String>, ListError>,
    next: NextPage,
    base: &Version,
    format_str: &str,
    ignored: UpdateType,
    excluded_tags: &Vec<String>,
) -> (r: Result<(Vec<Version>, Option<String>), String>)
    ensures
        page_view(r) == page_outcome(
            url@,
            tag_list_view(tags),
            next@,
            *base,
            format_str@,
            ignored,
            views(excluded_tags@),
        ),
{
    let next_url = match next {
        NextPage::Last => None,
        NextPage::At(next_url) => Some(next_url),
        NextPage::Unreadable => {
            let mut message = "GET ".to_owned();
            message.append(url);
            message.append(": Registry sent a link to more tags that leads nowhere.");
            return Err(message);
        },
    };
    match tags {
        Ok(tags) => Ok((select_tags(&tags, base, format_str, ignored, excluded_tags), next_url)),
        Err(_) => {
            let mut message = "GET ".to_owned();
            message.append(url);
            message.append(": Registry did not include a list of tags in its response.");
            Err(message)
        },
    }
}

/// What comes of a request for a page of tags at `url`.
pub open spec fn page_reply(
    url: Seq<char>,
    reply: Result<TagPage, String>,
    base: Version,
    format_str: Seq<char>,
    ignored: UpdateType,
    excluded_tags: Seq<Seq<char>>,
) -> PageView {
    match reply {
        Ok(page) => page_outcome(
            url,
            document_text_list(json_document(page.body@), "tags"@),
            following_page(view_of(page.link), url),
            base,
            format_str,
            ignored,
            excluded_tags,
        ),
        Err(message) => Err(message@),
    }
}

/// Reads what came of the request for a page of tags at `url`: the versions on it that are
/// alternatives to `base`, and the address of the next page. An answer that is no list of tags
/// is an error, as a failed request is.
pub fn get_extra_tags(
    url: &str,
    reply: Result<TagPage, String>,
    base: &Version,
    format_str: &str,
    ctx: &Context,
    excluded_tags: &Vec<String>,
) -> (r: Result<(Vec<Version>, Option<String>), String>)
    ensures
        page_view(r) == page_reply(
            url@,
            reply,
            *base,
            format_str@,
            ctx.config.ignore_update_type,
            views(excluded_tags@),
        ),
{
    match reply {
        Ok(page) => {
            let next = parse_link(&page.link, url);
            let tags = read_text_list(page.body.as_str(), "tags");
            let ignored = ctx.config.ignore_update_type;
            extra_tags(url, tags, next, base, format_str, ignored, excluded_tags)
        },
        Err(message) => Err(message),
    }
}

/// What [`TagScan`] stands for.
#[verifier::ext_equal]
pub struct ScanView {
    pub tags: Seq<Version>,
    pub next_url: Option<Seq<char>>,
    pub error: Option<Seq<char>>,
}

impl ScanView {
    /// A walk that starts at `url`.
    pub open spec fn start(url: Seq<char>) -> ScanView {
        ScanView { tags: Seq::empty(), next_url: Some(url), error: None }
    }

    /// The walk after one more page. An error ends it.
    pub open spec fn after_page(self, page: PageView) -> ScanView {
        match page {
            Ok((tags, next_url)) => ScanView { tags: self.tags + tags, next_url, ..self },
            Err(message) => ScanView { next_url: None, error: Some(message), ..self },
        }
    }

    /// The walk after the pages that follow, as far as it goes.
    pub open spec fn walked(self, pages: Seq<PageView>) -> ScanView
        decreases pages.len(),
    {
        if pages.len() == 0 || self.next_url is None {
            self
        } else {
            self.after_page(pages[0]).walked(pages.drop_first())
        }
    }
}

/// A walk through the pages of a list of tags.
#[derive(Debug, PartialEq)]
pub struct TagScan {
    /// The versions found so far.
    pub tags: Vec<Version>,
    /// The address of the next page; `None` once there is none.
    pub next_url: Option<String>,
    /// Why the walk was broken off.
    pub error: Option<String>,
}

impl View for TagScan {
    type V = ScanView;

    open spec fn view(&self) -> ScanView {
        ScanView {
            tags: self.tags@,
            next_url: view_of(self.next_url),
            error: view_of(self.error),
        }
    }
}

impl TagScan {
    /// A walk that starts at `url`.
    pub fn new(url: String) -> (r: TagScan)
        ensures
            r@ == ScanView::start(url@),
    {
        TagScan { tags: Vec::new(), next_url: Some(url), error: None }
    }

    /// Takes in what [`get_extra_tags`] made of the next page. An error ends the walk.
    pub fn receive(&mut self, page: Result<(Vec<Version>, Option<String>), String>)
        ensures
            final(self)@ == old(self)@.after_page(page_view(page)),
    {
        match page {
            Ok((tags, next_url)) => {
                let mut tags = tags;
                self.tags.append(&mut tags);
                self.next_url = next_url;
            },
            Err(message) => {
                self.next_url = None;
                self.error = Some(message);
            },
        }
    }
}

/// What [`TagOutcome`] stands for.
pub enum TagOutcomeView {
    Settled(ImageView),
    CompareDigests(ImageView),
    NoTags(Seq<char>),
}

/// What the tags of an image say of it.
#[derive(Debug, PartialEq)]
pub enum TagOutcome {
    /// The check is done.
    Settled(Image),
    /// The newest tag is the image's own, so that the digests decide.
    CompareDigests(Image),
    /// The registry has no tag like the image's.
    NoTags(String),
}

impl View for TagOutcome {
    type V = TagOutcomeView;

    open spec fn view(&self) -> TagOutcomeView {
        match self {
            TagOutcome::Settled(image) => TagOutcomeView::Settled(image@),
            TagOutcome::CompareDigests(image) => TagOutcomeView::CompareDigests(image@),
            TagOutcome::NoTags(message) => TagOutcomeView::NoTags(message@),
        }
    }
}

/// What it says of an image that `latest` is the newest version in the registry. Where that is
/// the image's own version, and its digests are known, they decide, and the version does not
/// matter any more.
pub open spec fn tag_verdict(image: ImageView, base: Version, latest: Version, time: u32) ->
    TagOutcomeView {
    let time_ms = (image.time_ms + time) as u32;
    if latest == base && image.digest_info is Some {
        TagOutcomeView::CompareDigests(ImageView { version_info: None, time_ms, ..image })
    } else {
        TagOutcomeView::Settled(
            ImageView {
                version_info: Some(
                    VersionInfoView {
                        latest_remote_tag: Some(latest),
                        ..image.version_info->0
                    },
                ),
                time_ms,
                ..image
            },
        )
    }
}

/// What a finished walk through the tags of an image leads to. The image's version is `base`, and
/// the check took `time` so far.
pub open spec fn concluded(
    image: ImageView,
    base: Version,
    scan: ScanView,
    time: u32,
    outcome: TagOutcomeView,
) -> bool {
    match scan.error {
        Some(message) => outcome == TagOutcomeView::Settled(image.errored(message, time)),
        None => if scan.tags.len() == 0 {
            outcome == TagOutcomeView::NoTags(
                "Image "@ + image.reference + " has no remote version tags! Local tag: "@
                    + image.parts.tag,
            )
        } else {
            exists|latest: Version|
                is_newest(scan.tags, latest) && outcome == #[trigger] tag_verdict(
                    image,
                    base,
                    latest,
                    time,
                )
        },
    }
}

/// Concludes from a finished walk through the tags of an image, whose version is `base`. The
/// check took `time` so far.
pub fn get_latest_tag(image: &Image, base: &Version, scan: &TagScan, time: u32) -> (r: TagOutcome)
    requires
        scan.next_url is None,
        image.version_info is Some,
        image.time_ms + time <= u32::MAX,
    ensures
        concluded(image@, *base, scan@, time, r@),
{
    if let Some(message) = &scan.error {
        return TagOutcome::Settled(image.errored(message.clone(), time));
    }
    match newest(&scan.tags) {
        Some(latest) => {
            let mut checked = image.clone();
            checked.time_ms = image.time_ms + time;
            let r = if latest == *base && image.digest_info.is_some() {
                checked.version_info = None;
                TagOutcome::CompareDigests(checked)
            } else {
                let info = image.version_info.as_ref().unwrap();
                checked.version_info = Some(
                    VersionInfo {
                        current_tag: info.current_tag,
                        latest_remote_tag: Some(latest),
                        format_str: info.format_str.clone(),
                    },
                );
                TagOutcome::Settled(checked)
            };
            assert(r@ == tag_verdict(image@, *base, latest, time));
            r
        },
        None => {
            let mut message = "Image ".to_owned();
            message.append(image.reference.as_str());
            message.append(" has no remote version tags! Local tag: ");
            message.append(image.parts.tag.as_str());
            TagOutcome::NoTags(message)
        },
    }
}

/// The batches for the tokens of a registry: every repository of its images is in exactly one
/// of them, and none is empty or larger than the limit. Only the last may be smaller, and more
/// repositories do not change the order of those before them.
pub proof fn law_batches_cover_every_repository_once(names: Seq<Seq<char>>, more: Seq<Seq<char>>)
    ensures
        ({
            let all = repository_batches(names);
            &&& all.flatten().no_duplicates()
            &&& forall|name: Seq<char>| #[trigger]
                all.flatten().contains(name) <==> names.contains(name)
            &&& forall|i: int| 0 <= i < all.len() ==> 0 < (#[trigger] all[i]).len() <= 20
            &&& forall|i: int| 0 <= i < all.len() - 1 ==> (#[trigger] all[i]).len() == 20
            &&& all.flatten().is_prefix_of(repository_batches(names + more).flatten())
        }),
{
    law_unique(names);
    law_batches(unique(names), MAX_REPOSITORIES_PER_TOKEN as nat);
    law_batches(unique(names + more), MAX_REPOSITORIES_PER_TOKEN as nat);
    law_unique_keeps_the_order(names, more);
}

/// Whatever a registry answers when it is asked for a digest, only what the check found out
/// changes: an answer without a legible digest becomes an error of this image, and leaves the
/// remote digest as it was. The value of a digest is only read for an image that has digests to
/// compare it with.
pub proof fn law_bad_digest_answers_cost_one_image(
    image: ImageView,
    url: Seq<char>,
    time: u32,
    reply: DigestReply,
)
    requires
        image.digest_info is Some || reply is Failed || reply is Missing,
    ensures
        ({
            let checked = digest_checked(image, url, time, reply);
            &&& checked.reference == image.reference
            &&& checked.parts == image.parts
            &&& checked.in_use == image.in_use
            &&& checked.version_info == image.version_info
            &&& match reply {
                DigestReply::Digest(digest) => checked.error == image.error
                    && checked.digest_info->0.remote_digest == Some(digest@),
                _ => checked.error is Some && checked.digest_info == image.digest_info,
            }
        }),
{
}

/// A check of the digest settles an image whose digests are known and whose version does not
/// matter.
pub proof fn law_digest_check_settles(
    image: ImageView,
    url: Seq<char>,
    time: u32,
    reply: DigestReply,
)
    requires
        image.digest_info is Some,
        image.version_info is None,
    ensures
        digest_checked(image, url, time, reply).settled(),
{
}

/// A check of the tags settles an image, or leaves it to a check of the digest that does.
pub proof fn law_tag_check_settles(image: ImageView, base: Version, latest: Version, time: u32)
    ensures
        match tag_verdict(image, base, latest, time) {
            TagOutcomeView::Settled(checked) => checked.settled(),
            TagOutcomeView::CompareDigests(checked) => checked.digest_info is Some
                && checked.version_info is None,
            TagOutcomeView::NoTags(_) => false,
        },
{
}

/// Every selected version is that of a tag that is not excluded, has the image's own format
/// and as many numbers as the image's version, and is not a kind of update to ignore. And every
/// such tag's version is selected.
pub proof fn law_selected_tags(
    tags: Seq<Seq<char>>,
    base: Version,
    format_str: Seq<char>,
    ignored: UpdateType,
    excluded_tags: Seq<Seq<char>>,
    version: Version,
)
    ensures
        dedup(
            alternatives(tags, base, format_str, ignored, excluded_tags),
        ).contains(version) <==> exists|i: int|
            0 <= i < tags.len() && !excluded(#[trigger] tags[i], excluded_tags)
                && tag_version(tags[i]) == Some((version, format_str))
                && version.same_shape(base) && version.allowed(base, ignored),
    decreases tags.len(),
{
    let found = alternatives(tags, base, format_str, ignored, excluded_tags);
    law_dedup(found);
    lemma_alternatives(tags, base, format_str, ignored, excluded_tags, version);
}

proof fn lemma_alternatives(
    tags: Seq<Seq<char>>,
    base: Version,
    format_str: Seq<char>,
    ignored: UpdateType,
    excluded_tags: Seq<Seq<char>>,
    version: Version,
)
    ensures
        alternatives(tags, base, format_str, ignored, excluded_tags).contains(version)
            <==> exists|i: int|
            0 <= i < tags.len() && alternative(
                #[trigger] tags[i],
                base,
                format_str,
                ignored,
                excluded_tags,
            ) == Some(version),
    decreases tags.len(),
{
    if tags.len() > 0 {
        let shorter = tags.drop_last();
        let rest = alternatives(shorter, base, format_str, ignored, excluded_tags);
        let all = alternatives(tags, base, format_str, ignored, excluded_tags);
        lemma_alternatives(shorter, base, format_str, ignored, excluded_tags, version);
        if all.contains(version) {
            let k = choose|k: int| 0 <= k < all.len() && all[k] == version;
            if k < rest.len() {
                assert(rest[k] == version);
                let i = choose|i: int|
                    0 <= i < shorter.len() && alternative(
                        #[trigger] shorter[i],
                        base,
                        format_str,
                        ignored,
                        excluded_tags,
                    ) == Some(version);
                assert(tags[i] == shorter[i]);
            } else {
                assert(tags[tags.len() - 1] == tags.last());
            }
        }
        if exists|i: int|
            0 <= i < tags.len() && alternative(
                #[trigger] tags[i],
                base,
                format_str,
                ignored,
                excluded_tags,
            ) == Some(version) {
            let i = choose|i: int|
                0 <= i < tags.len() && alternative(
                    #[trigger] tags[i],
                    base,
                    format_str,
                    ignored,
                    excluded_tags,
                ) == Some(version);
            if i < tags.len() - 1 {
                assert(shorter[i] == tags[i]);
                let k = choose|k: int| 0 <= k < rest.len() && rest[k] == version;
                assert(all[k] == version);
            } else {
                assert(all[all.len() - 1] == version);
            }
        }
    }
}

/// The tag that is reported for a selected version is one that the registry has.
pub proof fn law_selected_versions_have_a_tag(
    tags: Seq<Seq<char>>,
    base: Version,
    format_str: Seq<char>,
    ignored: UpdateType,
    excluded_tags: Seq<Seq<char>>,
    version: Version,
)
    requires
        forall|i: int| 0 <= i < tags.len() ==> unambiguous(#[trigger] tags[i]),
        dedup(alternatives(tags, base, format_str, ignored, excluded_tags)).contains(version),
    ensures
        tags.contains(fill(format_str, version.numbers())),
{
    law_selected_tags(tags, base, format_str, ignored, excluded_tags, version);
    let i = choose|i: int|
        0 <= i < tags.len() && !excluded(#[trigger] tags[i], excluded_tags) && tag_version(tags[i])
            == Some((version, format_str)) && version.same_shape(base) && version.allowed(
            base,
            ignored,
        );
    law_format_and_version_make_the_tag(tags[i], version, format_str);
}

/// Where the newest version is the image's own, and its digests are known, the check falls back
/// to comparing digests: the image goes on without its version, and the digest check leaves it
/// without one.
pub proof fn law_equal_tags_compare_digests(
    image: ImageView,
    base: Version,
    tags: Seq<Version>,
    latest: Version,
    time: u32,
    url: Seq<char>,
    digest_time: u32,
    reply: DigestReply,
)
    requires
        image.digest_info is Some,
        is_newest(tags, base),
        is_newest(tags, latest),
    ensures
        ({
            let unversioned = ImageView {
                version_info: None,
                time_ms: (image.time_ms + time) as u32,
                ..image
            };
            let checked = digest_checked(unversioned, url, digest_time, reply);
            &&& tag_verdict(image, base, latest, time) == TagOutcomeView::CompareDigests(
                unversioned,
            )
            &&& image.time_ms + time <= u32::MAX ==> unversioned.time_ms == image.time_ms + time
            &&& checked.version_info is None
            &&& checked.settled()
        }),
{
    law_newest_is_unique(tags, base, latest);
}

/// A check never changes which image it is about.
pub proof fn law_checks_keep_the_image(
    image: ImageView,
    base: Version,
    latest: Version,
    time: u32,
    url: Seq<char>,
    reply: DigestReply,
)
    ensures
        ({
            let checked = digest_checked(image, url, time, reply);
            checked.reference == image.reference && checked.parts == image.parts && checked.in_use
                == image.in_use
        }),
        match tag_verdict(image, base, latest, time) {
            TagOutcomeView::Settled(checked) | TagOutcomeView::CompareDigests(checked) => {
                checked.reference == image.reference && checked.parts == image.parts
                    && checked.in_use == image.in_use
            },
            TagOutcomeView::NoTags(_) => false,
        },
{
}

/// Whether pages of tags are readable and each but the last leads to the one after it.
pub open spec fn linked(pages: Seq<PageView>) -> bool {
    &&& forall|i: int| 0 <= i < pages.len() ==> (#[trigger] pages[i]) is Ok
    &&& forall|i: int| 0 <= i < pages.len() - 1 ==> (#[trigger] pages[i])->Ok_0.1 is Some
}

/// The versions on each of some readable pages.
pub open spec fn page_versions(pages: Seq<PageView>) -> Seq<Seq<Version>> {
    pages.map_values(|page: PageView| page->Ok_0.0)
}

/// A walk collects the versions of all pages in order, and stands where the last of them leads.
/// Where that is nowhere, the walk is over, and pages beyond make no difference.
pub proof fn law_walk_collects_all_pages(scan: ScanView, pages: Seq<PageView>, beyond: Seq<PageView>)
    requires
        scan.next_url is Some,
        pages.len() > 0,
        linked(pages),
    ensures
        scan.walked(pages) == (ScanView {
            tags: scan.tags + page_versions(pages).flatten(),
            next_url: pages.last()->Ok_0.1,
            error: scan.error,
        }),
        pages.last()->Ok_0.1 is None ==> scan.walked(pages + beyond) == scan.walked(pages),
    decreases pages.len(),
{
    let next = scan.after_page(pages[0]);
    let rest = pages.drop_first();
    let versions = page_versions(pages);
    assert(versions.drop_first() =~= page_versions(rest));
    assert(versions.first() == pages[0]->Ok_0.0);
    assert((pages + beyond)[0] == pages[0]);
    assert((pages + beyond).drop_first() =~= rest + beyond);
    if rest.len() == 0 {
        assert(page_versions(rest).flatten() =~= Seq::<Version>::empty());
        assert(next.walked(rest) == next);
        assert(scan.walked(pages).tags =~= scan.tags + versions.flatten());
        assert(pages.last() == pages[0]);
        assert(next.next_url is None ==> next.walked(rest + beyond) == next);
    } else {
        assert forall|i: int| 0 <= i < rest.len() implies (#[trigger] rest[i]) is Ok && (i
            < rest.len() - 1 ==> rest[i]->Ok_0.1 is Some) by {
            assert(rest[i] == pages[i + 1]);
        }
        law_walk_collects_all_pages(next, rest, beyond);
        assert(scan.walked(pages).tags =~= scan.tags + versions.flatten());
        assert(rest.last() == pages.last());
    }
}

/// The first error ends a walk. What was found before it is kept, and pages beyond make no
/// difference.
pub proof fn law_first_error_ends_a_walk(
    scan: ScanView,
    pages: Seq<PageView>,
    message: Seq<char>,
    beyond: Seq<PageView>,
)
    requires
        scan.next_url is Some,
        linked(pages),
        pages.len() > 0 ==> pages.last()->Ok_0.1 is Some,
    ensures
        scan.walked(pages.push(Err(message)) + beyond) == (ScanView {
            tags: scan.tags + page_versions(pages).flatten(),
            next_url: None,
            error: Some(message),
        }),
    decreases pages.len(),
{
    let all = pages.push(Err(message)) + beyond;
    let next = scan.after_page(all[0]);
    if pages.len() == 0 {
        assert(page_versions(pages).flatten() =~= Seq::<Version>::empty());
        assert(next.walked(all.drop_first()) == next);
        assert(scan.tags + page_versions(pages).flatten() =~= scan.tags);
    } else {
        let rest = pages.drop_first();
        let versions = page_versions(pages);
        assert(versions.drop_first() =~= page_versions(rest));
        assert(versions.first() == pages[0]->Ok_0.0);
        assert(all.drop_first() =~= rest.push(Err(message)) + beyond);
        assert forall|i: int| 0 <= i < rest.len() implies (#[trigger] rest[i]) is Ok && (i
            < rest.len() - 1 ==> rest[i]->Ok_0.1 is Some) by {
            assert(rest[i] == pages[i + 1]);
        }
        assert(next.next_url is Some);
        law_first_error_ends_a_walk(next, rest, message, beyond);
        assert(scan.tags + versions.flatten() =~= next.tags + page_versions(rest).flatten());
    }
}

/// A walk that found a newest version settles an image whose own version is another one, or that
/// has no digests to compare. The newest version is recorded beside the image's own, which stays
/// as it was, and so does all the rest but for the time. The verdict is what the newest version
/// says of the image's own, number by number.
pub proof fn law_newer_versions_are_recorded(
    image: ImageView,
    base: Version,
    scan: ScanView,
    latest: Version,
    time: u32,
    outcome: TagOutcomeView,
)
    requires
        image.version_info is Some,
        scan.error is None,
        is_newest(scan.tags, latest),
        latest != base || image.digest_info is None,
        concluded(image, base, scan, time, outcome),
    ensures
        outcome is Settled,
        ({
            let checked = outcome->Settled_0;
            let current = image.version_info->0.current_tag;
            &&& checked.version_info is Some
            &&& checked.version_info->0.current_tag == current
            &&& checked.version_info->0.format_str == image.version_info->0.format_str
            &&& checked.version_info->0.latest_remote_tag == Some(latest)
            &&& checked.reference == image.reference
            &&& checked.parts == image.parts
            &&& checked.url == image.url
            &&& checked.digest_info == image.digest_info
            &&& checked.error == image.error
            &&& checked.in_use == image.in_use
            &&& image.time_ms + time <= u32::MAX ==> checked.time_ms == image.time_ms + time
            &&& image.error is None ==> {
                let result = checked.update().result;
                &&& checked.status() == latest.status_against(current)
                &&& latest == current ==> checked.status() is UpToDate && result.has_update
                    == Some(false)
                &&& latest.major > current.major ==> checked.status() is UpdateMajor
                    && result.has_update == Some(true)
                &&& latest.major < current.major ==> result.has_update is None
                &&& latest.major == current.major ==> match (latest.minor, current.minor) {
                    (Some(x), Some(y)) => {
                        &&& x > y ==> checked.status() is UpdateMinor && result.has_update == Some(
                            true,
                        )
                        &&& x < y ==> result.has_update is None
                    },
                    _ => true,
                }
                &&& latest.major == current.major && latest.minor == current.minor ==> match (
                    latest.patch,
                    current.patch,
                ) {
                    (Some(x), Some(y)) => {
                        &&& x > y ==> checked.status() is UpdatePatch && result.has_update == Some(
                            true,
                        )
                        &&& x < y ==> result.has_update is None
                    },
                    _ => true,
                }
            }
        }),
{
    let found = choose|found: Version|
        is_newest(scan.tags, found) && outcome == #[trigger] tag_verdict(image, base, found, time);
    assert(scan.tags.len() > 0);
    law_newest_is_unique(scan.tags, found, latest);
    law_status_names_the_kind_of_update(latest, image.version_info->0.current_tag);
}

/// A walk that found nothing, and one that was broken off, say so. An error is the image's, and
/// leaves it otherwise as it was.
pub proof fn law_walks_without_a_version(
    image: ImageView,
    base: Version,
    scan: ScanView,
    time: u32,
    outcome: TagOutcomeView,
)
    requires
        concluded(image, base, scan, time, outcome),
        image.time_ms + time <= u32::MAX,
    ensures
        scan.error is Some ==> outcome is Settled && outcome->Settled_0 == (ImageView {
            error: scan.error,
            time_ms: (image.time_ms + time) as u32,
            ..image
        }),
        scan.error is None ==> (outcome is NoTags <==> scan.tags.len() == 0),
        outcome matches TagOutcomeView::NoTags(message) ==> message == "Image "@ + image.reference
            + " has no remote version tags! Local tag: "@ + image.parts.tag,
        outcome is CompareDigests ==> is_newest(scan.tags, base) && image.digest_info is Some,
{
    if scan.error is None && scan.tags.len() > 0 {
        let found = choose|found: Version|
            is_newest(scan.tags, found) && outcome == #[trigger] tag_verdict(
                image,
                base,
                found,
                time,
            );
        assert(outcome == tag_verdict(image, base, found, time));
    }
}

/// A walk that starts at an address and goes through all pages has the versions of all of them,
/// and no error.
pub proof fn law_walks_start_with_nothing(url: Seq<char>, pages: Seq<PageView>)
    requires
        pages.len() > 0,
        linked(pages),
    ensures
        ScanView::start(url).next_url == Some(url),
        ScanView::start(url).walked(pages).tags == page_versions(pages).flatten(),
        ScanView::start(url).walked(pages).error is None,
        ScanView::start(url).walked(pages).next_url == pages.last()->Ok_0.1,
{
    law_walk_collects_all_pages(ScanView::start(url), pages, Seq::empty());
    assert(Seq::<Version>::empty() + page_versions(pages).flatten() =~= page_versions(
        pages,
    ).flatten());
}

/// A tag is excluded exactly if it begins with one of the prefixes.
pub proof fn law_excluded_tags_begin_with_a_prefix(
    prefixes: Seq<Seq<char>>,
    prefix: Seq<char>,
    rest: Seq<char>,
    tag: Seq<char>,
)
    ensures
        prefixes.contains(prefix) ==> excluded(prefix + rest, prefixes),
        (forall|i: int, tail: Seq<char>|
            0 <= i < prefixes.len() ==> tag != #[trigger] (prefixes[i] + tail)) ==> !excluded(
            tag,
            prefixes,
        ),
{
    if prefixes.contains(prefix) {
        let i = choose|i: int| 0 <= i < prefixes.len() && prefixes[i] == prefix;
        assert((prefix + rest).subrange(0, prefix.len() as int) =~= prefix);
        assert(prefixes[i].is_prefix_of(prefix + rest));
    }
    if excluded(tag, prefixes) {
        let i = choose|i: int| 0 <= i < prefixes.len() && (#[trigger] prefixes[i]).is_prefix_of(tag);
        let tail = tag.skip(prefixes[i].len() as int);
        assert(tag =~= prefixes[i] + tail);
    }
}

/// Which versions are selected, by their numbers: those of a tag that is not excluded and has the
/// image's own format, with as many numbers as the image's version, and with the numbers of the
/// image's version as far as changes to them are ignored. None of them is an update of an ignored
/// kind.
pub proof fn law_selected_versions_by_their_numbers(
    tags: Seq<Seq<char>>,
    base: Version,
    format_str: Seq<char>,
    ignored: UpdateType,
    excluded_tags: Seq<Seq<char>>,
    version: Version,
)
    ensures
        dedup(alternatives(tags, base, format_str, ignored, excluded_tags)).contains(version)
            <==> {
            &&& exists|i: int|
                0 <= i < tags.len() && (forall|k: int|
                    0 <= k < excluded_tags.len() ==> !(
                    #[trigger] excluded_tags[k]).is_prefix_of(tags[i])) && tag_version(
                    #[trigger] tags[i],
                ) == Some((version, format_str))
            &&& version.minor is Some <==> base.minor is Some
            &&& version.patch is Some <==> base.patch is Some
            &&& ignored == UpdateType::Major || ignored == UpdateType::Minor || ignored
                == UpdateType::Patch ==> version.major == base.major
            &&& ignored == UpdateType::Minor || ignored == UpdateType::Patch ==> version.minor
                == base.minor
            &&& ignored == UpdateType::Patch ==> version.patch == base.patch
        },
        dedup(alternatives(tags, base, format_str, ignored, excluded_tags)).contains(version) ==> {
            &&& ignored != UpdateType::Off ==> !(version.status_against(base) is UpdateMajor)
            &&& ignored == UpdateType::Minor ==> !(version.status_against(base) is UpdateMinor)
            &&& ignored == UpdateType::Patch ==> version.status_against(base) is UpToDate
        },
{
    law_selected_tags(tags, base, format_str, ignored, excluded_tags, version);
    let selected = dedup(alternatives(tags, base, format_str, ignored, excluded_tags));
    if selected.contains(version) {
        let i = choose|i: int|
            0 <= i < tags.len() && !excluded(#[trigger] tags[i], excluded_tags) && tag_version(
                tags[i],
            ) == Some((version, format_str)) && version.same_shape(base) && version.allowed(
                base,
                ignored,
            );
        assert forall|k: int| 0 <= k < excluded_tags.len() implies !(
        #[trigger] excluded_tags[k]).is_prefix_of(tags[i]) by {}
        assert(tag_version(tags[i]) == Some((version, format_str)));
    }
    if exists|i: int|
        0 <= i < tags.len() && (forall|k: int|
            0 <= k < excluded_tags.len() ==> !(#[trigger] excluded_tags[k]).is_prefix_of(tags[i]))
            && tag_version(#[trigger] tags[i]) == Some((version, format_str)) {
        let i = choose|i: int|
            0 <= i < tags.len() && (forall|k: int|
                0 <= k < excluded_tags.len() ==> !(#[trigger] excluded_tags[k]).is_prefix_of(
                    tags[i],
                )) && tag_version(#[trigger] tags[i]) == Some((version, format_str));
        assert(!excluded(tags[i], excluded_tags));
    }
}

/// Tags are gone through in order: those of one list, then those of the next.
pub proof fn law_tags_are_selected_in_order(
    front: Seq<Seq<char>>,
    back: Seq<Seq<char>>,
    base: Version,
    format_str: Seq<char>,
    ignored: UpdateType,
    excluded_tags: Seq<Seq<char>>,
)
    ensures
        alternatives(front + back, base, format_str, ignored, excluded_tags) == alternatives(
            front,
            base,
            format_str,
            ignored,
            excluded_tags,
        ) + alternatives(back, base, format_str, ignored, excluded_tags),
    decreases back.len(),
{
    if back.len() == 0 {
        assert(front + back =~= front);
    } else {
        assert((front + back).drop_last() =~= front + back.drop_last());
        law_tags_are_selected_in_order(
            front,
            back.drop_last(),
            base,
            format_str,
            ignored,
            excluded_tags,
        );
    }
    assert(alternatives(front + back, base, format_str, ignored, excluded_tags) =~= alternatives(
        front,
        base,
        format_str,
        ignored,
        excluded_tags,
    ) + alternatives(back, base, format_str, ignored, excluded_tags));
}

/// A page is readable if there is a list of tags on it and its link leads somewhere or there is
/// none. It then holds the selected versions and leads to where its link does.
pub proof fn law_pages(
    url: Seq<char>,
    tags: Result<Seq<Seq<char>>, ListError>,
    next: NextPageView,
    base: Version,
    format_str: Seq<char>,
    ignored: UpdateType,
    excluded_tags: Seq<Seq<char>>,
)
    ensures
        ({
            let page = page_outcome(url, tags, next, base, format_str, ignored, excluded_tags);
            &&& page is Ok <==> tags is Ok && !(next is Unreadable)
            &&& page matches Ok((versions, next_url)) ==> {
                &&& versions == dedup(
                    alternatives(tags->Ok_0, base, format_str, ignored, excluded_tags),
                )
                &&& next is Last ==> next_url is None
                &&& next is At ==> next_url == Some(next->At_0)
            }
            &&& page matches Err(message) ==> ("GET "@ + url).is_prefix_of(message)
        }),
{
    let about = "GET "@ + url;
    let a = about + ": Registry sent a link to more tags that leads nowhere."@;
    let b = about + ": Registry did not include a list of tags in its response."@;
    assert(a.subrange(0, about.len() as int) =~= about);
    assert(b.subrange(0, about.len() as int) =~= about);
}

/// A registry that answers with anything but a 401, or not at all, is asked without a token. One
/// that asks for a bearer token says where to get it. Anything else cannot be satisfied.
pub proof fn law_auth_replies(registry: Seq<char>, reply: Option<AuthReply>)
    ensures
        reply is None ==> auth_outcome(registry, reply) == Ok::<Option<Seq<char>>, Seq<char>>(None),
        reply is Some && reply->0.status != 401 ==> auth_outcome(registry, reply) == Ok::<
            Option<Seq<char>>,
            Seq<char>,
        >(None),
        reply is Some && reply->0.status == 401 ==> match reply->0.challenge {
            Some(challenge) => {
                &&& challenge_url(challenge@) is Some ==> auth_outcome(registry, reply) == Ok::<
                    Option<Seq<char>>,
                    Seq<char>,
                >(challenge_url(challenge@))
                &&& challenge_url(challenge@) is None ==> auth_outcome(registry, reply) == Err::<
                    Option<Seq<char>>,
                    Seq<char>,
                >("Unsupported challenge "@ + challenge@)
            },
            None => auth_outcome(registry, reply) == Err::<Option<Seq<char>>, Seq<char>>(
                "Unauthorized to access registry "@ + registry
                    + " and no way to authenticate was provided"@,
            ),
        },
{
}

/// The addresses of a registry: its entry, and below it the manifest of a tag and the list of
/// tags of a repository.
pub proof fn law_addresses(ctx: Context, image: ImageView)
    ensures
        ({
            let entry = auth_url(ctx, image.parts.registry);
            &&& entry == protocol(ctx, image.parts.registry) + "://"@ + image.parts.registry
                + "/v2/"@
            &&& image_manifest(ctx, image) == entry + image.parts.repository + "/manifests/"@
                + image.parts.tag
            &&& image_tags(ctx, image) == entry + image.parts.repository + "/tags/list"@
        }),
{
}

/// A token is asked for every repository of a batch, in order and by name.
pub proof fn law_token_addresses(
    url: Seq<char>,
    front: Seq<Seq<char>>,
    repository: Seq<char>,
    back: Seq<Seq<char>>,
)
    ensures
        token_address(url, Seq::empty()) == url,
        token_address(url, seq![repository]) == url + "&scope=repository:"@ + repository
            + ":pull"@,
        token_address(url, front + back) == token_address(token_address(url, front), back),
    decreases back.len(),
{
    let one = seq![repository];
    assert(one.drop_last() =~= Seq::<Seq<char>>::empty());
    assert(one.last() == repository);
    assert(token_address(url, one.drop_last()) == url);
    if back.len() == 0 {
        assert(front + back =~= front);
    } else {
        assert((front + back).drop_last() =~= front + back.drop_last());
        assert((front + back).last() == back.last());
        law_token_addresses(url, front, repository, back.drop_last());
    }
}

/// The token in an answer is used as it stands there, and its absence is an error that names the
/// address.
pub proof fn law_tokens(url: Seq<char>, token: Seq<char>)
    ensures
        granted(url, Some(token)) == Ok::<Seq<char>, Seq<char>>(token),
        granted(url, None) == Err::<Seq<char>, Seq<char>>(
            "GET "@ + url + ": Registry did not include a token in its response."@,
        ),
{
}

/// A digest that the registry names is recorded beside the local ones. All other answers become
/// an error that says what happened. Either way the time is added, and the rest of the image
/// stays. An image without digests to compare is left alone where there is a digest.
pub proof fn law_digest_answers(image: ImageView, url: Seq<char>, time: u32, reply: DigestReply)
    requires
        image.time_ms + time <= u32::MAX,
    ensures
        ({
            let checked = digest_checked(image, url, time, reply);
            let time_ms = (image.time_ms + time) as u32;
            &&& reply matches DigestReply::Failed(message) ==> checked == (ImageView {
                error: Some(message@),
                time_ms,
                ..image
            })
            &&& reply matches DigestReply::Missing(response) ==> checked == (ImageView {
                error: Some(url + ": server returned no docker-content-digest\n"@ + response@),
                time_ms,
                ..image
            })
            &&& reply matches DigestReply::Unreadable(value) ==> (image.digest_info is Some
                ==> checked == (ImageView {
                error: Some(url + ": docker-content-digest is not readable text: "@ + value@),
                time_ms,
                ..image
            }))
            &&& reply matches DigestReply::Digest(digest) ==> (image.digest_info is Some ==> {
                &&& checked == (ImageView { digest_info: checked.digest_info, time_ms, ..image })
                &&& checked.digest_info is Some
                &&& checked.digest_info->0.local_digests == image.digest_info->0.local_digests
                &&& checked.digest_info->0.remote_digest == Some(digest@)
                &&& image.error is None && image.version_info is None ==> (checked.status()
                    is UpToDate <==> image.digest_info->0.local_digests.contains(digest@))
            })
            &&& reply is Unreadable || reply is Digest ==> (image.digest_info is None ==> checked
                == image)
        }),
{
}

/// A token is sent along with every request that there is one for, for a manifest as well as for
/// a list of tags, and credentials with a request for a token. Without them, nothing is.
pub proof fn law_requests_carry_their_tokens(token: Seq<char>)
    ensures
        manifest_request(Some(token)).len() == 2,
        manifest_request(Some(token))[1] == ("Authorization"@, Some("Bearer "@ + token)),
        manifest_request(None)[1] == ("Authorization"@, None::<Seq<char>>),
        manifest_request(Some(token))[0] == manifest_request(None)[0],
        manifest_request(None)[0] == (
            "Accept"@,
            Some(
                "application/vnd.docker.distribution.manifest.list.v2+json, application/vnd.docker.distribution.manifest.v2+json, application/vnd.oci.image.index.v1+json, application/vnd.oci.image.manifest.v1+json"@,
            ),
        ),
        tag_list_request(Some(token)) == seq![
            ("Accept"@, Some("application/json"@)),
            ("Authorization"@, Some("Bearer "@ + token)),
        ],
        tag_list_request(None) == seq![
            ("Accept"@, Some("application/json"@)),
            ("Authorization"@, None::<Seq<char>>),
        ],
        token_request(Some(token)) == seq![("Authorization"@, Some("Basic "@ + token))],
        token_request(None) == seq![("Authorization"@, None::<Seq<char>>)],
{
}

/// The token is the string that the document in an answer has under `token`. An answer without
/// one is an error, and a failed request stays the error that it was.
pub proof fn law_token_answers(
    url: Seq<char>,
    body: Seq<char>,
    members: Map<Seq<char>, JsonTree>,
    token: Seq<char>,
    message: Seq<char>,
)
    ensures
        token_outcome(url, Err(message)) == Err::<Seq<char>, Seq<char>>(message),
        json_document(body) is None ==> token_outcome(url, Ok(body)) is Err,
        json_document(body) == Some(JsonTree::Object(members)) ==> {
            &&& members.contains_key("token"@) && members["token"@] == JsonTree::Text(token)
                ==> token_outcome(url, Ok(body)) == Ok::<Seq<char>, Seq<char>>(token)
            &&& !(members.contains_key("token"@) && members["token"@] is Text)
                ==> token_outcome(url, Ok(body)) is Err
        },
{
}

/// The tags on a page are the strings of the list that the document has under `tags`, and the next
/// page is where the link leads. A failed request stays the error that it was.
pub proof fn law_page_answers(
    url: Seq<char>,
    page: TagPage,
    members: Map<Seq<char>, JsonTree>,
    tags: Seq<Seq<char>>,
    base: Version,
    format_str: Seq<char>,
    ignored: UpdateType,
    excluded_tags: Seq<Seq<char>>,
    message: String,
)
    requires
        json_document(page.body@) == Some(JsonTree::Object(members)),
        members.contains_key("tags"@),
        members["tags"@] == JsonTree::List(
            tags.map_values(|tag: Seq<char>| JsonTree::Text(tag)),
        ),
    ensures
        ({
            let read = page_reply(url, Ok(page), base, format_str, ignored, excluded_tags);
            let found = dedup(alternatives(tags, base, format_str, ignored, excluded_tags));
            &&& page.link is None ==> read == Ok::<
                (Seq<Version>, Option<Seq<char>>),
                Seq<char>,
            >((found, None))
            &&& page.link matches Some(link) ==> match following_page(Some(link@), url) {
                NextPageView::At(next) => read == Ok::<
                    (Seq<Version>, Option<Seq<char>>),
                    Seq<char>,
                >((found, Some(next))),
                _ => read is Err,
            }
        }),
        page_reply(url, Err(message), base, format_str, ignored, excluded_tags) == Err::<
            (Seq<Version>, Option<Seq<char>>),
            Seq<char>,
        >(message@),
{
    let items = tags.map_values(|tag: Seq<char>| JsonTree::Text(tag));
    assert forall|i: int| 0 <= i < items.len() implies (#[trigger] items[i]) == JsonTree::Text(
        tags[i],
    ) by {}
    law_text_lists(members, "tags"@, items, tags);
}

} // verus!
