use cup::config::{Config, Context, RegistryConfig, UpdateType};
use cup::json::ListError;
use cup::registry::{
    auth_check_url, batch_repositories, check_auth, extra_tags, get_extra_tags, get_latest_digest,
    get_latest_tag, get_token, is_excluded_tag, manifest_headers, manifest_url, select_tags,
    tag_list_headers, tag_list_url, token_headers, token_or_error, token_url, AuthReply,
    DigestReply, TagOutcome, TagPage, TagScan, MAX_REPOSITORIES_PER_TOKEN,
};
use cup::request::NextPage;
use cup::structs::image::{DigestInfo, Image};
use cup::structs::version::Version;

fn images(references: &[String]) -> Vec<Image> {
    references
        .iter()
        .map(|reference| Image::from_reference(reference))
        .collect()
}

/// One grant per repository, not per image: a host commonly runs several tags of the same
/// repository.
#[test]
fn batches_are_deduplicated_and_cover_every_repository_once() {
    let references: Vec<String> = (0..45)
        .flat_map(|i| {
            [
                format!("user/app{}:1.0.0", i),
                format!("user/app{}:2.0.0", i),
            ]
        })
        .collect();
    let images = images(&references);
    let images: Vec<&Image> = images.iter().collect();

    let batches = batch_repositories(&images);
    let requested: Vec<&str> = batches.concat();

    assert_eq!(
        requested.len(),
        45,
        "expected each of the 45 repositories once, got {:?}",
        requested
    );
    assert!(
        batches
            .iter()
            .all(|batch| batch.len() <= MAX_REPOSITORIES_PER_TOKEN),
        "a batch exceeded {} repositories: {:?}",
        MAX_REPOSITORIES_PER_TOKEN,
        batches.iter().map(|batch| batch.len()).collect::<Vec<_>>()
    );
}

/// A token for a full batch stays far below the header limit of Docker Hub.
#[test]
fn a_full_batch_cannot_approach_the_registry_header_limit() {
    /// Header line at which a request is rejected.
    const REGISTRY_HEADER_LIMIT: usize = 16_376;
    /// Size of a token that grants nothing.
    const BASE_TOKEN_BYTES: usize = 2_800;
    /// Growth per repository, padded for unusually long names.
    const BYTES_PER_SCOPE: usize = 260;

    let worst_case = "Authorization: Bearer ".len()
        + BASE_TOKEN_BYTES
        + MAX_REPOSITORIES_PER_TOKEN * BYTES_PER_SCOPE;

    assert!(
        worst_case * 2 < REGISTRY_HEADER_LIMIT,
        "a token for {} repositories can reach {} bytes, which leaves no margin under \
         the registry's {} byte header limit",
        MAX_REPOSITORIES_PER_TOKEN,
        worst_case,
        REGISTRY_HEADER_LIMIT
    );
}

/// An image that the daemon knows the local digest of.
fn image_with_local_digest() -> Image {
    let mut image = Image::from_reference("library/nginx:1.0.0");
    image.digest_info = Some(DigestInfo {
        local_digests: vec!["sha256:aaaa".to_string()],
        remote_digest: None,
    });
    image
}

fn strings(items: &[&str]) -> Vec<String> {
    items.iter().map(|item| item.to_string()).collect()
}

fn three(major: u32, minor: u32, patch: u32) -> Version {
    Version { major, minor: Some(minor), patch: Some(patch) }
}

fn plain_context() -> Context {
    Context { config: Config::new() }
}

/// An answer without a digest costs that one image its freshness.
#[test]
fn manifest_without_digest_header_errors_the_image_instead_of_exiting() {
    let image = get_latest_digest(
        &image_with_local_digest(),
        "http://127.0.0.1:5000/v2/library/nginx/manifests/1.0.0",
        7,
        DigestReply::Missing("Response { status: 200 }".to_string()),
    );
    assert!(
        image.error.is_some(),
        "a successful response with no digest header should mark the image errored"
    );
    assert!(
        image
            .digest_info
            .as_ref()
            .is_none_or(|info| info.remote_digest.is_none()),
        "no remote digest should be recorded from a failed check"
    );
    assert_eq!(
        image.error.as_deref(),
        Some("http://127.0.0.1:5000/v2/library/nginx/manifests/1.0.0: server returned no docker-content-digest\nResponse { status: 200 }")
    );
    assert_eq!(image.time_ms, 7);
}

#[test]
fn manifest_with_unreadable_digest_header_errors_the_image_instead_of_panicking() {
    let image = get_latest_digest(
        &image_with_local_digest(),
        "http://a/b",
        0,
        DigestReply::Unreadable("\"\\xff\\xfe\"".to_string()),
    );
    assert!(
        image.error.is_some(),
        "an unreadable digest header should mark the image errored"
    );
    assert_eq!(
        image.error.as_deref(),
        Some("http://a/b: docker-content-digest is not readable text: \"\\xff\\xfe\"")
    );
}

#[test]
fn a_failed_manifest_request_errors_the_image() {
    let image = get_latest_digest(
        &image_with_local_digest(),
        "http://a/b",
        3,
        DigestReply::Failed("HEAD http://a/b: Not found!".to_string()),
    );
    assert_eq!(image.error.as_deref(), Some("HEAD http://a/b: Not found!"));
    assert_eq!(image.time_ms, 3);
}

#[test]
fn a_digest_is_recorded() {
    let before = image_with_local_digest();
    let reply = DigestReply::Digest("sha256:bbbb".to_string());
    let image = get_latest_digest(&before, "http://a/b", 12, reply);
    assert_eq!(
        image.digest_info,
        Some(DigestInfo {
            local_digests: vec!["sha256:aaaa".to_string()],
            remote_digest: Some("sha256:bbbb".to_string()),
        })
    );
    assert_eq!(image.error, None);
    assert_eq!(image.time_ms, 12);
    assert_eq!(image.parts, before.parts);
}

#[test]
fn an_image_without_digests_is_left_as_it_is() {
    let image = Image::from_reference("library/nginx:1.0.0");
    let reply = DigestReply::Digest("sha256:bbbb".to_string());
    assert_eq!(get_latest_digest(&image, "http://a/b", 12, reply), image);
}

#[test]
fn a_registry_that_wants_no_token() {
    assert_eq!(check_auth("ghcr.io", &None), Ok(None));
    let reply = AuthReply { status: 200, challenge: None };
    assert_eq!(check_auth("ghcr.io", &Some(reply)), Ok(None));
}

#[test]
fn a_registry_that_wants_a_token() {
    let challenge = "Bearer realm=\"https://ghcr.io/token\",service=\"ghcr.io\"".to_string();
    let reply = AuthReply { status: 401, challenge: Some(challenge) };
    assert_eq!(
        check_auth("ghcr.io", &Some(reply)),
        Ok(Some("https://ghcr.io/token?&service=ghcr.io".to_string()))
    );
}

#[test]
fn a_registry_that_cannot_be_satisfied() {
    let silent = AuthReply { status: 401, challenge: None };
    assert_eq!(
        check_auth("ghcr.io", &Some(silent)),
        Err("Unauthorized to access registry ghcr.io and no way to authenticate was provided".to_string())
    );
    let basic = AuthReply { status: 401, challenge: Some("Basic realm=\"x\"".to_string()) };
    assert_eq!(
        check_auth("ghcr.io", &Some(basic)),
        Err("Unsupported challenge Basic realm=\"x\"".to_string())
    );
}

#[test]
fn addresses_follow_the_parts_of_an_image() {
    let mut config = Config::new();
    config.registries.insert(
        "localhost:5000".to_string(),
        RegistryConfig { insecure: true, ..Default::default() },
    );
    let ctx = Context { config };
    let local = Image::from_reference("localhost:5000/app:2");
    let hub = Image::from_reference("nginx:1.0.0");
    assert_eq!(auth_check_url("localhost:5000", &ctx), "http://localhost:5000/v2/");
    assert_eq!(manifest_url(&local, &ctx), "http://localhost:5000/v2/app/manifests/2");
    assert_eq!(
        manifest_url(&hub, &ctx),
        "https://registry-1.docker.io/v2/library/nginx/manifests/1.0.0"
    );
    assert_eq!(
        tag_list_url(&hub, &ctx),
        "https://registry-1.docker.io/v2/library/nginx/tags/list"
    );
}

#[test]
fn headers_carry_the_token() {
    let headers = manifest_headers(Some("abc"));
    assert_eq!(headers.len(), 2);
    assert_eq!(headers[0].0, "Accept");
    assert_eq!(headers[0].1.as_deref(), Some("application/vnd.docker.distribution.manifest.list.v2+json, application/vnd.docker.distribution.manifest.v2+json, application/vnd.oci.image.index.v1+json, application/vnd.oci.image.manifest.v1+json"));
    assert_eq!(headers[1], ("Authorization".to_string(), Some("Bearer abc".to_string())));
    assert_eq!(
        tag_list_headers(None),
        vec![
            ("Accept".to_string(), Some("application/json".to_string())),
            ("Authorization".to_string(), None),
        ]
    );
    assert_eq!(
        token_headers(Some("dXNlcg==")),
        vec![("Authorization".to_string(), Some("Basic dXNlcg==".to_string()))]
    );
    assert_eq!(token_headers(None), vec![("Authorization".to_string(), None)]);
}

#[test]
fn a_token_is_asked_for_every_repository_of_a_batch() {
    assert_eq!(
        token_url("https://a/token?&service=b", &strings(&["library/nginx", "user/app"])),
        "https://a/token?&service=b&scope=repository:library/nginx:pull&scope=repository:user/app:pull"
    );
    assert_eq!(token_url("https://a/token?", &vec![]), "https://a/token?");
}

#[test]
fn tokens_are_read_out_of_the_answer() {
    let answer = |body: &str| get_token("https://a/token?", Ok(body.to_string()));
    assert_eq!(answer(r#"{"token": "abc"}"#), Ok("abc".to_string()));
    let missing = "GET https://a/token?: Registry did not include a token in its response.";
    assert_eq!(answer(r#"{"access_token": "abc"}"#), Err(missing.to_string()));
    assert_eq!(answer("<html>"), Err(missing.to_string()));
    assert_eq!(token_or_error("https://a/token?", None), Err(missing.to_string()));
    assert_eq!(token_or_error("u", Some("abc".to_string())), Ok("abc".to_string()));
}

#[test]
fn a_failed_token_request_is_passed_on() {
    assert_eq!(
        get_token("https://a/token?", Err("GET https://a/token?: Not found!".to_string())),
        Err("GET https://a/token?: Not found!".to_string())
    );
}

#[test]
fn excluded_tags_are_prefixes() {
    let excluded = strings(&["1.2", "rc"]);
    assert!(is_excluded_tag("1.2.3", &excluded));
    assert!(is_excluded_tag("rc", &excluded));
    assert!(!is_excluded_tag("1.3.2", &excluded));
    assert!(!is_excluded_tag("r", &excluded));
    assert!(!is_excluded_tag("1.2.3", &vec![]));
}

#[test]
fn tags_are_selected_by_format_shape_and_kind_of_update() {
    let tags = strings(&[
        "1.2.3", "1.2.4", "1.2.4", "1.3.0", "2.0.0", "1.2", "latest", "v1.2.5", "1.2.6-alpine",
        "9.9.9",
    ]);
    let base = three(1, 2, 3);
    let excluded = strings(&["9"]);
    let select = |ignored: UpdateType| select_tags(&tags, &base, "{}.{}.{}", ignored, &excluded);
    assert_eq!(
        select(UpdateType::Off),
        vec![three(1, 2, 3), three(1, 2, 4), three(1, 3, 0), three(2, 0, 0)]
    );
    assert_eq!(
        select(UpdateType::Major),
        vec![three(1, 2, 3), three(1, 2, 4), three(1, 3, 0)]
    );
    assert_eq!(select(UpdateType::Minor), vec![three(1, 2, 3), three(1, 2, 4)]);
    assert_eq!(select(UpdateType::Patch), vec![three(1, 2, 3)]);
}

#[test]
fn only_repeats_in_a_row_are_dropped() {
    let tags = strings(&["1", "1", "2", "1"]);
    let one = Version { major: 1, minor: None, patch: None };
    let two = Version { major: 2, minor: None, patch: None };
    assert_eq!(
        select_tags(&tags, &one, "{}", UpdateType::Off, &vec![]),
        vec![one, two, one]
    );
}

#[test]
fn reported_tags_are_tags_of_the_registry() {
    let tags = strings(&["v1.2.3", "v1.4.0", "v1.10.2"]);
    let versions = select_tags(&tags, &three(1, 2, 3), "v{}.{}.{}", UpdateType::Off, &vec![]);
    for version in versions {
        assert!(tags.contains(&version.write_tag("v{}.{}.{}")));
    }
}

fn page(body: &str, link: Option<&str>) -> Result<TagPage, String> {
    Ok(TagPage { body: body.to_string(), link: link.map(|link| link.to_string()) })
}

#[test]
fn a_page_of_tags_is_read() {
    let ctx = plain_context();
    let read = |reply| {
        get_extra_tags(
            "https://a/v2/b/tags/list",
            reply,
            &three(1, 0, 0),
            "{}.{}.{}",
            &ctx,
            &strings(&["1.5"]),
        )
    };
    assert_eq!(
        read(page(r#"{"tags": ["1.5.0", "1.6.0"]}"#, Some("</v2/b/tags/list?last=x>; rel=\"next\""))),
        Ok((vec![three(1, 6, 0)], Some("https://a/v2/b/tags/list?last=x".to_string())))
    );
    assert_eq!(read(page(r#"{"tags": []}"#, None)), Ok((vec![], None)));
    assert_eq!(read(Err("failed".to_string())), Err("failed".to_string()));
    assert_eq!(
        read(page("<html>", None)),
        Err("GET https://a/v2/b/tags/list: Registry did not include a list of tags in its response.".to_string())
    );
    assert_eq!(
        read(page(r#"{"tags": []}"#, Some("next"))),
        Err("GET https://a/v2/b/tags/list: Registry sent a link to more tags that leads nowhere.".to_string())
    );
}

#[test]
fn a_page_is_concluded_from_its_tags_and_its_successor() {
    let base = three(1, 0, 0);
    let conclude = |tags, next| {
        extra_tags("u", tags, next, &base, "{}.{}.{}", UpdateType::Off, &vec![])
    };
    assert_eq!(
        conclude(Ok(strings(&["1.0.0"])), NextPage::At("v".to_string())),
        Ok((vec![base], Some("v".to_string())))
    );
    assert_eq!(
        conclude(Err(ListError::NotText), NextPage::Last),
        Err("GET u: Registry did not include a list of tags in its response.".to_string())
    );
    assert_eq!(
        conclude(Err(ListError::NotText), NextPage::Unreadable),
        Err("GET u: Registry sent a link to more tags that leads nowhere.".to_string())
    );
}

fn finished(tags: Vec<Version>) -> TagScan {
    let mut scan = TagScan::new("u".to_string());
    scan.receive(Ok((tags, None)));
    scan
}

#[test]
fn a_walk_collects_all_pages() {
    let mut scan = TagScan::new("first".to_string());
    assert_eq!(scan.next_url.as_deref(), Some("first"));
    scan.receive(Ok((vec![three(1, 0, 0)], Some("second".to_string()))));
    assert_eq!(scan.next_url.as_deref(), Some("second"));
    scan.receive(Ok((vec![three(2, 0, 0)], None)));
    assert_eq!(scan.next_url, None);
    assert_eq!(scan.tags, vec![three(1, 0, 0), three(2, 0, 0)]);
    assert_eq!(scan.error, None);
}

#[test]
fn the_last_page_of_a_walk_may_lead_on() {
    let mut scan = TagScan::new("first".to_string());
    scan.receive(Ok((vec![], Some("second".to_string()))));
    scan.receive(Ok((vec![three(3, 0, 0), three(1, 0, 0)], Some("third".to_string()))));
    assert_eq!(scan.next_url.as_deref(), Some("third"));
    assert_eq!(scan.tags, vec![three(3, 0, 0), three(1, 0, 0)]);
}

#[test]
fn an_error_ends_a_walk_and_becomes_the_images() {
    let image = Image::from_reference("nginx:1.0.0");
    let mut scan = TagScan::new("first".to_string());
    scan.receive(Ok((vec![three(2, 0, 0)], Some("second".to_string()))));
    scan.receive(Err("failed".to_string()));
    assert_eq!(scan.next_url, None);
    match get_latest_tag(&image, &three(1, 0, 0), &scan, 5) {
        TagOutcome::Settled(checked) => {
            assert_eq!(checked.error.as_deref(), Some("failed"));
            assert_eq!(checked.time_ms, 5);
            assert_eq!(checked.version_info, image.version_info);
        }
        other => panic!("unexpected outcome {:?}", other),
    }
}

#[test]
fn the_newest_tag_is_recorded() {
    let image = Image::from_reference("nginx:1.0.0");
    let scan = finished(vec![three(1, 0, 0), three(1, 2, 0), three(1, 1, 9)]);
    match get_latest_tag(&image, &three(1, 0, 0), &scan, 5) {
        TagOutcome::Settled(checked) => {
            let info = checked.version_info.unwrap();
            assert_eq!(info.latest_remote_tag, Some(three(1, 2, 0)));
            assert_eq!(info.format_str, "{}.{}.{}");
            assert_eq!(checked.error, None);
            assert_eq!(checked.time_ms, 5);
        }
        other => panic!("unexpected outcome {:?}", other),
    }
}

#[test]
fn equal_tags_are_decided_by_digests_where_there_are_any() {
    let base = three(1, 0, 0);
    let scan = finished(vec![base]);
    match get_latest_tag(&image_with_local_digest(), &base, &scan, 5) {
        TagOutcome::CompareDigests(checked) => {
            assert_eq!(checked.version_info, None);
            assert_eq!(checked.time_ms, 5);
            let reply = DigestReply::Digest("sha256:bbbb".to_string());
            let compared = get_latest_digest(&checked, "http://a/b", 2, reply);
            assert_eq!(compared.version_info, None);
            assert_eq!(compared.reference, "library/nginx:1.0.0");
            assert_eq!(compared.time_ms, 7);
            assert!(compared.is_settled());
        }
        other => panic!("unexpected outcome {:?}", other),
    }
    match get_latest_tag(&Image::from_reference("nginx:1.0.0"), &base, &scan, 5) {
        TagOutcome::Settled(checked) => {
            assert_eq!(checked.version_info.unwrap().latest_remote_tag, Some(base));
        }
        other => panic!("unexpected outcome {:?}", other),
    }
}

#[test]
fn no_tag_like_the_images() {
    let image = Image::from_reference("nginx:1.0.0");
    assert_eq!(
        get_latest_tag(&image, &three(1, 0, 0), &finished(vec![]), 5),
        TagOutcome::NoTags(
            "Image nginx:1.0.0 has no remote version tags! Local tag: 1.0.0".to_string()
        )
    );
}
