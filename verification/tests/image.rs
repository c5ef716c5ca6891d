use cup::structs::image::{CheckKind, DigestInfo, Image};
use cup::structs::parts::Parts;
use cup::structs::status::Status;
use cup::structs::update::{
    DigestUpdateInfo, Update, UpdateInfo, UpdateResult, VersionUpdateInfo,
};
use cup::structs::version::Version;

fn three(major: u32, minor: u32, patch: u32) -> Version {
    Version { major, minor: Some(minor), patch: Some(patch) }
}

fn versioned(latest: Option<Version>) -> Image {
    let mut image = Image::from_reference("ghcr.io/sergi0g/cup:v1.2.3");
    image.version_info.as_mut().unwrap().latest_remote_tag = latest;
    image
}

fn digested(remote: Option<&str>) -> Image {
    let mut image = Image::from_reference("nginx:latest");
    image.digest_info = Some(DigestInfo {
        local_digests: vec!["sha256:aa".to_string(), "sha256:ab".to_string()],
        remote_digest: remote.map(|digest| digest.to_string()),
    });
    image
}

#[test]
fn an_image_from_a_reference() {
    let image = Image::from_reference("ghcr.io/sergi0g/cup:v1.2.3");
    assert_eq!(image.reference, "ghcr.io/sergi0g/cup:v1.2.3");
    assert_eq!(image.parts.registry, "ghcr.io");
    let info = image.version_info.as_ref().unwrap();
    assert_eq!(info.current_tag, three(1, 2, 3));
    assert_eq!(info.format_str, "v{}.{}.{}");
    assert_eq!(info.latest_remote_tag, None);
    assert_eq!(image.digest_info, None);
    assert_eq!(image.check_kind(), CheckKind::Tags);
}

#[test]
fn what_has_to_be_asked() {
    assert_eq!(digested(None).check_kind(), CheckKind::Digest);
    assert_eq!(Image::from_reference("nginx:latest").check_kind(), CheckKind::Unsupported);
    let unsupported = Image::from_reference("nginx:latest").unsupported();
    assert_eq!(
        unsupported.error.as_deref(),
        Some("nginx:latest: There is neither a version nor a digest to compare.")
    );
    assert!(unsupported.is_settled());
}

#[test]
fn an_image_from_the_daemon() {
    let tags = vec!["nginx:1.2.3".to_string(), "nginx:1".to_string()];
    let digests = vec!["nginx@sha256:aa".to_string(), "odd".to_string()];
    let image = Image::from_inspect_data(&tags, &digests, None).unwrap();
    assert_eq!(image.reference, "nginx:1.2.3");
    assert_eq!(image.digest_info.unwrap().local_digests, vec!["sha256:aa".to_string()]);
    assert_eq!(Image::from_inspect_data(&vec![], &digests, None), None);
    assert_eq!(Image::from_inspect_data(&tags, &vec![], None), None);
    let pinned = vec!["nginx@sha256:aa".to_string()];
    assert_eq!(Image::from_inspect_data(&pinned, &digests, None), None);
}

#[test]
fn an_unchecked_image_is_not_settled() {
    assert!(!versioned(None).is_settled());
    assert!(versioned(Some(three(1, 2, 3))).is_settled());
    assert!(!digested(None).is_settled());
    assert!(digested(Some("sha256:aa")).is_settled());
    assert!(!Image::from_reference("nginx:latest").is_settled());
    assert!(versioned(None).errored("failed".to_string(), 1).is_settled());
}

#[test]
fn digests_decide_where_there_is_no_version() {
    assert_eq!(digested(Some("sha256:ab")).has_update(), Status::UpToDate);
    assert_eq!(digested(Some("sha256:bb")).has_update(), Status::UpdateAvailable);
}

#[test]
fn a_version_update_is_reported() {
    let update = versioned(Some(three(1, 3, 0))).to_update();
    assert_eq!(update.result.has_update, Some(true));
    assert_eq!(
        update.result.info,
        UpdateInfo::Version(VersionUpdateInfo {
            version_update_type: "minor".to_string(),
            new_tag: "v1.3.0".to_string(),
            current_version: "1.2.3".to_string(),
            new_version: "1.3.0".to_string(),
        })
    );
    assert_eq!(update.result.error, None);
    assert_eq!(update.status, Status::UpdateMinor);
    assert_eq!(update.get_status(), Status::UpdateMinor);
}

#[test]
fn a_digest_update_is_reported() {
    let update = digested(Some("sha256:bb")).to_update();
    assert_eq!(
        update.result.info,
        UpdateInfo::Digest(DigestUpdateInfo {
            local_digests: vec!["sha256:aa".to_string(), "sha256:ab".to_string()],
            remote_digest: Some("sha256:bb".to_string()),
        })
    );
    assert_eq!(update.status, Status::UpdateAvailable);
}

#[test]
fn failed_checks_are_reported_with_their_message() {
    let update = versioned(None).errored("no answer".to_string(), 9).to_update();
    assert_eq!(update.result.has_update, None);
    assert_eq!(update.result.info, UpdateInfo::Absent);
    assert_eq!(update.result.error.as_deref(), Some("no answer"));
    assert_eq!(update.time, 9);
    assert_eq!(update.get_status(), Status::Unknown("no answer".to_string()));
}

#[test]
fn reports_lead_back_to_the_verdict() {
    let images = vec![
        versioned(Some(three(2, 0, 0))),
        versioned(Some(three(1, 3, 0))),
        versioned(Some(three(1, 2, 4))),
        versioned(Some(three(1, 2, 3))),
        versioned(Some(three(1, 2, 2))),
        digested(Some("sha256:aa")),
        digested(Some("sha256:bb")),
        versioned(None).errored("failed".to_string(), 1),
    ];
    for image in &images {
        let mut update = image.to_update();
        assert_eq!(update.get_status(), image.has_update());
        update.status = Status::default();
        assert!(update.has_status());
        assert_eq!(update.get_status(), image.has_update());
    }
}

fn bare(has_update: Option<bool>, info: UpdateInfo, error: Option<&str>) -> Update {
    Update {
        reference: "a:1".to_string(),
        parts: Parts {
            registry: "ghcr.io".to_string(),
            repository: "a".to_string(),
            tag: "1".to_string(),
        },
        url: None,
        result: UpdateResult {
            has_update,
            info,
            error: error.map(|error| error.to_string()),
        },
        time: 0,
        server: None,
        in_use: false,
        compose_managed: false,
        compose: vec![],
        status: Status::default(),
    }
}

fn kind(kind: &str) -> UpdateInfo {
    UpdateInfo::Version(VersionUpdateInfo {
        version_update_type: kind.to_string(),
        new_tag: "2".to_string(),
        current_version: "1".to_string(),
        new_version: "2".to_string(),
    })
}

#[test]
fn the_status_follows_from_the_result() {
    assert_eq!(bare(Some(true), kind("major"), None).get_status(), Status::UpdateMajor);
    assert_eq!(bare(Some(true), kind("minor"), None).get_status(), Status::UpdateMinor);
    assert_eq!(bare(Some(true), kind("patch"), None).get_status(), Status::UpdatePatch);
    assert_eq!(bare(Some(false), UpdateInfo::Absent, None).get_status(), Status::UpToDate);
    assert_eq!(
        bare(None, UpdateInfo::Absent, Some("failed")).get_status(),
        Status::Unknown("failed".to_string())
    );
}

#[test]
fn a_status_that_is_set_is_kept() {
    let mut update = bare(Some(false), UpdateInfo::Absent, None);
    update.status = Status::UpdatePatch;
    assert_eq!(update.get_status(), Status::UpdatePatch);
    update.status = Status::Unknown("odd".to_string());
    assert_eq!(update.get_status(), Status::Unknown("odd".to_string()));
}

#[test]
fn results_that_no_check_gives_have_no_status() {
    assert!(!bare(Some(true), UpdateInfo::Absent, None).has_status());
    assert!(!bare(Some(true), kind("huge"), None).has_status());
    assert!(!bare(None, UpdateInfo::Absent, None).has_status());
    assert!(bare(Some(false), UpdateInfo::Absent, None).has_status());
}

#[test]
fn whether_there_is_an_update() {
    assert_eq!(Status::UpdateMajor.to_option_bool(), Some(true));
    assert_eq!(Status::UpdateAvailable.to_option_bool(), Some(true));
    assert_eq!(Status::UpToDate.to_option_bool(), Some(false));
    assert_eq!(Status::Unknown("x".to_string()).to_option_bool(), None);
}
