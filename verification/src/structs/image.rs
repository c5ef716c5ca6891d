//! Images and what is known of them.

use crate::reference::{parts_of, split};
use crate::structs::parts::{Parts, PartsView};
use crate::structs::status::{Status, StatusView};
use crate::structs::update::{
    DigestUpdateInfo, DigestUpdateInfoView, Update, UpdateInfo, UpdateInfoView, UpdateResult,
    UpdateResultView, UpdateView, VersionUpdateInfo, VersionUpdateInfoView,
};
use crate::structs::version::{tag_version, Version};
use crate::text::{
    after, before, clone_strings, contains_char, contains_text, fill, find, lemma_position,
    lemma_position_unique, slice, view_of, views,
};
use vstd::prelude::*;

verus! {

/// What [`DigestInfo`] stands for.
#[verifier::ext_equal]
pub struct DigestInfoView {
    pub local_digests: Seq<Seq<char>>,
    pub remote_digest: Option<Seq<char>>,
}

/// What [`VersionInfo`] stands for.
#[verifier::ext_equal]
pub struct VersionInfoView {
    pub current_tag: Version,
    pub latest_remote_tag: Option<Version>,
    pub format_str: Seq<char>,
}

/// What [`Image`] stands for.
#[verifier::ext_equal]
pub struct ImageView {
    pub reference: Seq<char>,
    pub parts: PartsView,
    pub url: Option<Seq<char>>,
    pub digest_info: Option<DigestInfoView>,
    pub version_info: Option<VersionInfoView>,
    pub error: Option<Seq<char>>,
    pub time_ms: u32,
    pub in_use: bool,
}

/// The digests of an image.
#[derive(Debug, PartialEq)]
pub struct DigestInfo {
    /// The digests that the daemon knows.
    pub local_digests: Vec<String>,
    /// The digest that the registry names, once it was asked.
    pub remote_digest: Option<String>,
}

/// The versions of an image.
#[derive(Debug, PartialEq)]
pub struct VersionInfo {
    /// The version in the image's tag.
    pub current_tag: Version,
    /// The newest version in the registry, once it was asked.
    pub latest_remote_tag: Option<Version>,
    /// The image's tag with `{}` in place of the numbers.
    pub format_str: String,
}

/// An image to check.
#[derive(Debug, PartialEq)]
pub struct Image {
    pub reference: String,
    pub parts: Parts,
    pub url: Option<String>,
    pub digest_info: Option<DigestInfo>,
    pub version_info: Option<VersionInfo>,
    /// Why the image could not be checked.
    pub error: Option<String>,
    /// How long the check took, in milliseconds.
    pub time_ms: u32,
    /// Whether a container uses the image.
    pub in_use: bool,
}

impl View for DigestInfo {
    type V = DigestInfoView;

    open spec fn view(&self) -> DigestInfoView {
        DigestInfoView {
            local_digests: views(self.local_digests@),
            remote_digest: view_of(self.remote_digest),
        }
    }
}

impl View for VersionInfo {
    type V = VersionInfoView;

    open spec fn view(&self) -> VersionInfoView {
        VersionInfoView {
            current_tag: self.current_tag,
            latest_remote_tag: self.latest_remote_tag,
            format_str: self.format_str@,
        }
    }
}

impl View for Image {
    type V = ImageView;

    open spec fn view(&self) -> ImageView {
        ImageView {
            reference: self.reference@,
            parts: self.parts@,
            url: view_of(self.url),
            digest_info: match self.digest_info {
                Some(info) => Some(info@),
                None => None,
            },
            version_info: match self.version_info {
                Some(info) => Some(info@),
                None => None,
            },
            error: view_of(self.error),
            time_ms: self.time_ms,
            in_use: self.in_use,
        }
    }
}

/// The views of a list of images.
pub open spec fn image_views(images: Seq<Image>) -> Seq<ImageView> {
    images.map_values(|image: Image| image@)
}

impl Clone for DigestInfo {
    fn clone(&self) -> (r: Self)
        ensures
            r@ == self@,
    {
        DigestInfo {
            local_digests: clone_strings(&self.local_digests),
            remote_digest: self.remote_digest.clone(),
        }
    }
}

impl Clone for VersionInfo {
    fn clone(&self) -> (r: Self)
        ensures
            r@ == self@,
    {
        VersionInfo {
            current_tag: self.current_tag,
            latest_remote_tag: self.latest_remote_tag,
            format_str: self.format_str.clone(),
        }
    }
}

impl Clone for Image {
    fn clone(&self) -> (r: Self)
        ensures
            r@ == self@,
    {
        Image {
            reference: self.reference.clone(),
            parts: self.parts.clone(),
            url: self.url.clone(),
            digest_info: match &self.digest_info {
                Some(info) => Some(info.clone()),
                None => None,
            },
            version_info: match &self.version_info {
                Some(info) => Some(info.clone()),
                None => None,
            },
            error: self.error.clone(),
            time_ms: self.time_ms,
            in_use: self.in_use,
        }
    }
}

/// What a tag says of an image's version.
pub open spec fn tag_version_info(tag: Seq<char>) -> Option<VersionInfoView> {
    match tag_version(tag) {
        Some((version, format)) => Some(
            VersionInfoView { current_tag: version, latest_remote_tag: None, format_str: format },
        ),
        None => None,
    }
}

/// The image that a reference names, of which nothing else is known.
pub open spec fn referenced_image(reference: Seq<char>) -> ImageView {
    let parts = parts_of(reference);
    ImageView {
        reference,
        parts,
        url: None,
        digest_info: None,
        version_info: tag_version_info(parts.tag),
        error: None,
        time_ms: 0,
        in_use: false,
    }
}

/// The digests in references of the form `name@digest`; others are skipped.
pub open spec fn referenced_digests(references: Seq<Seq<char>>) -> Seq<Seq<char>>
    decreases references.len(),
{
    if references.len() == 0 {
        Seq::empty()
    } else {
        let rest = referenced_digests(references.drop_last());
        if references.last().contains('@') {
            rest.push(before(after(references.last(), '@'), '@'))
        } else {
            rest
        }
    }
}

/// The image that the daemon describes by its tags and digests. One without a tag or without a
/// digest cannot be checked, and one that was pulled by digest has no tag to compare.
pub open spec fn inspected_image(
    tags: Seq<Seq<char>>,
    digests: Seq<Seq<char>>,
    url: Option<Seq<char>>,
) -> Option<ImageView> {
    if tags.len() == 0 || digests.len() == 0 || tags[0].contains('@') {
        None
    } else {
        Some(
            ImageView {
                url,
                digest_info: Some(
                    DigestInfoView {
                        local_digests: referenced_digests(digests),
                        remote_digest: None,
                    },
                ),
                ..referenced_image(tags[0])
            },
        )
    }
}

/// What has to be asked of the registry.
#[derive(Debug, Clone, Copy, PartialEq, Eq, Structural)]
pub enum CheckKind {
    /// The list of tags.
    Tags,
    /// The digest of the tag.
    Digest,
    /// Nothing that would help.
    Unsupported,
}

impl ImageView {
    /// The image after a check that failed with `message` and took `time`.
    pub open spec fn errored(self, message: Seq<char>, time: u32) -> ImageView {
        ImageView { error: Some(message), time_ms: (self.time_ms + time) as u32, ..self }
    }

    /// What has to be asked of the registry: the tags of an image with a version, the digest of
    /// any other that has one.
    pub open spec fn check_kind(self) -> CheckKind {
        if self.version_info is Some {
            CheckKind::Tags
        } else if self.digest_info is Some {
            CheckKind::Digest
        } else {
            CheckKind::Unsupported
        }
    }

    /// The image after it turned out that there is nothing to ask the registry.
    pub open spec fn unsupported(self) -> ImageView {
        ImageView {
            error: Some(
                self.reference + ": There is neither a version nor a digest to compare."@,
            ),
            ..self
        }
    }

    /// Whether a check came to an end, with a result or an error.
    pub open spec fn settled(self) -> bool {
        ||| self.error is Some
        ||| match (self.version_info, self.digest_info) {
            (Some(info), _) => info.latest_remote_tag is Some,
            (None, Some(info)) => info.remote_digest is Some,
            (None, None) => false,
        }
    }

    /// The verdict on a settled image.
    pub open spec fn status(self) -> StatusView {
        match (self.error, self.version_info) {
            (Some(message), _) => StatusView::Unknown(message),
            (None, Some(info)) => info.latest_remote_tag->0.status_against(info.current_tag),
            (None, None) => if self.digest_info->0.local_digests.contains(
                self.digest_info->0.remote_digest->0,
            ) {
                StatusView::UpToDate
            } else {
                StatusView::UpdateAvailable
            },
        }
    }

    /// What is reported of an update to another version.
    pub open spec fn version_update(self, kind: Seq<char>) -> UpdateInfoView {
        let info = self.version_info->0;
        UpdateInfoView::Version(
            VersionUpdateInfoView {
                version_update_type: kind,
                new_tag: fill(info.format_str, info.latest_remote_tag->0.numbers()),
                current_version: info.current_tag.to_text(),
                new_version: info.latest_remote_tag->0.to_text(),
            },
        )
    }

    /// What is reported of a settled image.
    pub open spec fn update(self) -> UpdateView {
        let status = self.status();
        UpdateView {
            reference: self.reference,
            parts: self.parts,
            url: self.url,
            result: UpdateResultView {
                has_update: status.has_update(),
                info: match status {
                    StatusView::UpdateMajor => self.version_update("major"@),
                    StatusView::UpdateMinor => self.version_update("minor"@),
                    StatusView::UpdatePatch => self.version_update("patch"@),
                    StatusView::UpdateAvailable => UpdateInfoView::Digest(
                        DigestUpdateInfoView {
                            local_digests: self.digest_info->0.local_digests,
                            remote_digest: self.digest_info->0.remote_digest,
                        },
                    ),
                    _ => UpdateInfoView::Absent,
                },
                error: match status {
                    StatusView::Unknown(message) => Some(message),
                    _ => None,
                },
            },
            time: self.time_ms,
            server: None,
            in_use: self.in_use,
            compose_managed: false,
            compose: Seq::empty(),
            status,
        }
    }
}

fn version_info_of(tag: &str) -> (r: Option<VersionInfo>)
    ensures
        match r {
            Some(info) => tag_version_info(tag@) == Some(info@),
            None => tag_version_info(tag@) is None,
        },
{
    match Version::from_tag(tag) {
        Some((version, format)) => Some(
            VersionInfo { current_tag: version, latest_remote_tag: None, format_str: format },
        ),
        None => None,
    }
}

fn digests_of(references: &Vec<String>) -> (r: Vec<String>)
    ensures
        views(r@) == referenced_digests(views(references@)),
{
    let mut r: Vec<String> = Vec::new();
    let ghost all = views(references@);
    let mut i: usize = 0;
    assert(views(r@) =~= referenced_digests(all.take(0)));
    while i < references.len()
        invariant
            i <= references@.len(),
            all == views(references@),
            views(r@) == referenced_digests(all.take(i as int)),
        decreases references@.len() - i,
    {
        let reference = references[i].as_str();
        assert(all.take(i + 1).drop_last() =~= all.take(i as int));
        assert(all.take(i + 1).last() == reference@);
        proof {
            lemma_position(reference@, '@');
        }
        let at: usize = find(reference, '@');
        let end: usize = reference.unicode_len();
        if at < end {
            let tail = slice(reference, at + 1, end);
            assert(tail@ =~= after(reference@, '@'));
            let digest = slice(tail.as_str(), 0, find(tail.as_str(), '@'));
            assert(digest@ =~= before(tail@, '@'));
            let ghost earlier = views(r@);
            r.push(digest);
            assert(views(r@) =~= earlier.push(digest@));
        }
        i += 1;
    }
    assert(all.take(references@.len() as int) =~= all);
    r
}

impl Image {
    /// The image that a reference names, of which nothing else is known.
    pub fn from_reference(reference: &str) -> (r: Image)
        ensures
            r@ == referenced_image(reference@),
    {
        let parts = split(reference);
        let version_info = version_info_of(parts.tag.as_str());
        Image {
            reference: reference.to_owned(),
            parts,
            url: None,
            digest_info: None,
            version_info,
            error: None,
            time_ms: 0,
            in_use: false,
        }
    }

    /// The image that the daemon describes, if it can be checked.
    pub fn from_inspect_data(tags: &Vec<String>, digests: &Vec<String>, url: Option<String>) -> (r:
        Option<Image>)
        ensures
            match r {
                Some(image) => inspected_image(
                    views(tags@),
                    views(digests@),
                    view_of(url),
                ) == Some(image@),
                None => inspected_image(
                    views(tags@),
                    views(digests@),
                    view_of(url),
                ) is None,
            },
    {
        if tags.len() == 0 || digests.len() == 0 || contains_char(tags[0].as_str(), '@') {
            return None;
        }
        let mut image = Image::from_reference(tags[0].as_str());
        image.url = url;
        image.digest_info = Some(
            DigestInfo { local_digests: digests_of(digests), remote_digest: None },
        );
        Some(image)
    }

    /// What has to be asked of the registry.
    pub fn check_kind(&self) -> (r: CheckKind)
        ensures
            r == self@.check_kind(),
    {
        if self.version_info.is_some() {
            CheckKind::Tags
        } else if self.digest_info.is_some() {
            CheckKind::Digest
        } else {
            CheckKind::Unsupported
        }
    }

    /// The image after it turned out that there is nothing to ask the registry.
    pub fn unsupported(&self) -> (r: Image)
        ensures
            r@ == self@.unsupported(),
    {
        let mut message = self.reference.clone();
        message.append(": There is neither a version nor a digest to compare.");
        let mut r = self.clone();
        r.error = Some(message);
        r
    }

    /// The image after a check that failed with `message` and took `time`.
    pub fn errored(&self, message: String, time: u32) -> (r: Image)
        requires
            self.time_ms + time <= u32::MAX,
        ensures
            r@ == self@.errored(message@, time),
    {
        let mut r = self.clone();
        r.error = Some(message);
        r.time_ms = self.time_ms + time;
        r
    }

    /// Whether a check came to an end, with a result or an error.
    pub fn is_settled(&self) -> (r: bool)
        ensures
            r == self@.settled(),
    {
        self.error.is_some() || match (&self.version_info, &self.digest_info) {
            (Some(info), _) => info.latest_remote_tag.is_some(),
            (None, Some(info)) => info.remote_digest.is_some(),
            (None, None) => false,
        }
    }

    /// The verdict on a checked image.
    pub fn has_update(&self) -> (r: Status)
        requires
            self@.settled(),
        ensures
            r@ == self@.status(),
    {
        match (&self.error, &self.version_info) {
            (Some(message), _) => Status::Unknown(message.clone()),
            (None, Some(info)) => info.latest_remote_tag.unwrap().to_status(&info.current_tag),
            (None, None) => {
                let info = self.digest_info.as_ref().unwrap();
                let remote = info.remote_digest.as_ref().unwrap();
                if contains_text(&info.local_digests, remote.as_str()) {
                    Status::UpToDate
                } else {
                    Status::UpdateAvailable
                }
            },
        }
    }

    fn version_update_info(&self, kind: &str) -> (r: UpdateInfo)
        requires
            self@.version_info matches Some(info) && info.latest_remote_tag is Some,
        ensures
            r@ == self@.version_update(kind@),
    {
        let info = self.version_info.as_ref().unwrap();
        let latest = info.latest_remote_tag.unwrap();
        UpdateInfo::Version(
            VersionUpdateInfo {
                version_update_type: kind.to_owned(),
                new_tag: latest.write_tag(info.format_str.as_str()),
                current_version: info.current_tag.write(),
                new_version: latest.write(),
            },
        )
    }

    /// What is reported of a checked image.
    pub fn to_update(&self) -> (r: Update)
        requires
            self@.settled(),
        ensures
            r@ == self@.update(),
    {
        let status = self.has_update();
        let info = match &status {
            Status::UpdateMajor => self.version_update_info("major"),
            Status::UpdateMinor => self.version_update_info("minor"),
            Status::UpdatePatch => self.version_update_info("patch"),
            Status::UpdateAvailable => {
                let info = self.digest_info.as_ref().unwrap();
                UpdateInfo::Digest(
                    DigestUpdateInfo {
                        local_digests: clone_strings(&info.local_digests),
                        remote_digest: info.remote_digest.clone(),
                    },
                )
            },
            _ => UpdateInfo::Absent,
        };
        let error = match &status {
            Status::Unknown(message) => Some(message.clone()),
            _ => None,
        };
        let r = Update {
            reference: self.reference.clone(),
            parts: self.parts.clone(),
            url: self.url.clone(),
            result: UpdateResult { has_update: status.to_option_bool(), info, error },
            time: self.time_ms,
            server: None,
            in_use: self.in_use,
            compose_managed: false,
            compose: Vec::new(),
            status,
        };
        assert(r@.compose =~= Seq::empty());
        r
    }
}

/// What is reported of an image leads back to the verdict on it: both from the report itself
/// and from its result alone, which is all that another instance receives.
pub proof fn law_report_keeps_status(image: ImageView)
    requires
        image.settled(),
    ensures
        image.update().derived_status() == Some(image.status()),
        image.update().result.status() == Some(image.status()),
{
    reveal_strlit("major");
    reveal_strlit("minor");
    reveal_strlit("patch");
    assert("major"@[1] != "minor"@[1]);
    assert("major"@[0] != "patch"@[0]);
    assert("minor"@[0] != "patch"@[0]);
}

/// An image of a reference has the reference's parts and the version in its tag. Nothing else is
/// known of it.
pub proof fn law_referenced_images(reference: Seq<char>)
    ensures
        ({
            let image = referenced_image(reference);
            &&& image.reference == reference
            &&& image.parts == parts_of(reference)
            &&& image.url is None
            &&& image.digest_info is None
            &&& image.error is None
            &&& image.time_ms == 0
            &&& !image.in_use
            &&& image.version_info is Some <==> tag_version(image.parts.tag) is Some
            &&& tag_version(image.parts.tag) matches Some((version, format)) ==> {
                &&& image.version_info->0.current_tag == version
                &&& image.version_info->0.format_str == format
                &&& image.version_info->0.latest_remote_tag is None
            }
        }),
{
}

/// Digests are read reference by reference, in order, and none that is there is left out.
pub proof fn law_digests_are_read_in_order(
    front: Seq<Seq<char>>,
    back: Seq<Seq<char>>,
    name: Seq<char>,
    digest: Seq<char>,
)
    requires
        !name.contains('@'),
        !digest.contains('@'),
    ensures
        referenced_digests(front + back) == referenced_digests(front) + referenced_digests(back),
        referenced_digests(seq![name + "@"@ + digest]) == seq![digest],
        referenced_digests(seq![name]) == Seq::<Seq<char>>::empty(),
    decreases back.len(),
{
    if back.len() == 0 {
        assert(front + back =~= front);
        assert(referenced_digests(front) + referenced_digests(back) =~= referenced_digests(front));
    } else {
        assert((front + back).drop_last() =~= front + back.drop_last());
        law_digests_are_read_in_order(front, back.drop_last(), name, digest);
        assert(referenced_digests(front + back) =~= referenced_digests(front)
            + referenced_digests(back));
    }
    reveal_strlit("@");
    let reference = name + "@"@ + digest;
    assert(reference[name.len() as int] == '@');
    assert forall|i: int| 0 <= i < name.len() implies reference[i] != '@' by {
        assert(reference[i] == name[i]);
    }
    lemma_position_unique(reference, '@', name.len() as int);
    assert(after(reference, '@') =~= digest);
    lemma_position(digest, '@');
    assert(before(digest, '@') =~= digest);
    let one = seq![reference];
    assert(one.drop_last() =~= Seq::<Seq<char>>::empty());
    assert(referenced_digests(one.drop_last()) =~= Seq::<Seq<char>>::empty());
    assert(one.last() == reference && reference.contains('@'));
    assert(referenced_digests(one) =~= seq![digest]);
    let none = seq![name];
    assert(none.drop_last() =~= Seq::<Seq<char>>::empty());
    assert(referenced_digests(none) =~= Seq::<Seq<char>>::empty());
}

/// The daemon's description of an image is enough for a check if there is a tag that names no
/// digest, and a digest. The image then has the first tag as its reference, and all the digests.
pub proof fn law_inspected_images(
    tags: Seq<Seq<char>>,
    digests: Seq<Seq<char>>,
    url: Option<Seq<char>>,
)
    ensures
        inspected_image(tags, digests, url) is Some <==> tags.len() > 0 && digests.len() > 0
            && !tags[0].contains('@'),
        inspected_image(tags, digests, url) matches Some(image) ==> {
            &&& image.reference == tags[0]
            &&& image.parts == parts_of(tags[0])
            &&& image.url == url
            &&& image.digest_info is Some
            &&& image.digest_info->0.local_digests == referenced_digests(digests)
            &&& image.digest_info->0.remote_digest is None
            &&& image.version_info == referenced_image(tags[0]).version_info
            &&& image.error is None
            &&& image.time_ms == 0
            &&& !image.in_use
        },
{
}

/// What is asked of the registry, and when a check is at its end.
pub proof fn law_checks(image: ImageView)
    ensures
        image.version_info is Some ==> image.check_kind() == CheckKind::Tags,
        image.version_info is None && image.digest_info is Some ==> image.check_kind()
            == CheckKind::Digest,
        image.version_info is None && image.digest_info is None ==> image.check_kind()
            == CheckKind::Unsupported,
        image.error is Some ==> image.settled(),
        image.error is None && image.version_info is Some ==> (image.settled()
            <==> image.version_info->0.latest_remote_tag is Some),
        image.error is None && image.version_info is None && image.digest_info is Some ==> (
        image.settled() <==> image.digest_info->0.remote_digest is Some),
        image.error is None && image.version_info is None && image.digest_info is None
            ==> !image.settled(),
{
}

/// A check that fails leaves the image with the message, and otherwise as it was, but for the
/// time that it took.
pub proof fn law_failed_checks(image: ImageView, message: Seq<char>, time: u32)
    ensures
        image.errored(message, time) == (ImageView {
            error: Some(message),
            time_ms: image.errored(message, time).time_ms,
            ..image
        }),
        image.time_ms + time <= u32::MAX ==> image.errored(message, time).time_ms == image.time_ms
            + time,
        image.unsupported() == (ImageView { error: image.unsupported().error, ..image }),
        image.unsupported().error is Some,
        image.reference.is_prefix_of(image.unsupported().error->0),
{
}

/// The verdict on an image: the message of a failed check; else what the newest version says of
/// the image's own; else whether the registry's digest is one that the daemon has.
pub proof fn law_verdicts(image: ImageView)
    requires
        image.settled(),
    ensures
        image.error is Some ==> image.status() == StatusView::Unknown(image.error->0),
        image.error is None && image.version_info is Some ==> image.status()
            == image.version_info->0.latest_remote_tag->0.status_against(
            image.version_info->0.current_tag,
        ),
        image.error is None && image.version_info is None ==> {
            let info = image.digest_info->0;
            if exists|i: int|
                0 <= i < info.local_digests.len() && #[trigger] info.local_digests[i]
                    == info.remote_digest->0 {
                image.status() is UpToDate
            } else {
                image.status() is UpdateAvailable
            }
        },
{
}

/// What is reported of an image: the image itself, how long the check took, whether there is an
/// update and what kind of update it is.
pub proof fn law_reports(image: ImageView)
    requires
        image.settled(),
    ensures
        ({
            let report = image.update();
            let info = image.version_info->0;
            &&& report.reference == image.reference
            &&& report.parts == image.parts
            &&& report.url == image.url
            &&& report.time == image.time_ms
            &&& report.in_use == image.in_use
            &&& report.server is None
            &&& !report.compose_managed
            &&& report.compose.len() == 0
            &&& report.status == image.status()
            &&& match image.status() {
                StatusView::UpToDate => report.result.has_update == Some(false)
                    && report.result.info is Absent && report.result.error is None,
                StatusView::Unknown(message) => report.result.has_update is None
                    && report.result.info is Absent && report.result.error == Some(message),
                StatusView::UpdateAvailable => report.result.has_update == Some(true)
                    && report.result.info is Digest && report.result.info->Digest_0.local_digests
                    == image.digest_info->0.local_digests
                    && report.result.info->Digest_0.remote_digest
                    == image.digest_info->0.remote_digest && report.result.error is None,
                _ => report.result.has_update == Some(true) && report.result.info is Version
                    && report.result.info->Version_0.current_version == info.current_tag.to_text()
                    && report.result.info->Version_0.new_version
                    == info.latest_remote_tag->0.to_text() && report.result.info->Version_0.new_tag
                    == fill(info.format_str, info.latest_remote_tag->0.numbers())
                    && report.result.error is None,
            }
            &&& image.status() is UpdateMajor
                ==> report.result.info->Version_0.version_update_type == "major"@
            &&& image.status() is UpdateMinor
                ==> report.result.info->Version_0.version_update_type == "minor"@
            &&& image.status() is UpdatePatch
                ==> report.result.info->Version_0.version_update_type == "patch"@
        }),
{
}

} // verus!
