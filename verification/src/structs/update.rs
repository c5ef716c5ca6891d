//! The outcome of a check, as it is reported.

use crate::structs::container::{
    clone_containers, container_views, ComposeContainer, ComposeContainerView,
};
use crate::structs::parts::{Parts, PartsView};
use crate::structs::status::{Status, StatusView};
use crate::text::{clone_strings, same, view_of, views};
use vstd::prelude::*;

verus! {

/// What [`Update`] stands for.
#[verifier::ext_equal]
pub struct UpdateView {
    pub reference: Seq<char>,
    pub parts: PartsView,
    pub url: Option<Seq<char>>,
    pub result: UpdateResultView,
    pub time: u32,
    pub server: Option<Seq<char>>,
    pub in_use: bool,
    pub compose_managed: bool,
    pub compose: Seq<ComposeContainerView>,
    pub status: StatusView,
}

/// What [`UpdateResult`] stands for.
#[verifier::ext_equal]
pub struct UpdateResultView {
    pub has_update: Option<bool>,
    pub info: UpdateInfoView,
    pub error: Option<Seq<char>>,
}

/// What [`UpdateInfo`] stands for.
#[verifier::ext_equal]
pub enum UpdateInfoView {
    Absent,
    Version(VersionUpdateInfoView),
    Digest(DigestUpdateInfoView),
}

/// What [`VersionUpdateInfo`] stands for.
#[verifier::ext_equal]
pub struct VersionUpdateInfoView {
    pub version_update_type: Seq<char>,
    pub new_tag: Seq<char>,
    pub current_version: Seq<char>,
    pub new_version: Seq<char>,
}

/// What [`DigestUpdateInfo`] stands for.
#[verifier::ext_equal]
pub struct DigestUpdateInfoView {
    pub local_digests: Seq<Seq<char>>,
    pub remote_digest: Option<Seq<char>>,
}

/// What a check found out about one image.
#[derive(Debug, PartialEq)]
pub struct Update {
    pub reference: String,
    pub parts: Parts,
    pub url: Option<String>,
    pub result: UpdateResult,
    pub time: u32,
    pub server: Option<String>,
    pub in_use: bool,
    /// Whether the image belongs to a compose project.
    pub compose_managed: bool,
    /// The compose-managed containers that use the image. They are kept in memory for applying
    /// updates and are not part of what is reported to others.
    pub compose: Vec<ComposeContainer>,
    pub status: Status,
}

/// The result of a check.
#[derive(Debug, PartialEq)]
pub struct UpdateResult {
    pub has_update: Option<bool>,
    pub info: UpdateInfo,
    pub error: Option<String>,
}

/// What is known of an available update.
#[derive(Debug, PartialEq)]
pub enum UpdateInfo {
    /// There is none, or none is known of.
    Absent,
    /// A newer tag is available.
    Version(VersionUpdateInfo),
    /// The same tag has a newer digest.
    Digest(DigestUpdateInfo),
}

/// An update to another tag.
#[derive(Debug, PartialEq)]
pub struct VersionUpdateInfo {
    /// `major`, `minor` or `patch`.
    pub version_update_type: String,
    pub new_tag: String,
    pub current_version: String,
    pub new_version: String,
}

/// An update behind the same tag.
#[derive(Debug, PartialEq)]
pub struct DigestUpdateInfo {
    pub local_digests: Vec<String>,
    pub remote_digest: Option<String>,
}

impl View for Update {
    type V = UpdateView;

    open spec fn view(&self) -> UpdateView {
        UpdateView {
            reference: self.reference@,
            parts: self.parts@,
            url: view_of(self.url),
            result: self.result@,
            time: self.time,
            server: view_of(self.server),
            in_use: self.in_use,
            compose_managed: self.compose_managed,
            compose: container_views(self.compose@),
            status: self.status@,
        }
    }
}

impl View for UpdateResult {
    type V = UpdateResultView;

    open spec fn view(&self) -> UpdateResultView {
        UpdateResultView {
            has_update: self.has_update,
            info: self.info@,
            error: view_of(self.error),
        }
    }
}

impl View for UpdateInfo {
    type V = UpdateInfoView;

    open spec fn view(&self) -> UpdateInfoView {
        match self {
            UpdateInfo::Absent => UpdateInfoView::Absent,
            UpdateInfo::Version(info) => UpdateInfoView::Version(info@),
            UpdateInfo::Digest(info) => UpdateInfoView::Digest(info@),
        }
    }
}

impl View for VersionUpdateInfo {
    type V = VersionUpdateInfoView;

    open spec fn view(&self) -> VersionUpdateInfoView {
        VersionUpdateInfoView {
            version_update_type: self.version_update_type@,
            new_tag: self.new_tag@,
            current_version: self.current_version@,
            new_version: self.new_version@,
        }
    }
}

impl View for DigestUpdateInfo {
    type V = DigestUpdateInfoView;

    open spec fn view(&self) -> DigestUpdateInfoView {
        DigestUpdateInfoView {
            local_digests: views(self.local_digests@),
            remote_digest: view_of(self.remote_digest),
        }
    }
}

impl Clone for VersionUpdateInfo {
    fn clone(&self) -> (r: Self)
        ensures
            r@ == self@,
    {
        VersionUpdateInfo {
            version_update_type: self.version_update_type.clone(),
            new_tag: self.new_tag.clone(),
            current_version: self.current_version.clone(),
            new_version: self.new_version.clone(),
        }
    }
}

impl Clone for DigestUpdateInfo {
    fn clone(&self) -> (r: Self)
        ensures
            r@ == self@,
    {
        DigestUpdateInfo {
            local_digests: clone_strings(&self.local_digests),
            remote_digest: self.remote_digest.clone(),
        }
    }
}

impl Clone for UpdateInfo {
    fn clone(&self) -> (r: Self)
        ensures
            r@ == self@,
    {
        match self {
            UpdateInfo::Absent => UpdateInfo::Absent,
            UpdateInfo::Version(info) => UpdateInfo::Version(info.clone()),
            UpdateInfo::Digest(info) => UpdateInfo::Digest(info.clone()),
        }
    }
}

impl Clone for UpdateResult {
    fn clone(&self) -> (r: Self)
        ensures
            r@ == self@,
    {
        UpdateResult {
            has_update: self.has_update,
            info: self.info.clone(),
            error: self.error.clone(),
        }
    }
}

impl Clone for Update {
    fn clone(&self) -> (r: Self)
        ensures
            r@ == self@,
    {
        Update {
            reference: self.reference.clone(),
            parts: self.parts.clone(),
            url: self.url.clone(),
            result: self.result.clone(),
            time: self.time,
            server: self.server.clone(),
            in_use: self.in_use,
            compose_managed: self.compose_managed,
            compose: clone_containers(&self.compose),
            status: self.status.clone(),
        }
    }
}

impl UpdateResultView {
    /// The status that a result stands for.
    ///
    /// It is nothing for a result that no check gives: an update of which nothing, or no kind
    /// of version change, is known, or a failed check without a message.
    pub open spec fn status(self) -> Option<StatusView> {
        match self.has_update {
            Some(true) => match self.info {
                UpdateInfoView::Version(info) => if info.version_update_type == "major"@ {
                    Some(StatusView::UpdateMajor)
                } else if info.version_update_type == "minor"@ {
                    Some(StatusView::UpdateMinor)
                } else if info.version_update_type == "patch"@ {
                    Some(StatusView::UpdatePatch)
                } else {
                    None
                },
                UpdateInfoView::Digest(_) => Some(StatusView::UpdateAvailable),
                UpdateInfoView::Absent => None,
            },
            Some(false) => Some(StatusView::UpToDate),
            None => match self.error {
                Some(message) => Some(StatusView::Unknown(message)),
                None => None,
            },
        }
    }
}

impl UpdateView {
    /// The status that the update carries, or else the one that its result stands for.
    pub open spec fn derived_status(self) -> Option<StatusView> {
        if self.status == StatusView::Unknown(Seq::empty()) {
            self.result.status()
        } else {
            Some(self.status)
        }
    }
}

impl UpdateResult {
    /// The status that the result stands for, if it stands for one.
    pub fn status(&self) -> (r: Option<Status>)
        ensures
            match r {
                Some(status) => self@.status() == Some(status@),
                None => self@.status() is None,
            },
    {
        match self.has_update {
            Some(true) => match &self.info {
                UpdateInfo::Version(info) => {
                    let kind = info.version_update_type.as_str();
                    if same(kind, "major") {
                        Some(Status::UpdateMajor)
                    } else if same(kind, "minor") {
                        Some(Status::UpdateMinor)
                    } else if same(kind, "patch") {
                        Some(Status::UpdatePatch)
                    } else {
                        None
                    }
                },
                UpdateInfo::Digest(_) => Some(Status::UpdateAvailable),
                UpdateInfo::Absent => None,
            },
            Some(false) => Some(Status::UpToDate),
            None => match &self.error {
                Some(message) => Some(Status::Unknown(message.clone())),
                None => None,
            },
        }
    }
}

impl Update {
    /// The status of the image: the one that is set, or else the one that follows from the
    /// result.
    pub fn get_status(&self) -> (r: Status)
        requires
            self@.derived_status() is Some,
        ensures
            self@.derived_status() == Some(r@),
    {
        match &self.status {
            Status::Unknown(message) => {
                if message.as_str().is_empty() {
                    assert(message@ =~= Seq::<char>::empty());
                    self.result.status().unwrap()
                } else {
                    self.status.clone()
                }
            },
            status => status.clone(),
        }
    }

    /// Whether [`Update::get_status`] has an answer.
    pub fn has_status(&self) -> (r: bool)
        ensures
            r == (self@.derived_status() is Some),
    {
        match &self.status {
            Status::Unknown(message) => {
                if message.as_str().is_empty() {
                    assert(message@ =~= Seq::<char>::empty());
                    self.result.status().is_some()
                } else {
                    true
                }
            },
            _ => true,
        }
    }
}

/// What [`SharedUpdate`] stands for.
#[verifier::ext_equal]
pub struct SharedUpdateView {
    pub reference: Seq<char>,
    pub parts: PartsView,
    pub url: Option<Seq<char>>,
    pub result: UpdateResultView,
    pub time: u32,
    pub server: Option<Seq<char>>,
    pub in_use: bool,
    pub compose_managed: bool,
}

/// The part of an update that is reported to others. The containers stay here, since their IDs
/// and the paths of their projects are not for everyone who can reach the interface. The status
/// follows from the result.
#[derive(Debug, PartialEq)]
pub struct SharedUpdate {
    pub reference: String,
    pub parts: Parts,
    pub url: Option<String>,
    pub result: UpdateResult,
    pub time: u32,
    pub server: Option<String>,
    pub in_use: bool,
    /// Whether the image belongs to a compose project.
    pub compose_managed: bool,
}

impl View for SharedUpdate {
    type V = SharedUpdateView;

    open spec fn view(&self) -> SharedUpdateView {
        SharedUpdateView {
            reference: self.reference@,
            parts: self.parts@,
            url: view_of(self.url),
            result: self.result@,
            time: self.time,
            server: view_of(self.server),
            in_use: self.in_use,
            compose_managed: self.compose_managed,
        }
    }
}

impl UpdateView {
    /// The part of the update that is reported to others.
    pub open spec fn shared(self) -> SharedUpdateView {
        SharedUpdateView {
            reference: self.reference,
            parts: self.parts,
            url: self.url,
            result: self.result,
            time: self.time,
            server: self.server,
            in_use: self.in_use,
            compose_managed: self.compose_managed,
        }
    }
}

impl SharedUpdateView {
    /// The update as it is received, with the containers that came along. Its status is not
    /// known yet.
    pub open spec fn received(self, compose: Seq<ComposeContainerView>) -> UpdateView {
        UpdateView {
            reference: self.reference,
            parts: self.parts,
            url: self.url,
            result: self.result,
            time: self.time,
            server: self.server,
            in_use: self.in_use,
            compose_managed: self.compose_managed,
            compose,
            status: StatusView::Unknown(Seq::empty()),
        }
    }
}

impl Update {
    /// The part of the update that is reported to others.
    pub fn share(&self) -> (r: SharedUpdate)
        ensures
            r@ == self@.shared(),
    {
        SharedUpdate {
            reference: self.reference.clone(),
            parts: self.parts.clone(),
            url: self.url.clone(),
            result: self.result.clone(),
            time: self.time,
            server: self.server.clone(),
            in_use: self.in_use,
            compose_managed: self.compose_managed,
        }
    }
}

impl SharedUpdate {
    /// The update as it is received. No containers come along from an instance that reports what
    /// [`Update::share`] gives; a list that is sent all the same is kept.
    pub fn received(self, compose: Vec<ComposeContainer>) -> (r: Update)
        ensures
            r@ == self@.received(container_views(compose@)),
    {
        Update {
            reference: self.reference,
            parts: self.parts,
            url: self.url,
            result: self.result,
            time: self.time,
            server: self.server,
            in_use: self.in_use,
            compose_managed: self.compose_managed,
            compose,
            status: Status::default(),
        }
    }
}

/// The status that a result stands for: the kind of version change, a newer digest, nothing
/// newer, or the message of a failed check.
pub proof fn law_status_of_results(
    result: UpdateResultView,
    change: VersionUpdateInfoView,
    message: Seq<char>,
)
    ensures
        result.has_update == Some(true) && result.info == UpdateInfoView::Version(change) ==> {
            &&& change.version_update_type == "major"@ ==> result.status() == Some(
                StatusView::UpdateMajor,
            )
            &&& change.version_update_type == "minor"@ ==> result.status() == Some(
                StatusView::UpdateMinor,
            )
            &&& change.version_update_type == "patch"@ ==> result.status() == Some(
                StatusView::UpdatePatch,
            )
        },
        result.has_update == Some(true) && result.info is Digest ==> result.status() == Some(
            StatusView::UpdateAvailable,
        ),
        result.has_update == Some(false) ==> result.status() == Some(StatusView::UpToDate),
        result.has_update is None && result.error == Some(message) ==> result.status() == Some(
            StatusView::Unknown(message),
        ),
{
    reveal_strlit("major");
    reveal_strlit("minor");
    reveal_strlit("patch");
    assert("major"@[1] != "minor"@[1]);
    assert("major"@[0] != "patch"@[0]);
    assert("minor"@[0] != "patch"@[0]);
}

/// A status that is set counts, whatever the result says. Only where none is set does the result
/// decide.
pub proof fn law_a_status_that_is_set_counts(update: UpdateView)
    ensures
        update.status != StatusView::Unknown(Seq::empty()) ==> update.derived_status() == Some(
            update.status,
        ),
        update.status == StatusView::Unknown(Seq::empty()) ==> update.derived_status()
            == update.result.status(),
{
}

/// What is shared of an update and received again is the update, but for the containers and the
/// status.
pub proof fn law_shared_updates(update: UpdateView, compose: Seq<ComposeContainerView>)
    ensures
        update.shared().received(compose) == (UpdateView {
            compose,
            status: StatusView::Unknown(Seq::empty()),
            ..update
        }),
{
}

} // verus!
