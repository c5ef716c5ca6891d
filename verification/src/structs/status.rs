//! The verdict on an image.

use vstd::prelude::*;

verus! {

/// What [`Status`] stands for.
pub enum StatusView {
    UpdateMajor,
    UpdateMinor,
    UpdatePatch,
    UpdateAvailable,
    UpToDate,
    Unknown(Seq<char>),
}

/// How an image stands against its registry.
#[derive(Debug, PartialEq)]
pub enum Status {
    /// A newer major version is available.
    UpdateMajor,
    /// A newer minor version is available.
    UpdateMinor,
    /// A newer patch version is available.
    UpdatePatch,
    /// The tag points at another digest by now.
    UpdateAvailable,
    /// There is nothing newer.
    UpToDate,
    /// The check failed, with this message.
    Unknown(String),
}

impl View for Status {
    type V = StatusView;

    open spec fn view(&self) -> StatusView {
        match self {
            Status::UpdateMajor => StatusView::UpdateMajor,
            Status::UpdateMinor => StatusView::UpdateMinor,
            Status::UpdatePatch => StatusView::UpdatePatch,
            Status::UpdateAvailable => StatusView::UpdateAvailable,
            Status::UpToDate => StatusView::UpToDate,
            Status::Unknown(message) => StatusView::Unknown(message@),
        }
    }
}

impl StatusView {
    /// Whether there is an update; unknown after a failed check.
    pub open spec fn has_update(self) -> Option<bool> {
        match self {
            StatusView::Unknown(_) => None,
            StatusView::UpToDate => Some(false),
            _ => Some(true),
        }
    }
}

impl Clone for Status {
    fn clone(&self) -> (r: Self)
        ensures
            r@ == self@,
    {
        match self {
            Status::UpdateMajor => Status::UpdateMajor,
            Status::UpdateMinor => Status::UpdateMinor,
            Status::UpdatePatch => Status::UpdatePatch,
            Status::UpdateAvailable => Status::UpdateAvailable,
            Status::UpToDate => Status::UpToDate,
            Status::Unknown(message) => Status::Unknown(message.clone()),
        }
    }
}

impl Default for Status {
    /// Nothing is known yet.
    fn default() -> (r: Self)
        ensures
            r@ == StatusView::Unknown(Seq::empty()),
    {
        Status::Unknown(String::new())
    }
}

impl Status {
    /// Whether there is an update; `None` after a failed check.
    pub fn to_option_bool(&self) -> (r: Option<bool>)
        ensures
            r == self@.has_update(),
    {
        match self {
            Status::Unknown(_) => None,
            Status::UpToDate => Some(false),
            _ => Some(true),
        }
    }
}

/// There is an update for every status but two: none for an image that is up to date, and
/// nothing is known after a failed check.
pub proof fn law_updates_by_status(status: StatusView, message: Seq<char>)
    ensures
        status is UpdateMajor || status is UpdateMinor || status is UpdatePatch
            || status is UpdateAvailable ==> status.has_update() == Some(true),
        StatusView::UpToDate.has_update() == Some(false),
        StatusView::Unknown(message).has_update() is None,
{
}

} // verus!
