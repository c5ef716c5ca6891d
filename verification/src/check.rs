//! Checking images: which ones, with which tokens, and what is reported of them.

use crate::config::Context;
use crate::docker::{compose_groups, group, group_views, Container};
use crate::index::TextMap;
use crate::json::{document_list, json_document, json_trees, read_list, JsonTree};
use crate::lists::lemma_filter;
use crate::reference::{parts_of, split};
use crate::registry::{excluded, is_excluded_tag};
use crate::session::{
    access_views, covered, law_session_result, task_of, tasks_of, Access, AccessView, AuthAnswers,
    SessionView, TokenAnswers,
};
use crate::structs::container::{clone_containers, ComposeContainer, ComposeContainerView};
use crate::structs::image::{
    image_views, law_report_keeps_status, referenced_image, Image, ImageView,
};
use crate::structs::update::{Update, UpdateView};
use crate::text::{
    before, clone_strings, contains_text, find, same, slice, starts_with, trim_end, view_of, views,
    without_trailing,
};
use serde_json::Value;
use vstd::prelude::*;

verus! {

/// The address of another instance's interface. Without a protocol, HTTPS is meant.
pub open spec fn server_base(url: Seq<char>) -> Seq<char> {
    (if "http://"@.is_prefix_of(url) || "https://"@.is_prefix_of(url) {
        trim_end(url, '/')
    } else {
        "https://"@ + trim_end(url, '/')
    }) + "/api/v3/"@
}

fn server_base_url(url: &str) -> (r: String)
    ensures
        r@ == server_base(url@),
{
    let trimmed = without_trailing(url, '/');
    let mut r = if starts_with(url, "http://") || starts_with(url, "https://") {
        trimmed
    } else {
        let mut r = "https://".to_owned();
        r.append(trimmed.as_str());
        r
    };
    r.append("/api/v3/");
    r
}

/// The status of a response.
#[derive(Debug, PartialEq)]
pub struct ReplyStatus {
    pub code: u16,
    /// The status as it is written for a reader.
    pub text: String,
}

/// What happened with another instance.
#[derive(Debug, PartialEq)]
pub enum ServerEvent {
    /// It is about to be asked, after a refresh if that is wanted.
    Start { refresh: bool },
    /// What came of asking it to refresh: the status of the response, or an error.
    Refreshed(Result<ReplyStatus, String>),
    /// What came of asking it for its updates: the status of the response, or an error.
    Fetched(Result<ReplyStatus, String>),
}

/// What [`ServerStep`] stands for.
pub enum ServerStepView {
    Refresh(Seq<char>),
    Fetch(Seq<char>),
    Read,
    GiveUp,
}

/// What to do next with another instance.
#[derive(Debug, PartialEq)]
pub enum ServerStep {
    /// Ask it to refresh, at this address.
    Refresh(String),
    /// Ask it for its updates, at this address.
    Fetch(String),
    /// Read the updates out of the response.
    Read,
    /// Go on without it.
    GiveUp,
}

impl View for ServerStep {
    type V = ServerStepView;

    open spec fn view(&self) -> ServerStepView {
        match self {
            ServerStep::Refresh(url) => ServerStepView::Refresh(url@),
            ServerStep::Fetch(url) => ServerStepView::Fetch(url@),
            ServerStep::Read => ServerStepView::Read,
            ServerStep::GiveUp => ServerStepView::GiveUp,
        }
    }
}

/// What to do next with the instance at `url`. One that answers a request with an error, or
/// with anything but a 200, is given up.
pub open spec fn server_step(url: Seq<char>, event: ServerEvent) -> ServerStepView {
    match event {
        ServerEvent::Start { refresh } => if refresh {
            ServerStepView::Refresh(server_base(url) + "refresh"@)
        } else {
            ServerStepView::Fetch(server_base(url) + "json"@)
        },
        ServerEvent::Refreshed(Ok(status)) if status.code == 200 => ServerStepView::Fetch(
            server_base(url) + "json"@,
        ),
        ServerEvent::Fetched(Ok(status)) if status.code == 200 => ServerStepView::Read,
        _ => ServerStepView::GiveUp,
    }
}

/// Decides what to do next with the instance at `url`.
pub fn next_server_step(url: &str, event: &ServerEvent) -> (r: ServerStep)
    ensures
        r@ == server_step(url@, *event),
{
    match event {
        ServerEvent::Start { refresh } => {
            let mut address = server_base_url(url);
            if *refresh {
                address.append("refresh");
                ServerStep::Refresh(address)
            } else {
                address.append("json");
                ServerStep::Fetch(address)
            }
        },
        ServerEvent::Refreshed(reply) => match reply {
            Ok(status) => if status.code == 200 {
                let mut address = server_base_url(url);
                address.append("json");
                ServerStep::Fetch(address)
            } else {
                ServerStep::GiveUp
            },
            Err(_) => ServerStep::GiveUp,
        },
        ServerEvent::Fetched(reply) => match reply {
            Ok(status) => if status.code == 200 {
                ServerStep::Read
            } else {
                ServerStep::GiveUp
            },
            Err(_) => ServerStep::GiveUp,
        },
    }
}

/// What is wrong with the answer to a request to another instance, if anything is.
pub open spec fn reply_fault(reply: Result<ReplyStatus, String>) -> Option<Seq<char>> {
    match reply {
        Ok(status) => if status.code == 200 {
            None
        } else {
            Some("Server returned invalid response code: "@ + status.text@)
        },
        Err(message) => Some(message@),
    }
}

/// What to tell the user about the instance at `url`, if anything.
pub open spec fn server_complaint(url: Seq<char>, event: ServerEvent) -> Option<Seq<char>> {
    match event {
        ServerEvent::Start { .. } => None,
        ServerEvent::Refreshed(reply) => match reply_fault(reply) {
            Some(fault) => Some(
                "GET "@ + server_base(url) + "refresh"@ + ": Failed to refresh server. "@ + fault,
            ),
            None => None,
        },
        ServerEvent::Fetched(reply) => match reply_fault(reply) {
            Some(fault) => Some(
                "GET "@ + server_base(url) + "json"@
                    + ": Failed to fetch updates from server. "@ + fault,
            ),
            None => None,
        },
    }
}

fn fault_of(reply: &Result<ReplyStatus, String>) -> (r: Option<String>)
    ensures
        view_of(r) == reply_fault(*reply),
{
    match reply {
        Ok(status) => if status.code == 200 {
            None
        } else {
            let mut r = "Server returned invalid response code: ".to_owned();
            r.append(status.text.as_str());
            Some(r)
        },
        Err(message) => Some(message.clone()),
    }
}

/// What to tell the user about the instance at `url`, if anything: that it could not be asked to
/// refresh, or that its updates could not be fetched, and why.
pub fn server_warning(url: &str, event: &ServerEvent) -> (r: Option<String>)
    ensures
        view_of(r) == server_complaint(url@, *event),
{
    let (fault, path, what) = match event {
        ServerEvent::Start { .. } => {
            return None;
        },
        ServerEvent::Refreshed(reply) => (
            fault_of(reply),
            "refresh",
            ": Failed to refresh server. ",
        ),
        ServerEvent::Fetched(reply) => (
            fault_of(reply),
            "json",
            ": Failed to fetch updates from server. ",
        ),
    };
    match fault {
        Some(fault) => {
            let mut r = "GET ".to_owned();
            r.append(server_base_url(url).as_str());
            r.append(path);
            r.append(what);
            r.append(fault.as_str());
            Some(r)
        },
        None => None,
    }
}

/// The images in another instance's response.
pub open spec fn images_in(body: Seq<char>) -> Option<Seq<JsonTree>> {
    document_list(json_document(body), "images"@)
}

/// Reads the images in another instance's response. `None` for a response that holds no list of
/// images.
pub fn server_images(body: &str) -> (r: Option<Vec<Value>>)
    ensures
        match r {
            Some(images) => images_in(body@) == Some(json_trees(images@)),
            None => images_in(body@) is None,
        },
{
    read_list(body, "images")
}

/// The views of a list of updates.
pub open spec fn update_views(updates: Seq<Update>) -> Seq<UpdateView> {
    updates.map_values(|update: Update| update@)
}

/// An update that another instance reported, marked with its name and given its status.
pub open spec fn adopted(update: UpdateView, name: Seq<char>) -> UpdateView {
    UpdateView { server: Some(name), status: update.derived_status()->0, ..update }
}

/// The updates that could be read, marked with the name of the instance.
pub open spec fn server_updates(images: Seq<Option<Update>>, name: Seq<char>) -> Seq<UpdateView>
    decreases images.len(),
{
    if images.len() == 0 {
        Seq::empty()
    } else {
        let rest = server_updates(images.drop_last(), name);
        match images.last() {
            Some(update) => rest.push(adopted(update@, name)),
            None => rest,
        }
    }
}

/// What is taken over of an instance's response, if it holds a list of images.
pub open spec fn response_updates(images: Option<Vec<Option<Update>>>, name: Seq<char>) -> Seq<
    UpdateView,
> {
    match images {
        Some(images) => server_updates(images@, name),
        None => Seq::empty(),
    }
}

/// Takes over the updates that the instance `name` reported: `None` for a response without a
/// list of images (see [`server_images`]), and `None` in the list for an image that could not be
/// read.
pub fn get_server_updates(name: &str, images: Option<Vec<Option<Update>>>) -> (r: Vec<Update>)
    requires
        images matches Some(images) ==> forall|i: int|
            0 <= i < images@.len() ==> ((#[trigger] images@[i]) matches Some(update)
                ==> update@.derived_status() is Some),
    ensures
        update_views(r@) == response_updates(images, name@),
{
    let mut r: Vec<Update> = Vec::new();
    assert(update_views(r@) =~= Seq::<UpdateView>::empty());
    let images = match images {
        Some(images) => images,
        None => {
            return r;
        },
    };
    let mut i: usize = 0;
    assert(images@.take(0) =~= Seq::<Option<Update>>::empty());
    while i < images.len()
        invariant
            i <= images@.len(),
            forall|i: int|
                0 <= i < images@.len() ==> ((#[trigger] images@[i]) matches Some(update)
                    ==> update@.derived_status() is Some),
            update_views(r@) == server_updates(images@.take(i as int), name@),
        decreases images@.len() - i,
    {
        assert(images@.take(i + 1).drop_last() =~= images@.take(i as int));
        assert(images@.take(i + 1).last() == images@[i as int]);
        if let Some(update) = &images[i] {
            let mut found = update.clone();
            found.status = update.get_status();
            found.server = Some(name.to_owned());
            let ghost earlier = update_views(r@);
            assert(found@ == adopted(update@, name@));
            r.push(found);
            assert(update_views(r@) =~= earlier.push(found@));
        }
        i += 1;
    }
    assert(images@.take(images@.len() as int) =~= images@);
    r
}

/// The updates of all instances that answered in time, one instance after the other.
pub open spec fn merged(replies: Seq<Option<Vec<Update>>>) -> Seq<UpdateView>
    decreases replies.len(),
{
    if replies.len() == 0 {
        Seq::empty()
    } else {
        merged(replies.drop_last()) + match replies.last() {
            Some(updates) => update_views(updates@),
            None => Seq::empty(),
        }
    }
}

/// Puts together what the other instances reported. One that did not answer in time, `None`,
/// contributes nothing.
pub fn get_remote_updates(replies: Vec<Option<Vec<Update>>>) -> (r: Vec<Update>)
    ensures
        update_views(r@) == merged(replies@),
{
    let mut r: Vec<Update> = Vec::new();
    let mut i: usize = 0;
    assert(update_views(r@) =~= merged(replies@.take(0)));
    while i < replies.len()
        invariant
            i <= replies@.len(),
            update_views(r@) == merged(replies@.take(i as int)),
        decreases replies@.len() - i,
    {
        assert(replies@.take(i + 1).drop_last() =~= replies@.take(i as int));
        assert(replies@.take(i + 1).last() == replies@[i as int]);
        if let Some(updates) = &replies[i] {
            let ghost earlier = update_views(r@);
            let mut j: usize = 0;
            assert(update_views(updates@.take(0)) =~= Seq::<UpdateView>::empty());
            while j < updates.len()
                invariant
                    j <= updates@.len(),
                    update_views(r@) == earlier + update_views(updates@.take(j as int)),
                decreases updates@.len() - j,
            {
                let ghost so_far = update_views(r@);
                let update = updates[j].clone();
                r.push(update);
                assert(update_views(r@) =~= so_far.push(update@));
                assert(update_views(updates@.take(j + 1)) =~= update_views(
                    updates@.take(j as int),
                ).push(updates@[j as int]@));
                assert(update_views(r@) =~= earlier + update_views(updates@.take(j + 1)));
                j += 1;
            }
            assert(updates@.take(updates@.len() as int) =~= updates@);
        }
        i += 1;
        assert(update_views(r@) =~= merged(replies@.take(i as int)));
    }
    assert(replies@.take(replies@.len() as int) =~= replies@);
    r
}

/// The tags that `exclude` rules out for the image named `name`.
pub open spec fn excluded_tags(exclude: Seq<Seq<char>>, name: Seq<char>) -> Seq<Seq<char>>
    decreases exclude.len(),
{
    if exclude.len() == 0 {
        Seq::empty()
    } else {
        let rest = excluded_tags(exclude.drop_last(), name);
        let tag = parts_of(exclude.last()).tag;
        if name.is_prefix_of(exclude.last()) && tag != "latest"@ {
            rest.push(tag)
        } else {
            rest
        }
    }
}

/// Returns the tag prefixes that are excluded for an image: the tags of the configured
/// exclusions that begin with the image's name. An exclusion without a tag, or of `latest`,
/// excludes no prefix.
pub fn get_excluded_tags(image: &Image, ctx: &Context) -> (r: Vec<String>)
    ensures
        views(r@) == excluded_tags(
            views(ctx.config.images.exclude@),
            before(image.reference@, ':'),
        ),
{
    let reference = image.reference.as_str();
    let name = slice(reference, 0, find(reference, ':'));
    assert(name@ =~= before(reference@, ':'));
    let exclude = &ctx.config.images.exclude;
    let ghost all = views(exclude@);
    let mut r: Vec<String> = Vec::new();
    let mut i: usize = 0;
    assert(views(r@) =~= excluded_tags(all.take(0), name@));
    while i < exclude.len()
        invariant
            i <= exclude@.len(),
            all == views(exclude@),
            views(r@) == excluded_tags(all.take(i as int), name@),
        decreases exclude@.len() - i,
    {
        let item = exclude[i].as_str();
        assert(all.take(i + 1).drop_last() =~= all.take(i as int));
        assert(all.take(i + 1).last() == item@);
        if starts_with(item, name.as_str()) {
            let tag = split(item).tag;
            if !same(tag.as_str(), "latest") {
                let ghost earlier = views(r@);
                r.push(tag);
                assert(views(r@) =~= earlier.push(tag@));
            }
        }
        i += 1;
    }
    assert(all.take(exclude@.len() as int) =~= all);
    r
}

/// The texts that are not among `others`, in order.
pub open spec fn without(items: Seq<Seq<char>>, others: Seq<Seq<char>>) -> Seq<Seq<char>> {
    items.filter(|item: Seq<char>| !others.contains(item))
}

/// The references to check even if the daemon does not know them: the ones that were asked for,
/// merged with the configured ones.
pub open spec fn extra_references(references: Option<Vec<String>>, ctx: Context) -> Seq<Seq<char>> {
    let configured = views(ctx.config.images.extra@);
    match references {
        Some(references) => views(references@) + without(configured, views(references@)),
        None => configured,
    }
}

/// Merges the references that were asked for with the configured ones.
fn merge_references(references: &Option<Vec<String>>, ctx: &Context) -> (r: Vec<String>)
    ensures
        views(r@) == extra_references(*references, *ctx),
{
    let extra = &ctx.config.images.extra;
    let asked = match references {
        Some(asked) => asked,
        None => {
            return clone_strings(extra);
        },
    };
    let ghost first = views(asked@);
    let ghost all = views(extra@);
    let ghost keep = |item: Seq<char>| !first.contains(item);
    let mut r = clone_strings(asked);
    let mut i: usize = 0;
    proof {
        reveal(Seq::filter);
        assert(views(r@) =~= first + all.take(0).filter(keep));
    }
    while i < extra.len()
        invariant
            i <= extra@.len(),
            first == views(asked@),
            all == views(extra@),
            keep == (|item: Seq<char>| !first.contains(item)),
            views(r@) == first + all.take(i as int).filter(keep),
        decreases extra@.len() - i,
    {
        let item = &extra[i];
        proof {
            reveal(Seq::filter);
            assert(all.take(i + 1).drop_last() =~= all.take(i as int));
            assert(all.take(i + 1).last() == item@);
        }
        if !contains_text(asked, item.as_str()) {
            let ghost earlier = views(r@);
            let owned = item.clone();
            r.push(owned);
            assert(views(r@) =~= earlier.push(owned@));
            assert(views(r@) =~= first + all.take(i + 1).filter(keep));
        }
        i += 1;
    }
    assert(all.take(extra@.len() as int) =~= all);
    r
}

/// Images with their use filled in.
pub open spec fn with_use(images: Seq<ImageView>, in_use: Seq<Seq<char>>) -> Seq<ImageView> {
    images.map_values(
        |image: ImageView|
            ImageView { in_use: image.in_use || in_use.contains(image.reference), ..image },
    )
}

/// The references of some images.
pub open spec fn references_of(images: Seq<ImageView>) -> Seq<Seq<char>> {
    images.map_values(|image: ImageView| image.reference)
}

/// The images of the references that are not among `known`.
pub open spec fn missing_images(references: Seq<Seq<char>>, known: Seq<Seq<char>>) -> Seq<ImageView>
    decreases references.len(),
{
    if references.len() == 0 {
        Seq::empty()
    } else {
        let rest = missing_images(references.drop_last(), known);
        if known.contains(references.last()) {
            rest
        } else {
            rest.push(referenced_image(references.last()))
        }
    }
}

/// All images to check.
pub open spec fn images_to_check(
    images: Seq<ImageView>,
    in_use: Seq<Seq<char>>,
    references: Seq<Seq<char>>,
) -> Seq<ImageView> {
    with_use(images, in_use) + missing_images(references, references_of(images))
}

/// The images to check when the daemon knows some, containers use some, and some references were
/// asked for or are configured.
pub open spec fn collected(
    references: Option<Vec<String>>,
    ctx: Context,
    daemon: Seq<ImageView>,
    in_use: Seq<Seq<char>>,
) -> Seq<ImageView> {
    images_to_check(daemon, in_use, extra_references(references, ctx))
}

/// Collects the images to check: those of the daemon, marked as in use where a container uses
/// them, and those of the references that the daemon does not know. References that were asked
/// for are merged with the configured ones.
pub fn collect_images(
    references: &Option<Vec<String>>,
    ctx: &Context,
    daemon_images: Vec<Image>,
    in_use_images: &Vec<String>,
) -> (r: Vec<Image>)
    ensures
        image_views(r@) == collected(
            *references,
            *ctx,
            image_views(daemon_images@),
            views(in_use_images@),
        ),
{
    let ghost daemon = image_views(daemon_images@);
    let ghost in_use = views(in_use_images@);
    let mut known: TextMap<bool> = TextMap::new();
    let mut r: Vec<Image> = Vec::new();
    let mut i: usize = 0;
    assert(image_views(r@) =~= with_use(daemon, in_use).take(0));
    while i < daemon_images.len()
        invariant
            i <= daemon_images@.len(),
            daemon == image_views(daemon_images@),
            in_use == views(in_use_images@),
            image_views(r@) == with_use(daemon, in_use).take(i as int),
            forall|k: Seq<char>| #[trigger]
                known@.contains_key(k) <==> references_of(daemon).take(i as int).contains(k),
        decreases daemon_images@.len() - i,
    {
        let mut image = daemon_images[i].clone();
        let ghost image_view = image@;
        if contains_text(in_use_images, image.reference.as_str()) {
            image.in_use = true;
        }
        let ghost names = references_of(daemon);
        let ghost had = known@;
        known.insert(image.reference.clone(), true);
        let ghost earlier = image_views(r@);
        r.push(image);
        proof {
            assert(image_views(r@) =~= earlier.push(image@));
            assert(with_use(daemon, in_use).take(i + 1) =~= with_use(daemon, in_use).take(
                i as int,
            ).push(with_use(daemon, in_use)[i as int]));
            assert(daemon[i as int] == image_view);
            assert(names.take(i + 1) =~= names.take(i as int).push(image_view.reference));
            assert forall|k: Seq<char>| #[trigger]
                known@.contains_key(k) <==> names.take(i + 1).contains(k) by {
                let shorter = names.take(i as int);
                let longer = names.take(i + 1);
                assert(had.contains_key(k) <==> shorter.contains(k));
                if longer.contains(k) && k != image_view.reference {
                    let j = choose|j: int| 0 <= j < longer.len() && longer[j] == k;
                    assert(shorter[j] == k);
                }
                if shorter.contains(k) {
                    let j = choose|j: int| 0 <= j < shorter.len() && shorter[j] == k;
                    assert(longer[j] == k);
                }
                assert(longer[i as int] == image_view.reference);
            }
        }
        i += 1;
    }
    let ghost names = references_of(daemon);
    assert(names.take(daemon_images@.len() as int) =~= names);
    assert(with_use(daemon, in_use).take(daemon_images@.len() as int) =~= with_use(daemon, in_use));
    let extra = merge_references(references, ctx);
    let ghost all = views(extra@);
    let ghost local = image_views(r@);
    let mut j: usize = 0;
    assert(local + missing_images(all.take(0), names) =~= local);
    while j < extra.len()
        invariant
            j <= extra@.len(),
            all == views(extra@),
            names == references_of(daemon),
            forall|k: Seq<char>| #[trigger] known@.contains_key(k) <==> names.contains(k),
            image_views(r@) == local + missing_images(all.take(j as int), names),
        decreases extra@.len() - j,
    {
        let reference = extra[j].as_str();
        assert(all.take(j + 1).drop_last() =~= all.take(j as int));
        assert(all.take(j + 1).last() == reference@);
        if !known.contains(reference) {
            let image = Image::from_reference(reference);
            let ghost earlier = image_views(r@);
            r.push(image);
            assert(image_views(r@) =~= earlier.push(image@));
            assert(image_views(r@) =~= local + missing_images(all.take(j + 1), names));
        }
        j += 1;
    }
    assert(all.take(extra@.len() as int) =~= all);
    r
}

/// Whether an image is left out: its registry is ignored, or its reference begins with an
/// excluded prefix.
pub open spec fn skipped(image: ImageView, ctx: Context) -> bool {
    ctx.ignores(image.parts.registry) || excluded(image.reference, views(ctx.config.images.exclude@))
}

/// What [`ImageCheck`] stands for.
#[verifier::ext_equal]
pub struct CheckView {
    pub image: ImageView,
    pub token: Option<Seq<char>>,
    pub excluded_tags: Seq<Seq<char>>,
}

/// An image to ask its registry about.
#[derive(Debug, PartialEq)]
pub struct ImageCheck {
    pub image: Image,
    /// The token to ask with.
    pub token: Option<String>,
    /// The prefixes of tags not to consider.
    pub excluded_tags: Vec<String>,
}

impl View for ImageCheck {
    type V = CheckView;

    open spec fn view(&self) -> CheckView {
        CheckView {
            image: self.image@,
            token: view_of(self.token),
            excluded_tags: views(self.excluded_tags@),
        }
    }
}

/// What to do with the images.
#[derive(Debug, PartialEq)]
pub struct CheckPlan {
    /// The images to ask their registries about.
    pub checks: Vec<ImageCheck>,
    /// The images for which there is no token. Asking about them would only fail again.
    pub errored: Vec<Image>,
}

/// What to do with an image.
pub enum PlanView {
    /// Nothing.
    Skip,
    /// Report it as it is: there is no token for it.
    Report(ImageView),
    /// Ask the registry about it.
    Ask(CheckView),
}

/// What to do with an image.
pub open spec fn image_plan(
    image: ImageView,
    ctx: Context,
    access: Map<Seq<char>, AccessView>,
) -> PlanView {
    let tags = excluded_tags(views(ctx.config.images.exclude@), before(image.reference, ':'));
    if skipped(image, ctx) {
        PlanView::Skip
    } else {
        match access[image.parts.registry] {
            AccessView::Open => PlanView::Ask(
                CheckView { image, token: None, excluded_tags: tags },
            ),
            AccessView::Tokens(tokens) => match tokens[image.parts.repository] {
                Ok(token) => PlanView::Ask(
                    CheckView { image, token: Some(token), excluded_tags: tags },
                ),
                Err(message) => PlanView::Report(ImageView { error: Some(message), ..image }),
            },
        }
    }
}

/// The images to ask about, in order.
pub open spec fn planned_checks(
    images: Seq<ImageView>,
    ctx: Context,
    access: Map<Seq<char>, AccessView>,
) -> Seq<CheckView>
    decreases images.len(),
{
    if images.len() == 0 {
        Seq::empty()
    } else {
        let rest = planned_checks(images.drop_last(), ctx, access);
        match image_plan(images.last(), ctx, access) {
            PlanView::Ask(check) => rest.push(check),
            _ => rest,
        }
    }
}

/// The images without a token, in order.
pub open spec fn planned_reports(
    images: Seq<ImageView>,
    ctx: Context,
    access: Map<Seq<char>, AccessView>,
) -> Seq<ImageView>
    decreases images.len(),
{
    if images.len() == 0 {
        Seq::empty()
    } else {
        let rest = planned_reports(images.drop_last(), ctx, access);
        match image_plan(images.last(), ctx, access) {
            PlanView::Report(image) => rest.push(image),
            _ => rest,
        }
    }
}

/// Whether it is known how to ask about every image that is not left out.
pub open spec fn plannable(
    images: Seq<ImageView>,
    ctx: Context,
    access: Map<Seq<char>, AccessView>,
) -> bool {
    forall|i: int|
        0 <= i < images.len() && !skipped(#[trigger] images[i], ctx) ==> covered(
            access,
            images[i],
        )
}

/// The views of a list of checks.
pub open spec fn check_views(checks: Seq<ImageCheck>) -> Seq<CheckView> {
    checks.map_values(|check: ImageCheck| check@)
}

fn is_skipped(image: &Image, ctx: &Context) -> (r: bool)
    ensures
        r == skipped(image@, *ctx),
{
    ctx.is_ignored(image.parts.registry.as_str()) || is_excluded_tag(
        image.reference.as_str(),
        &ctx.config.images.exclude,
    )
}

/// Whether it is known how to ask about every image that is not left out.
pub fn can_plan(images: &Vec<Image>, ctx: &Context, access: &TextMap<Access>) -> (r: bool)
    ensures
        r == plannable(image_views(images@), *ctx, access_views(access@)),
{
    let ghost all = image_views(images@);
    let ghost known = access_views(access@);
    let mut i: usize = 0;
    while i < images.len()
        invariant
            i <= images@.len(),
            all == image_views(images@),
            known == access_views(access@),
            forall|j: int|
                0 <= j < i && !skipped(#[trigger] all[j], *ctx) ==> covered(known, all[j]),
        decreases images@.len() - i,
    {
        let image = &images[i];
        assert(all[i as int] == image@);
        if !is_skipped(image, ctx) {
            let known_here = match access.get(image.parts.registry.as_str()) {
                Some(found) => match found {
                    Access::Open => true,
                    Access::Tokens(tokens) => tokens.contains(image.parts.repository.as_str()),
                },
                None => false,
            };
            if !known_here {
                assert(!covered(known, all[i as int]));
                return false;
            }
        }
        i += 1;
    }
    true
}

/// Decides what to do with each image, once it is known how to ask the registries.
pub fn plan_checks(images: &Vec<Image>, ctx: &Context, access: &TextMap<Access>) -> (r: CheckPlan)
    requires
        plannable(image_views(images@), *ctx, access_views(access@)),
    ensures
        check_views(r.checks@) == planned_checks(
            image_views(images@),
            *ctx,
            access_views(access@),
        ),
        image_views(r.errored@) == planned_reports(
            image_views(images@),
            *ctx,
            access_views(access@),
        ),
{
    let ghost all = image_views(images@);
    let ghost known = access_views(access@);
    let mut checks: Vec<ImageCheck> = Vec::new();
    let mut errored: Vec<Image> = Vec::new();
    let mut i: usize = 0;
    assert(check_views(checks@) =~= planned_checks(all.take(0), *ctx, known));
    assert(image_views(errored@) =~= planned_reports(all.take(0), *ctx, known));
    while i < images.len()
        invariant
            i <= images@.len(),
            all == image_views(images@),
            known == access_views(access@),
            plannable(all, *ctx, known),
            check_views(checks@) == planned_checks(all.take(i as int), *ctx, known),
            image_views(errored@) == planned_reports(all.take(i as int), *ctx, known),
        decreases images@.len() - i,
    {
        let image = &images[i];
        assert(all.take(i + 1).drop_last() =~= all.take(i as int));
        assert(all.take(i + 1).last() == image@);
        assert(all[i as int] == image@);
        if !is_skipped(image, ctx) {
            assert(covered(known, image@));
            let token = match access.get(image.parts.registry.as_str()).unwrap() {
                Access::Open => Ok(None),
                Access::Tokens(tokens) => match tokens.get(
                    image.parts.repository.as_str(),
                ).unwrap() {
                    Ok(token) => Ok(Some(token.clone())),
                    Err(message) => Err(message.clone()),
                },
            };
            match token {
                Ok(token) => {
                    let check = ImageCheck {
                        image: image.clone(),
                        token,
                        excluded_tags: get_excluded_tags(image, ctx),
                    };
                    let ghost earlier = check_views(checks@);
                    checks.push(check);
                    assert(check_views(checks@) =~= earlier.push(check@));
                },
                Err(message) => {
                    let mut report = image.clone();
                    report.error = Some(message);
                    let ghost earlier = image_views(errored@);
                    errored.push(report);
                    assert(image_views(errored@) =~= earlier.push(report@));
                },
            }
        }
        i += 1;
    }
    assert(all.take(images@.len() as int) =~= all);
    CheckPlan { checks, errored }
}

/// An update with what is known of the compose projects that use its image.
pub open spec fn with_compose(
    update: UpdateView,
    compose: Map<Seq<char>, Seq<ComposeContainerView>>,
) -> UpdateView {
    if compose.contains_key(update.reference) {
        UpdateView {
            compose_managed: compose[update.reference].len() > 0,
            compose: compose[update.reference],
            ..update
        }
    } else {
        update
    }
}

/// What is reported of checked images.
pub open spec fn reports(
    images: Seq<ImageView>,
    compose: Map<Seq<char>, Seq<ComposeContainerView>>,
) -> Seq<UpdateView> {
    images.map_values(|image: ImageView| with_compose(image.update(), compose))
}

/// All that is reported: the checked images, then those without a token, and then what other
/// instances reported.
pub open spec fn full_report(
    checked: Seq<ImageView>,
    errored: Seq<ImageView>,
    compose: Map<Seq<char>, Seq<ComposeContainerView>>,
    remote: Seq<UpdateView>,
) -> Seq<UpdateView> {
    reports(checked, compose) + reports(errored, compose) + remote
}

fn report(image: &Image, compose: &TextMap<Vec<ComposeContainer>>) -> (r: Update)
    requires
        image@.settled(),
    ensures
        r@ == with_compose(image@.update(), group_views(compose@)),
{
    let mut update = image.to_update();
    if let Some(containers) = compose.get(update.reference.as_str()) {
        update.compose_managed = containers.len() > 0;
        update.compose = clone_containers(containers);
    }
    update
}

/// Puts the report together: the checked images, then those without a token, each with what is
/// known of the compose projects that use it, and then what other instances reported.
pub fn get_updates(
    checked: &Vec<Image>,
    errored: &Vec<Image>,
    compose: &TextMap<Vec<ComposeContainer>>,
    remote_updates: Vec<Update>,
) -> (r: Vec<Update>)
    requires
        forall|i: int| 0 <= i < checked@.len() ==> (#[trigger] checked@[i])@.settled(),
        forall|i: int| 0 <= i < errored@.len() ==> (#[trigger] errored@[i])@.settled(),
    ensures
        update_views(r@) == full_report(
            image_views(checked@),
            image_views(errored@),
            group_views(compose@),
            update_views(remote_updates@),
        ),
{
    let ghost groups = group_views(compose@);
    let ghost first = reports(image_views(checked@), groups);
    let ghost second = reports(image_views(errored@), groups);
    let mut r: Vec<Update> = Vec::new();
    let mut i: usize = 0;
    assert(update_views(r@) =~= first.take(0));
    while i < checked.len()
        invariant
            i <= checked@.len(),
            groups == group_views(compose@),
            first == reports(image_views(checked@), groups),
            forall|i: int| 0 <= i < checked@.len() ==> (#[trigger] checked@[i])@.settled(),
            update_views(r@) == first.take(i as int),
        decreases checked@.len() - i,
    {
        let update = report(&checked[i], compose);
        let ghost earlier = update_views(r@);
        r.push(update);
        assert(update_views(r@) =~= earlier.push(update@));
        assert(first.take(i + 1) =~= first.take(i as int).push(first[i as int]));
        i += 1;
    }
    let mut j: usize = 0;
    assert(first.take(checked@.len() as int) =~= first);
    assert(first + second.take(0) =~= first);
    while j < errored.len()
        invariant
            j <= errored@.len(),
            groups == group_views(compose@),
            second == reports(image_views(errored@), groups),
            forall|i: int| 0 <= i < errored@.len() ==> (#[trigger] errored@[i])@.settled(),
            update_views(r@) == first + second.take(j as int),
        decreases errored@.len() - j,
    {
        let update = report(&errored[j], compose);
        let ghost earlier = update_views(r@);
        r.push(update);
        assert(update_views(r@) =~= earlier.push(update@));
        assert(second.take(j + 1) =~= second.take(j as int).push(second[j as int]));
        assert(update_views(r@) =~= first + second.take(j + 1));
        j += 1;
    }
    assert(second.take(errored@.len() as int) =~= second);
    let mut remote_updates = remote_updates;
    let ghost local = r@;
    let ghost remote = remote_updates@;
    r.append(&mut remote_updates);
    assert(update_views(r@) =~= update_views(local) + update_views(remote));
    r
}

/// The images that are not left out are divided between those to ask about and those to report,
/// and nothing else is. What is reported has an error, and is otherwise the image.
pub proof fn law_every_image_is_planned(
    images: Seq<ImageView>,
    ctx: Context,
    access: Map<Seq<char>, AccessView>,
)
    ensures
        planned_checks(images, ctx, access).len() + planned_reports(images, ctx, access).len()
            == images.filter(|image: ImageView| !skipped(image, ctx)).len(),
        forall|i: int|
            0 <= i < images.len() ==> match image_plan(#[trigger] images[i], ctx, access) {
                PlanView::Skip => skipped(images[i], ctx),
                PlanView::Ask(check) => check.image == images[i] && planned_checks(
                    images,
                    ctx,
                    access,
                ).contains(check),
                PlanView::Report(image) => image.settled() && image == (ImageView {
                    error: image.error,
                    ..images[i]
                }) && planned_reports(images, ctx, access).contains(image),
            },
        forall|k: int|
            0 <= k < planned_checks(images, ctx, access).len() ==> {
                let image = (#[trigger] planned_checks(images, ctx, access)[k]).image;
                images.contains(image) && !skipped(image, ctx)
            },
        forall|k: int|
            0 <= k < planned_reports(images, ctx, access).len() ==> (
            #[trigger] planned_reports(images, ctx, access)[k]).settled(),
    decreases images.len(),
{
    reveal(Seq::filter);
    if images.len() > 0 {
        let shorter = images.drop_last();
        let last = images.last();
        law_every_image_is_planned(shorter, ctx, access);
        let old_checks = planned_checks(shorter, ctx, access);
        let checks = planned_checks(images, ctx, access);
        let old_reports = planned_reports(shorter, ctx, access);
        let reports = planned_reports(images, ctx, access);
        assert forall|i: int| 0 <= i < images.len() implies match image_plan(
            #[trigger] images[i],
            ctx,
            access,
        ) {
            PlanView::Skip => skipped(images[i], ctx),
            PlanView::Ask(check) => check.image == images[i] && checks.contains(check),
            PlanView::Report(image) => image.settled() && image == (ImageView {
                error: image.error,
                ..images[i]
            }) && reports.contains(image),
        } by {
            if i < images.len() - 1 {
                assert(shorter[i] == images[i]);
                match image_plan(shorter[i], ctx, access) {
                    PlanView::Ask(check) => {
                        let k = choose|k: int|
                            0 <= k < old_checks.len() && old_checks[k] == check;
                        assert(checks[k] == check);
                    },
                    PlanView::Report(image) => {
                        let k = choose|k: int|
                            0 <= k < old_reports.len() && old_reports[k] == image;
                        assert(reports[k] == image);
                    },
                    PlanView::Skip => {},
                }
            } else {
                match image_plan(last, ctx, access) {
                    PlanView::Ask(check) => {
                        assert(checks[checks.len() - 1] == check);
                    },
                    PlanView::Report(image) => {
                        assert(reports[reports.len() - 1] == image);
                    },
                    PlanView::Skip => {},
                }
            }
        }
        assert forall|k: int| 0 <= k < checks.len() implies images.contains(
            (#[trigger] checks[k]).image,
        ) && !skipped(checks[k].image, ctx) by {
            if k < old_checks.len() {
                assert(old_checks[k] == checks[k]);
                let i = choose|i: int| 0 <= i < shorter.len() && shorter[i] == checks[k].image;
                assert(images[i] == checks[k].image);
            } else {
                assert(images[images.len() - 1] == checks[k].image);
            }
        }
        assert forall|k: int| 0 <= k < reports.len() implies (#[trigger] reports[k]).settled() by {
            if k < old_reports.len() {
                assert(old_reports[k] == reports[k]);
            }
        }
    }
}

/// Once a session is finished, every image can be planned. An image is asked about without a
/// token if its registry wants none, and otherwise with the token of the batch that holds its
/// repository. If there is no such token, the image is reported with the error for that batch,
/// and the images of other batches are not affected.
pub proof fn law_tokens_reach_their_images(
    images: Seq<ImageView>,
    ctx: Context,
    session: SessionView,
    auth: AuthAnswers,
    grant: TokenAnswers,
    i: int,
)
    requires
        session.follows(auth, grant),
        session.tasks == tasks_of(images, ctx),
        session.action() is Finished,
        0 <= i < images.len(),
    ensures
        plannable(images, ctx, session.access),
        match (image_plan(images[i], ctx, session.access), auth(images[i].parts.registry)) {
            (PlanView::Skip, _) => skipped(images[i], ctx),
            (PlanView::Ask(check), None) => check.token is None,
            (PlanView::Ask(check), Some(auth_url)) => exists|b: int|
                in_batch(images, images[i], b) && check.token is Some && grant(
                    images[i].parts.registry,
                    auth_url,
                    #[trigger] batch_of(images, images[i], b),
                ) == Ok::<Seq<char>, Seq<char>>(check.token->0),
            (PlanView::Report(_), None) => false,
            (PlanView::Report(image), Some(auth_url)) => exists|b: int|
                in_batch(images, images[i], b) && image.error is Some && grant(
                    images[i].parts.registry,
                    auth_url,
                    #[trigger] batch_of(images, images[i], b),
                ) == Err::<Seq<char>, Seq<char>>(image.error->0),
        },
{
    assert forall|j: int| 0 <= j < images.len() && !skipped(#[trigger] images[j], ctx) implies covered(
        session.access,
        images[j],
    ) by {
        law_session_result(images, ctx, session, auth, grant, j);
    }
    if !skipped(images[i], ctx) {
        law_session_result(images, ctx, session, auth, grant, i);
        if let Some(auth_url) = auth(images[i].parts.registry) {
            let task = task_of(images, images[i].parts.registry);
            let b = choose|b: int|
                0 <= b < task.batches.len() && (#[trigger] task.batches[b]).contains(
                    images[i].parts.repository,
                )
                    && session.access[images[i].parts.registry]->Tokens_0[images[i].parts.repository]
                    == grant(images[i].parts.registry, auth_url, task.batches[b]);
            assert(in_batch(images, images[i], b));
            assert(batch_of(images, images[i], b) == task.batches[b]);
        }
    }
}

/// A batch of repositories of an image's registry.
pub open spec fn batch_of(images: Seq<ImageView>, image: ImageView, b: int) -> Seq<Seq<char>> {
    task_of(images, image.parts.registry).batches[b]
}

/// Whether an image's repository is in a batch.
pub open spec fn in_batch(images: Seq<ImageView>, image: ImageView, b: int) -> bool {
    0 <= b < task_of(images, image.parts.registry).batches.len() && batch_of(
        images,
        image,
        b,
    ).contains(image.parts.repository)
}

/// A report that another instance receives is given the status of the image again. The
/// containers do not come along. All the rest does, the mark of a compose project included, and
/// the report is marked with where it came from.
pub proof fn law_received_reports_keep_their_status(
    image: ImageView,
    groups: Map<Seq<char>, Seq<ComposeContainerView>>,
    name: Seq<char>,
)
    requires
        image.settled(),
    ensures
        ({
            let report = with_compose(image.update(), groups);
            let received = report.shared().received(Seq::empty());
            &&& received.derived_status() == Some(image.status())
            &&& adopted(received, name) == (UpdateView {
                server: Some(name),
                compose: Seq::empty(),
                ..report
            })
        }),
{
    law_report_keeps_status(image);
}

/// What an instance takes over of the updates that another one shares: each of them, in order,
/// without containers, and with reference, parts, URL, result, time, use and the mark of a
/// compose project as they were.
pub proof fn law_containers_do_not_reach_other_instances(
    sent: Seq<UpdateView>,
    images: Seq<Option<Update>>,
    name: Seq<char>,
)
    requires
        images.len() == sent.len(),
        forall|i: int|
            0 <= i < sent.len() ==> ((#[trigger] images[i]) matches Some(update) && update@
                == sent[i].shared().received(Seq::empty())),
    ensures
        server_updates(images, name).len() == sent.len(),
        forall|i: int|
            0 <= i < sent.len() ==> {
                let update = #[trigger] server_updates(images, name)[i];
                &&& update.compose == Seq::<ComposeContainerView>::empty()
                &&& update.compose_managed == sent[i].compose_managed
                &&& update.reference == sent[i].reference
                &&& update.parts == sent[i].parts
                &&& update.url == sent[i].url
                &&& update.result == sent[i].result
                &&& update.time == sent[i].time
                &&& update.in_use == sent[i].in_use
                &&& update.server == Some(name)
                &&& sent[i].result.status() is Some ==> update.status
                    == sent[i].result.status()->0
            },
    decreases sent.len(),
{
    if sent.len() > 0 {
        let shorter = images.drop_last();
        let fewer = sent.drop_last();
        assert forall|i: int| 0 <= i < fewer.len() implies ((#[trigger] shorter[i]) matches Some(
            update,
        ) && update@ == fewer[i].shared().received(Seq::empty())) by {
            assert(shorter[i] == images[i]);
        }
        law_containers_do_not_reach_other_instances(fewer, shorter, name);
        let rest = server_updates(shorter, name);
        let all = server_updates(images, name);
        let last = images[images.len() - 1];
        assert(last == images.last());
        assert(all == rest.push(adopted(last->0@, name)));
        assert forall|i: int| 0 <= i < sent.len() implies {
            let update = #[trigger] all[i];
            &&& update.compose == Seq::<ComposeContainerView>::empty()
            &&& update.compose_managed == sent[i].compose_managed
            &&& update.reference == sent[i].reference
            &&& update.parts == sent[i].parts
            &&& update.url == sent[i].url
            &&& update.result == sent[i].result
            &&& update.time == sent[i].time
            &&& update.in_use == sent[i].in_use
            &&& update.server == Some(name)
            &&& sent[i].result.status() is Some ==> update.status == sent[i].result.status()->0
        } by {
            if i < fewer.len() {
                assert(all[i] == rest[i]);
                assert(fewer[i] == sent[i]);
            }
        }
    }
}

/// An instance that did not answer in time makes no difference to what the others contribute.
pub proof fn law_silent_instances_contribute_nothing(
    front: Seq<Option<Vec<Update>>>,
    back: Seq<Option<Vec<Update>>>,
)
    ensures
        merged(front.push(None) + back) == merged(front + back),
    decreases back.len(),
{
    let silent = front.push(None);
    if back.len() == 0 {
        assert(silent + back =~= silent);
        assert(front + back =~= front);
        assert(silent.drop_last() =~= front);
        assert(merged(silent) =~= merged(front));
    } else {
        let shorter = back.drop_last();
        assert((silent + back).drop_last() =~= silent + shorter);
        assert((front + back).drop_last() =~= front + shorter);
        law_silent_instances_contribute_nothing(front, shorter);
    }
}

/// `latest` is never one of the excluded tag prefixes: an exclusion without a tag excludes none.
pub proof fn law_latest_is_not_an_excluded_tag(exclude: Seq<Seq<char>>, name: Seq<char>)
    ensures
        !excluded_tags(exclude, name).contains("latest"@),
    decreases exclude.len(),
{
    if exclude.len() > 0 {
        law_latest_is_not_an_excluded_tag(exclude.drop_last(), name);
        let rest = excluded_tags(exclude.drop_last(), name);
        let all = excluded_tags(exclude, name);
        if all.contains("latest"@) {
            let k = choose|k: int| 0 <= k < all.len() && all[k] == "latest"@;
            if k < rest.len() {
                assert(rest[k] == "latest"@);
            }
        }
    }
}

/// Every image of the daemon and every reference is checked, and nothing else is.
pub proof fn law_all_images_are_collected(
    images: Seq<ImageView>,
    in_use: Seq<Seq<char>>,
    references: Seq<Seq<char>>,
    reference: Seq<char>,
)
    ensures
        references_of(images_to_check(images, in_use, references)).contains(reference)
            <==> references_of(images).contains(reference) || references.contains(reference),
{
    let known = references_of(images);
    let local = with_use(images, in_use);
    let missing = missing_images(references, known);
    let all = references_of(images_to_check(images, in_use, references));
    lemma_missing_images(references, known, reference);
    assert(references_of(local) =~= known);
    assert(all =~= known + references_of(missing));
    if all.contains(reference) {
        let k = choose|k: int| 0 <= k < all.len() && all[k] == reference;
        if k < known.len() {
            assert(known[k] == reference);
        } else {
            assert(missing[k - known.len()] == referenced_image(reference));
        }
    }
    if known.contains(reference) {
        let k = choose|k: int| 0 <= k < known.len() && known[k] == reference;
        assert(all[k] == reference);
    } else if references.contains(reference) {
        let k = choose|k: int|
            0 <= k < missing.len() && missing[k] == referenced_image(reference);
        assert(all[known.len() + k] == reference);
    }
}

/// The missing images are those of the references that are not known.
proof fn lemma_missing_images(
    references: Seq<Seq<char>>,
    known: Seq<Seq<char>>,
    reference: Seq<char>,
)
    ensures
        missing_images(references, known).contains(referenced_image(reference))
            <==> references.contains(reference) && !known.contains(reference),
        forall|k: int|
            0 <= k < missing_images(references, known).len() ==> (#[trigger] missing_images(
                references,
                known,
            )[k]) == referenced_image(missing_images(references, known)[k].reference),
    decreases references.len(),
{
    if references.len() > 0 {
        let shorter = references.drop_last();
        lemma_missing_images(shorter, known, reference);
        let image = referenced_image(reference);
        let rest = missing_images(shorter, known);
        let all = missing_images(references, known);
        if all.contains(image) {
            let k = choose|k: int| 0 <= k < all.len() && all[k] == image;
            if k < rest.len() {
                assert(rest[k] == image);
                let j = choose|j: int| 0 <= j < shorter.len() && shorter[j] == reference;
                assert(references[j] == reference);
            } else {
                assert(all[k].reference == references[references.len() - 1]);
            }
        }
        if references.contains(reference) && !known.contains(reference) {
            let j = choose|j: int| 0 <= j < references.len() && references[j] == reference;
            if j < references.len() - 1 {
                assert(shorter[j] == reference);
                let k = choose|k: int| 0 <= k < rest.len() && rest[k] == image;
                assert(all[k] == image);
            } else {
                assert(all[all.len() - 1] == image);
            }
        }
        assert forall|k: int| 0 <= k < all.len() implies (#[trigger] all[k]) == referenced_image(
            all[k].reference,
        ) by {
            if k < rest.len() {
                assert(all[k] == rest[k]);
            }
        }
    }
}

/// What is reported of an image names the running containers of compose projects that use it,
/// and is marked as managed exactly if there are any. The verdict is that on the image.
pub proof fn law_reports_name_their_containers(image: ImageView, containers: Seq<Container>)
    requires
        image.settled(),
    ensures
        ({
            let groups = compose_groups(containers);
            let report = with_compose(image.update(), groups);
            &&& report.compose == group(groups, image.reference)
            &&& report.compose_managed <==> report.compose.len() > 0
            &&& report.status == image.status()
            &&& report.result == image.update().result
            &&& report.server is None
        }),
{
}

/// It makes no difference whether the address of an instance ends with a slash, as long as the
/// slash is not what makes it begin with a protocol.
pub proof fn law_a_slash_at_the_end_makes_no_difference(url: Seq<char>)
    requires
        url.push('/') != "http://"@,
        url.push('/') != "https://"@,
    ensures
        server_base(url.push('/')) == server_base(url),
{
    let longer = url.push('/');
    assert(longer.drop_last() =~= url);
    lemma_prefix_of_push("http://"@, url, '/');
    lemma_prefix_of_push("https://"@, url, '/');
}

proof fn lemma_prefix_of_push(prefix: Seq<char>, s: Seq<char>, c: char)
    requires
        s.push(c) != prefix,
    ensures
        prefix.is_prefix_of(s.push(c)) <==> prefix.is_prefix_of(s),
{
    let longer = s.push(c);
    if prefix.len() <= s.len() {
        assert(longer.subrange(0, prefix.len() as int) =~= s.subrange(0, prefix.len() as int));
    } else if prefix.len() == longer.len() {
        assert(longer.subrange(0, prefix.len() as int) =~= longer);
    }
}

/// An instance is given up exactly if the user is told so.
pub proof fn law_no_instance_is_given_up_silently(url: Seq<char>, event: ServerEvent)
    ensures
        server_step(url, event) is GiveUp <==> server_complaint(url, event) is Some,
{
}

/// The references that were asked for are merged with the configured ones: every one of both is
/// in the result, and nothing else is.
pub proof fn law_references_are_merged(
    references: Option<Vec<String>>,
    ctx: Context,
    reference: Seq<char>,
)
    ensures
        extra_references(references, ctx).contains(reference) <==> (references matches Some(asked)
            && views(asked@).contains(reference)) || views(ctx.config.images.extra@).contains(
            reference,
        ),
{
    let configured = views(ctx.config.images.extra@);
    if let Some(asked) = references {
        let first = views(asked@);
        let keep = |item: Seq<char>| !first.contains(item);
        let rest = without(configured, first);
        let all = extra_references(references, ctx);
        lemma_filter(configured, keep);
        assert(rest == configured.filter(keep));
        assert(rest.contains(reference) <==> configured.contains(reference) && keep(reference));
        if all.contains(reference) {
            let k = choose|k: int| 0 <= k < all.len() && all[k] == reference;
            if k < first.len() {
                assert(first[k] == reference);
            } else {
                assert(rest[k - first.len()] == reference);
            }
        }
        if first.contains(reference) {
            let k = choose|k: int| 0 <= k < first.len() && first[k] == reference;
            assert(all[k] == reference);
        } else if configured.contains(reference) {
            let k = choose|k: int| 0 <= k < rest.len() && rest[k] == reference;
            assert(all[first.len() + k] == reference);
        }
    }
}

/// A reference that the daemon does not know, whether it was asked for or is configured, is
/// reported as an image of this instance, unless it is left out. All that it takes is that the
/// checks keep the references of their images.
pub proof fn law_extra_images_are_reported(
    references: Option<Vec<String>>,
    ctx: Context,
    daemon: Seq<ImageView>,
    in_use: Seq<Seq<char>>,
    access: Map<Seq<char>, AccessView>,
    checked: Seq<ImageView>,
    compose: Map<Seq<char>, Seq<ComposeContainerView>>,
    remote: Seq<UpdateView>,
    reference: Seq<char>,
)
    requires
        (references matches Some(asked) && views(asked@).contains(reference)) || views(
            ctx.config.images.extra@,
        ).contains(reference),
        !references_of(daemon).contains(reference),
        !skipped(referenced_image(reference), ctx),
        ({
            let images = collected(references, ctx, daemon, in_use);
            let checks = planned_checks(images, ctx, access);
            &&& checked.len() == checks.len()
            &&& forall|k: int|
                0 <= k < checks.len() ==> (#[trigger] checked[k]).reference
                    == checks[k].image.reference
        }),
    ensures
        ({
            let images = collected(references, ctx, daemon, in_use);
            let all = reports(checked, compose) + reports(
                planned_reports(images, ctx, access),
                compose,
            ) + remote;
            exists|u: int|
                0 <= u < all.len() && (#[trigger] all[u]).reference == reference
                    && all[u].server is None
        }),
{
    let wanted = extra_references(references, ctx);
    let images = collected(references, ctx, daemon, in_use);
    let checks = planned_checks(images, ctx, access);
    let errored = planned_reports(images, ctx, access);
    let all = reports(checked, compose) + reports(errored, compose) + remote;
    let missing = missing_images(wanted, references_of(daemon));
    law_references_are_merged(references, ctx, reference);
    lemma_missing_images(wanted, references_of(daemon), reference);
    let m = choose|m: int| 0 <= m < missing.len() && missing[m] == referenced_image(reference);
    let i = daemon.len() + m;
    assert(images[i] == referenced_image(reference));
    law_every_image_is_planned(images, ctx, access);
    match image_plan(images[i], ctx, access) {
        PlanView::Ask(check) => {
            let k = choose|k: int| 0 <= k < checks.len() && checks[k] == check;
            assert(checked[k].reference == reference);
            assert(all[k].reference == reference);
        },
        PlanView::Report(image) => {
            let k = choose|k: int| 0 <= k < errored.len() && errored[k] == image;
            assert(all[checked.len() + k].reference == reference);
        },
        PlanView::Skip => {},
    }
}

/// The interface of an instance is below its address. Without a protocol, HTTPS is meant.
pub proof fn law_server_addresses(host: Seq<char>)
    requires
        host.len() > 0,
        host.last() != '/',
    ensures
        "http://"@.is_prefix_of(host) || "https://"@.is_prefix_of(host) ==> server_base(host)
            == host + "/api/v3/"@,
        !"http://"@.is_prefix_of(host) && !"https://"@.is_prefix_of(host) ==> server_base(host)
            == "https://"@ + host + "/api/v3/"@,
{
}

/// An instance is asked to refresh first if that is wanted, and then for its updates. An answer
/// counts only with a status of 200.
pub proof fn law_server_steps(url: Seq<char>, status: ReplyStatus, message: String)
    ensures
        server_step(url, ServerEvent::Start { refresh: true }) == ServerStepView::Refresh(
            server_base(url) + "refresh"@,
        ),
        server_step(url, ServerEvent::Start { refresh: false }) == ServerStepView::Fetch(
            server_base(url) + "json"@,
        ),
        status.code == 200 ==> server_step(url, ServerEvent::Refreshed(Ok(status)))
            == ServerStepView::Fetch(server_base(url) + "json"@),
        status.code == 200 ==> server_step(url, ServerEvent::Fetched(Ok(status))) is Read,
        status.code != 200 ==> server_step(url, ServerEvent::Refreshed(Ok(status))) is GiveUp,
        status.code != 200 ==> server_step(url, ServerEvent::Fetched(Ok(status))) is GiveUp,
        server_step(url, ServerEvent::Refreshed(Err(message))) is GiveUp,
        server_step(url, ServerEvent::Fetched(Err(message))) is GiveUp,
{
}

/// What is said of an instance that is given up names the address that was asked, and the status
/// or the error that came back.
pub proof fn law_server_warnings(url: Seq<char>, status: ReplyStatus, message: String)
    ensures
        server_complaint(url, ServerEvent::Refreshed(Err(message))) == Some(
            "GET "@ + server_base(url) + "refresh"@ + ": Failed to refresh server. "@ + message@,
        ),
        server_complaint(url, ServerEvent::Fetched(Err(message))) == Some(
            "GET "@ + server_base(url) + "json"@ + ": Failed to fetch updates from server. "@
                + message@,
        ),
        status.code != 200 ==> server_complaint(url, ServerEvent::Refreshed(Ok(status))) == Some(
            "GET "@ + server_base(url) + "refresh"@ + ": Failed to refresh server. "@ + (
            "Server returned invalid response code: "@ + status.text@),
        ),
        status.code != 200 ==> server_complaint(url, ServerEvent::Fetched(Ok(status))) == Some(
            "GET "@ + server_base(url) + "json"@ + ": Failed to fetch updates from server. "@ + (
            "Server returned invalid response code: "@ + status.text@),
        ),
{
}

/// Every update of an instance that could be read is taken over, in order. It is marked with the
/// instance's name and has a status, and is otherwise as it was.
pub proof fn law_server_updates_are_taken_over(
    front: Seq<Option<Update>>,
    update: Update,
    back: Seq<Option<Update>>,
    name: Seq<char>,
)
    ensures
        server_updates(front + back, name) == server_updates(front, name) + server_updates(
            back,
            name,
        ),
        server_updates(seq![None], name).len() == 0,
        server_updates(seq![Some(update)], name) == seq![
            UpdateView {
                server: Some(name),
                status: server_updates(seq![Some(update)], name)[0].status,
                ..update@
            },
        ],
        update@.derived_status() is Some ==> server_updates(seq![Some(update)], name)[0].status
            == update@.derived_status()->0,
    decreases back.len(),
{
    if back.len() == 0 {
        assert(front + back =~= front);
    } else {
        assert((front + back).drop_last() =~= front + back.drop_last());
        law_server_updates_are_taken_over(front, update, back.drop_last(), name);
    }
    assert(server_updates(front + back, name) =~= server_updates(front, name) + server_updates(
        back,
        name,
    ));
    let one = seq![Some(update)];
    assert(one.drop_last() =~= Seq::<Option<Update>>::empty());
    assert(one.last() == Some(update));
    assert(server_updates(one.drop_last(), name) =~= Seq::<UpdateView>::empty());
    assert(server_updates(one, name) =~= seq![adopted(update@, name)]);
    let none = seq![None::<Update>];
    assert(none.drop_last() =~= Seq::<Option<Update>>::empty());
    assert(none.last() is None);
    assert(server_updates(none.drop_last(), name) =~= Seq::<UpdateView>::empty());
}

/// All updates of every instance that answered in time are in the result, instance by instance
/// and in order, and there are no others.
pub proof fn law_remote_updates_are_all_merged(
    front: Seq<Option<Vec<Update>>>,
    updates: Vec<Update>,
    back: Seq<Option<Vec<Update>>>,
)
    ensures
        merged(front + back) == merged(front) + merged(back),
        merged(front.push(Some(updates)) + back) == merged(front) + update_views(updates@)
            + merged(back),
        merged(Seq::empty()).len() == 0,
        merged(front.push(Some(updates)) + back).len() == merged(front).len() + updates@.len()
            + merged(back).len(),
        forall|i: int|
            0 <= i < updates@.len() ==> merged(front.push(Some(updates)) + back)[merged(front).len()
                + i] == (#[trigger] updates@[i])@,
{
    lemma_merged(front, back);
    let more = front.push(Some(updates));
    lemma_merged(more, back);
    assert(more.drop_last() =~= front);
    assert(more.last() == Some(updates));
    assert(merged(more) == merged(front) + update_views(updates@));
    assert(update_views(updates@).len() == updates@.len());
    assert forall|i: int| 0 <= i < updates@.len() implies merged(more + back)[merged(front).len()
        + i] == (#[trigger] updates@[i])@ by {
        assert(update_views(updates@)[i] == updates@[i]@);
    }
}

proof fn lemma_merged(front: Seq<Option<Vec<Update>>>, back: Seq<Option<Vec<Update>>>)
    ensures
        merged(front + back) == merged(front) + merged(back),
    decreases back.len(),
{
    if back.len() == 0 {
        assert(front + back =~= front);
    } else {
        assert((front + back).drop_last() =~= front + back.drop_last());
        assert((front + back).last() == back.last());
        lemma_merged(front, back.drop_last());
    }
    assert(merged(front + back) =~= merged(front) + merged(back));
}

/// The tag prefixes that are excluded for an image: the tag of every exclusion that begins with
/// the image's name, in order, but for `latest`.
pub proof fn law_excluded_tags(
    front: Seq<Seq<char>>,
    exclusion: Seq<char>,
    back: Seq<Seq<char>>,
    name: Seq<char>,
    rest: Seq<char>,
)
    ensures
        excluded_tags(front + back, name) == excluded_tags(front, name) + excluded_tags(
            back,
            name,
        ),
        parts_of(name + rest).tag != "latest"@ ==> excluded_tags(seq![name + rest], name) == seq![
            parts_of(name + rest).tag,
        ],
        parts_of(exclusion).tag == "latest"@ ==> excluded_tags(seq![exclusion], name).len() == 0,
        !(exists|tail: Seq<char>| exclusion == #[trigger] (name + tail)) ==> excluded_tags(
            seq![exclusion],
            name,
        ).len() == 0,
    decreases back.len(),
{
    if back.len() == 0 {
        assert(front + back =~= front);
    } else {
        assert((front + back).drop_last() =~= front + back.drop_last());
        law_excluded_tags(front, exclusion, back.drop_last(), name, rest);
    }
    assert(excluded_tags(front + back, name) =~= excluded_tags(front, name) + excluded_tags(
        back,
        name,
    ));
    let item = name + rest;
    assert(item.subrange(0, name.len() as int) =~= name);
    let one = seq![item];
    assert(one.drop_last() =~= Seq::<Seq<char>>::empty());
    assert(one.last() == item);
    assert(excluded_tags(one.drop_last(), name) =~= Seq::<Seq<char>>::empty());
    if parts_of(item).tag != "latest"@ {
        assert(excluded_tags(one, name) =~= seq![parts_of(item).tag]);
    }
    let other = seq![exclusion];
    assert(other.drop_last() =~= Seq::<Seq<char>>::empty());
    assert(other.last() == exclusion);
    assert(excluded_tags(other.drop_last(), name) =~= Seq::<Seq<char>>::empty());
    if name.is_prefix_of(exclusion) {
        assert(exclusion =~= name + exclusion.skip(name.len() as int));
    }
}

/// References that were asked for come first and as they were given. Those that are configured
/// follow, in their order, without the ones that were asked for.
pub proof fn law_references_are_merged_in_order(references: Option<Vec<String>>, ctx: Context)
    ensures
        references is None ==> extra_references(references, ctx) == views(
            ctx.config.images.extra@,
        ),
        references matches Some(asked) ==> {
            let all = extra_references(references, ctx);
            &&& views(asked@).is_prefix_of(all)
            &&& forall|k: int|
                asked@.len() <= k < all.len() ==> !views(asked@).contains(#[trigger] all[k])
            &&& asked@.len() == 0 ==> all == views(ctx.config.images.extra@)
        },
{
    if let Some(asked) = references {
        let first = views(asked@);
        let configured = views(ctx.config.images.extra@);
        let keep = |item: Seq<char>| !first.contains(item);
        let all = extra_references(references, ctx);
        let rest = without(configured, first);
        lemma_filter(configured, keep);
        assert(all.subrange(0, first.len() as int) =~= first);
        assert forall|k: int| asked@.len() <= k < all.len() implies !first.contains(
            #[trigger] all[k],
        ) by {
            assert(all[k] == rest[k - first.len()]);
            assert(rest.contains(all[k]));
        }
        if asked@.len() == 0 {
            lemma_filter_all(configured, keep);
            assert(all =~= configured);
        }
    }
}

proof fn lemma_filter_all<T>(items: Seq<T>, keep: spec_fn(T) -> bool)
    requires
        forall|x: T| #[trigger] keep(x),
    ensures
        items.filter(keep) == items,
    decreases items.len(),
{
    reveal(Seq::filter);
    if items.len() > 0 {
        lemma_filter_all(items.drop_last(), keep);
        assert(keep(items.last()));
        assert(items.filter(keep) =~= items);
    } else {
        assert(items.filter(keep) =~= items);
    }
}

/// The images of the daemon come first, in their order and as they are, but that those which a
/// container uses are marked as in use. The images of further references follow, in the order of
/// the references.
pub proof fn law_collected_images(
    daemon: Seq<ImageView>,
    in_use: Seq<Seq<char>>,
    front: Seq<Seq<char>>,
    reference: Seq<char>,
    back: Seq<Seq<char>>,
    i: int,
)
    ensures
        ({
            let known = references_of(daemon);
            let images = images_to_check(daemon, in_use, front);
            &&& 0 <= i < daemon.len() ==> {
                &&& images[i] == (ImageView { in_use: images[i].in_use, ..daemon[i] })
                &&& images[i].in_use <==> daemon[i].in_use || exists|k: int|
                    0 <= k < in_use.len() && #[trigger] in_use[k] == daemon[i].reference
            }
            &&& images.len() == daemon.len() + missing_images(front, known).len()
            &&& images.skip(daemon.len() as int) == missing_images(front, known)
            &&& missing_images(front + back, known) == missing_images(front, known)
                + missing_images(back, known)
            &&& (exists|k: int| 0 <= k < daemon.len() && (#[trigger] daemon[k]).reference
                == reference) ==> missing_images(seq![reference], known).len() == 0
            &&& (forall|k: int| 0 <= k < daemon.len() ==> (#[trigger] daemon[k]).reference
                != reference) ==> missing_images(seq![reference], known) == seq![
                referenced_image(reference),
            ]
        }),
    decreases back.len(),
{
    let known = references_of(daemon);
    let images = images_to_check(daemon, in_use, front);
    if back.len() == 0 {
        assert(front + back =~= front);
    } else {
        assert((front + back).drop_last() =~= front + back.drop_last());
        law_collected_images(daemon, in_use, front, reference, back.drop_last(), i);
    }
    assert(missing_images(front + back, known) =~= missing_images(front, known) + missing_images(
        back,
        known,
    ));
    assert(images.skip(daemon.len() as int) =~= missing_images(front, known));
    let one = seq![reference];
    assert(one.drop_last() =~= Seq::<Seq<char>>::empty());
    assert(one.last() == reference);
    assert(missing_images(one.drop_last(), known) =~= Seq::<ImageView>::empty());
    if exists|k: int| 0 <= k < daemon.len() && (#[trigger] daemon[k]).reference == reference {
        let k = choose|k: int|
            0 <= k < daemon.len() && (#[trigger] daemon[k]).reference == reference;
        assert(known[k] == reference);
    } else {
        assert(!known.contains(reference)) by {
            if known.contains(reference) {
                let k = choose|k: int| 0 <= k < known.len() && known[k] == reference;
                assert(daemon[k].reference == reference);
            }
        }
        assert(missing_images(one, known) =~= seq![referenced_image(reference)]);
    }
}

/// No check and no report is planned of an image whose registry is set to be ignored, or whose
/// reference begins with an exclusion. Every other image is either to be asked about, as it is,
/// or to be reported with an error.
pub proof fn law_exclusions_leave_images_out(
    images: Seq<ImageView>,
    ctx: Context,
    access: Map<Seq<char>, AccessView>,
)
    ensures
        ({
            let checks = planned_checks(images, ctx, access);
            let errored = planned_reports(images, ctx, access);
            let exclude = ctx.config.images.exclude@;
            &&& forall|k: int, e: int|
                #![trigger checks[k], exclude[e]]
                0 <= k < checks.len() && 0 <= e < exclude.len() ==> !exclude[e]@.is_prefix_of(
                    checks[k].image.reference,
                )
            &&& forall|k: int, e: int|
                #![trigger errored[k], exclude[e]]
                0 <= k < errored.len() && 0 <= e < exclude.len() ==> !exclude[e]@.is_prefix_of(
                    errored[k].reference,
                )
            &&& forall|k: int|
                0 <= k < checks.len() ==> !set_to_be_ignored(
                    ctx,
                    (#[trigger] checks[k]).image.parts.registry,
                )
            &&& forall|k: int|
                0 <= k < errored.len() ==> !set_to_be_ignored(
                    ctx,
                    (#[trigger] errored[k]).parts.registry,
                )
            &&& forall|i: int|
                0 <= i < images.len() && !set_to_be_ignored(
                    ctx,
                    (#[trigger] images[i]).parts.registry,
                ) && (forall|e: int|
                    0 <= e < exclude.len() ==> !(#[trigger] exclude[e])@.is_prefix_of(
                        images[i].reference,
                    )) ==> (exists|k: int|
                    0 <= k < checks.len() && (#[trigger] checks[k]).image == images[i]) || (exists|
                    k: int,
                |
                    0 <= k < errored.len() && (#[trigger] errored[k]).error is Some && errored[k]
                        == (ImageView { error: errored[k].error, ..images[i] }))
        }),
{
    law_every_image_is_planned(images, ctx, access);
    lemma_reported_images(images, ctx, access);
    let checks = planned_checks(images, ctx, access);
    let errored = planned_reports(images, ctx, access);
    let exclude = ctx.config.images.exclude@;
    let prefixes = views(exclude);
    assert forall|image: ImageView| !skipped(image, ctx) implies !set_to_be_ignored(
        ctx,
        image.parts.registry,
    ) && forall|e: int|
        0 <= e < exclude.len() ==> !(#[trigger] exclude[e])@.is_prefix_of(image.reference) by {
        assert forall|e: int| 0 <= e < exclude.len() implies !(
        #[trigger] exclude[e])@.is_prefix_of(image.reference) by {
            assert(prefixes[e] == exclude[e]@);
        }
    }
    assert forall|k: int| 0 <= k < checks.len() implies !skipped(
        (#[trigger] checks[k]).image,
        ctx,
    ) by {}
    assert forall|i: int|
        0 <= i < images.len() && !set_to_be_ignored(ctx, (#[trigger] images[i]).parts.registry) && (
        forall|e: int|
            0 <= e < exclude.len() ==> !(#[trigger] exclude[e])@.is_prefix_of(
                images[i].reference,
            )) implies (exists|k: int|
        0 <= k < checks.len() && (#[trigger] checks[k]).image == images[i]) || (exists|k: int|
        0 <= k < errored.len() && (#[trigger] errored[k]).error is Some && errored[k] == (ImageView {
            error: errored[k].error,
            ..images[i]
        })) by {
        assert(!excluded(images[i].reference, prefixes)) by {
            if excluded(images[i].reference, prefixes) {
                let e = choose|e: int|
                    0 <= e < prefixes.len() && (#[trigger] prefixes[e]).is_prefix_of(
                        images[i].reference,
                    );
                assert(exclude[e]@ == prefixes[e]);
            }
        }
        assert(!skipped(images[i], ctx));
        match image_plan(images[i], ctx, access) {
            PlanView::Ask(check) => {
                let k = choose|k: int| 0 <= k < checks.len() && checks[k] == check;
                assert(checks[k].image == images[i]);
            },
            PlanView::Report(image) => {
                let k = choose|k: int| 0 <= k < errored.len() && errored[k] == image;
                assert(errored[k].error is Some);
            },
            PlanView::Skip => {},
        }
    }
}

/// Whether images of a registry are set to be left out.
pub open spec fn set_to_be_ignored(ctx: Context, registry: Seq<char>) -> bool {
    ctx.config.registries@.contains_key(registry) && ctx.config.registries@[registry].ignore
}

proof fn lemma_reported_images(
    images: Seq<ImageView>,
    ctx: Context,
    access: Map<Seq<char>, AccessView>,
)
    ensures
        forall|k: int|
            0 <= k < planned_reports(images, ctx, access).len() ==> !skipped(
                #[trigger] planned_reports(images, ctx, access)[k],
                ctx,
            ),
    decreases images.len(),
{
    if images.len() > 0 {
        lemma_reported_images(images.drop_last(), ctx, access);
        let rest = planned_reports(images.drop_last(), ctx, access);
        let all = planned_reports(images, ctx, access);
        assert forall|k: int| 0 <= k < all.len() implies !skipped(#[trigger] all[k], ctx) by {
            if k < rest.len() {
                assert(all[k] == rest[k]);
            }
        }
    }
}

/// Images are planned one by one and in order. An image that is not left out is asked about
/// without a token where its registry wants none, with the token for its repository where there
/// is one, and is otherwise reported with the error in place of the token. The excluded tags are
/// those for the part of its reference in front of the first colon.
pub proof fn law_images_are_planned_in_order(
    front: Seq<ImageView>,
    image: ImageView,
    back: Seq<ImageView>,
    ctx: Context,
    access: Map<Seq<char>, AccessView>,
)
    requires
        !set_to_be_ignored(ctx, image.parts.registry),
        forall|e: int|
            0 <= e < ctx.config.images.exclude@.len() ==> !(
            #[trigger] ctx.config.images.exclude@[e])@.is_prefix_of(image.reference),
    ensures
        planned_checks(front + back, ctx, access) == planned_checks(front, ctx, access)
            + planned_checks(back, ctx, access),
        planned_reports(front + back, ctx, access) == planned_reports(front, ctx, access)
            + planned_reports(back, ctx, access),
        ({
            let checks = planned_checks(seq![image], ctx, access);
            let errored = planned_reports(seq![image], ctx, access);
            &&& access[image.parts.registry] is Open ==> checks.len() == 1 && errored.len() == 0
                && checks[0].image == image && checks[0].token is None
            &&& access[image.parts.registry] matches AccessView::Tokens(tokens) ==> {
                match tokens[image.parts.repository] {
                    Ok(token) => checks.len() == 1 && errored.len() == 0 && checks[0].image
                        == image && checks[0].token == Some(token),
                    Err(message) => checks.len() == 0 && errored == seq![
                        ImageView { error: Some(message), ..image },
                    ],
                }
            }
            &&& checks.len() == 1 ==> checks[0].excluded_tags == excluded_tags(
                views(ctx.config.images.exclude@),
                before(image.reference, ':'),
            )
        }),
    decreases back.len(),
{
    if back.len() == 0 {
        assert(front + back =~= front);
    } else {
        assert((front + back).drop_last() =~= front + back.drop_last());
        assert((front + back).last() == back.last());
        law_images_are_planned_in_order(front, image, back.drop_last(), ctx, access);
    }
    assert(planned_checks(front + back, ctx, access) =~= planned_checks(front, ctx, access)
        + planned_checks(back, ctx, access));
    assert(planned_reports(front + back, ctx, access) =~= planned_reports(front, ctx, access)
        + planned_reports(back, ctx, access));
    let prefixes = views(ctx.config.images.exclude@);
    assert(!excluded(image.reference, prefixes)) by {
        if excluded(image.reference, prefixes) {
            let e = choose|e: int|
                0 <= e < prefixes.len() && (#[trigger] prefixes[e]).is_prefix_of(image.reference);
            assert(ctx.config.images.exclude@[e]@ == prefixes[e]);
        }
    }
    let one = seq![image];
    assert(one.drop_last() =~= Seq::<ImageView>::empty());
    assert(one.last() == image);
    assert(planned_checks(one.drop_last(), ctx, access) =~= Seq::<CheckView>::empty());
    assert(planned_reports(one.drop_last(), ctx, access) =~= Seq::<ImageView>::empty());
    if let PlanView::Report(report) = image_plan(image, ctx, access) {
        assert(planned_reports(one, ctx, access) =~= seq![report]);
    }
}

/// There is one report for each image, in order: the checked ones, those without a token, and
/// then what others reported, as they reported it.
pub proof fn law_full_reports(
    checked: Seq<ImageView>,
    errored: Seq<ImageView>,
    compose: Map<Seq<char>, Seq<ComposeContainerView>>,
    remote: Seq<UpdateView>,
    i: int,
)
    ensures
        ({
            let all = full_report(checked, errored, compose, remote);
            let local = checked + errored;
            &&& all.len() == checked.len() + errored.len() + remote.len()
            &&& 0 <= i < local.len() ==> {
                &&& all[i].reference == local[i].reference
                &&& all[i].parts == local[i].parts
                &&& all[i].result == local[i].update().result
                &&& all[i].status == local[i].status()
                &&& all[i].time == local[i].time_ms
                &&& all[i].in_use == local[i].in_use
                &&& all[i].url == local[i].url
                &&& all[i].server is None
                &&& compose.contains_key(local[i].reference) ==> all[i].compose
                    == compose[local[i].reference] && (all[i].compose_managed
                    <==> compose[local[i].reference].len() > 0)
                &&& !compose.contains_key(local[i].reference) ==> all[i].compose.len() == 0
                    && !all[i].compose_managed
            }
            &&& 0 <= i < remote.len() ==> all[local.len() + i] == remote[i]
        }),
{
}

/// The images of an instance are the items of the list that its response has under `images`.
/// Nothing is taken over of a response without one.
pub proof fn law_server_responses(
    body: Seq<char>,
    members: Map<Seq<char>, JsonTree>,
    items: Seq<JsonTree>,
    images: Vec<Option<Update>>,
    name: Seq<char>,
)
    ensures
        json_document(body) is None ==> images_in(body) is None,
        json_document(body) == Some(JsonTree::Object(members)) ==> {
            &&& members.contains_key("images"@) && members["images"@] == JsonTree::List(items)
                ==> images_in(body) == Some(items)
            &&& !(members.contains_key("images"@) && members["images"@] is List) ==> images_in(body)
                is None
        },
        response_updates(None, name).len() == 0,
        response_updates(Some(images), name) == server_updates(images@, name),
{
}

/// Every image of the daemon is checked, and every reference that was asked for or is
/// configured, and nothing else is. An image of the daemon is in use exactly if it was already,
/// or if a container uses it, and nothing else of it changes.
pub proof fn law_everything_is_collected(
    references: Option<Vec<String>>,
    ctx: Context,
    daemon: Seq<ImageView>,
    in_use: Seq<Seq<char>>,
    reference: Seq<char>,
    i: int,
)
    ensures
        ({
            let images = collected(references, ctx, daemon, in_use);
            &&& references_of(images).contains(reference) <==> {
                ||| references_of(daemon).contains(reference)
                ||| references matches Some(asked) && views(asked@).contains(reference)
                ||| views(ctx.config.images.extra@).contains(reference)
            }
            &&& 0 <= i < daemon.len() ==> {
                &&& images[i] == (ImageView { in_use: images[i].in_use, ..daemon[i] })
                &&& images[i].in_use <==> daemon[i].in_use || in_use.contains(daemon[i].reference)
            }
            &&& daemon.len() <= i < images.len() ==> images[i] == referenced_image(
                images[i].reference,
            )
        }),
{
    let wanted = extra_references(references, ctx);
    lemma_missing_images(wanted, references_of(daemon), reference);
    law_references_are_merged(references, ctx, reference);
    law_all_images_are_collected(daemon, in_use, extra_references(references, ctx), reference);
}

} // verus!
