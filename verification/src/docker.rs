//! What the Docker daemon knows.

use crate::config::Context;
use crate::index::TextMap;
use crate::reference::parts_of;
use crate::structs::container::{container_views, ComposeContainer, ComposeContainerView};
use crate::structs::image::{
    image_views, inspected_image, law_digests_are_read_in_order, law_inspected_images,
    referenced_digests, Image, ImageView,
};
use crate::text::{
    before, contains_char, contains_text, find, lemma_position, lemma_position_unique, same,
    slice, starts_with, trim_start, view_of, views, without_leading,
};
use vstd::prelude::*;

verus! {

/// Whether there is a daemon to ask.
pub open spec fn uses_daemon(ctx: Context) -> bool {
    !(ctx.config.socket matches Some(socket) && socket@ == "none"@)
}

/// Whether there is a daemon to ask: the user can rule it out.
pub fn has_daemon(ctx: &Context) -> (r: bool)
    ensures
        r == uses_daemon(*ctx),
{
    match &ctx.config.socket {
        Some(socket) => !same(socket.as_str(), "none"),
        None => true,
    }
}

/// How to reach the daemon.
#[derive(Debug, Clone, Copy, PartialEq, Eq, Structural)]
pub enum Endpoint {
    /// At the usual place.
    Defaults,
    /// Over the Unix socket that is configured.
    Unix,
    /// Over HTTP, at the address that is configured.
    Http,
}

/// How to reach the daemon.
pub open spec fn daemon_endpoint(socket: Option<Seq<char>>) -> Endpoint {
    match socket {
        Some(socket) => if "unix://"@.is_prefix_of(socket) {
            Endpoint::Unix
        } else {
            Endpoint::Http
        },
        None => Endpoint::Defaults,
    }
}

/// Decides how to reach the daemon.
pub fn docker_endpoint(socket: Option<&str>) -> (r: Endpoint)
    ensures
        r == daemon_endpoint(
            match socket {
                Some(socket) => Some(socket@),
                None => None,
            },
        ),
{
    match socket {
        Some(socket) => if starts_with(socket, "unix://") {
            Endpoint::Unix
        } else {
            Endpoint::Http
        },
        None => Endpoint::Defaults,
    }
}

/// What the daemon says of an image.
#[derive(Debug, PartialEq)]
pub struct ImageData {
    pub tags: Vec<String>,
    pub digests: Vec<String>,
    pub url: Option<String>,
}

/// The image that the daemon describes, if it can be checked.
pub open spec fn described_image(data: ImageData) -> Option<ImageView> {
    inspected_image(
        views(data.tags@),
        views(data.digests@),
        view_of(data.url),
    )
}

/// The image of a swarm service, which is named together with its digest.
pub open spec fn service_image(image: Seq<char>) -> Option<ImageView> {
    if image.contains('@') {
        inspected_image(
            seq![before(image, '@')],
            seq![image],
            None,
        )
    } else {
        None
    }
}

/// The images among what the daemon was asked for.
pub open spec fn local_images(local: Seq<Option<ImageData>>) -> Seq<ImageView>
    decreases local.len(),
{
    if local.len() == 0 {
        Seq::empty()
    } else {
        let rest = local_images(local.drop_last());
        match local.last() {
            Some(data) => match described_image(data) {
                Some(image) => rest.push(image),
                None => rest,
            },
            None => rest,
        }
    }
}

/// Whether an image is asked for: every one is, unless there is a list of those that are.
pub open spec fn wanted(references: Option<Seq<Seq<char>>>, image: ImageView) -> bool {
    match references {
        Some(references) => references.contains(image.reference),
        None => true,
    }
}

/// The images of the services that are asked for.
pub open spec fn swarm_images(
    services: Seq<Option<String>>,
    references: Option<Seq<Seq<char>>>,
) -> Seq<ImageView>
    decreases services.len(),
{
    if services.len() == 0 {
        Seq::empty()
    } else {
        let rest = swarm_images(services.drop_last(), references);
        match services.last() {
            Some(name) => match service_image(name@) {
                Some(image) => if wanted(references, image) {
                    rest.push(image)
                } else {
                    rest
                },
                None => rest,
            },
            None => rest,
        }
    }
}

/// The views of an optional list of references.
pub open spec fn reference_views(references: Option<Vec<String>>) -> Option<Seq<Seq<char>>> {
    match references {
        Some(references) => Some(views(references@)),
        None => None,
    }
}

/// The image of a swarm service.
pub fn from_service(image: &str) -> (r: Option<Image>)
    ensures
        match r {
            Some(found) => service_image(image@) == Some(found@),
            None => service_image(image@) is None,
        },
{
    proof {
        lemma_position(image@, '@');
    }
    let at: usize = find(image, '@');
    if at >= image.unicode_len() {
        return None;
    }
    let name = slice(image, 0, at);
    assert(name@ =~= before(image@, '@'));
    let mut tags: Vec<String> = Vec::new();
    tags.push(name);
    let mut digests: Vec<String> = Vec::new();
    digests.push(image.to_owned());
    assert(views(tags@) =~= seq![before(image@, '@')]);
    assert(views(digests@) =~= seq![image@]);
    Image::from_inspect_data(&tags, &digests, None)
}

/// The images that the daemon knows: its own, and then those of the services that are asked for.
pub open spec fn daemon_images(
    local: Seq<Option<ImageData>>,
    services: Seq<Option<String>>,
    references: Option<Seq<Seq<char>>>,
) -> Seq<ImageView> {
    local_images(local) + swarm_images(services, references)
}

/// Puts together the images that the daemon knows. If `references` is given, only images that
/// match one of them are returned: `local` then holds what the daemon found for each of them,
/// and the images of swarm services are those with one of these references. Otherwise `local`
/// holds what the daemon says of each of its images.
///
/// What the daemon did not find, and services without an image, are `None`.
pub fn get_images_from_docker_daemon(
    references: &Option<Vec<String>>,
    local: &Vec<Option<ImageData>>,
    services: &Vec<Option<String>>,
) -> (r: Vec<Image>)
    ensures
        image_views(r@) == daemon_images(local@, services@, reference_views(*references)),
{
    let mut r: Vec<Image> = Vec::new();
    let mut i: usize = 0;
    assert(image_views(r@) =~= local_images(local@.take(0)));
    while i < local.len()
        invariant
            i <= local@.len(),
            image_views(r@) == local_images(local@.take(i as int)),
        decreases local@.len() - i,
    {
        assert(local@.take(i + 1).drop_last() =~= local@.take(i as int));
        if let Some(data) = &local[i] {
            if let Some(image) = Image::from_inspect_data(
                &data.tags,
                &data.digests,
                data.url.clone(),
            ) {
                let ghost earlier = image_views(r@);
                r.push(image);
                assert(image_views(r@) =~= earlier.push(image@));
            }
        }
        i += 1;
    }
    assert(local@.take(local@.len() as int) =~= local@);
    let ghost wanted_references = reference_views(*references);
    let mut j: usize = 0;
    assert(image_views(r@) =~= local_images(local@) + swarm_images(
        services@.take(0),
        wanted_references,
    ));
    while j < services.len()
        invariant
            j <= services@.len(),
            wanted_references == reference_views(*references),
            image_views(r@) == local_images(local@) + swarm_images(
                services@.take(j as int),
                wanted_references,
            ),
        decreases services@.len() - j,
    {
        assert(services@.take(j + 1).drop_last() =~= services@.take(j as int));
        if let Some(name) = &services[j] {
            if let Some(image) = from_service(name.as_str()) {
                let keep = match references {
                    Some(references) => contains_text(references, image.reference.as_str()),
                    None => true,
                };
                if keep {
                    let ghost earlier = image_views(r@);
                    r.push(image);
                    assert(image_views(r@) =~= earlier.push(image@));
                    assert(image_views(r@) =~= local_images(local@)
                        + swarm_images(services@.take(j + 1), wanted_references));
                }
            }
        }
        j += 1;
    }
    assert(services@.take(services@.len() as int) =~= services@);
    r
}

/// What the daemon says of a container.
pub struct Container {
    pub id: Option<String>,
    pub names: Option<Vec<String>>,
    pub image: Option<String>,
    pub labels: Option<TextMap<String>>,
    /// What the container does, such as `running` or `exited`.
    pub state: Option<String>,
}

/// An image's name as a reference: without a tag it means `latest`.
pub open spec fn normalized(image: Seq<char>) -> Seq<char> {
    if image.contains(':') {
        image
    } else {
        image + ":latest"@
    }
}

fn normalize(image: &str) -> (r: String)
    ensures
        r@ == normalized(image@),
{
    let mut r = image.to_owned();
    if !contains_char(image, ':') {
        r.append(":latest");
    }
    r
}

/// The references of the images that containers use, in order.
pub open spec fn used_references(containers: Seq<Container>) -> Seq<Seq<char>>
    decreases containers.len(),
{
    if containers.len() == 0 {
        Seq::empty()
    } else {
        let rest = used_references(containers.drop_last());
        match containers.last().image {
            Some(image) => rest.push(normalized(image@)),
            None => rest,
        }
    }
}

/// The references of the images that containers use, running or not.
pub fn get_in_use_images(containers: &Vec<Container>) -> (r: Vec<String>)
    ensures
        views(r@) == used_references(containers@),
{
    let mut r: Vec<String> = Vec::new();
    let mut i: usize = 0;
    assert(views(r@) =~= used_references(containers@.take(0)));
    while i < containers.len()
        invariant
            i <= containers@.len(),
            views(r@) == used_references(containers@.take(i as int)),
        decreases containers@.len() - i,
    {
        assert(containers@.take(i + 1).drop_last() =~= containers@.take(i as int));
        if let Some(image) = &containers[i].image {
            let reference = normalize(image.as_str());
            let ghost earlier = views(r@);
            r.push(reference);
            assert(views(r@) =~= earlier.push(reference@));
        }
        i += 1;
    }
    assert(containers@.take(containers@.len() as int) =~= containers@);
    r
}

/// The value of a label.
pub open spec fn label(labels: Map<Seq<char>, String>, name: Seq<char>) -> Option<Seq<char>> {
    if labels.contains_key(name) {
        Some(labels[name]@)
    } else {
        None
    }
}

/// The value of a label, empty if there is none.
pub open spec fn label_or_empty(labels: Map<Seq<char>, String>, name: Seq<char>) -> Seq<char> {
    match label(labels, name) {
        Some(value) => value,
        None => Seq::empty(),
    }
}

/// A text, empty if there is none.
pub open spec fn or_empty(text: Option<String>) -> Seq<char> {
    match text {
        Some(text) => text@,
        None => Seq::empty(),
    }
}

/// The first of a container's names, without the slash that Docker puts in front.
pub open spec fn first_name(names: Option<Vec<String>>) -> Seq<char> {
    match names {
        Some(names) if names@.len() > 0 => trim_start(names@[0]@, '/'),
        _ => Seq::empty(),
    }
}

/// Whether a container is running.
pub open spec fn is_running(container: Container) -> bool {
    container.state matches Some(state) && state@ == "running"@
}

/// The reference of the image that a container uses, and the container as part of its compose
/// project. Nothing for a container that is not running, that belongs to no project, that was
/// created for a single command (`docker compose run`), or that has no image.
pub open spec fn compose_entry(container: Container) -> Option<
    (Seq<char>, ComposeContainerView),
> {
    match (container.labels, container.image) {
        (Some(labels), Some(image)) => match label(labels@, "com.docker.compose.project"@) {
            Some(project) => if is_running(container) && label(
                labels@,
                "com.docker.compose.oneoff"@,
            ) != Some("True"@) {
                Some(
                    (
                        normalized(image@),
                        ComposeContainerView {
                            id: or_empty(container.id),
                            name: first_name(container.names),
                            service: label_or_empty(labels@, "com.docker.compose.service"@),
                            project,
                            working_dir: label_or_empty(
                                labels@,
                                "com.docker.compose.project.working_dir"@,
                            ),
                            config_files: label_or_empty(
                                labels@,
                                "com.docker.compose.project.config_files"@,
                            ),
                        },
                    ),
                )
            } else {
                None
            },
            None => None,
        },
        _ => None,
    }
}

/// A list that is stored under a key, empty if there is none.
pub open spec fn group<T>(groups: Map<Seq<char>, Seq<T>>, key: Seq<char>) -> Seq<T> {
    if groups.contains_key(key) {
        groups[key]
    } else {
        Seq::empty()
    }
}

/// The containers of compose projects by the reference of the image that they use, each list
/// in the order of the containers.
pub open spec fn compose_groups(containers: Seq<Container>) -> Map<
    Seq<char>,
    Seq<ComposeContainerView>,
>
    decreases containers.len(),
{
    if containers.len() == 0 {
        Map::empty()
    } else {
        let rest = compose_groups(containers.drop_last());
        match compose_entry(containers.last()) {
            Some((reference, container)) => rest.insert(
                reference,
                group(rest, reference).push(container),
            ),
            None => rest,
        }
    }
}

/// What a map of containers stands for.
pub open spec fn group_views(groups: Map<Seq<char>, Vec<ComposeContainer>>) -> Map<
    Seq<char>,
    Seq<ComposeContainerView>,
> {
    groups.map_values(
        |containers: Vec<ComposeContainer>|
            container_views(containers@),
    )
}

fn label_value(labels: &TextMap<String>, name: &str) -> (r: String)
    ensures
        r@ == label_or_empty(labels@, name@),
{
    match labels.get(name) {
        Some(value) => value.clone(),
        None => {
            let r = String::new();
            assert(r@ =~= Seq::<char>::empty());
            r
        },
    }
}

fn compose_container(container: &Container) -> (r: Option<(String, ComposeContainer)>)
    ensures
        match r {
            Some((reference, found)) => compose_entry(*container) == Some((reference@, found@)),
            None => compose_entry(*container) is None,
        },
{
    let labels = match &container.labels {
        Some(labels) => labels,
        None => {
            return None;
        },
    };
    let project = match labels.get("com.docker.compose.project") {
        Some(project) => project.clone(),
        None => {
            return None;
        },
    };
    if let Some(value) = labels.get("com.docker.compose.oneoff") {
        if same(value.as_str(), "True") {
            return None;
        }
    }
    let reference = match &container.image {
        Some(image) => normalize(image.as_str()),
        None => {
            return None;
        },
    };
    let running = match &container.state {
        Some(state) => same(state.as_str(), "running"),
        None => false,
    };
    if !running {
        return None;
    }
    let id = match &container.id {
        Some(id) => id.clone(),
        None => String::new(),
    };
    let name = match &container.names {
        Some(names) => if names.len() > 0 {
            without_leading(names[0].as_str(), '/')
        } else {
            String::new()
        },
        None => String::new(),
    };
    Some(
        (
            reference,
            ComposeContainer {
                id,
                name,
                service: label_value(labels, "com.docker.compose.service"),
                project,
                working_dir: label_value(labels, "com.docker.compose.project.working_dir"),
                config_files: label_value(labels, "com.docker.compose.project.config_files"),
            },
        ),
    )
}

/// The containers of compose projects by the reference of the image that they use; none if the
/// daemon could not be asked.
pub open spec fn compose_map(containers: Result<Vec<Container>, String>) -> Map<
    Seq<char>,
    Seq<ComposeContainerView>,
> {
    match containers {
        Ok(containers) => compose_groups(containers@),
        Err(_) => Map::empty(),
    }
}

/// Maps each image reference to the running, compose-managed containers that use it.
///
/// A container without a compose project has nothing that could apply an update, and one-off
/// containers (`docker compose run`) are gone soon, so both are left out. References are
/// written as in [`get_in_use_images`].
///
/// The map is empty if the daemon could not be asked, which comes with an error message: updates
/// can be reported without it.
pub fn get_compose_containers(containers: &Result<Vec<Container>, String>) -> (r: TextMap<
    Vec<ComposeContainer>,
>)
    ensures
        group_views(r@) == compose_map(*containers),
{
    match containers {
        Ok(containers) => group_containers(containers),
        Err(_) => {
            let r: TextMap<Vec<ComposeContainer>> = TextMap::new();
            assert(group_views(r@) =~= Map::empty());
            r
        },
    }
}

fn group_containers(containers: &Vec<Container>) -> (r: TextMap<Vec<ComposeContainer>>)
    ensures
        group_views(r@) == compose_groups(containers@),
{
    let mut r: TextMap<Vec<ComposeContainer>> = TextMap::new();
    let mut i: usize = 0;
    assert(group_views(r@) =~= compose_groups(containers@.take(0)));
    while i < containers.len()
        invariant
            i <= containers@.len(),
            group_views(r@) == compose_groups(containers@.take(i as int)),
        decreases containers@.len() - i,
    {
        assert(containers@.take(i + 1).drop_last() =~= containers@.take(i as int));
        if let Some((reference, container)) = compose_container(&containers[i]) {
            let ghost earlier = r@;
            let ghost key = reference@;
            let ghost groups = group_views(earlier);
            r.add(reference, container);
            proof {
                let expected = groups.insert(key, group(groups, key).push(container@));
                assert(group_views(r@).dom() =~= expected.dom());
                assert(group_views(r@)[key] =~= expected[key]);
                assert forall|k: Seq<char>| expected.contains_key(k) && k != key implies group_views(
                    r@,
                )[k] == expected[k] by {
                    assert(earlier.contains_key(k));
                    assert(r@[k] == earlier[k]);
                }
                assert(group_views(r@) =~= expected);
            }
        }
        i += 1;
    }
    assert(containers@.take(containers@.len() as int) =~= containers@);
    r
}

/// A container is in the group of an image's reference exactly if it is a running container of a
/// compose project that uses the image. No group is empty, and the references are among those
/// that containers use.
pub proof fn law_compose_groups(
    containers: Seq<Container>,
    reference: Seq<char>,
    found: ComposeContainerView,
)
    ensures
        group(compose_groups(containers), reference).contains(found) <==> exists|i: int|
            0 <= i < containers.len() && compose_entry(#[trigger] containers[i]) == Some(
                (reference, found),
            ),
        compose_groups(containers).contains_key(reference) ==> {
            &&& compose_groups(containers)[reference].len() > 0
            &&& used_references(containers).contains(reference)
        },
    decreases containers.len(),
{
    if containers.len() > 0 {
        let shorter = containers.drop_last();
        let last = containers.last();
        law_compose_groups(shorter, reference, found);
        let old_group = group(compose_groups(shorter), reference);
        let new_group = group(compose_groups(containers), reference);
        assert(containers[containers.len() - 1] == last);
        if new_group.contains(found) {
            let k = choose|k: int| 0 <= k < new_group.len() && new_group[k] == found;
            if k < old_group.len() {
                assert(old_group[k] == found);
                let i = choose|i: int|
                    0 <= i < shorter.len() && compose_entry(#[trigger] shorter[i]) == Some(
                        (reference, found),
                    );
                assert(containers[i] == shorter[i]);
            } else {
                assert(compose_entry(last) == Some((reference, found)));
            }
        }
        if exists|i: int|
            0 <= i < containers.len() && compose_entry(#[trigger] containers[i]) == Some(
                (reference, found),
            ) {
            let i = choose|i: int|
                0 <= i < containers.len() && compose_entry(#[trigger] containers[i]) == Some(
                    (reference, found),
                );
            if i < containers.len() - 1 {
                assert(shorter[i] == containers[i]);
                let k = choose|k: int| 0 <= k < old_group.len() && old_group[k] == found;
                assert(new_group[k] == found);
            } else {
                assert(new_group[new_group.len() - 1] == found);
            }
        }
        if compose_groups(containers).contains_key(reference) {
            let fewer = used_references(shorter);
            let all = used_references(containers);
            if compose_groups(shorter).contains_key(reference) {
                let k = choose|k: int| 0 <= k < fewer.len() && fewer[k] == reference;
                assert(all[k] == reference);
            } else {
                assert(all[all.len() - 1] == reference);
            }
        }
    }
}

/// There is no daemon exactly if the configured socket is `none`.
pub proof fn law_only_none_rules_the_daemon_out(ctx: Context)
    ensures
        ctx.config.socket is None ==> uses_daemon(ctx),
        ctx.config.socket is Some ==> (uses_daemon(ctx) <==> ctx.config.socket->0@ != "none"@),
{
}

/// The daemon is reached over a Unix socket exactly if the configured address begins with
/// `unix://`.
pub proof fn law_endpoints(path: Seq<char>)
    ensures
        daemon_endpoint(None) == Endpoint::Defaults,
        daemon_endpoint(Some("unix://"@ + path)) == Endpoint::Unix,
        !(exists|rest: Seq<char>| path == #[trigger] ("unix://"@ + rest)) ==> daemon_endpoint(
            Some(path),
        ) == Endpoint::Http,
{
    let scheme = "unix://"@;
    assert((scheme + path).subrange(0, scheme.len() as int) =~= scheme);
    if scheme.is_prefix_of(path) {
        let rest = path.skip(scheme.len() as int);
        assert(path =~= scheme + rest);
    }
}

/// Whether a description is enough for a check: there is a tag, which names no digest, and a
/// digest.
pub open spec fn checkable(data: Option<ImageData>) -> bool {
    data is Some && data->0.tags@.len() > 0 && data->0.digests@.len() > 0
        && !data->0.tags@[0]@.contains('@')
}

/// Every description that is enough for a check gives an image, in order, and nothing else does.
/// The image has the first tag as its reference, and the URL and the digests that are described.
pub proof fn law_every_local_image_is_listed(
    front: Seq<Option<ImageData>>,
    data: Option<ImageData>,
    back: Seq<Option<ImageData>>,
)
    ensures
        local_images(front + back) == local_images(front) + local_images(back),
        local_images(front).len() == front.filter(|data: Option<ImageData>| checkable(data)).len(),
        !checkable(data) ==> local_images(seq![data]).len() == 0,
        checkable(data) ==> {
            let images = local_images(seq![data]);
            &&& images.len() == 1
            &&& images[0].reference == data->0.tags@[0]@
            &&& images[0].parts == parts_of(data->0.tags@[0]@)
            &&& images[0].url == view_of(data->0.url)
            &&& images[0].digest_info is Some
            &&& images[0].digest_info->0.local_digests == referenced_digests(
                views(data->0.digests@),
            )
            &&& images[0].digest_info->0.remote_digest is None
        },
    decreases back.len(), front.len(),
{
    if back.len() == 0 {
        assert(front + back =~= front);
        assert(local_images(front) + local_images(back) =~= local_images(front));
    } else {
        assert((front + back).drop_last() =~= front + back.drop_last());
        law_every_local_image_is_listed(front, data, back.drop_last());
        assert(local_images(front + back) =~= local_images(front) + local_images(back));
    }
    lemma_described(data);
    let one = seq![data];
    assert(one.drop_last() =~= Seq::<Option<ImageData>>::empty());
    assert(local_images(one.drop_last()) =~= Seq::<ImageView>::empty());
    assert(one.last() == data);
    lemma_local_count(front);
}

proof fn lemma_described(data: Option<ImageData>)
    ensures
        checkable(data) <==> data is Some && described_image(data->0) is Some,
        checkable(data) ==> {
            let image = described_image(data->0)->0;
            &&& image.reference == data->0.tags@[0]@
            &&& image.parts == parts_of(data->0.tags@[0]@)
            &&& image.url == view_of(data->0.url)
            &&& image.digest_info is Some
            &&& image.digest_info->0.local_digests == referenced_digests(
                views(data->0.digests@),
            )
            &&& image.digest_info->0.remote_digest is None
        },
{
    if let Some(found) = data {
        let tags = views(found.tags@);
        law_inspected_images(tags, views(found.digests@), view_of(found.url));
        assert(tags.len() == found.tags@.len());
        if tags.len() > 0 {
            assert(tags[0] == found.tags@[0]@);
        }
        assert(views(found.digests@).len() == found.digests@.len());
    }
}

proof fn lemma_local_count(local: Seq<Option<ImageData>>)
    ensures
        local_images(local).len() == local.filter(|data: Option<ImageData>| checkable(data)).len(),
    decreases local.len(),
{
    reveal(Seq::filter);
    if local.len() > 0 {
        lemma_local_count(local.drop_last());
        lemma_described(local.last());
    }
}

/// Every service that names its image together with a digest gives that image, in order, if it
/// is asked for: always, unless there is a list of references that it is not in.
pub proof fn law_every_wanted_service_is_listed(
    front: Seq<Option<String>>,
    service: String,
    back: Seq<Option<String>>,
    references: Option<Seq<Seq<char>>>,
    name: Seq<char>,
    digest: Seq<char>,
)
    requires
        service@ == name + "@"@ + digest,
        !name.contains('@'),
        !digest.contains('@'),
    ensures
        swarm_images(front + back, references) == swarm_images(front, references) + swarm_images(
            back,
            references,
        ),
        swarm_images(seq![None], references).len() == 0,
        references is Some && !references->0.contains(name) ==> swarm_images(
            seq![Some(service)],
            references,
        ).len() == 0,
        references is None || references->0.contains(name) ==> {
            let images = swarm_images(seq![Some(service)], references);
            &&& images.len() == 1
            &&& images[0].reference == name
            &&& images[0].parts == parts_of(name)
            &&& images[0].url is None
            &&& images[0].digest_info is Some
            &&& images[0].digest_info->0.local_digests == seq![digest]
            &&& images[0].digest_info->0.remote_digest is None
        },
    decreases back.len(),
{
    if back.len() == 0 {
        assert(front + back =~= front);
        assert(swarm_images(front, references) + swarm_images(back, references) =~= swarm_images(
            front,
            references,
        ));
    } else {
        assert((front + back).drop_last() =~= front + back.drop_last());
        law_every_wanted_service_is_listed(
            front,
            service,
            back.drop_last(),
            references,
            name,
            digest,
        );
        assert(swarm_images(front + back, references) =~= swarm_images(front, references)
            + swarm_images(back, references));
    }
    reveal_strlit("@");
    let image = service@;
    assert(image[name.len() as int] == '@');
    assert forall|i: int| 0 <= i < name.len() implies image[i] != '@' by {
        assert(image[i] == name[i]);
    }
    lemma_position_unique(image, '@', name.len() as int);
    assert(before(image, '@') =~= name);
    law_inspected_images(seq![name], seq![image], None);
    law_digests_are_read_in_order(Seq::empty(), Seq::empty(), name, digest);
    let one = seq![Some(service)];
    assert(one.drop_last() =~= Seq::<Option<String>>::empty());
    assert(one.last() == Some(service));
    assert(swarm_images(one.drop_last(), references) =~= Seq::<ImageView>::empty());
    let none = seq![None::<String>];
    assert(none.drop_last() =~= Seq::<Option<String>>::empty());
    assert(none.last() is None);
    assert(swarm_images(none.drop_last(), references) =~= Seq::<ImageView>::empty());
}

/// A service that does not name a digest gives no image.
pub proof fn law_services_without_a_digest(
    service: String,
    references: Option<Seq<Seq<char>>>,
)
    requires
        !service@.contains('@'),
    ensures
        swarm_images(seq![Some(service)], references).len() == 0,
{
    let one = seq![Some(service)];
    assert(one.drop_last() =~= Seq::<Option<String>>::empty());
    assert(one.last() == Some(service));
    assert(swarm_images(one.drop_last(), references) =~= Seq::<ImageView>::empty());
}

/// Every container with an image uses that image, whatever else is known of the container. An
/// image without a tag is used as `latest`.
pub proof fn law_every_used_image_is_listed(
    front: Seq<Container>,
    container: Container,
    back: Seq<Container>,
)
    ensures
        used_references(front + back) == used_references(front) + used_references(back),
        container.image is None ==> used_references(seq![container]).len() == 0,
        container.image matches Some(image) ==> used_references(seq![container]) == seq![
            if exists|i: int| 0 <= i < image@.len() && #[trigger] image@[i] == ':' {
                image@
            } else {
                image@ + ":latest"@
            },
        ],
    decreases back.len(),
{
    if back.len() == 0 {
        assert(front + back =~= front);
        assert(used_references(front) + used_references(back) =~= used_references(front));
    } else {
        assert((front + back).drop_last() =~= front + back.drop_last());
        law_every_used_image_is_listed(front, container, back.drop_last());
        assert(used_references(front + back) =~= used_references(front) + used_references(back));
    }
    let one = seq![container];
    assert(one.drop_last() =~= Seq::<Container>::empty());
    assert(one.last() == container);
    assert(used_references(one.drop_last()) =~= Seq::<Seq<char>>::empty());
    if let Some(image) = container.image {
        let reference = if exists|i: int| 0 <= i < image@.len() && #[trigger] image@[i] == ':' {
            image@
        } else {
            image@ + ":latest"@
        };
        assert(normalized(image@) == reference);
        assert(used_references(one) =~= seq![reference]);
    }
}

/// Which containers can apply an update, and what is known of them: they run, belong to a
/// compose project, were not made for a single command, and have an image. Each of these is
/// needed.
pub proof fn law_compose_entries(container: Container)
    ensures
        ({
            let labels = container.labels->0@;
            let applies = container.labels is Some && container.image is Some && container.state
                is Some && container.state->0@ == "running"@ && labels.contains_key(
                "com.docker.compose.project"@,
            ) && !(labels.contains_key("com.docker.compose.oneoff"@)
                && labels["com.docker.compose.oneoff"@]@ == "True"@);
            &&& compose_entry(container) is Some <==> applies
            &&& compose_entry(container) matches Some((reference, found)) ==> {
                &&& used_references(seq![container]) == seq![reference]
                &&& found.project == labels["com.docker.compose.project"@]@
                &&& labels.contains_key("com.docker.compose.service"@) ==> found.service
                    == labels["com.docker.compose.service"@]@
                &&& !labels.contains_key("com.docker.compose.service"@) ==> found.service.len()
                    == 0
                &&& labels.contains_key("com.docker.compose.project.working_dir"@)
                    ==> found.working_dir == labels["com.docker.compose.project.working_dir"@]@
                &&& !labels.contains_key("com.docker.compose.project.working_dir"@)
                    ==> found.working_dir.len() == 0
                &&& labels.contains_key("com.docker.compose.project.config_files"@)
                    ==> found.config_files == labels["com.docker.compose.project.config_files"@]@
                &&& !labels.contains_key("com.docker.compose.project.config_files"@)
                    ==> found.config_files.len() == 0
                &&& container.id is Some ==> found.id == container.id->0@
                &&& container.id is None ==> found.id.len() == 0
                &&& container.names is Some && container.names->0@.len() > 0 ==> found.name
                    == trim_start(container.names->0@[0]@, '/')
                &&& container.names is None || container.names->0@.len() == 0
                    ==> found.name.len() == 0
            }
        }),
{
    let one = seq![container];
    assert(one.drop_last() =~= Seq::<Container>::empty());
    assert(one.last() == container);
    assert(used_references(one.drop_last()) =~= Seq::<Seq<char>>::empty());
    if let Some(image) = container.image {
        assert(used_references(one) =~= seq![normalized(image@)]);
    }
}

/// The containers of an image are listed in order, one list after the other, and a single
/// container makes up the group of its image alone.
pub proof fn law_compose_groups_are_in_order(
    front: Seq<Container>,
    container: Container,
    back: Seq<Container>,
    reference: Seq<char>,
)
    ensures
        group(compose_groups(front + back), reference) == group(compose_groups(front), reference)
            + group(compose_groups(back), reference),
        group(compose_groups(seq![container]), reference) == (match compose_entry(container) {
            Some((used, found)) if used == reference => seq![found],
            _ => Seq::empty(),
        }),
    decreases back.len(),
{
    if back.len() == 0 {
        assert(front + back =~= front);
    } else {
        assert((front + back).drop_last() =~= front + back.drop_last());
        law_compose_groups_are_in_order(front, container, back.drop_last(), reference);
    }
    assert(group(compose_groups(front + back), reference) =~= group(
        compose_groups(front),
        reference,
    ) + group(compose_groups(back), reference));
    let one = seq![container];
    assert(one.drop_last() =~= Seq::<Container>::empty());
    assert(one.last() == container);
    assert(compose_groups(one.drop_last()) =~= Map::empty());
    assert(group(compose_groups(one), reference) =~= (match compose_entry(container) {
        Some((used, found)) if used == reference => seq![found],
        _ => Seq::empty(),
    }));
}

/// All images of the daemon are listed, its own first and then those of the services that are
/// asked for, whatever the other list holds.
pub proof fn law_daemon_images(
    local: Seq<Option<ImageData>>,
    services: Seq<Option<String>>,
    references: Option<Seq<Seq<char>>>,
)
    ensures
        ({
            let all = daemon_images(local, services, references);
            let own = local_images(local);
            &&& all.len() == own.len() + swarm_images(services, references).len()
            &&& all.take(own.len() as int) == own
            &&& all.skip(own.len() as int) == swarm_images(services, references)
        }),
{
    let all = daemon_images(local, services, references);
    let own = local_images(local);
    assert(all.take(own.len() as int) =~= own);
    assert(all.skip(own.len() as int) =~= swarm_images(services, references));
}

/// A daemon that cannot be asked makes no containers known; one that can makes them all known.
pub proof fn law_compose_maps(
    containers: Vec<Container>,
    message: String,
    reference: Seq<char>,
    found: ComposeContainerView,
)
    ensures
        compose_map(Err(message)).dom() == Set::<Seq<char>>::empty(),
        group(compose_map(Ok(containers)), reference).contains(found) <==> exists|i: int|
            0 <= i < containers@.len() && compose_entry(#[trigger] containers@[i]) == Some(
                (reference, found),
            ),
{
    assert(compose_map(Err(message)).dom() =~= Set::<Seq<char>>::empty());
    law_compose_groups(containers@, reference, found);
}

} // verus!
