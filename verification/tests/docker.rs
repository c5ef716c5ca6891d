use cup::config::{Config, Context};
use cup::docker::{
    docker_endpoint, from_service, get_compose_containers, get_images_from_docker_daemon,
    get_in_use_images, has_daemon, Container, Endpoint, ImageData,
};
use cup::index::TextMap;
use cup::structs::container::ComposeContainer;

fn context(socket: Option<&str>) -> Context {
    let mut config = Config::new();
    config.socket = socket.map(|socket| socket.to_string());
    Context { config }
}

fn labels(items: &[(&str, &str)]) -> Option<TextMap<String>> {
    let mut labels = TextMap::new();
    for (name, value) in items {
        labels.insert(name.to_string(), value.to_string());
    }
    Some(labels)
}

fn container(id: &str, image: Option<&str>, labels: Option<TextMap<String>>) -> Container {
    Container {
        id: Some(id.to_string()),
        names: Some(vec![format!("/{}", id)]),
        image: image.map(|image| image.to_string()),
        labels,
        state: Some("running".to_string()),
    }
}

const PROJECT: (&str, &str) = ("com.docker.compose.project", "test");

#[test]
fn the_daemon_can_be_ruled_out() {
    assert!(!has_daemon(&context(Some("none"))));
    assert!(has_daemon(&context(None)));
    assert!(has_daemon(&context(Some("unix:///run/docker.sock"))));
}

#[test]
fn the_socket_decides_how_to_reach_the_daemon() {
    assert_eq!(docker_endpoint(None), Endpoint::Defaults);
    assert_eq!(docker_endpoint(Some("unix:///run/docker.sock")), Endpoint::Unix);
    assert_eq!(docker_endpoint(Some("tcp://host:2375")), Endpoint::Http);
}

fn data(tag: &str, digest: &str) -> Option<ImageData> {
    Some(ImageData {
        tags: vec![tag.to_string()],
        digests: vec![digest.to_string()],
        url: Some("https://example.com".to_string()),
    })
}

#[test]
fn images_of_the_daemon() {
    let local = vec![
        data("nginx:latest", "nginx@sha256:aa"),
        None,
        Some(ImageData { tags: vec![], digests: vec!["x@sha256:bb".to_string()], url: None }),
    ];
    let services = vec![None, Some("app:1@sha256:cc".to_string()), Some("plain:1".to_string())];
    let images = get_images_from_docker_daemon(&None, &local, &services);
    let references: Vec<&str> = images.iter().map(|image| image.reference.as_str()).collect();
    assert_eq!(references, vec!["nginx:latest", "app:1"]);
    assert_eq!(images[0].url.as_deref(), Some("https://example.com"));
    let digests = images[0].digest_info.as_ref().unwrap();
    assert_eq!(digests.local_digests, vec!["sha256:aa".to_string()]);
    assert_eq!(digests.remote_digest, None);
}

#[test]
fn only_images_that_were_asked_for() {
    let references = Some(vec!["nginx:latest".to_string()]);
    let local = vec![data("nginx:latest", "nginx@sha256:aa")];
    let services =
        vec![Some("app:1@sha256:cc".to_string()), Some("nginx:latest@sha256:dd".to_string())];
    let images = get_images_from_docker_daemon(&references, &local, &services);
    let found: Vec<&str> = images.iter().map(|image| image.reference.as_str()).collect();
    assert_eq!(found, vec!["nginx:latest", "nginx:latest"]);
}

#[test]
fn services_name_their_image_with_its_digest() {
    let image = from_service("ghcr.io/a/b:1@sha256:aa").unwrap();
    assert_eq!(image.reference, "ghcr.io/a/b:1");
    assert_eq!(image.digest_info.unwrap().local_digests, vec!["sha256:aa".to_string()]);
    assert!(from_service("ghcr.io/a/b:1").is_none());
}

#[test]
fn used_images_have_a_tag() {
    let mut stopped = container("c", Some("redis:7"), None);
    stopped.state = Some("exited".to_string());
    let containers = vec![
        container("a", Some("nginx"), None),
        container("b", None, None),
        stopped,
    ];
    assert_eq!(
        get_in_use_images(&containers),
        vec!["nginx:latest".to_string(), "redis:7".to_string()]
    );
}

#[test]
fn compose_containers_are_grouped_by_image() {
    let full = labels(&[
        PROJECT,
        ("com.docker.compose.service", "web"),
        ("com.docker.compose.project.working_dir", "/srv/test"),
        ("com.docker.compose.project.config_files", "/srv/test/compose.yaml"),
        ("com.docker.compose.oneoff", "False"),
    ]);
    let containers = vec![
        container("a", Some("nginx"), full),
        container("b", Some("redis:7"), labels(&[PROJECT])),
        container("c", Some("nginx:latest"), labels(&[PROJECT])),
    ];
    let groups = get_compose_containers(&Ok(containers));
    assert_eq!(
        groups.get("nginx:latest"),
        Some(&vec![
            ComposeContainer {
                id: "a".to_string(),
                name: "a".to_string(),
                service: "web".to_string(),
                project: "test".to_string(),
                working_dir: "/srv/test".to_string(),
                config_files: "/srv/test/compose.yaml".to_string(),
            },
            ComposeContainer {
                id: "c".to_string(),
                name: "c".to_string(),
                project: "test".to_string(),
                ..Default::default()
            },
        ])
    );
    assert_eq!(groups.get("redis:7").map(|group| group.len()), Some(1));
    assert_eq!(groups.get("nginx"), None);
}

#[test]
fn containers_that_nothing_can_update_are_left_out() {
    let mut stopped = container("d", Some("nginx"), labels(&[PROJECT]));
    stopped.state = Some("exited".to_string());
    let containers = vec![
        container("a", Some("nginx"), None),
        container("b", Some("nginx"), labels(&[("com.docker.compose.service", "web")])),
        container("c", Some("nginx"), labels(&[PROJECT, ("com.docker.compose.oneoff", "True")])),
        stopped,
        container("e", None, labels(&[PROJECT])),
    ];
    assert!(get_compose_containers(&Ok(containers)).get("nginx:latest").is_none());
}

#[test]
fn a_container_without_names_has_an_empty_one() {
    let mut nameless = container("a", Some("nginx"), labels(&[PROJECT]));
    nameless.names = Some(vec![]);
    nameless.id = None;
    let groups = get_compose_containers(&Ok(vec![nameless]));
    let found = &groups.get("nginx:latest").unwrap()[0];
    assert_eq!(found.name, "");
    assert_eq!(found.id, "");
}

#[test]
fn a_daemon_that_cannot_be_asked_knows_no_compose_containers() {
    let groups = get_compose_containers(&Err("no daemon".to_string()));
    assert!(groups.get("nginx:latest").is_none());
}
