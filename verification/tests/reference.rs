use cup::reference::split;
use cup::structs::parts::Parts;

fn parts(registry: &str, repository: &str, tag: &str) -> Parts {
    Parts {
        registry: registry.to_string(),
        repository: repository.to_string(),
        tag: tag.to_string(),
    }
}

#[test]
fn a_full_reference() {
    assert_eq!(
        split("ghcr.io/sergi0g/cup:latest"),
        parts("ghcr.io", "sergi0g/cup", "latest")
    );
}

#[test]
fn docker_hub_is_the_default() {
    assert_eq!(split("nginx"), parts("registry-1.docker.io", "library/nginx", "latest"));
    assert_eq!(split("user/app:1.0.0"), parts("registry-1.docker.io", "user/app", "1.0.0"));
}

#[test]
fn a_registry_has_a_dot_or_a_port_or_is_localhost() {
    assert_eq!(split("localhost/app:2"), parts("localhost", "app", "2"));
    assert_eq!(
        split("127.0.0.1:5000/library/nginx:1.0.0"),
        parts("127.0.0.1:5000", "library/nginx", "1.0.0")
    );
    assert_eq!(split("host:5000/app"), parts("host:5000", "app", "latest"));
}

#[test]
fn a_digest_is_left_out() {
    assert_eq!(
        split("ghcr.io/sergi0g/cup:v3@sha256:aaaa"),
        parts("ghcr.io", "sergi0g/cup", "v3")
    );
    assert_eq!(
        split("ghcr.io/sergi0g/cup@sha256:aaaa"),
        parts("ghcr.io", "sergi0g/cup", "latest")
    );
}

#[test]
fn parts_make_a_reference_with_the_same_parts() {
    for reference in ["nginx", "user/app:1.0.0", "localhost/app", "ghcr.io/a/b@sha256:aa", ""] {
        let first = split(reference);
        let written = format!("{}/{}:{}", first.registry, first.repository, first.tag);
        assert_eq!(split(&written), first);
    }
}
