use cup::check::{
    can_plan, collect_images, get_excluded_tags, get_remote_updates, get_server_updates,
    get_updates, next_server_step, plan_checks, server_images, server_warning, ReplyStatus,
    ServerEvent, ServerStep,
};
use cup::config::{Config, Context, RegistryConfig};
use cup::index::TextMap;
use cup::session::{get_registries, Access, AuthAction, AuthSession};
use cup::structs::container::ComposeContainer;
use cup::structs::image::{DigestInfo, Image};
use cup::structs::status::Status;

fn strings(items: &[&str]) -> Vec<String> {
    items.iter().map(|item| item.to_string()).collect()
}

fn images(references: &[&str]) -> Vec<Image> {
    references.iter().map(|reference| Image::from_reference(reference)).collect()
}

fn context(exclude: &[&str], ignored: &[&str]) -> Context {
    let mut config = Config::new();
    config.images.exclude = strings(exclude);
    for registry in ignored {
        config.registries.insert(
            registry.to_string(),
            RegistryConfig { ignore: true, ..Default::default() },
        );
    }
    Context { config }
}

#[test]
fn an_instance_is_asked_at_its_interface() {
    let start = |url: &str, refresh: bool| next_server_step(url, &ServerEvent::Start { refresh });
    assert_eq!(
        start("https://cup.example.com/", true),
        ServerStep::Refresh("https://cup.example.com/api/v3/refresh".to_string())
    );
    assert_eq!(
        start("http://10.0.0.2:8000", false),
        ServerStep::Fetch("http://10.0.0.2:8000/api/v3/json".to_string())
    );
    assert_eq!(start("cup.example.com/", true), start("cup.example.com", true));
    assert_eq!(
        start("cup.example.com//", false),
        ServerStep::Fetch("https://cup.example.com/api/v3/json".to_string())
    );
}

fn replied(code: u16, text: &str) -> Result<ReplyStatus, String> {
    Ok(ReplyStatus { code, text: text.to_string() })
}

#[test]
fn only_a_200_leads_on() {
    let step = |event| next_server_step("http://a", &event);
    assert_eq!(
        step(ServerEvent::Refreshed(replied(200, "200 OK"))),
        ServerStep::Fetch("http://a/api/v3/json".to_string())
    );
    assert_eq!(step(ServerEvent::Refreshed(replied(204, "204 No Content"))), ServerStep::GiveUp);
    assert_eq!(step(ServerEvent::Refreshed(Err("no".to_string()))), ServerStep::GiveUp);
    assert_eq!(step(ServerEvent::Fetched(replied(200, "200 OK"))), ServerStep::Read);
    assert_eq!(step(ServerEvent::Fetched(replied(301, "301 Moved Permanently"))), ServerStep::GiveUp);
    assert_eq!(step(ServerEvent::Fetched(Err("no".to_string()))), ServerStep::GiveUp);
}

#[test]
fn no_instance_is_given_up_without_a_warning() {
    let warning = |event| server_warning("http://a/", &event);
    assert_eq!(
        warning(ServerEvent::Refreshed(replied(204, "204 No Content"))).as_deref(),
        Some("GET http://a/api/v3/refresh: Failed to refresh server. Server returned invalid response code: 204 No Content")
    );
    assert_eq!(
        warning(ServerEvent::Refreshed(Err("no".to_string()))).as_deref(),
        Some("GET http://a/api/v3/refresh: Failed to refresh server. no")
    );
    assert_eq!(
        warning(ServerEvent::Fetched(replied(301, "301 Moved Permanently"))).as_deref(),
        Some("GET http://a/api/v3/json: Failed to fetch updates from server. Server returned invalid response code: 301 Moved Permanently")
    );
    assert_eq!(
        warning(ServerEvent::Fetched(Err("no".to_string()))).as_deref(),
        Some("GET http://a/api/v3/json: Failed to fetch updates from server. no")
    );
    assert_eq!(warning(ServerEvent::Start { refresh: true }), None);
    assert_eq!(warning(ServerEvent::Refreshed(replied(200, "200 OK"))), None);
    assert_eq!(warning(ServerEvent::Fetched(replied(200, "200 OK"))), None);
}

#[test]
fn the_images_of_an_instance_are_found_in_its_response() {
    let found = server_images(r#"{"metrics": {}, "images": [{"reference": "a"}]}"#).unwrap();
    assert_eq!(found.len(), 1);
    assert_eq!(found[0]["reference"].as_str(), Some("a"));
    assert!(server_images(r#"{"metrics": {}}"#).is_none());
    assert!(server_images("<html>").is_none());
}

fn outdated(reference: &str) -> Image {
    let mut image = Image::from_reference(reference);
    image.version_info = None;
    image.digest_info = Some(DigestInfo {
        local_digests: strings(&["sha256:aa"]),
        remote_digest: Some("sha256:bb".to_string()),
    });
    image
}

#[test]
fn updates_of_an_instance_are_marked_with_its_name() {
    let mut sent = outdated("nginx:latest").to_update();
    sent.status = Status::default();
    let updates = get_server_updates("nas", Some(vec![None, Some(sent)]));
    assert_eq!(updates.len(), 1);
    assert_eq!(updates[0].server.as_deref(), Some("nas"));
    assert_eq!(updates[0].status, Status::UpdateAvailable);
    assert_eq!(updates[0].reference, "nginx:latest");
    assert!(get_server_updates("nas", None).is_empty());
}

#[test]
fn containers_stay_where_they_are_and_all_else_is_shared() {
    let mut update = outdated("nginx:latest").to_update();
    update.compose_managed = true;
    update.compose = vec![ComposeContainer {
        id: "0123".to_string(),
        working_dir: "/srv/web".to_string(),
        ..Default::default()
    }];
    update.in_use = true;
    update.time = 42;
    let shared = update.share();
    assert!(!format!("{:?}", shared).contains("/srv/web"));
    let updates = get_server_updates("nas", Some(vec![Some(shared.received(vec![]))]));
    assert_eq!(updates.len(), 1);
    assert!(updates[0].compose.is_empty());
    assert!(updates[0].compose_managed);
    assert!(updates[0].in_use);
    assert_eq!(updates[0].time, 42);
    assert_eq!(updates[0].reference, update.reference);
    assert_eq!(updates[0].parts, update.parts);
    assert_eq!(updates[0].url, update.url);
    assert_eq!(updates[0].result, update.result);
    assert_eq!(updates[0].status, update.status);
    assert_eq!(updates[0].server.as_deref(), Some("nas"));
}

#[test]
fn a_received_list_of_containers_is_kept() {
    let sent = outdated("nginx:latest").to_update();
    let container = ComposeContainer { project: "web".to_string(), ..Default::default() };
    let received = sent.share().received(vec![container.clone()]);
    assert_eq!(received.compose, vec![container]);
    assert_eq!(received.status, Status::default());
}

/// An instance that never answers is skipped, and the others are not affected.
#[test]
fn unresponsive_remote_server_is_skipped_not_awaited_forever() {
    let updates = get_remote_updates(vec![None]);
    assert!(
        updates.is_empty(),
        "a silent server should contribute no updates"
    );
    let first = outdated("a:latest").to_update();
    let second = outdated("b:latest").to_update();
    let updates = get_remote_updates(vec![Some(vec![first]), None, Some(vec![second])]);
    let found: Vec<&str> = updates.iter().map(|update| update.reference.as_str()).collect();
    assert_eq!(found, vec!["a:latest", "b:latest"]);
}

#[test]
fn excluded_tags_belong_to_the_image() {
    let ctx = context(&["nginx:1.2", "nginx:latest", "nginx", "redis:7", "nginx-proxy:3"], &[]);
    let image = Image::from_reference("nginx:1.0.0");
    assert_eq!(get_excluded_tags(&image, &ctx), strings(&["1.2", "3"]));
    let other = Image::from_reference("postgres:16");
    assert!(get_excluded_tags(&other, &ctx).is_empty());
}

#[test]
fn images_are_collected_from_the_daemon_and_the_references() {
    let mut ctx = context(&[], &[]);
    ctx.config.images.extra = strings(&["nginx:1.0.0", "extra:1"]);
    let daemon = images(&["nginx:1.0.0", "redis:7"]);
    let used = strings(&["redis:7"]);
    let collected = collect_images(&None, &ctx, daemon, &used);
    let found: Vec<(&str, bool)> =
        collected.iter().map(|image| (image.reference.as_str(), image.in_use)).collect();
    assert_eq!(found, vec![("nginx:1.0.0", false), ("redis:7", true), ("extra:1", false)]);
}

#[test]
fn references_that_were_asked_for_are_merged_with_the_configured_ones() {
    let mut ctx = context(&[], &[]);
    ctx.config.images.extra = strings(&["nginx:1.0.0", "extra:1", "other:2"]);
    let asked = Some(strings(&["other:2"]));
    let collected = collect_images(&asked, &ctx, images(&["nginx:1.0.0"]), &vec![]);
    assert_eq!(collected, images(&["nginx:1.0.0", "other:2", "extra:1"]));
    // Nothing was asked for, and the configured images are checked all the same.
    let collected = collect_images(&Some(vec![]), &ctx, vec![], &vec![]);
    assert_eq!(collected, images(&["nginx:1.0.0", "extra:1", "other:2"]));
}

#[test]
fn a_configured_image_is_reported_next_to_those_that_were_asked_for() {
    let mut ctx = context(&[], &[]);
    ctx.config.images.extra = strings(&["extra:1"]);
    let all = collect_images(&Some(strings(&["asked:1"])), &ctx, vec![], &vec![]);
    let mut session = AuthSession::new(&all, &ctx);
    run(&mut session, "library/extra");
    let access = session.finish();
    assert!(can_plan(&all, &ctx, &access));
    let plan = plan_checks(&all, &ctx, &access);
    let updates = get_updates(&vec![], &plan.errored, &TextMap::new(), vec![]);
    assert!(updates
        .iter()
        .any(|update| update.reference == "extra:1" && update.server.is_none()));
}

#[test]
fn every_registry_is_asked_once_unless_it_is_ignored() {
    let ctx = context(&[], &["quay.io"]);
    let all = images(&["nginx:1", "ghcr.io/a/b:1", "quay.io/c/d:1", "redis:7", "ghcr.io/e/f:2"]);
    assert_eq!(
        get_registries(&all, &ctx),
        strings(&["registry-1.docker.io", "ghcr.io"])
    );
}

/// Answers everything that a session asks for. Batches with `denied` get no token.
fn run(session: &mut AuthSession, denied: &str) -> Vec<String> {
    let mut log = Vec::new();
    loop {
        match session.action() {
            AuthAction::CheckAuth(registry) => {
                log.push(format!("check {}", registry));
                let wants_token = registry != "localhost";
                session.auth_reply(wants_token.then_some(format!("https://{}/token?", registry)));
            }
            AuthAction::RequestToken { registry, auth_url, repositories } => {
                log.push(format!("token {} {} {}", registry, auth_url, repositories.len()));
                session.token_reply(if repositories.contains(&denied.to_string()) {
                    Err("denied".to_string())
                } else {
                    Ok(format!("token of {}", repositories[0]))
                });
            }
            AuthAction::Finished => return log,
        }
    }
}

#[test]
fn one_token_per_batch_of_repositories() {
    let ctx = context(&[], &[]);
    let mut references: Vec<String> = (0..25).map(|i| format!("ghcr.io/user/app{}:1", i)).collect();
    references.push("localhost/tool:1".to_string());
    references.push("ghcr.io/user/app3:2".to_string());
    let all: Vec<Image> =
        references.iter().map(|reference| Image::from_reference(reference)).collect();
    let mut session = AuthSession::new(&all, &ctx);
    assert_eq!(
        run(&mut session, "user/app22"),
        strings(&[
            "check ghcr.io",
            "token ghcr.io https://ghcr.io/token? 20",
            "token ghcr.io https://ghcr.io/token? 5",
            "check localhost",
        ])
    );
    let access = session.finish();
    assert!(can_plan(&all, &ctx, &access));
    let plan = plan_checks(&all, &ctx, &access);
    // The second batch has no token, and takes nothing away from the first one.
    assert_eq!(plan.checks.len(), 22);
    assert_eq!(plan.errored.len(), 5);
    assert_eq!(plan.checks[0].token.as_deref(), Some("token of user/app0"));
    assert_eq!(plan.checks[20].image.reference, "localhost/tool:1");
    assert_eq!(plan.checks[20].token, None);
    assert_eq!(plan.checks[21].image.reference, "ghcr.io/user/app3:2");
    assert_eq!(plan.errored[0].reference, "ghcr.io/user/app20:1");
    assert_eq!(plan.errored[0].error.as_deref(), Some("denied"));
    assert!(plan.errored.iter().all(|image| image.is_settled()));
}

#[test]
fn a_session_without_images_is_finished() {
    let session = AuthSession::new(&vec![], &context(&[], &[]));
    assert_eq!(session.action(), AuthAction::Finished);
}

#[test]
fn ignored_and_excluded_images_are_left_out() {
    let ctx = context(&["nginx:1.0.0", "redis:7.2"], &["quay.io"]);
    let all = images(&["nginx:1.0.0", "redis:7.0", "quay.io/a/b:1"]);
    let mut access = TextMap::new();
    access.insert("registry-1.docker.io".to_string(), Access::Open);
    assert!(can_plan(&all, &ctx, &access));
    let plan = plan_checks(&all, &ctx, &access);
    assert_eq!(plan.checks.len(), 1);
    assert_eq!(plan.checks[0].image.reference, "redis:7.0");
    assert_eq!(plan.checks[0].excluded_tags, strings(&["7.2"]));
    assert!(plan.errored.is_empty());
}

#[test]
fn nothing_is_planned_before_the_registries_were_asked() {
    let all = images(&["nginx:1.0.0"]);
    let mut access = TextMap::new();
    assert!(!can_plan(&all, &context(&[], &[]), &access));
    access.insert("registry-1.docker.io".to_string(), Access::Tokens(TextMap::new()));
    assert!(!can_plan(&all, &context(&[], &[]), &access));
}

#[test]
fn reports_are_put_together() {
    let checked = vec![outdated("nginx:latest"), outdated("redis:latest")];
    let errored = vec![Image::from_reference("a:1").errored("denied".to_string(), 0)];
    let mut compose = TextMap::new();
    let container = ComposeContainer { project: "web".to_string(), ..Default::default() };
    compose.insert("nginx:latest".to_string(), vec![container.clone()]);
    let remote = get_server_updates("nas", Some(vec![Some(outdated("c:latest").to_update())]));
    let updates = get_updates(&checked, &errored, &compose, remote);
    let found: Vec<&str> = updates.iter().map(|update| update.reference.as_str()).collect();
    assert_eq!(found, vec!["nginx:latest", "redis:latest", "a:1", "c:latest"]);
    assert!(updates[0].compose_managed);
    assert_eq!(updates[0].compose, vec![container]);
    assert!(!updates[1].compose_managed);
    assert!(updates[1].compose.is_empty());
    assert_eq!(updates[2].status, Status::Unknown("denied".to_string()));
    assert_eq!(updates[3].server.as_deref(), Some("nas"));
    assert_eq!(updates[0].server, None);
}
