//! Getting the tokens for a check.
//!
//! Every registry is asked once whether it wants a token. Where it does, one token is
//! requested for each batch of its repositories, and each repository is then asked about with
//! the token of its batch. [`AuthSession`] decides what to request next; the requests are made
//! elsewhere.

use crate::config::Context;
use crate::index::TextMap;
use crate::lists::{
    batch_views, law_batches, law_unique, law_unique_keeps_the_order, lemma_filter, str_views,
    unique, unique_texts,
};
use crate::registry::{
    batch_repositories, repositories, repository_batches, MAX_REPOSITORIES_PER_TOKEN,
};
use crate::structs::image::{image_views, Image, ImageView};
use crate::text::{clone_strings, view_of, views};
use vstd::prelude::*;

verus! {

/// The registries of some images.
pub open spec fn registries_of(images: Seq<ImageView>) -> Seq<Seq<char>> {
    images.map_values(|image: ImageView| image.parts.registry)
}

/// The registries to ask, each once, in the order of the images.
pub open spec fn registries_to_ask(images: Seq<ImageView>, ctx: Context) -> Seq<Seq<char>> {
    unique(registries_of(images)).filter(|registry: Seq<char>| !ctx.ignores(registry))
}

/// The repositories of the images of a registry, in the order of the images.
pub open spec fn repositories_in(images: Seq<ImageView>, registry: Seq<char>) -> Seq<Seq<char>>
    decreases images.len(),
{
    if images.len() == 0 {
        Seq::empty()
    } else {
        let rest = repositories_in(images.drop_last(), registry);
        if images.last().parts.registry == registry {
            rest.push(images.last().parts.repository)
        } else {
            rest
        }
    }
}

/// The unique registries of some images that are not ignored.
pub fn get_registries(images: &Vec<Image>, ctx: &Context) -> (r: Vec<String>)
    ensures
        views(r@) == registries_to_ask(image_views(images@), *ctx),
{
    let mut names: Vec<&str> = Vec::new();
    let mut i: usize = 0;
    while i < images.len()
        invariant
            i <= images@.len(),
            names@.len() == i,
            forall|j: int| 0 <= j < i ==> (#[trigger] names@[j])@ == images@[j].parts.registry@,
        decreases images@.len() - i,
    {
        names.push(images[i].parts.registry.as_str());
        i += 1;
    }
    assert(str_views(names@) =~= registries_of(image_views(images@)));
    let names = unique_texts(&names);
    let ghost all = str_views(names@);
    let ghost keep = |registry: Seq<char>| !ctx.ignores(registry);
    let mut r: Vec<String> = Vec::new();
    let mut j: usize = 0;
    proof {
        reveal(Seq::filter);
        assert(views(r@) =~= all.take(0).filter(keep));
    }
    while j < names.len()
        invariant
            j <= names@.len(),
            all == str_views(names@),
            keep == (|registry: Seq<char>| !ctx.ignores(registry)),
            views(r@) == all.take(j as int).filter(keep),
        decreases names@.len() - j,
    {
        let name = names[j];
        proof {
            reveal(Seq::filter);
            assert(all.take(j + 1).drop_last() =~= all.take(j as int));
            assert(all.take(j + 1).last() == name@);
        }
        if !ctx.is_ignored(name) {
            let ghost earlier = views(r@);
            let owned = name.to_owned();
            r.push(owned);
            assert(views(r@) =~= earlier.push(owned@));
        }
        j += 1;
    }
    assert(all.take(names@.len() as int) =~= all);
    r
}

/// What is known about asking a registry.
pub enum AccessView {
    Open,
    Tokens(Map<Seq<char>, Result<Seq<char>, Seq<char>>>),
}

/// What is known about asking a registry.
pub enum Access {
    /// It wants no token.
    Open,
    /// The token for each repository, or why there is none.
    Tokens(TextMap<Result<String, String>>),
}

/// The view of a token, or of the error in place of one.
pub open spec fn token_view(token: Result<String, String>) -> Result<Seq<char>, Seq<char>> {
    match token {
        Ok(token) => Ok(token@),
        Err(message) => Err(message@),
    }
}

/// The views of tokens by repository.
pub open spec fn token_views(tokens: Map<Seq<char>, Result<String, String>>) -> Map<
    Seq<char>,
    Result<Seq<char>, Seq<char>>,
> {
    tokens.map_values(|token: Result<String, String>| token_view(token))
}

impl View for Access {
    type V = AccessView;

    open spec fn view(&self) -> AccessView {
        match self {
            Access::Open => AccessView::Open,
            Access::Tokens(tokens) => AccessView::Tokens(token_views(tokens@)),
        }
    }
}

/// The views of what is known by registry.
pub open spec fn access_views(access: Map<Seq<char>, Access>) -> Map<Seq<char>, AccessView> {
    access.map_values(|access: Access| access@)
}

/// What [`RegistryTask`] stands for.
#[verifier::ext_equal]
pub struct TaskView {
    pub registry: Seq<char>,
    pub batches: Seq<Seq<Seq<char>>>,
}

/// A registry to ask, and the repositories to get tokens for, in batches.
struct RegistryTask {
    registry: String,
    batches: Vec<Vec<String>>,
}

/// The views of batches of texts.
pub open spec fn owned_batch_views(items: Seq<Vec<String>>) -> Seq<Seq<Seq<char>>> {
    items.map_values(|batch: Vec<String>| views(batch@))
}

impl View for RegistryTask {
    type V = TaskView;

    closed spec fn view(&self) -> TaskView {
        TaskView { registry: self.registry@, batches: owned_batch_views(self.batches@) }
    }
}

/// What to ask a registry about.
pub open spec fn task_of(images: Seq<ImageView>, registry: Seq<char>) -> TaskView {
    TaskView {
        registry,
        batches: repository_batches(repositories_in(images, registry)),
    }
}

/// What to ask all registries about.
pub open spec fn tasks_of(images: Seq<ImageView>, ctx: Context) -> Seq<TaskView> {
    registries_to_ask(images, ctx).map_values(|registry: Seq<char>| task_of(images, registry))
}

/// Where a session stands with the current registry.
pub enum PhaseView {
    /// It is to be asked whether it wants a token.
    Ask,
    /// The token for a batch is to be requested.
    Request {
        auth_url: Seq<char>,
        batch: int,
        tokens: Map<Seq<char>, Result<Seq<char>, Seq<char>>>,
    },
}

/// What [`AuthAction`] stands for.
pub enum AuthActionView {
    CheckAuth(Seq<char>),
    RequestToken { registry: Seq<char>, auth_url: Seq<char>, repositories: Seq<Seq<char>> },
    Finished,
}

/// What to do next to get the tokens.
#[derive(Debug, PartialEq)]
pub enum AuthAction {
    /// Ask this registry whether it wants a token.
    CheckAuth(String),
    /// Request a token for these repositories of a registry.
    RequestToken { registry: String, auth_url: String, repositories: Vec<String> },
    /// There is nothing more to ask.
    Finished,
}

impl View for AuthAction {
    type V = AuthActionView;

    open spec fn view(&self) -> AuthActionView {
        match self {
            AuthAction::CheckAuth(registry) => AuthActionView::CheckAuth(registry@),
            AuthAction::RequestToken {
                registry,
                auth_url,
                repositories,
            } => AuthActionView::RequestToken {
                registry: registry@,
                auth_url: auth_url@,
                repositories: views(repositories@),
            },
            AuthAction::Finished => AuthActionView::Finished,
        }
    }
}

/// What [`AuthSession`] stands for.
pub struct SessionView {
    /// The registries to ask.
    pub tasks: Seq<TaskView>,
    /// How many of them are done.
    pub done: int,
    /// Where the session stands with the one that follows.
    pub phase: PhaseView,
    /// What is known of those that are done.
    pub access: Map<Seq<char>, AccessView>,
}

/// `tokens`, with `token` for each of the repositories.
pub open spec fn recorded(
    tokens: Map<Seq<char>, Result<Seq<char>, Seq<char>>>,
    repositories: Seq<Seq<char>>,
    token: Result<Seq<char>, Seq<char>>,
) -> Map<Seq<char>, Result<Seq<char>, Seq<char>>>
    decreases repositories.len(),
{
    if repositories.len() == 0 {
        tokens
    } else {
        recorded(tokens, repositories.drop_last(), token).insert(repositories.last(), token)
    }
}

impl SessionView {
    /// The session before anything was asked.
    pub open spec fn start(images: Seq<ImageView>, ctx: Context) -> SessionView {
        SessionView {
            tasks: tasks_of(images, ctx),
            done: 0,
            phase: PhaseView::Ask,
            access: Map::empty(),
        }
    }

    /// What to do next.
    pub open spec fn action(self) -> AuthActionView {
        if self.done >= self.tasks.len() {
            AuthActionView::Finished
        } else {
            match self.phase {
                PhaseView::Ask => AuthActionView::CheckAuth(self.tasks[self.done].registry),
                PhaseView::Request { auth_url, batch, .. } => AuthActionView::RequestToken {
                    registry: self.tasks[self.done].registry,
                    auth_url,
                    repositories: self.tasks[self.done].batches[batch],
                },
            }
        }
    }

    /// The session once `access` is known of the current registry.
    pub open spec fn settle(self, access: AccessView) -> SessionView {
        SessionView {
            done: self.done + 1,
            phase: PhaseView::Ask,
            access: self.access.insert(self.tasks[self.done].registry, access),
            ..self
        }
    }

    /// The session once the current registry said where to get a token, if it wants one.
    pub open spec fn after_auth(self, auth_url: Option<Seq<char>>) -> SessionView {
        match auth_url {
            None => self.settle(AccessView::Open),
            Some(auth_url) => SessionView {
                phase: PhaseView::Request { auth_url, batch: 0, tokens: Map::empty() },
                ..self
            },
        }
    }

    /// The session once the current batch has its token, or an error in place of it.
    pub open spec fn after_token(self, token: Result<Seq<char>, Seq<char>>) -> SessionView {
        match self.phase {
            PhaseView::Request { auth_url, batch, tokens } => {
                let all = self.tasks[self.done].batches;
                let tokens = recorded(tokens, all[batch], token);
                if batch + 1 < all.len() {
                    SessionView {
                        phase: PhaseView::Request { auth_url, batch: batch + 1, tokens },
                        ..self
                    }
                } else {
                    self.settle(AccessView::Tokens(tokens))
                }
            },
            PhaseView::Ask => self,
        }
    }
}

enum Phase {
    Ask,
    Request { auth_url: String, batch: usize, tokens: TextMap<Result<String, String>> },
}

impl View for Phase {
    type V = PhaseView;

    closed spec fn view(&self) -> PhaseView {
        match self {
            Phase::Ask => PhaseView::Ask,
            Phase::Request { auth_url, batch, tokens } => PhaseView::Request {
                auth_url: auth_url@,
                batch: *batch as int,
                tokens: token_views(tokens@),
            },
        }
    }
}

/// Gets the tokens for a check, one decision at a time.
pub struct AuthSession {
    tasks: Vec<RegistryTask>,
    done: usize,
    phase: Phase,
    access: TextMap<Access>,
}

impl View for AuthSession {
    type V = SessionView;

    closed spec fn view(&self) -> SessionView {
        SessionView {
            tasks: self.tasks@.map_values(|task: RegistryTask| task@),
            done: self.done as int,
            phase: self.phase@,
            access: access_views(self.access@),
        }
    }
}

impl AuthSession {
    /// Every registry has something to request, and the current batch exists.
    #[verifier::type_invariant]
    spec fn wf(self) -> bool {
        &&& self.done <= self.tasks@.len()
        &&& forall|i: int|
            0 <= i < self.tasks@.len() ==> (#[trigger] self.tasks@[i]).batches@.len() > 0
        &&& self.phase matches Phase::Request { batch, .. } ==> self.done < self.tasks@.len()
            && batch < self.tasks@[self.done as int].batches@.len()
    }
}

/// A registry with images has repositories, and repositories make batches.
proof fn lemma_task_has_batches(images: Seq<ImageView>, registry: Seq<char>)
    requires
        registries_of(images).contains(registry),
    ensures
        task_of(images, registry).batches.len() > 0,
{
    lemma_repositories_in(images, registry);
    let names = repositories_in(images, registry);
    let i = choose|i: int|
        0 <= i < registries_of(images).len() && registries_of(images)[i] == registry;
    assert(images[i].parts.registry == registry);
    assert(names.contains(images[i].parts.repository));
    law_unique(names);
    assert(unique(names).contains(images[i].parts.repository));
}

/// `repositories_in` holds the repositories of the registry's images and nothing else.
proof fn lemma_repositories_in(images: Seq<ImageView>, registry: Seq<char>)
    ensures
        forall|i: int|
            0 <= i < images.len() && (#[trigger] images[i]).parts.registry == registry
                ==> repositories_in(images, registry).contains(images[i].parts.repository),
    decreases images.len(),
{
    if images.len() > 0 {
        let shorter = images.drop_last();
        let rest = repositories_in(shorter, registry);
        let all = repositories_in(images, registry);
        lemma_repositories_in(shorter, registry);
        assert forall|i: int|
            0 <= i < images.len() && (#[trigger] images[i]).parts.registry
                == registry implies all.contains(images[i].parts.repository) by {
            if i < images.len() - 1 {
                assert(shorter[i] == images[i]);
                let k = choose|k: int|
                    0 <= k < rest.len() && rest[k] == images[i].parts.repository;
                assert(all[k] == rest[k]);
            } else {
                assert(all[all.len() - 1] == images[i].parts.repository);
            }
        }
    }
}

/// The images of each registry.
fn group_by_registry<'a>(images: &'a Vec<Image>) -> (r: TextMap<Vec<&'a Image>>)
    ensures
        forall|k: Seq<char>| #[trigger]
            r@.contains_key(k) <==> registries_of(image_views(images@)).contains(k),
        forall|k: Seq<char>| #[trigger]
            r@.contains_key(k) ==> repositories(r@[k]@) == repositories_in(
                image_views(images@),
                k,
            ),
{
    let ghost all = image_views(images@);
    let ghost names = registries_of(all);
    let mut r: TextMap<Vec<&'a Image>> = TextMap::new();
    let mut i: usize = 0;
    while i < images.len()
        invariant
            i <= images@.len(),
            all == image_views(images@),
            names == registries_of(all),
            forall|k: Seq<char>| #[trigger]
                r@.contains_key(k) <==> names.take(i as int).contains(k),
            forall|k: Seq<char>| #[trigger]
                r@.contains_key(k) ==> repositories(r@[k]@) == repositories_in(
                    all.take(i as int),
                    k,
                ),
            forall|k: Seq<char>|
                !r@.contains_key(k) ==> #[trigger] repositories_in(all.take(i as int), k).len()
                    == 0,
        decreases images@.len() - i,
    {
        let image: &'a Image = &images[i];
        let ghost had = r@;
        let ghost key = image.parts.registry@;
        r.add(image.parts.registry.clone(), image);
        proof {
            let shorter = names.take(i as int);
            let longer = names.take(i + 1);
            assert(longer =~= shorter.push(key));
            assert(all.take(i + 1).drop_last() =~= all.take(i as int));
            assert(all.take(i + 1).last() == image@);
            assert forall|k: Seq<char>| #[trigger]
                r@.contains_key(k) <==> longer.contains(k) by {
                assert(had.contains_key(k) <==> shorter.contains(k));
                if longer.contains(k) && k != key {
                    let j = choose|j: int| 0 <= j < longer.len() && longer[j] == k;
                    assert(shorter[j] == k);
                }
                if shorter.contains(k) {
                    let j = choose|j: int| 0 <= j < shorter.len() && shorter[j] == k;
                    assert(longer[j] == k);
                }
                assert(longer[i as int] == key);
            }
            assert forall|k: Seq<char>| #[trigger] r@.contains_key(k) implies repositories(r@[k]@)
                == repositories_in(all.take(i + 1), k) by {
                if k == key {
                    if had.contains_key(k) {
                        assert(repositories(r@[k]@) =~= repositories(had[k]@).push(
                            image.parts.repository@,
                        ));
                    } else {
                        assert(repositories_in(all.take(i as int), k).len() == 0);
                        assert(repositories(r@[k]@) =~= repositories_in(all.take(i + 1), k));
                    }
                } else {
                    assert(had.contains_key(k));
                    assert(r@[k] == had[k]);
                }
            }
            assert forall|k: Seq<char>| !r@.contains_key(k) implies #[trigger] repositories_in(
                all.take(i + 1),
                k,
            ).len() == 0 by {
                assert(!had.contains_key(k));
                assert(repositories_in(all.take(i as int), k).len() == 0);
            }
        }
        i += 1;
    }
    assert(all.take(images@.len() as int) =~= all);
    assert(names.take(images@.len() as int) =~= names);
    r
}

fn owned_batches(items: &Vec<Vec<&str>>) -> (r: Vec<Vec<String>>)
    ensures
        owned_batch_views(r@) == batch_views(items@),
{
    let mut r: Vec<Vec<String>> = Vec::new();
    let mut i: usize = 0;
    while i < items.len()
        invariant
            i <= items@.len(),
            r@.len() == i,
            forall|j: int| 0 <= j < i ==> views((#[trigger] r@[j])@) == str_views(items@[j]@),
        decreases items@.len() - i,
    {
        let batch = &items[i];
        let mut owned: Vec<String> = Vec::new();
        let mut k: usize = 0;
        while k < batch.len()
            invariant
                k <= batch@.len(),
                owned@.len() == k,
                forall|j: int| 0 <= j < k ==> (#[trigger] owned@[j])@ == batch@[j]@,
            decreases batch@.len() - k,
        {
            owned.push(batch[k].to_owned());
            k += 1;
        }
        assert(views(owned@) =~= str_views(batch@));
        r.push(owned);
        i += 1;
    }
    assert(owned_batch_views(r@) =~= batch_views(items@));
    r
}

fn clone_token(token: &Result<String, String>) -> (r: Result<String, String>)
    ensures
        token_view(r) == token_view(*token),
{
    match token {
        Ok(token) => Ok(token.clone()),
        Err(message) => Err(message.clone()),
    }
}

fn record(
    tokens: &mut TextMap<Result<String, String>>,
    repositories: &Vec<String>,
    token: &Result<String, String>,
)
    ensures
        token_views(final(tokens)@) == recorded(
            token_views(old(tokens)@),
            views(repositories@),
            token_view(*token),
        ),
{
    let ghost all = views(repositories@);
    let ghost before = token_views(tokens@);
    let mut i: usize = 0;
    assert(all.take(0) =~= Seq::<Seq<char>>::empty());
    while i < repositories.len()
        invariant
            i <= repositories@.len(),
            all == views(repositories@),
            token_views(tokens@) == recorded(before, all.take(i as int), token_view(*token)),
        decreases repositories@.len() - i,
    {
        assert(all.take(i + 1).drop_last() =~= all.take(i as int));
        assert(all.take(i + 1).last() == repositories@[i as int]@);
        let ghost so_far = tokens@;
        let value = clone_token(token);
        tokens.insert(repositories[i].clone(), value);
        assert(token_views(tokens@) =~= token_views(so_far).insert(
            repositories@[i as int]@,
            token_view(*token),
        ));
        i += 1;
    }
    assert(all.take(repositories@.len() as int) =~= all);
}

impl AuthSession {
    /// A session for some images, before anything was asked.
    pub fn new(images: &Vec<Image>, ctx: &Context) -> (r: AuthSession)
        ensures
            r@ == SessionView::start(image_views(images@), *ctx),
    {
        let ghost all = image_views(images@);
        let registries = get_registries(images, ctx);
        let groups = group_by_registry(images);
        let mut tasks: Vec<RegistryTask> = Vec::new();
        let mut i: usize = 0;
        while i < registries.len()
            invariant
                i <= registries@.len(),
                all == image_views(images@),
                views(registries@) == registries_to_ask(all, *ctx),
                forall|k: Seq<char>| #[trigger]
                    groups@.contains_key(k) <==> registries_of(all).contains(k),
                forall|k: Seq<char>| #[trigger]
                    groups@.contains_key(k) ==> repositories(groups@[k]@) == repositories_in(
                        all,
                        k,
                    ),
                tasks@.len() == i,
                forall|j: int|
                    0 <= j < i ==> (#[trigger] tasks@[j])@ == task_of(all, registries@[j]@)
                        && tasks@[j].batches@.len() > 0,
            decreases registries@.len() - i,
        {
            let registry = registries[i].as_str();
            proof {
                lemma_asked_registries(all, *ctx);
                assert(views(registries@)[i as int] == registry@);
                assert(registries_to_ask(all, *ctx).contains(registry@));
                lemma_task_has_batches(all, registry@);
            }
            let group = groups.get(registry).unwrap();
            let batches = owned_batches(&batch_repositories(group.as_slice()));
            let task = RegistryTask { registry: registries[i].clone(), batches };
            assert(task@ == task_of(all, registry@));
            assert(owned_batch_views(batches@).len() == batches@.len());
            tasks.push(task);
            i += 1;
        }
        let r = AuthSession { tasks, done: 0, phase: Phase::Ask, access: TextMap::new() };
        assert(r@.tasks =~= tasks_of(all, *ctx)) by {
            assert forall|j: int| 0 <= j < tasks@.len() implies (#[trigger] r@.tasks[j])
                == tasks_of(all, *ctx)[j] by {
                assert(tasks@[j]@ == task_of(all, registries@[j]@));
                assert(views(registries@)[j] == registries@[j]@);
            }
            assert(views(registries@).len() == registries@.len());
        }
        assert(r@.access =~= Map::empty());
        r
    }

    /// What to do next.
    pub fn action(&self) -> (r: AuthAction)
        ensures
            r@ == self@.action(),
    {
        proof {
            use_type_invariant(self);
        }
        if self.done >= self.tasks.len() {
            return AuthAction::Finished;
        }
        let task = &self.tasks[self.done];
        assert(self@.tasks[self.done as int] == task@);
        match &self.phase {
            Phase::Ask => AuthAction::CheckAuth(task.registry.clone()),
            Phase::Request { auth_url, batch, .. } => {
                let repositories = clone_strings(&task.batches[*batch]);
                assert(task@.batches[*batch as int] == views(task.batches@[*batch as int]@));
                AuthAction::RequestToken {
                    registry: task.registry.clone(),
                    auth_url: auth_url.clone(),
                    repositories,
                }
            },
        }
    }

    /// Takes in where the current registry sends to for a token, `None` if it wants none.
    pub fn auth_reply(&mut self, auth_url: Option<String>)
        requires
            old(self)@.action() is CheckAuth,
        ensures
            final(self)@ == old(self)@.after_auth(view_of(auth_url)),
    {
        proof {
            use_type_invariant(&*self);
        }
        match auth_url {
            Some(auth_url) => {
                let tokens: TextMap<Result<String, String>> = TextMap::new();
                assert(token_views(tokens@) =~= Map::empty());
                self.phase = Phase::Request { auth_url, batch: 0, tokens };
            },
            None => {
                self.settle(Access::Open);
            },
        }
    }

    /// Takes in the token for the current batch, or the error in place of it.
    pub fn token_reply(&mut self, token: Result<String, String>)
        requires
            old(self)@.action() is RequestToken,
        ensures
            final(self)@ == old(self)@.after_token(token_view(token)),
    {
        proof {
            use_type_invariant(&*self);
        }
        let mut phase = Phase::Ask;
        std::mem::swap(&mut self.phase, &mut phase);
        match phase {
            Phase::Request { auth_url, batch, tokens } => {
                let mut tokens = tokens;
                let task = &self.tasks[self.done];
                assert(old(self)@.tasks[self.done as int] == task@);
                assert(task@.batches[batch as int] == views(task.batches@[batch as int]@));
                assert(task@.batches.len() == task.batches@.len());
                assert(batch < task.batches.len());
                record(&mut tokens, &task.batches[batch], &token);
                if batch + 1 < task.batches.len() {
                    self.phase = Phase::Request { auth_url, batch: batch + 1, tokens };
                } else {
                    self.settle(Access::Tokens(tokens));
                }
            },
            Phase::Ask => {},
        }
    }

    fn settle(&mut self, access: Access)
        requires
            old(self)@.done < old(self)@.tasks.len(),
        ensures
            final(self)@ == old(self)@.settle(access@),
    {
        proof {
            use_type_invariant(&*self);
        }
        let mut known: TextMap<Access> = TextMap::new();
        std::mem::swap(&mut self.access, &mut known);
        let registry = self.tasks[self.done].registry.clone();
        assert(old(self)@.tasks[self.done as int] == self.tasks@[self.done as int]@);
        let ghost before = known@;
        known.insert(registry, access);
        assert(access_views(known@) =~= access_views(before).insert(registry@, access@));
        self.phase = Phase::Ask;
        assert(self.done < self.tasks.len());
        self.done = self.done + 1;
        std::mem::swap(&mut self.access, &mut known);
    }

    /// What became known of the registries.
    pub fn finish(self) -> (r: TextMap<Access>)
        ensures
            access_views(r@) == self@.access,
    {
        self.access
    }
}

/// Only registries of images are asked, and of these all that are not ignored.
proof fn lemma_asked_registries(images: Seq<ImageView>, ctx: Context)
    ensures
        forall|registry: Seq<char>| #[trigger]
            registries_to_ask(images, ctx).contains(registry) <==> registries_of(images).contains(
                registry,
            ) && !ctx.ignores(registry),
        registries_to_ask(images, ctx).no_duplicates(),
{
    let names = unique(registries_of(images));
    let keep = |registry: Seq<char>| !ctx.ignores(registry);
    law_unique(registries_of(images));
    lemma_filter(names, keep);
    assert forall|registry: Seq<char>| #[trigger]
        registries_to_ask(images, ctx).contains(registry) <==> registries_of(images).contains(
            registry,
        ) && !ctx.ignores(registry) by {
        assert(names.filter(keep).contains(registry) <==> names.contains(registry) && keep(
            registry,
        ));
        assert(names.contains(registry) <==> registries_of(images).contains(registry));
    }
}

/// Where each registry sends to for a token, if it wants one.
pub type AuthAnswers = spec_fn(Seq<char>) -> Option<Seq<char>>;

/// The token, or the error, for each registry, address and batch of repositories.
pub type TokenAnswers = spec_fn(Seq<char>, Seq<char>, Seq<Seq<char>>) -> Result<
    Seq<char>,
    Seq<char>,
>;

/// The tokens by repository after the first `n` batches of a task.
pub open spec fn granted_tokens(
    task: TaskView,
    n: int,
    auth_url: Seq<char>,
    grant: TokenAnswers,
) -> Map<Seq<char>, Result<Seq<char>, Seq<char>>>
    decreases n,
{
    if n <= 0 {
        Map::empty()
    } else {
        recorded(
            granted_tokens(task, n - 1, auth_url, grant),
            task.batches[n - 1],
            grant(task.registry, auth_url, task.batches[n - 1]),
        )
    }
}

/// What becomes known of a registry that answers like this.
pub open spec fn granted_access(
    task: TaskView,
    auth: AuthAnswers,
    grant: TokenAnswers,
) -> AccessView {
    match auth(task.registry) {
        None => AccessView::Open,
        Some(auth_url) => AccessView::Tokens(
            granted_tokens(task, task.batches.len() as int, auth_url, grant),
        ),
    }
}

impl SessionView {
    /// Whether the session stands where these answers lead.
    pub open spec fn follows(self, auth: AuthAnswers, grant: TokenAnswers) -> bool {
        &&& 0 <= self.done <= self.tasks.len()
        &&& forall|i: int, j: int|
            0 <= i < j < self.tasks.len() ==> (#[trigger] self.tasks[i]).registry != (
            #[trigger] self.tasks[j]).registry
        &&& forall|i: int|
            0 <= i < self.tasks.len() ==> (#[trigger] self.tasks[i]).batches.len() > 0
        &&& forall|i: int|
            0 <= i < self.done ==> {
                &&& self.access.contains_key((#[trigger] self.tasks[i]).registry)
                &&& self.access[self.tasks[i].registry] == granted_access(
                    self.tasks[i],
                    auth,
                    grant,
                )
            }
        &&& match self.phase {
            PhaseView::Ask => true,
            PhaseView::Request { auth_url, batch, tokens } => {
                &&& self.done < self.tasks.len()
                &&& auth(self.tasks[self.done].registry) == Some(auth_url)
                &&& 0 <= batch < self.tasks[self.done].batches.len()
                &&& tokens == granted_tokens(self.tasks[self.done], batch, auth_url, grant)
            },
        }
    }
}

/// A session starts where any answers lead.
pub proof fn law_session_start(
    images: Seq<ImageView>,
    ctx: Context,
    auth: AuthAnswers,
    grant: TokenAnswers,
)
    ensures
        SessionView::start(images, ctx).follows(auth, grant),
{
    lemma_asked_registries(images, ctx);
    let registries = registries_to_ask(images, ctx);
    let tasks = tasks_of(images, ctx);
    assert forall|i: int| 0 <= i < tasks.len() implies (#[trigger] tasks[i]).batches.len() > 0 by {
        assert(registries.contains(registries[i]));
        lemma_task_has_batches(images, registries[i]);
    }
}

/// A session that is given the answers to what it asks goes where they lead, and does not lose
/// sight of a registry.
pub proof fn law_session_step(session: SessionView, auth: AuthAnswers, grant: TokenAnswers)
    requires
        session.follows(auth, grant),
    ensures
        match session.action() {
            AuthActionView::CheckAuth(registry) => {
                let next = session.after_auth(auth(registry));
                next.follows(auth, grant) && next.tasks == session.tasks
            },
            AuthActionView::RequestToken { registry, auth_url, repositories } => {
                let next = session.after_token(grant(registry, auth_url, repositories));
                next.follows(auth, grant) && next.tasks == session.tasks
            },
            AuthActionView::Finished => session.done == session.tasks.len(),
        },
{
}

proof fn lemma_recorded(
    tokens: Map<Seq<char>, Result<Seq<char>, Seq<char>>>,
    repositories: Seq<Seq<char>>,
    token: Result<Seq<char>, Seq<char>>,
    k: Seq<char>,
)
    ensures
        recorded(tokens, repositories, token).contains_key(k) <==> tokens.contains_key(k)
            || repositories.contains(k),
        repositories.contains(k) ==> recorded(tokens, repositories, token)[k] == token,
        !repositories.contains(k) && tokens.contains_key(k) ==> recorded(
            tokens,
            repositories,
            token,
        )[k] == tokens[k],
    decreases repositories.len(),
{
    if repositories.len() > 0 {
        let shorter = repositories.drop_last();
        lemma_recorded(tokens, shorter, token, k);
        if repositories.contains(k) && k != repositories.last() {
            let j = choose|j: int| 0 <= j < repositories.len() && repositories[j] == k;
            assert(shorter[j] == k);
        }
        if shorter.contains(k) {
            let j = choose|j: int| 0 <= j < shorter.len() && shorter[j] == k;
            assert(repositories[j] == k);
        }
        assert(repositories[repositories.len() - 1] == repositories.last());
    }
}

proof fn lemma_granted_tokens(
    task: TaskView,
    n: int,
    auth_url: Seq<char>,
    grant: TokenAnswers,
    k: Seq<char>,
)
    requires
        0 <= n <= task.batches.len(),
        exists|b: int| 0 <= b < n && (#[trigger] task.batches[b]).contains(k),
    ensures
        granted_tokens(task, n, auth_url, grant).contains_key(k),
        exists|b: int|
            0 <= b < n && (#[trigger] task.batches[b]).contains(k) && granted_tokens(
                task,
                n,
                auth_url,
                grant,
            )[k] == grant(task.registry, auth_url, task.batches[b]),
    decreases n,
{
    if n > 0 {
        let last = task.batches[n - 1];
        lemma_recorded(
            granted_tokens(task, n - 1, auth_url, grant),
            last,
            grant(task.registry, auth_url, last),
            k,
        );
        if !last.contains(k) {
            lemma_granted_tokens(task, n - 1, auth_url, grant, k);
        }
    }
}

/// What is in the concatenation of some lists is in one of them.
proof fn lemma_flatten_contains<T>(lists: Seq<Seq<T>>, x: T)
    requires
        lists.flatten().contains(x),
    ensures
        exists|i: int| 0 <= i < lists.len() && (#[trigger] lists[i]).contains(x),
    decreases lists.len(),
{
    if lists.len() > 0 {
        let k = choose|k: int| 0 <= k < lists.flatten().len() && lists.flatten()[k] == x;
        assert(lists.flatten() == lists.first() + lists.drop_first().flatten());
        if k < lists[0].len() {
            assert(lists[0][k] == x);
            assert(lists[0].contains(x));
        } else {
            assert(lists.drop_first().flatten()[k - lists[0].len()] == x);
            lemma_flatten_contains(lists.drop_first(), x);
            let i = choose|i: int|
                0 <= i < lists.drop_first().len() && (#[trigger] lists.drop_first()[i]).contains(
                    x,
                );
            assert(lists[i + 1] == lists.drop_first()[i]);
        }
    }
}

/// Whether it is known how to ask about an image.
pub open spec fn covered(access: Map<Seq<char>, AccessView>, image: ImageView) -> bool {
    access.contains_key(image.parts.registry) && match access[image.parts.registry] {
        AccessView::Open => true,
        AccessView::Tokens(tokens) => tokens.contains_key(image.parts.repository),
    }
}

/// When a session is finished, it is known how to ask about every image of a registry that is
/// not ignored: without a token if the registry wants none, and otherwise with what the
/// registry answered for the batch that holds the image's repository. The answer for one batch
/// has no effect on the repositories of another.
pub proof fn law_session_result(
    images: Seq<ImageView>,
    ctx: Context,
    session: SessionView,
    auth: AuthAnswers,
    grant: TokenAnswers,
    i: int,
)
    requires
        session.follows(auth, grant),
        session.tasks == tasks_of(images, ctx),
        session.action() is Finished,
        0 <= i < images.len(),
        !ctx.ignores(images[i].parts.registry),
    ensures
        covered(session.access, images[i]),
        match auth(images[i].parts.registry) {
            None => session.access[images[i].parts.registry] is Open,
            Some(auth_url) => {
                let task = task_of(images, images[i].parts.registry);
                &&& session.access[images[i].parts.registry] is Tokens
                &&& exists|b: int|
                    0 <= b < task.batches.len() && (#[trigger] task.batches[b]).contains(
                        images[i].parts.repository,
                    ) && session.access[images[i].parts.registry]->Tokens_0[images[i].parts.repository]
                        == grant(images[i].parts.registry, auth_url, task.batches[b])
            },
        },
{
    let registry = images[i].parts.registry;
    let repository = images[i].parts.repository;
    let registries = registries_to_ask(images, ctx);
    lemma_asked_registries(images, ctx);
    assert(registries_of(images)[i] == registry);
    assert(registries_of(images).contains(registry));
    assert(registries.contains(registry));
    let r = choose|r: int| 0 <= r < registries.len() && registries[r] == registry;
    let task = task_of(images, registry);
    assert(session.tasks[r] == task);
    if let Some(auth_url) = auth(registry) {
        let names = repositories_in(images, registry);
        lemma_repositories_in(images, registry);
        law_unique(names);
        law_batches(unique(names), MAX_REPOSITORIES_PER_TOKEN as nat);
        assert(unique(names).contains(repository));
        lemma_flatten_contains(task.batches, repository);
        lemma_granted_tokens(task, task.batches.len() as int, auth_url, grant, repository);
    }
}

/// How many requests the registries from `from` on may still take: one for whether they want a
/// token, and one for each batch.
pub open spec fn requests_from(tasks: Seq<TaskView>, from: int) -> int
    decreases tasks.len() - from,
{
    if from < 0 || from >= tasks.len() {
        0
    } else {
        1 + tasks[from].batches.len() + requests_from(tasks, from + 1)
    }
}

impl SessionView {
    /// How many requests the session may still take.
    pub open spec fn requests_left(self) -> int {
        match self.phase {
            PhaseView::Ask => requests_from(self.tasks, self.done),
            PhaseView::Request { batch, .. } => self.tasks[self.done].batches.len() - batch
                + requests_from(self.tasks, self.done + 1),
        }
    }
}

/// Every answer brings a session closer to its end, whatever the answer is.
pub proof fn law_session_ends(
    session: SessionView,
    auth: AuthAnswers,
    grant: TokenAnswers,
    auth_url: Option<Seq<char>>,
    token: Result<Seq<char>, Seq<char>>,
)
    requires
        session.follows(auth, grant),
    ensures
        session.requests_left() >= 0,
        session.action() is CheckAuth ==> session.after_auth(auth_url).requests_left()
            < session.requests_left(),
        session.action() is RequestToken ==> session.after_token(token).requests_left()
            < session.requests_left(),
{
    lemma_requests_from(session.tasks, session.done);
    lemma_requests_from(session.tasks, session.done + 1);
}

proof fn lemma_requests_from(tasks: Seq<TaskView>, from: int)
    ensures
        requests_from(tasks, from) >= 0,
    decreases tasks.len() - from,
{
    if 0 <= from < tasks.len() {
        lemma_requests_from(tasks, from + 1);
    }
}

/// Every registry of an image is asked exactly once, unless it is set to be ignored, and no other
/// is. They are asked in the order of the images: more images do not change the order of the
/// registries of those before them.
pub proof fn law_asked_registries(
    front: Seq<ImageView>,
    back: Seq<ImageView>,
    ctx: Context,
    registry: Seq<char>,
)
    ensures
        registries_to_ask(front, ctx).no_duplicates(),
        registries_to_ask(front, ctx).contains(registry) <==> (exists|i: int|
            0 <= i < front.len() && (#[trigger] front[i]).parts.registry == registry) && !(
        ctx.config.registries@.contains_key(registry) && ctx.config.registries@[registry].ignore),
        registries_to_ask(front, ctx).is_prefix_of(registries_to_ask(front + back, ctx)),
{
    lemma_asked_registries(front, ctx);
    let names = registries_of(front);
    if names.contains(registry) {
        let i = choose|i: int| 0 <= i < names.len() && names[i] == registry;
        assert(front[i].parts.registry == registry);
    }
    if exists|i: int| 0 <= i < front.len() && (#[trigger] front[i]).parts.registry == registry {
        let i = choose|i: int| 0 <= i < front.len() && (#[trigger] front[i]).parts.registry
            == registry;
        assert(names[i] == registry);
    }
    let keep = |registry: Seq<char>| !ctx.ignores(registry);
    let all = unique(registries_of(front + back));
    assert(registries_of(front + back) =~= names + registries_of(back));
    law_unique_keeps_the_order(names, registries_of(back));
    let more = all.skip(unique(names).len() as int);
    assert(all =~= unique(names) + more);
    Seq::filter_distributes_over_add(unique(names), more, keep);
    assert(registries_to_ask(front, ctx) == unique(names).filter(keep));
    assert(registries_to_ask(front + back, ctx) == all.filter(keep));
}

/// The repositories of a registry are those of its images, in their order.
pub proof fn law_repositories_of_a_registry(
    front: Seq<ImageView>,
    image: ImageView,
    back: Seq<ImageView>,
    registry: Seq<char>,
)
    ensures
        repositories_in(front + back, registry) == repositories_in(front, registry)
            + repositories_in(back, registry),
        image.parts.registry == registry ==> repositories_in(seq![image], registry) == seq![
            image.parts.repository,
        ],
        image.parts.registry != registry ==> repositories_in(seq![image], registry).len() == 0,
    decreases back.len(),
{
    if back.len() == 0 {
        assert(front + back =~= front);
    } else {
        assert((front + back).drop_last() =~= front + back.drop_last());
        law_repositories_of_a_registry(front, image, back.drop_last(), registry);
    }
    assert(repositories_in(front + back, registry) =~= repositories_in(front, registry)
        + repositories_in(back, registry));
    let one = seq![image];
    assert(one.drop_last() =~= Seq::<ImageView>::empty());
    assert(one.last() == image);
    assert(repositories_in(one.drop_last(), registry) =~= Seq::<Seq<char>>::empty());
    if image.parts.registry == registry {
        assert(repositories_in(one, registry) =~= seq![image.parts.repository]);
    }
}

/// What a registry is asked about: all repositories of its images, each in one batch, and no
/// others, in batches that are full but for the last one.
pub proof fn law_tasks(images: Seq<ImageView>, ctx: Context, i: int, repository: Seq<char>)
    requires
        0 <= i < registries_to_ask(images, ctx).len(),
    ensures
        tasks_of(images, ctx).len() == registries_to_ask(images, ctx).len(),
        ({
            let task = tasks_of(images, ctx)[i];
            &&& task.registry == registries_to_ask(images, ctx)[i]
            &&& task.batches.flatten().no_duplicates()
            &&& task.batches.flatten().contains(repository) <==> exists|k: int|
                0 <= k < images.len() && (#[trigger] images[k]).parts.registry == task.registry
                    && images[k].parts.repository == repository
            &&& forall|b: int|
                0 <= b < task.batches.len() ==> 0 < (#[trigger] task.batches[b]).len() <= 20
            &&& forall|b: int|
                0 <= b < task.batches.len() - 1 ==> (#[trigger] task.batches[b]).len() == 20
        }),
{
    let registry = registries_to_ask(images, ctx)[i];
    let names = repositories_in(images, registry);
    assert(tasks_of(images, ctx)[i] == task_of(images, registry));
    law_unique(names);
    law_batches(unique(names), MAX_REPOSITORIES_PER_TOKEN as nat);
    lemma_repositories_in(images, registry);
    if names.contains(repository) {
        lemma_repository_of_an_image(images, registry, repository);
    }
    if exists|k: int|
        0 <= k < images.len() && (#[trigger] images[k]).parts.registry == registry
            && images[k].parts.repository == repository {
        let k = choose|k: int|
            0 <= k < images.len() && (#[trigger] images[k]).parts.registry == registry
                && images[k].parts.repository == repository;
        assert(names.contains(images[k].parts.repository));
    }
    assert(unique(names).contains(repository) <==> names.contains(repository));
}

proof fn lemma_repository_of_an_image(
    images: Seq<ImageView>,
    registry: Seq<char>,
    repository: Seq<char>,
)
    requires
        repositories_in(images, registry).contains(repository),
    ensures
        exists|k: int|
            0 <= k < images.len() && (#[trigger] images[k]).parts.registry == registry
                && images[k].parts.repository == repository,
    decreases images.len(),
{
    if images.len() > 0 {
        let shorter = images.drop_last();
        let rest = repositories_in(shorter, registry);
        let all = repositories_in(images, registry);
        let j = choose|j: int| 0 <= j < all.len() && all[j] == repository;
        if j < rest.len() {
            assert(rest[j] == repository);
            lemma_repository_of_an_image(shorter, registry, repository);
            let k = choose|k: int|
                0 <= k < shorter.len() && (#[trigger] shorter[k]).parts.registry == registry
                    && shorter[k].parts.repository == repository;
            assert(images[k] == shorter[k]);
        } else {
            assert(images[images.len() - 1] == images.last());
        }
    }
}

/// A session begins with the first registry, and knows of none.
pub proof fn law_session_begins(images: Seq<ImageView>, ctx: Context)
    ensures
        ({
            let session = SessionView::start(images, ctx);
            let registries = registries_to_ask(images, ctx);
            &&& session.tasks == tasks_of(images, ctx)
            &&& session.access.dom() == Set::<Seq<char>>::empty()
            &&& registries.len() == 0 ==> session.action() is Finished
            &&& registries.len() > 0 ==> session.action() == AuthActionView::CheckAuth(
                registries[0],
            )
        }),
{
    assert(SessionView::start(images, ctx).access.dom() =~= Set::<Seq<char>>::empty());
}

} // verus!
