//! What the user can configure.

use crate::index::TextMap;
use crate::text::{same, view_of};
use vstd::prelude::*;

verus! {

/// The least kind of version update that is ignored.
#[derive(Debug, Clone, Copy, PartialEq, Eq, Structural)]
pub enum UpdateType {
    /// Report every update.
    Off,
    /// Ignore updates to another major version.
    Major,
    /// Ignore updates to another major or minor version.
    Minor,
    /// Ignore updates to another version.
    Patch,
}

/// Settings for one registry.
#[derive(Debug, PartialEq)]
pub struct RegistryConfig {
    /// The credentials to present, already encoded.
    pub authentication: Option<String>,
    /// Whether the registry is reached over plain HTTP.
    pub insecure: bool,
    /// Whether images of the registry are left out.
    pub ignore: bool,
}

impl Default for RegistryConfig {
    fn default() -> (r: Self)
        ensures
            r.authentication is None,
            !r.insecure,
            !r.ignore,
    {
        RegistryConfig { authentication: None, insecure: false, ignore: false }
    }
}

/// Settings for images.
pub struct ImageConfig {
    /// References to check besides the images of the daemon.
    pub extra: Vec<String>,
    /// Prefixes of references that are not checked, and tags that are not considered.
    pub exclude: Vec<String>,
}

/// The URLs of some instances by name; of two with one name, the later one counts.
pub open spec fn server_map(entries: Seq<(String, String)>) -> Map<Seq<char>, Seq<char>>
    decreases entries.len(),
{
    if entries.len() == 0 {
        Map::empty()
    } else {
        server_map(entries.drop_last()).insert(entries.last().0@, entries.last().1@)
    }
}

/// Whether no two instances have one name.
pub open spec fn distinct_names(entries: Seq<(String, String)>) -> bool {
    forall|i: int, j: int|
        0 <= i < j < entries.len() ==> (#[trigger] entries[i]).0@ != (#[trigger] entries[j]).0@
}

proof fn lemma_server_map(entries: Seq<(String, String)>)
    requires
        distinct_names(entries),
    ensures
        forall|k: Seq<char>| #[trigger]
            server_map(entries).contains_key(k) <==> exists|i: int|
                0 <= i < entries.len() && (#[trigger] entries[i]).0@ == k,
        forall|i: int|
            0 <= i < entries.len() ==> server_map(entries)[(#[trigger] entries[i]).0@]
                == entries[i].1@,
    decreases entries.len(),
{
    if entries.len() > 0 {
        let shorter = entries.drop_last();
        lemma_server_map(shorter);
        assert forall|k: Seq<char>| #[trigger]
            server_map(entries).contains_key(k) <==> exists|i: int|
                0 <= i < entries.len() && (#[trigger] entries[i]).0@ == k by {
            if server_map(shorter).contains_key(k) {
                let i = choose|i: int| 0 <= i < shorter.len() && (#[trigger] shorter[i]).0@ == k;
                assert(entries[i].0@ == k);
            }
            if exists|i: int| 0 <= i < entries.len() && (#[trigger] entries[i]).0@ == k {
                let i = choose|i: int| 0 <= i < entries.len() && (#[trigger] entries[i]).0@ == k;
                if i < entries.len() - 1 {
                    assert(shorter[i].0@ == k);
                }
            }
            assert(entries[entries.len() - 1] == entries.last());
        }
        assert forall|i: int| 0 <= i < entries.len() implies server_map(entries)[(
        #[trigger] entries[i]).0@] == entries[i].1@ by {
            if i < entries.len() - 1 {
                assert(shorter[i] == entries[i]);
                assert(entries[i].0@ != entries[entries.len() - 1].0@);
            }
        }
    }
}

/// Other instances to ask: a name and a URL each.
pub struct Servers {
    entries: Vec<(String, String)>,
}

impl View for Servers {
    type V = Map<Seq<char>, Seq<char>>;

    closed spec fn view(&self) -> Map<Seq<char>, Seq<char>> {
        server_map(self.entries@)
    }
}

impl Servers {
    /// No two instances have one name.
    #[verifier::type_invariant]
    spec fn wf(self) -> bool {
        distinct_names(self.entries@)
    }

    /// No instances.
    pub fn new() -> (r: Servers)
        ensures
            r@ == Map::<Seq<char>, Seq<char>>::empty(),
    {
        Servers { entries: Vec::new() }
    }

    /// Adds an instance, in place of one with the same name.
    pub fn insert(&mut self, name: String, url: String)
        ensures
            final(self)@ == old(self)@.insert(name@, url@),
    {
        proof {
            use_type_invariant(&*self);
        }
        let mut entries: Vec<(String, String)> = Vec::new();
        std::mem::swap(&mut self.entries, &mut entries);
        let ghost before = entries@;
        let ghost key = name@;
        let ghost address = url@;
        let mut i: usize = 0;
        while i < entries.len() && !same(entries[i].0.as_str(), name.as_str())
            invariant
                i <= entries@.len(),
                forall|j: int| 0 <= j < i ==> (#[trigger] entries@[j]).0@ != name@,
            decreases entries@.len() - i,
        {
            i += 1;
        }
        if i < entries.len() {
            entries.set(i, (name, url));
        } else {
            entries.push((name, url));
        }
        let ghost after = entries@;
        proof {
            assert(distinct_names(after));
            lemma_server_map(before);
            lemma_server_map(after);
            assert(after[i as int].0@ == key && after[i as int].1@ == address);
            assert forall|k: Seq<char>| server_map(after).contains_key(k) <==> server_map(
                before,
            ).insert(key, address).contains_key(k) by {
                if server_map(before).contains_key(k) {
                    let j = choose|j: int| 0 <= j < before.len() && (#[trigger] before[j]).0@ == k;
                    assert(after[j].0@ == k);
                }
                if server_map(after).contains_key(k) {
                    let j = choose|j: int| 0 <= j < after.len() && (#[trigger] after[j]).0@ == k;
                    if j != i {
                        assert(before[j].0@ == k);
                    }
                }
            }
            assert forall|k: Seq<char>| server_map(after).contains_key(k) implies server_map(
                after,
            )[k] == server_map(before).insert(key, address)[k] by {
                let j = choose|j: int| 0 <= j < after.len() && (#[trigger] after[j]).0@ == k;
                if j != i {
                    assert(before[j] == after[j]);
                    assert(k != key);
                }
            }
            assert(server_map(after) =~= server_map(before).insert(key, address));
        }
        *self = Servers { entries };
    }

    /// Name and URL of each instance, once.
    pub fn list(&self) -> (r: &Vec<(String, String)>)
        ensures
            distinct_names(r@),
            server_map(r@) == self@,
    {
        proof {
            use_type_invariant(self);
        }
        &self.entries
    }
}

/// The configuration.
pub struct Config {
    pub ignore_update_type: UpdateType,
    pub images: ImageConfig,
    /// Settings by registry.
    pub registries: TextMap<RegistryConfig>,
    /// The other instances to ask.
    pub servers: Servers,
    /// The daemon's socket; `none` for no daemon.
    pub socket: Option<String>,
}

/// What a check runs with.
pub struct Context {
    pub config: Config,
}

impl Config {
    /// The configuration of someone who set nothing.
    pub fn new() -> (r: Config)
        ensures
            r.ignore_update_type == UpdateType::Off,
            r.images.extra@.len() == 0,
            r.images.exclude@.len() == 0,
            r.registries@.dom() == Set::<Seq<char>>::empty(),
            r.servers@.dom() == Set::<Seq<char>>::empty(),
            r.socket is None,
    {
        Config {
            ignore_update_type: UpdateType::Off,
            images: ImageConfig { extra: Vec::new(), exclude: Vec::new() },
            registries: TextMap::new(),
            servers: Servers::new(),
            socket: None,
        }
    }
}

impl Context {
    /// Whether images of `registry` are left out.
    pub open spec fn ignores(self, registry: Seq<char>) -> bool {
        self.config.registries@.contains_key(registry) && self.config.registries@[registry].ignore
    }

    /// Whether images of `registry` are left out.
    pub fn is_ignored(&self, registry: &str) -> (r: bool)
        ensures
            r == self.ignores(registry@),
    {
        match self.config.registries.get(registry) {
            Some(settings) => settings.ignore,
            None => false,
        }
    }

    /// The credentials for `registry`.
    pub open spec fn credentials(self, registry: Seq<char>) -> Option<Seq<char>> {
        if self.config.registries@.contains_key(registry) {
            view_of(self.config.registries@[registry].authentication)
        } else {
            None
        }
    }

    /// The credentials for `registry`.
    pub fn credentials_for(&self, registry: &str) -> (r: Option<String>)
        ensures
            view_of(r) == self.credentials(registry@),
    {
        match self.config.registries.get(registry) {
            Some(settings) => settings.authentication.clone(),
            None => None,
        }
    }
}

/// What is set for a registry is what counts for it. Nothing is left out, and no credentials are
/// presented, where nothing is set.
pub proof fn law_registry_settings(ctx: Context, registry: Seq<char>)
    ensures
        !ctx.config.registries@.contains_key(registry) ==> !ctx.ignores(registry)
            && ctx.credentials(registry) is None,
        ctx.config.registries@.contains_key(registry) ==> {
            let settings = ctx.config.registries@[registry];
            &&& ctx.ignores(registry) == settings.ignore
            &&& ctx.credentials(registry) is Some <==> settings.authentication is Some
            &&& settings.authentication is Some ==> ctx.credentials(registry)->0
                == settings.authentication->0@
        },
{
}

} // verus!
