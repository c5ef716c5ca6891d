//! Taking image references apart.

use crate::structs::parts::{Parts, PartsView};
use crate::text::{
    after, before, contains_char, find, lemma_cut, lemma_position, lemma_position_unique,
    lemma_uncut, position, same, slice,
};
use vstd::prelude::*;

verus! {

/// Whether the first component of a reference names a registry.
pub open spec fn names_registry(component: Seq<char>) -> bool {
    component == "localhost"@ || component.contains('.') || component.contains(':')
}

/// The registry of a reference, and what follows it. References that name none are found on
/// Docker Hub.
pub open spec fn registry_and_rest(reference: Seq<char>) -> (Seq<char>, Seq<char>) {
    let first = before(reference, '/');
    if reference.contains('/') && names_registry(first) {
        (first, after(reference, '/'))
    } else {
        ("registry-1.docker.io"@, reference)
    }
}

/// The repository and the tag that follow the registry: a digest is left out, a missing tag
/// is `latest`, and a plain name on Docker Hub stands in `library/`.
pub open spec fn repository_and_tag(registry: Seq<char>, rest: Seq<char>) -> (
    Seq<char>,
    Seq<char>,
) {
    let name_and_tag = before(rest, '@');
    let name = before(name_and_tag, ':');
    let repository = if registry == "registry-1.docker.io"@ && !name.contains('/') {
        "library/"@ + name
    } else {
        name
    };
    let tag = if name_and_tag.contains(':') {
        after(name_and_tag, ':')
    } else {
        "latest"@
    };
    (repository, tag)
}

/// The parts of a reference.
pub open spec fn parts_of(reference: Seq<char>) -> PartsView {
    let (registry, rest) = registry_and_rest(reference);
    let (repository, tag) = repository_and_tag(registry, rest);
    PartsView { registry, repository, tag }
}

/// Splits a reference into its registry, repository and tag. `ghcr.io/sergi0g/cup:latest`
/// becomes `ghcr.io`, `sergi0g/cup` and `latest`.
pub fn split(reference: &str) -> (parts: Parts)
    ensures
        parts@ == parts_of(reference@),
{
    proof {
        lemma_position(reference@, '/');
    }
    let length: usize = reference.unicode_len();
    let slash: usize = find(reference, '/');
    let first = slice(reference, 0, slash);
    assert(first@ =~= before(reference@, '/'));
    let domain = slash < length && (same(first.as_str(), "localhost") || contains_char(
        first.as_str(),
        '.',
    ) || contains_char(first.as_str(), ':'));
    let (registry, rest) = if domain {
        let rest = slice(reference, slash + 1, length);
        assert(rest@ =~= after(reference@, '/'));
        (first, rest)
    } else {
        ("registry-1.docker.io".to_owned(), reference.to_owned())
    };
    let at: usize = find(rest.as_str(), '@');
    let name_and_tag = slice(rest.as_str(), 0, at);
    assert(name_and_tag@ =~= before(rest@, '@'));
    proof {
        lemma_position(name_and_tag@, ':');
    }
    let colon: usize = find(name_and_tag.as_str(), ':');
    let end: usize = name_and_tag.as_str().unicode_len();
    let name = slice(name_and_tag.as_str(), 0, colon);
    assert(name@ =~= before(name_and_tag@, ':'));
    let tag = if colon < end {
        let tag = slice(name_and_tag.as_str(), colon + 1, end);
        assert(tag@ =~= after(name_and_tag@, ':'));
        tag
    } else {
        "latest".to_owned()
    };
    let repository = if same(registry.as_str(), "registry-1.docker.io") && !contains_char(
        name.as_str(),
        '/',
    ) {
        let mut repository = "library/".to_owned();
        repository.append(name.as_str());
        repository
    } else {
        name
    };
    Parts { registry, repository, tag }
}

/// The reference that is made up of some parts.
pub open spec fn written(parts: PartsView) -> Seq<char> {
    parts.registry + "/"@ + parts.repository + ":"@ + parts.tag
}

/// Whether some parts can be told apart again in a reference: the registry can be recognised as
/// one, no separator stands where it would be taken for one, and the repository is written in
/// full.
pub open spec fn separable(parts: PartsView) -> bool {
    &&& names_registry(parts.registry)
    &&& !parts.registry.contains('/')
    &&& !parts.repository.contains(':')
    &&& !parts.repository.contains('@')
    &&& !parts.tag.contains('@')
    &&& parts.registry == "registry-1.docker.io"@ ==> parts.repository.contains('/')
}

/// A reference splits into the parts that it was made up of.
pub proof fn law_split_finds_the_parts(parts: PartsView)
    requires
        separable(parts),
    ensures
        parts_of(written(parts)) == parts,
{
    reveal_strlit("/");
    reveal_strlit(":");
    let name_and_tag = parts.repository + seq![':'] + parts.tag;
    assert("/"@ =~= seq!['/']);
    assert(":"@ =~= seq![':']);
    assert(written(parts) =~= parts.registry + seq!['/'] + name_and_tag);
    lemma_cut(parts.registry, '/', name_and_tag);
    assert(!name_and_tag.contains('@')) by {
        if name_and_tag.contains('@') {
            let i = choose|i: int| 0 <= i < name_and_tag.len() && name_and_tag[i] == '@';
            let n = parts.repository.len() as int;
            if i < n {
                assert(parts.repository[i] == '@');
            } else if i > n {
                assert(parts.tag[i - n - 1] == '@');
            }
        }
    }
    lemma_uncut(name_and_tag, '@');
    lemma_cut(parts.repository, ':', parts.tag);
}

/// The parts of every reference can be told apart again. So a reference that is written out in
/// full, registry, repository and tag, has the same parts as the reference that was given.
pub proof fn law_parts_make_the_same_reference(reference: Seq<char>)
    ensures
        separable(parts_of(reference)),
        parts_of(written(parts_of(reference))) == parts_of(reference),
{
    let parts = parts_of(reference);
    let (registry, rest) = registry_and_rest(reference);
    reveal_strlit("registry-1.docker.io");
    reveal_strlit("library/");
    reveal_strlit("latest");
    lemma_position(reference, '/');
    if !(reference.contains('/') && names_registry(before(reference, '/'))) {
        assert("registry-1.docker.io"@[10] == '.');
    }
    let name_and_tag = before(rest, '@');
    lemma_position(rest, '@');
    lemma_position(name_and_tag, ':');
    let name = before(name_and_tag, ':');
    assert(!name.contains('@')) by {
        if name.contains('@') {
            let i = choose|i: int| 0 <= i < name.len() && name[i] == '@';
            assert(rest[i] == '@');
        }
    }
    assert(!parts.tag.contains('@')) by {
        if parts.tag.contains('@') && name_and_tag.contains(':') {
            let i = choose|i: int| 0 <= i < parts.tag.len() && parts.tag[i] == '@';
            assert(rest[position(name_and_tag, ':') + 1 + i] == '@');
        }
    }
    if registry == "registry-1.docker.io"@ && !name.contains('/') {
        assert(parts.repository[7] == '/');
        assert forall|c: char| (c == ':' || c == '@') && parts.repository.contains(c) implies false by {
            let i = choose|i: int| 0 <= i < parts.repository.len() && parts.repository[i] == c;
            if i >= 8 {
                assert(name[i - 8] == c);
            }
        }
    }
    assert(!parts.repository.contains(':'));
    assert(!parts.repository.contains('@'));
    law_split_finds_the_parts(parts);
}

/// A reference with a registry: the first component has a dot or a port, or is `localhost`.
/// Without a tag, `latest` is meant.
pub proof fn law_references_with_a_registry(
    registry: Seq<char>,
    repository: Seq<char>,
    tag: Seq<char>,
)
    requires
        registry.contains('.') || registry.contains(':') || registry == "localhost"@,
        !registry.contains('/'),
        !repository.contains(':'),
        !repository.contains('@'),
        !tag.contains('@'),
        registry != "registry-1.docker.io"@ || repository.contains('/'),
    ensures
        parts_of(registry + "/"@ + repository + ":"@ + tag) == (PartsView {
            registry,
            repository,
            tag,
        }),
        parts_of(registry + "/"@ + repository) == (PartsView {
            registry,
            repository,
            tag: "latest"@,
        }),
{
    law_split_finds_the_parts(PartsView { registry, repository, tag });
    reveal_strlit("/");
    assert("/"@ =~= seq!['/']);
    lemma_cut(registry, '/', repository);
    lemma_uncut(repository, '@');
    lemma_uncut(repository, ':');
}

/// A reference without a registry is on Docker Hub, where a plain name stands in `library/`.
pub proof fn law_references_on_docker_hub(name: Seq<char>, tag: Seq<char>)
    requires
        !name.contains(':'),
        !name.contains('@'),
        !tag.contains('@'),
        !tag.contains('/'),
        name.contains('/') ==> !before(name, '/').contains('.') && before(name, '/')
            != "localhost"@,
    ensures
        ({
            let repository = if name.contains('/') {
                name
            } else {
                "library/"@ + name
            };
            &&& parts_of(name + ":"@ + tag) == (PartsView {
                registry: "registry-1.docker.io"@,
                repository,
                tag,
            })
            &&& parts_of(name) == (PartsView {
                registry: "registry-1.docker.io"@,
                repository,
                tag: "latest"@,
            })
        }),
{
    reveal_strlit(":");
    assert(":"@ =~= seq![':']);
    let reference = name + seq![':'] + tag;
    assert(name + ":"@ + tag =~= reference);
    lemma_position(name, '/');
    lemma_cut(name, ':', tag);
    lemma_uncut(name, '@');
    lemma_uncut(name, ':');
    assert(!reference.contains('@')) by {
        if reference.contains('@') {
            let i = choose|i: int| 0 <= i < reference.len() && reference[i] == '@';
            if i < name.len() {
                assert(name[i] == '@');
            } else if i > name.len() {
                assert(tag[i - name.len() - 1] == '@');
            }
        }
    }
    lemma_uncut(reference, '@');
    if name.contains('/') {
        let k = position(name, '/');
        assert forall|i: int| 0 <= i < k implies reference[i] != '/' by {
            assert(reference[i] == name[i]);
        }
        assert(reference[k] == '/');
        lemma_position_unique(reference, '/', k);
        assert(before(reference, '/') =~= before(name, '/'));
        let first = before(name, '/');
        assert(!first.contains(':')) by {
            if first.contains(':') {
                let i = choose|i: int| 0 <= i < first.len() && first[i] == ':';
                assert(name[i] == ':');
            }
        }
    } else {
        assert(!reference.contains('/')) by {
            if reference.contains('/') {
                let i = choose|i: int| 0 <= i < reference.len() && reference[i] == '/';
                if i < name.len() {
                    assert(name[i] == '/');
                } else if i > name.len() {
                    assert(tag[i - name.len() - 1] == '/');
                }
            }
        }
    }
}

/// A digest behind a reference makes no difference to its parts.
pub proof fn law_digests_are_left_out(reference: Seq<char>, digest: Seq<char>)
    requires
        !digest.contains('/'),
    ensures
        parts_of(reference + "@"@ + digest) == parts_of(reference),
{
    reveal_strlit("@");
    assert("@"@ =~= seq!['@']);
    let longer = reference + seq!['@'] + digest;
    assert(reference + "@"@ + digest =~= longer);
    lemma_position(reference, '/');
    lemma_position(longer, '/');
    let k = position(reference, '/');
    if reference.contains('/') {
        assert forall|i: int| 0 <= i < k implies longer[i] != '/' by {
            assert(longer[i] == reference[i]);
        }
        assert(longer[k] == '/');
        lemma_position_unique(longer, '/', k);
        assert(before(longer, '/') =~= before(reference, '/'));
        assert(after(longer, '/') =~= after(reference, '/') + seq!['@'] + digest);
    } else if longer.contains('/') {
        let i = choose|i: int| 0 <= i < longer.len() && longer[i] == '/';
        if i < reference.len() {
            assert(reference[i] == '/');
        } else if i > reference.len() {
            assert(digest[i - reference.len() - 1] == '/');
        }
    }
    let rest = registry_and_rest(reference).1;
    let longer_rest = registry_and_rest(longer).1;
    assert(longer_rest == rest + seq!['@'] + digest);
    if rest.contains('@') {
        lemma_position(rest, '@');
        let a = position(rest, '@');
        assert forall|i: int| 0 <= i < a implies longer_rest[i] != '@' by {
            assert(longer_rest[i] == rest[i]);
        }
        assert(longer_rest[a] == '@');
        lemma_position_unique(longer_rest, '@', a);
        assert(before(longer_rest, '@') =~= before(rest, '@'));
    } else {
        lemma_cut(rest, '@', digest);
        lemma_uncut(rest, '@');
    }
}

} // verus!
