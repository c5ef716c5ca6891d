//! Putting requests together and reading headers.

use crate::config::Context;
use crate::text::{
    after, before, find, lemma_cut, lemma_position, same, slice, starts_with, view_of,
};
use vstd::prelude::*;

verus! {

/// A header of a request; one without a value is not sent.
pub type Header = (String, Option<String>);

/// The headers of a request, as text.
pub open spec fn header_views(headers: Seq<Header>) -> Seq<(Seq<char>, Option<Seq<char>>)> {
    headers.map_values(|header: Header| (header.0@, view_of(header.1)))
}

/// The protocol to reach a registry with: plain HTTP only where that is configured.
pub open spec fn protocol(ctx: Context, registry: Seq<char>) -> Seq<char> {
    if ctx.config.registries@.contains_key(registry)
        && ctx.config.registries@[registry].insecure {
        "http"@
    } else {
        "https"@
    }
}

/// The protocol to reach a registry with.
pub fn get_protocol(registry: &str, ctx: &Context) -> (r: &'static str)
    ensures
        r@ == protocol(*ctx, registry@),
{
    match ctx.config.registries.get(registry) {
        Some(settings) => if settings.insecure {
            "http"
        } else {
            "https"
        },
        None => "https",
    }
}

/// The value of an authorization header that presents a token.
pub open spec fn bearer(token: Option<Seq<char>>) -> Option<Seq<char>> {
    match token {
        Some(token) => Some("Bearer "@ + token),
        None => None,
    }
}

/// The value of an authorization header that presents a token.
pub fn to_bearer_string(token: Option<&str>) -> (r: Option<String>)
    ensures
        view_of(r) == bearer(
            match token {
                Some(token) => Some(token@),
                None => None,
            },
        ),
{
    match token {
        Some(token) => {
            let mut r = "Bearer ".to_owned();
            r.append(token);
            Some(r)
        },
        None => None,
    }
}

/// Whether `c` may stand between two parameters of a challenge.
pub open spec fn separates(c: char) -> bool {
    c == ',' || c == ' '
}

/// The query that the parameters of a challenge ask for, in the order in which they stand: the
/// realm, which is the address itself, and a query parameter for every other one. A value may
/// be quoted.
pub open spec fn challenge_query(params: Seq<char>) -> Seq<char>
    decreases params.len(),
{
    let name = before(params, '=');
    let rest = after(params, '=');
    if params.len() == 0 {
        Seq::empty()
    } else if separates(params[0]) {
        challenge_query(params.drop_first())
    } else if !params.contains('=') {
        Seq::empty()
    } else {
        let quoted = rest.len() > 0 && rest[0] == '"';
        let value = if quoted {
            before(rest.drop_first(), '"')
        } else {
            before(rest, ',')
        };
        let following = if quoted {
            after(rest.drop_first(), '"')
        } else {
            after(rest, ',')
        };
        proof {
            lemma_position(params, '=');
            lemma_position(rest, ',');
            if quoted {
                lemma_position(rest.drop_first(), '"');
            }
        }
        (if name == "realm"@ {
            value + "?"@
        } else {
            "&"@ + name + "="@ + value
        }) + challenge_query(following)
    }
}

/// The address that a challenge sends to for a token; nothing unless it asks for one.
pub open spec fn challenge_url(challenge: Seq<char>) -> Option<Seq<char>> {
    if "Bearer "@.is_prefix_of(challenge) {
        Some(challenge_query(challenge.skip("Bearer "@.len() as int)))
    } else {
        None
    }
}

fn read_query(params: &str) -> (r: String)
    ensures
        r@ == challenge_query(params@),
    decreases params@.len(),
{
    let length: usize = params.unicode_len();
    if length == 0 {
        let r = String::new();
        assert(r@ =~= challenge_query(params@));
        return r;
    }
    let first: char = params.get_char(0);
    if first == ',' || first == ' ' {
        let rest = params.substring_char(1, length);
        assert(rest@ =~= params@.drop_first());
        return read_query(rest);
    }
    proof {
        lemma_position(params@, '=');
    }
    let equals: usize = find(params, '=');
    if equals >= length {
        let r = String::new();
        assert(r@ =~= challenge_query(params@));
        return r;
    }
    let name = slice(params, 0, equals);
    assert(name@ =~= before(params@, '='));
    let rest = params.substring_char(equals + 1, length);
    assert(rest@ =~= after(params@, '='));
    let rest_length: usize = rest.unicode_len();
    let quoted = rest_length > 0 && rest.get_char(0) == '"';
    let text = if quoted {
        rest.substring_char(1, rest_length)
    } else {
        rest
    };
    let end: char = if quoted {
        '"'
    } else {
        ','
    };
    proof {
        if quoted {
            assert(text@ =~= rest@.drop_first());
        }
        lemma_position(text@, end);
    }
    let close: usize = find(text, end);
    let value = slice(text, 0, close);
    assert(value@ =~= before(text@, end));
    let text_length: usize = text.unicode_len();
    let following = if close < text_length {
        text.substring_char(close + 1, text_length)
    } else {
        text.substring_char(text_length, text_length)
    };
    assert(following@ =~= after(text@, end));
    let mut r = if same(name.as_str(), "realm") {
        let mut r = value;
        r.append("?");
        r
    } else {
        let mut r = "&".to_owned();
        r.append(name.as_str());
        r.append("=");
        r.append(value.as_str());
        r
    };
    r.append(read_query(following).as_str());
    r
}

/// The address that a `www-authenticate` header sends to for a token. `None` for a challenge
/// that does not ask for a token.
pub fn parse_www_authenticate(challenge: &str) -> (r: Option<String>)
    ensures
        view_of(r) == challenge_url(challenge@),
{
    if starts_with(challenge, "Bearer ") {
        let skip: usize = "Bearer ".unicode_len();
        let params = challenge.substring_char(skip, challenge.unicode_len());
        assert(params@ =~= challenge@.skip("Bearer "@.len() as int));
        Some(read_query(params))
    } else {
        None
    }
}

/// The target of the first link in a `Link` header, between angle brackets.
pub open spec fn first_target(link: Seq<char>) -> Option<Seq<char>> {
    let opened = after(link, '<');
    if link.contains('<') && opened.contains('>') {
        Some(before(opened, '>'))
    } else {
        None
    }
}

/// The target of the first link in a `Link` header, as it stands there.
pub fn link_target(link: &str) -> (r: Option<String>)
    ensures
        view_of(r) == first_target(link@),
{
    proof {
        lemma_position(link@, '<');
    }
    let length: usize = link.unicode_len();
    let open: usize = find(link, '<');
    if open >= length {
        return None;
    }
    let opened = link.substring_char(open + 1, length);
    assert(opened@ =~= after(link@, '<'));
    proof {
        lemma_position(opened@, '>');
    }
    let close: usize = find(opened, '>');
    if close >= opened.unicode_len() {
        return None;
    }
    let target = slice(opened, 0, close);
    assert(target@ =~= before(opened@, '>'));
    Some(target)
}

/// The address that a link in the document at `base` leads to, where `base` is an address and
/// the link can be read as one, on its own or relative to `base`.
pub uninterp spec fn joined_url(base: Seq<char>, target: Seq<char>) -> Option<Seq<char>>;

/// `reqwest::Url::join`, on the address that `reqwest::Url::parse` reads out of `base`. The
/// result, written as text, has the name `joined_url`, and depends on the two texts alone.
#[verifier::external_body]
fn join_url(base: &str, target: &str) -> (r: Option<String>)
    ensures
        view_of(r) == joined_url(base@, target@),
{
    let base = reqwest::Url::parse(base).ok()?;
    base.join(target).ok().map(|url| url.to_string())
}

/// What [`NextPage`] stands for.
pub enum NextPageView {
    Last,
    At(Seq<char>),
    Unreadable,
}

/// What follows a page of a list.
#[derive(Debug, PartialEq)]
pub enum NextPage {
    /// It is the last one.
    Last,
    /// The next page is at this address.
    At(String),
    /// There is a link, and it leads nowhere.
    Unreadable,
}

impl View for NextPage {
    type V = NextPageView;

    open spec fn view(&self) -> NextPageView {
        match self {
            NextPage::Last => NextPageView::Last,
            NextPage::At(url) => NextPageView::At(url@),
            NextPage::Unreadable => NextPageView::Unreadable,
        }
    }
}

/// What follows the page at `url` that came with this `Link` header.
pub open spec fn following_page(link: Option<Seq<char>>, url: Seq<char>) -> NextPageView {
    match link {
        None => NextPageView::Last,
        Some(link) => match first_target(link) {
            None => NextPageView::Unreadable,
            Some(target) => match joined_url(url, target) {
                None => NextPageView::Unreadable,
                Some(next) => NextPageView::At(next),
            },
        },
    }
}

/// What follows the page at `url` that came with this `Link` header.
pub fn parse_link(link: &Option<String>, url: &str) -> (r: NextPage)
    ensures
        r@ == following_page(view_of(*link), url@),
{
    match link {
        None => NextPage::Last,
        Some(link) => match link_target(link.as_str()) {
            None => NextPage::Unreadable,
            Some(target) => match join_url(url, target.as_str()) {
                None => NextPage::Unreadable,
                Some(next) => NextPage::At(next),
            },
        },
    }
}

/// Plain HTTP is used exactly for the registries that are set to be insecure.
pub proof fn law_protocols(ctx: Context, registry: Seq<char>)
    ensures
        !ctx.config.registries@.contains_key(registry) ==> protocol(ctx, registry) == "https"@,
        ctx.config.registries@.contains_key(registry) && !ctx.config.registries@[registry].insecure
            ==> protocol(ctx, registry) == "https"@,
        ctx.config.registries@.contains_key(registry) && ctx.config.registries@[registry].insecure
            ==> protocol(ctx, registry) == "http"@,
{
}

/// A token is presented behind the word `Bearer`; without one, nothing is.
pub proof fn law_bearer_tokens(token: Seq<char>)
    ensures
        bearer(Some(token)) == Some("Bearer "@ + token),
        bearer(None) is None,
{
}

/// A challenge is followed exactly if it asks for a bearer token.
pub proof fn law_challenges(challenge: Seq<char>, params: Seq<char>)
    ensures
        challenge_url("Bearer "@ + params) == Some(challenge_query(params)),
        !(exists|rest: Seq<char>| challenge == #[trigger] ("Bearer "@ + rest)) ==> challenge_url(
            challenge,
        ) is None,
{
    let scheme = "Bearer "@;
    let all = scheme + params;
    assert(all.subrange(0, scheme.len() as int) =~= scheme);
    assert(all.skip(scheme.len() as int) =~= params);
    if scheme.is_prefix_of(challenge) {
        assert(challenge =~= scheme + challenge.skip(scheme.len() as int));
    }
}

/// The parameters of a challenge are taken over one by one, quoted or not: the realm as the
/// address, every other one as a parameter of the query, under its name and with its value.
pub proof fn law_challenge_parameters(name: Seq<char>, value: Seq<char>, rest: Seq<char>)
    requires
        name.len() > 0,
        name[0] != ',',
        name[0] != ' ',
        !name.contains('='),
        !value.contains('"'),
        !value.contains(','),
    ensures
        ({
            let taken = if name == "realm"@ {
                value + "?"@
            } else {
                "&"@ + name + "="@ + value
            };
            &&& challenge_query(name + seq!['=', '"'] + value + seq!['"'] + rest) == taken
                + challenge_query(rest)
            &&& challenge_query(name + seq!['='] + value + seq![','] + rest) == taken
                + challenge_query(rest)
        }),
        challenge_query(seq![','] + rest) == challenge_query(rest),
        challenge_query(seq![' '] + rest) == challenge_query(rest),
        challenge_query(Seq::empty()) == Seq::<char>::empty(),
{
    let quoted = name + seq!['=', '"'] + value + seq!['"'] + rest;
    let behind = seq!['"'] + value + seq!['"'] + rest;
    assert(quoted =~= name + seq!['='] + behind);
    lemma_cut(name, '=', behind);
    assert(quoted[0] == name[0]);
    assert(behind.drop_first() =~= value + seq!['"'] + rest);
    lemma_cut(value, '"', rest);
    let plain = name + seq!['='] + value + seq![','] + rest;
    let tail = value + seq![','] + rest;
    assert(plain =~= name + seq!['='] + tail);
    lemma_cut(name, '=', tail);
    assert(plain[0] == name[0]);
    assert(tail[0] != '"') by {
        if value.len() > 0 {
            assert(tail[0] == value[0]);
        }
    }
    lemma_cut(value, ',', rest);
    assert((seq![','] + rest).drop_first() =~= rest);
    assert((seq![' '] + rest).drop_first() =~= rest);
}

/// The target of a link is what stands between the first pair of angle brackets.
pub proof fn law_links(front: Seq<char>, target: Seq<char>, rest: Seq<char>, url: Seq<char>)
    requires
        !front.contains('<'),
        !target.contains('>'),
    ensures
        first_target(front + seq!['<'] + target + seq!['>'] + rest) == Some(target),
        first_target(front) is None,
        following_page(None, url) is Last,
        following_page(Some(front), url) is Unreadable,
        following_page(Some(front + seq!['<'] + target + seq!['>'] + rest), url) == (
        match joined_url(url, target) {
            Some(next) => NextPageView::At(next),
            None => NextPageView::Unreadable,
        }),
{
    let link = front + seq!['<'] + target + seq!['>'] + rest;
    let opened = target + seq!['>'] + rest;
    assert(link =~= front + seq!['<'] + opened);
    lemma_cut(front, '<', opened);
    lemma_cut(target, '>', rest);
}

} // verus!
