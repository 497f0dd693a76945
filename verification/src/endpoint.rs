//! The addresses that the relay talks to, worked out from the backend URL with
//! the `url` crate.
use crate::text::text_view;
use url::Url;
use vstd::prelude::*;

verus! {

/// The path of the tunnel on the backend.
pub const TUNNEL_PATH: &'static str = "/api/dst/relay";

/// The length up to which a URL is worked on: the `url` crate counts positions in
/// 32 bits.
pub const URL_LIMIT: usize = 0xffff_ffff;

// ---------------------------------------------------------------------------
// The parts of a URL.
// ---------------------------------------------------------------------------

/// What stands in a text before the first of the characters `stops`.
pub open spec fn until(text: Seq<char>, stops: Seq<char>) -> Seq<char>
    decreases text.len(),
{
    if text.len() == 0 || stops.contains(text[0]) {
        Seq::empty()
    } else {
        seq![text[0]] + until(text.drop_first(), stops)
    }
}

/// The scheme of a URL: what stands before its first colon.
pub open spec fn scheme_of(url: Seq<char>) -> Seq<char> {
    until(url, seq![':'])
}

/// What follows the scheme of a URL.
pub open spec fn after_scheme(url: Seq<char>) -> Seq<char> {
    url.skip(scheme_of(url).len() as int)
}

/// What follows the scheme of a URL, a colon and two slashes.
pub open spec fn after_slashes(url: Seq<char>) -> Seq<char> {
    after_scheme(url).skip(3)
}

/// The user, the host and the port in a URL, as far as it names them.
pub open spec fn authority_of(url: Seq<char>) -> Seq<char> {
    until(after_slashes(url), seq!['/', '?', '#'])
}

/// What follows the authority in a URL.
pub open spec fn after_authority(url: Seq<char>) -> Seq<char> {
    after_slashes(url).skip(authority_of(url).len() as int)
}

/// The path of a URL.
pub open spec fn path_of(url: Seq<char>) -> Seq<char> {
    until(after_authority(url), seq!['?', '#'])
}

/// What follows the path of a URL.
pub open spec fn after_path(url: Seq<char>) -> Seq<char> {
    after_authority(url).skip(path_of(url).len() as int)
}

/// The query of a URL with its question mark, or nothing where it has none.
pub open spec fn query_of(url: Seq<char>) -> Seq<char> {
    until(after_path(url), seq!['#'])
}

/// The fragment of a URL with its number sign, or nothing where it has none.
pub open spec fn fragment_of(url: Seq<char>) -> Seq<char> {
    after_path(url).skip(query_of(url).len() as int)
}

/// The host and the port in an authority.
pub open spec fn after_user(authority: Seq<char>) -> Seq<char> {
    let user = until(authority, seq!['@']);
    if user.len() < authority.len() {
        authority.skip(user.len() as int + 1)
    } else {
        authority
    }
}

/// The host in an authority; one that starts with a bracket ends with one.
pub open spec fn host_in(authority: Seq<char>) -> Seq<char> {
    let rest = after_user(authority);
    if rest.len() > 0 && rest[0] == '[' {
        until(rest, seq![']']).push(']')
    } else {
        until(rest, seq![':'])
    }
}

/// A URL put together from its scheme, its authority and what follows that.
pub open spec fn assembled(scheme: Seq<char>, authority: Seq<char>, rest: Seq<char>) -> Seq<char> {
    scheme + seq![':', '/', '/'] + authority + rest
}

/// What stands before the first stop is the start of the text, has no stop in
/// it, and is followed by a stop or by nothing.
proof fn lemma_until(text: Seq<char>, stops: Seq<char>)
    ensures
        until(text, stops).len() <= text.len(),
        text.take(until(text, stops).len() as int) == until(text, stops),
        forall|i: int|
            0 <= i < until(text, stops).len() ==> !stops.contains(
                #[trigger] until(text, stops)[i],
            ),
        until(text, stops).len() < text.len() ==> stops.contains(
            text[until(text, stops).len() as int],
        ),
    decreases text.len(),
{
    if text.len() > 0 && !stops.contains(text[0]) {
        let rest = text.drop_first();
        lemma_until(rest, stops);
        let part = until(rest, stops);
        assert(text.take(part.len() as int + 1) =~= seq![text[0]] + rest.take(part.len() as int));
        assert(until(text, stops).len() == part.len() + 1);
        assert forall|i: int| 0 <= i < until(text, stops).len() implies !stops.contains(
            #[trigger] until(text, stops)[i],
        ) by {
            if i > 0 {
                assert(until(text, stops)[i] == part[i - 1]);
            }
        }
    } else {
        assert(text.take(0) =~= until(text, stops));
    }
}

/// A part without a stop, followed by a stop or by nothing, is what stands
/// before the first stop.
proof fn lemma_until_parts(part: Seq<char>, rest: Seq<char>, stops: Seq<char>)
    requires
        forall|i: int| 0 <= i < part.len() ==> !stops.contains(#[trigger] part[i]),
        rest.len() > 0 ==> stops.contains(rest[0]),
    ensures
        until(part + rest, stops) == part,
        (part + rest).skip(part.len() as int) == rest,
    decreases part.len(),
{
    let text = part + rest;
    if part.len() > 0 {
        assert(!stops.contains(part[0]));
        let shorter = part.drop_first();
        assert forall|i: int| 0 <= i < shorter.len() implies !stops.contains(
            #[trigger] shorter[i],
        ) by {
            assert(shorter[i] == part[i + 1]);
        }
        lemma_until_parts(shorter, rest, stops);
        assert(text.drop_first() =~= shorter + rest);
        assert(seq![part[0]] + shorter =~= part);
    } else {
        assert(until(text, stops) =~= part);
    }
    assert(text.skip(part.len() as int) =~= rest);
}

/// The parts of a URL that was put together.
proof fn lemma_assembled(
    scheme: Seq<char>,
    authority: Seq<char>,
    path: Seq<char>,
    query: Seq<char>,
    fragment: Seq<char>,
)
    requires
        is_tunnel_scheme(scheme),
        forall|i: int|
            0 <= i < authority.len() ==> !seq!['/', '?', '#'].contains(#[trigger] authority[i]),
        plain_path(path),
        query.len() > 0 ==> query[0] == '?',
        forall|i: int| 0 <= i < query.len() ==> !seq!['#'].contains(#[trigger] query[i]),
        fragment.len() > 0 ==> fragment[0] == '#',
    ensures
        ({
            let url = assembled(scheme, authority, path + query + fragment);
            &&& scheme_of(url) == scheme
            &&& authority_of(url) == authority
            &&& path_of(url) == path
            &&& query_of(url) == query
            &&& fragment_of(url) == fragment
        }),
{
    reveal_strlit("ws");
    reveal_strlit("wss");
    let slashes = seq![':', '/', '/'];
    let rest = path + query + fragment;
    let url = assembled(scheme, authority, rest);
    assert forall|i: int| 0 <= i < scheme.len() implies !seq![':'].contains(
        #[trigger] scheme[i],
    ) by {
        assert(scheme[i] == 'w' || scheme[i] == 's');
    }
    assert(seq![':'][0] == ':');
    assert(url =~= scheme + (slashes + authority + rest));
    lemma_until_parts(scheme, slashes + authority + rest, seq![':']);
    assert(after_slashes(url) =~= authority + rest);
    let stops = seq!['/', '?', '#'];
    assert(stops[0] == '/' && stops[1] == '?' && stops[2] == '#');
    assert(rest[0] == '/');
    lemma_until_parts(authority, rest, stops);
    let marks = seq!['?', '#'];
    assert(marks[0] == '?' && marks[1] == '#');
    assert forall|i: int| 0 <= i < path.len() implies !marks.contains(#[trigger] path[i]) by {
        assert(plain_char(path[i]));
    }
    assert(rest =~= path + (query + fragment));
    lemma_until_parts(path, query + fragment, marks);
    assert(seq!['#'][0] == '#');
    lemma_until_parts(query, fragment, seq!['#']);
}

// ---------------------------------------------------------------------------
// What the `url` crate does.
// ---------------------------------------------------------------------------

/// The URL type of the `url` crate.
#[verifier::external_type_specification]
#[verifier::external_body]
pub struct ExUrl(url::Url);

/// The text of a URL, which is what URLs are compared by. Each URL here comes
/// from `Url::parse` and the changes below, and is known by its text.
pub uninterp spec fn url_text(url: Url) -> Seq<char>;

/// The text of the URL that `Url::parse` reads from an input, if it reads one.
pub uninterp spec fn url_parse(input: Seq<char>) -> Option<Seq<char>>;

/// The text of a URL after `Url::set_scheme`, unless that is refused. It is only
/// spoken of where the scheme is neither `http` nor `https`.
pub uninterp spec fn url_with_scheme(url: Seq<char>, scheme: Seq<char>) -> Option<Seq<char>>;

/// The host in a URL, as `Url::host_str` gives it, if it has one. It is only
/// spoken of where the scheme is neither `http` nor `https`.
pub uninterp spec fn url_host(url: Seq<char>) -> Option<Seq<char>>;

/// A scheme whose URLs always have a host.
pub open spec fn has_host_always(scheme: Seq<char>) -> bool {
    scheme == "http"@ || scheme == "https"@
}

/// The schemes of the tunnel.
pub open spec fn is_tunnel_scheme(scheme: Seq<char>) -> bool {
    scheme == "ws"@ || scheme == "wss"@
}

/// The scheme of the tunnel to a backend with the given scheme.
pub open spec fn tunnel_scheme_of(scheme: Seq<char>) -> Seq<char> {
    if scheme == "https"@ {
        "wss"@
    } else {
        "ws"@
    }
}

/// A slash or a lower-case letter.
pub open spec fn plain_char(c: char) -> bool {
    c == '/' || ('a' <= c && c <= 'z')
}

/// A path that starts with a slash and consists of slashes and lower-case
/// letters, none of which a URL has to write in another way.
pub open spec fn plain_path(path: Seq<char>) -> bool {
    &&& path.len() > 0
    &&& path[0] == '/'
    &&& forall|i: int| 0 <= i < path.len() ==> plain_char(#[trigger] path[i])
}

/// A URL of a tunnel's scheme with another path.
pub open spec fn with_path(url: Seq<char>, path: Seq<char>) -> Seq<char> {
    assembled(scheme_of(url), authority_of(url), path + query_of(url) + fragment_of(url))
}

/// A URL of a tunnel's scheme without its query.
pub open spec fn without_query(url: Seq<char>) -> Seq<char> {
    assembled(scheme_of(url), authority_of(url), path_of(url) + fragment_of(url))
}

/// `Url::parse`: a function of the input, named by `url_parse`. In a URL of
/// `http` or `https` a colon and two slashes follow the scheme.
#[verifier::external_body]
fn parse_url(input: &str) -> (url: Option<Url>)
    ensures
        match url {
            Some(u) => {
                &&& url_parse(input@) == Some(url_text(u))
                &&& has_host_always(scheme_of(url_text(u))) ==> after_scheme(url_text(u)).len() >= 3
                    && after_scheme(url_text(u)).take(3) == seq![':', '/', '/']
            },
            None => url_parse(input@) == None::<Seq<char>>,
        },
{
    Url::parse(input).ok()
}

/// `Url::as_str`: the text of the URL.
#[verifier::external_body]
fn url_str(url: &Url) -> (text: &str)
    ensures
        text@ == url_text(*url),
{
    url.as_str()
}

/// `Url::scheme`: the lower-case text before the first colon.
#[verifier::external_body]
fn url_scheme(url: &Url) -> (scheme: &str)
    ensures
        scheme@ == scheme_of(url_text(*url)),
{
    url.scheme()
}

/// `Url::set_scheme`, from a scheme to that of the tunnel. A URL of `http` or
/// `https` always takes it, and nothing but its scheme changes: the new scheme
/// has the same default port, which the URL does not show either way. Any other
/// URL takes it or refuses it as `url_with_scheme` names it; it starts with the
/// scheme afterwards, or stays as it is.
#[verifier::external_body]
fn set_scheme(url: &mut Url, scheme: &str) -> (done: bool)
    requires
        scheme@ == tunnel_scheme_of(scheme_of(url_text(*old(url)))),
    ensures
        if has_host_always(scheme_of(url_text(*old(url)))) {
            done && url_text(*final(url)) == scheme@ + after_scheme(url_text(*old(url)))
        } else {
            match url_with_scheme(url_text(*old(url)), scheme@) {
                Some(text) => {
                    &&& done
                    &&& url_text(*final(url)) == text
                    &&& scheme_of(url_text(*final(url))) == scheme@
                },
                None => !done && url_text(*final(url)) == url_text(*old(url)),
            }
        },
{
    url.set_scheme(scheme).is_ok()
}

/// `Url::set_path` on a URL of a tunnel's scheme, which has a host: the path
/// takes the place of the old one. It is a plain one, which the `url` crate
/// writes as it is. The length is bounded because positions are counted in 32
/// bits.
#[verifier::external_body]
fn set_path(url: &mut Url, path: &str)
    requires
        is_tunnel_scheme(scheme_of(url_text(*old(url)))),
        plain_path(path@),
        url_text(*old(url)).len() + path@.len() <= URL_LIMIT,
    ensures
        url_text(*final(url)) == with_path(url_text(*old(url)), path@),
{
    url.set_path(path)
}

/// `Url::set_query` with no query, on a URL of a tunnel's scheme: the query is
/// taken away, and the fragment stays.
#[verifier::external_body]
fn clear_query(url: &mut Url)
    requires
        is_tunnel_scheme(scheme_of(url_text(*old(url)))),
    ensures
        url_text(*final(url)) == without_query(url_text(*old(url))),
{
    url.set_query(None)
}

/// `Url::host_str`: in a URL of `http` or `https`, the host in its authority; in
/// any other, the host as `url_host` names it.
#[verifier::external_body]
fn host_str(url: &Url) -> (host: Option<&str>)
    ensures
        if has_host_always(scheme_of(url_text(*url))) {
            host matches Some(h) && h@ == host_in(authority_of(url_text(*url)))
        } else {
            match host {
                Some(h) => url_host(url_text(*url)) == Some(h@),
                None => url_host(url_text(*url)) == None::<Seq<char>>,
            }
        },
{
    url.host_str()
}

// ---------------------------------------------------------------------------
// The addresses.
// ---------------------------------------------------------------------------

/// The scheme of the tunnel: `wss` to a backend that speaks `https`, and `ws`
/// to any other.
pub fn tunnel_scheme(scheme: &str) -> (tunnel: &'static str)
    ensures
        tunnel@ == tunnel_scheme_of(scheme@),
{
    if *scheme == *"https" {
        "wss"
    } else {
        "ws"
    }
}

/// The backend's URL with the tunnel's scheme, unless it cannot have that.
pub open spec fn with_tunnel_scheme(url: Seq<char>) -> Option<Seq<char>> {
    let scheme = tunnel_scheme_of(scheme_of(url));
    if has_host_always(scheme_of(url)) {
        Some(scheme + after_scheme(url))
    } else {
        url_with_scheme(url, scheme)
    }
}

/// The address of the tunnel to the backend `upstream`: the backend's URL with
/// the tunnel's scheme and path and without a query, unless it is no URL or
/// cannot have that scheme.
pub open spec fn tunnel_url(upstream: Seq<char>) -> Option<Seq<char>> {
    match url_parse(upstream) {
        Some(url) => if has_host_always(scheme_of(url)) {
            Some(
                assembled(
                    tunnel_scheme_of(scheme_of(url)),
                    authority_of(url),
                    TUNNEL_PATH@ + fragment_of(url),
                ),
            )
        } else {
            match with_tunnel_scheme(url) {
                Some(changed) => Some(without_query(with_path(changed, TUNNEL_PATH@))),
                None => None,
            }
        },
        None => None,
    }
}

/// The URL that leads to the address of the tunnel stays within the limit.
pub open spec fn tunnel_fits(upstream: Seq<char>) -> bool {
    match url_parse(upstream) {
        Some(url) => match with_tunnel_scheme(url) {
            Some(changed) => changed.len() + TUNNEL_PATH@.len() <= URL_LIMIT,
            None => true,
        },
        None => true,
    }
}

/// The path of the tunnel is a plain one.
proof fn lemma_tunnel_path()
    ensures
        plain_path(TUNNEL_PATH@),
        TUNNEL_PATH@.len() == 14,
{
    reveal_strlit("/api/dst/relay");
}

/// What stands behind the scheme does not depend on the scheme.
proof fn lemma_change_of_scheme(url: Seq<char>, scheme: Seq<char>)
    requires
        is_tunnel_scheme(scheme),
        after_scheme(url).len() >= 3,
        after_scheme(url).take(3) == seq![':', '/', '/'],
    ensures
        ({
            let changed = scheme + after_scheme(url);
            &&& scheme_of(changed) == scheme
            &&& after_slashes(changed) == after_slashes(url)
        }),
{
    reveal_strlit("ws");
    reveal_strlit("wss");
    let rest = after_scheme(url);
    assert forall|i: int| 0 <= i < scheme.len() implies !seq![':'].contains(
        #[trigger] scheme[i],
    ) by {
        assert(scheme[i] == 'w' || scheme[i] == 's');
    }
    assert(rest[0] == rest.take(3)[0]);
    assert(seq![':'][0] == ':');
    lemma_until_parts(scheme, rest, seq![':']);
}

/// The parts of a URL are as they have to be.
proof fn lemma_parts(url: Seq<char>)
    ensures
        forall|i: int|
            0 <= i < authority_of(url).len() ==> !seq!['/', '?', '#'].contains(
                #[trigger] authority_of(url)[i],
            ),
        query_of(url).len() > 0 ==> query_of(url)[0] == '?',
        forall|i: int|
            0 <= i < query_of(url).len() ==> !seq!['#'].contains(#[trigger] query_of(url)[i]),
        fragment_of(url).len() > 0 ==> fragment_of(url)[0] == '#',
{
    lemma_until(after_slashes(url), seq!['/', '?', '#']);
    lemma_until(after_authority(url), seq!['?', '#']);
    lemma_until(after_path(url), seq!['#']);
    if query_of(url).len() > 0 {
        assert(after_path(url).take(query_of(url).len() as int)[0] == after_path(url)[0]);
        assert(seq!['#'][0] == '#');
        assert(seq!['#'].contains('#'));
        assert(!seq!['#'].contains(query_of(url)[0]));
        assert(seq!['?', '#'].contains(after_path(url)[0]));
    }
}

/// What changing the path and taking the query away amounts to.
proof fn lemma_tunnel_parts(changed: Seq<char>)
    requires
        is_tunnel_scheme(scheme_of(changed)),
    ensures
        scheme_of(with_path(changed, TUNNEL_PATH@)) == scheme_of(changed),
        without_query(with_path(changed, TUNNEL_PATH@)) == assembled(
            scheme_of(changed),
            authority_of(changed),
            TUNNEL_PATH@ + fragment_of(changed),
        ),
        scheme_of(without_query(with_path(changed, TUNNEL_PATH@))) == scheme_of(changed),
{
    let none = Seq::<char>::empty();
    lemma_tunnel_path();
    lemma_parts(changed);
    lemma_assembled(
        scheme_of(changed),
        authority_of(changed),
        TUNNEL_PATH@,
        query_of(changed),
        fragment_of(changed),
    );
    lemma_assembled(
        scheme_of(changed),
        authority_of(changed),
        TUNNEL_PATH@,
        none,
        fragment_of(changed),
    );
    assert(TUNNEL_PATH@ + none =~= TUNNEL_PATH@);
}

/// The address of the tunnel to the backend `upstream`. It is encrypted exactly
/// when the backend is reached by `https`, and there is one for each backend
/// that is reached by `http` or `https`.
pub fn ws_url(upstream: &str) -> (url: Option<String>)
    requires
        tunnel_fits(upstream@),
    ensures
        text_view(url) == tunnel_url(upstream@),
        url matches Some(text) ==> scheme_of(text@) == tunnel_scheme_of(
            scheme_of(url_parse(upstream@)->0),
        ),
        url_parse(upstream@) matches Some(parsed) && has_host_always(scheme_of(parsed))
            ==> url is Some,
{
    let mut url = match parse_url(upstream) {
        Some(url) => url,
        None => {
            return None;
        },
    };
    let ghost parsed = url_text(url);
    let scheme = tunnel_scheme(url_scheme(&url));
    if !set_scheme(&mut url, scheme) {
        return None;
    }
    proof {
        if has_host_always(scheme_of(parsed)) {
            lemma_change_of_scheme(parsed, scheme@);
        }
        lemma_tunnel_path();
        lemma_tunnel_parts(url_text(url));
    }
    set_path(&mut url, TUNNEL_PATH);
    clear_query(&mut url);
    Some(url_str(&url).to_owned())
}

/// Whether a text has at most `limit` characters.
fn within(text: &str, limit: usize) -> (fits: bool)
    ensures
        fits == (text@.len() <= limit),
{
    text.unicode_len() <= limit
}

/// The address of the tunnel to the backend `upstream`, or nothing where the
/// URL that leads to it exceeds the limit.
pub fn checked_ws_url(upstream: &str) -> (checked: Option<Option<String>>)
    ensures
        match checked {
            Some(url) => tunnel_fits(upstream@) && text_view(url) == tunnel_url(upstream@),
            None => !tunnel_fits(upstream@),
        },
{
    proof {
        lemma_tunnel_path();
    }
    if let Some(parsed) = parse_url(upstream) {
        let mut url = parsed;
        let scheme = tunnel_scheme(url_scheme(&url));
        if set_scheme(&mut url, scheme) {
            if !within(url_str(&url), URL_LIMIT - 14) {
                return None;
            }
        }
    }
    Some(ws_url(upstream))
}

/// The tunnel to a backend that is reached by `http` or `https` leads to the
/// same host and port, by `ws` or `wss`, to its own path and without a query.
pub proof fn law_tunnel_leads_to_the_backend(upstream: Seq<char>)
    requires
        url_parse(upstream) is Some,
        has_host_always(scheme_of(url_parse(upstream)->0)),
    ensures
        ({
            let url = url_parse(upstream)->0;
            &&& tunnel_url(upstream) matches Some(address)
            &&& scheme_of(address) == tunnel_scheme_of(scheme_of(url))
            &&& authority_of(address) == authority_of(url)
            &&& host_in(authority_of(address)) == host_of(upstream)
            &&& path_of(address) == "/api/dst/relay"@
            &&& query_of(address) == Seq::<char>::empty()
            &&& fragment_of(address) == fragment_of(url)
        }),
{
    let url = url_parse(upstream)->0;
    let none = Seq::<char>::empty();
    lemma_tunnel_path();
    lemma_parts(url);
    lemma_assembled(
        tunnel_scheme_of(scheme_of(url)),
        authority_of(url),
        TUNNEL_PATH@,
        none,
        fragment_of(url),
    );
    assert(TUNNEL_PATH@ + none =~= TUNNEL_PATH@);
}

/// Backends reached by `http` or `https` whose URLs differ only in their paths
/// and queries have the same tunnel.
pub proof fn law_path_and_query_do_not_matter(one: Seq<char>, other: Seq<char>)
    requires
        url_parse(one) is Some,
        url_parse(other) is Some,
        has_host_always(scheme_of(url_parse(one)->0)),
        scheme_of(url_parse(one)->0) == scheme_of(url_parse(other)->0),
        authority_of(url_parse(one)->0) == authority_of(url_parse(other)->0),
        fragment_of(url_parse(one)->0) == fragment_of(url_parse(other)->0),
    ensures
        tunnel_url(one) == tunnel_url(other),
{
}

/// The host that forwarded requests are addressed to.
pub open spec fn host_of(upstream: Seq<char>) -> Seq<char> {
    match url_parse(upstream) {
        Some(url) => if has_host_always(scheme_of(url)) {
            host_in(authority_of(url))
        } else {
            match url_host(url) {
                Some(host) => host,
                None => Seq::empty(),
            }
        },
        None => Seq::empty(),
    }
}

/// The host of the backend `upstream`, or nothing where it has none.
pub fn upstream_host(upstream: &str) -> (host: String)
    ensures
        host@ == host_of(upstream@),
{
    match parse_url(upstream) {
        Some(url) => match host_str(&url) {
            Some(host) => host.to_owned(),
            None => String::new(),
        },
        None => String::new(),
    }
}

/// The tunnel is encrypted exactly where the backend is reached by `https`.
pub proof fn law_tunnel_is_encrypted_for_https(scheme: Seq<char>)
    ensures
        tunnel_scheme_of(scheme) == "wss"@ <==> scheme == "https"@,
        tunnel_scheme_of(scheme) == "ws"@ <==> scheme != "https"@,
{
    reveal_strlit("ws");
    reveal_strlit("wss");
    assert("ws"@.len() == 2 && "wss"@.len() == 3);
}

/// The tunnel to a backend with any other scheme leads to where its URL leads once
/// it has the scheme of the tunnel, to the path of the tunnel and without a query;
/// there is none where the URL cannot have that scheme, or is none.
pub proof fn law_tunnel_to_other_backends(
    upstream: Seq<char>,
    url: Seq<char>,
    changed: Seq<char>,
)
    requires
        url_parse(upstream) == Some(url),
        scheme_of(url) != "http"@,
        scheme_of(url) != "https"@,
    ensures
        url_with_scheme(url, "ws"@) == Some(changed) && is_tunnel_scheme(scheme_of(changed)) ==> {
            &&& tunnel_url(upstream) matches Some(address)
            &&& scheme_of(address) == scheme_of(changed)
            &&& authority_of(address) == authority_of(changed)
            &&& path_of(address) == "/api/dst/relay"@
            &&& query_of(address) == Seq::<char>::empty()
            &&& fragment_of(address) == fragment_of(changed)
        },
        url_with_scheme(url, "ws"@) is None ==> tunnel_url(upstream) is None,
{
    if url_with_scheme(url, "ws"@) == Some(changed) && is_tunnel_scheme(scheme_of(changed)) {
        let none = Seq::<char>::empty();
        lemma_tunnel_path();
        lemma_parts(changed);
        lemma_tunnel_parts(changed);
        lemma_assembled(
            scheme_of(changed),
            authority_of(changed),
            TUNNEL_PATH@,
            none,
            fragment_of(changed),
        );
        assert(TUNNEL_PATH@ + none =~= TUNNEL_PATH@);
    }
}

/// What is no URL has no tunnel and no host.
pub proof fn law_no_url_no_tunnel(upstream: Seq<char>)
    requires
        url_parse(upstream) is None,
    ensures
        tunnel_url(upstream) is None,
        tunnel_fits(upstream),
        host_of(upstream) == Seq::<char>::empty(),
{
}

/// The address of the tunnel to a backend that is reached by `http` or `https`, in
/// full.
pub proof fn law_tunnel_address(upstream: Seq<char>, url: Seq<char>)
    requires
        url_parse(upstream) == Some(url),
    ensures
        scheme_of(url) == "https"@ ==> tunnel_url(upstream) == Some(
            "wss://"@ + authority_of(url) + "/api/dst/relay"@ + fragment_of(url),
        ),
        scheme_of(url) == "http"@ ==> tunnel_url(upstream) == Some(
            "ws://"@ + authority_of(url) + "/api/dst/relay"@ + fragment_of(url),
        ),
{
    reveal_strlit("ws");
    reveal_strlit("wss");
    reveal_strlit("ws://");
    reveal_strlit("wss://");
    reveal_strlit("http");
    reveal_strlit("https");
    assert("ws://"@ =~= "ws"@ + seq![':', '/', '/']);
    assert("wss://"@ =~= "wss"@ + seq![':', '/', '/']);
    let rest = TUNNEL_PATH@ + fragment_of(url);
    if scheme_of(url) == "https"@ {
        assert(assembled("wss"@, authority_of(url), rest) =~= "wss://"@ + authority_of(url)
            + "/api/dst/relay"@ + fragment_of(url));
    } else if scheme_of(url) == "http"@ {
        assert("http"@.len() != "https"@.len());
        assert(assembled("ws"@, authority_of(url), rest) =~= "ws://"@ + authority_of(url)
            + "/api/dst/relay"@ + fragment_of(url));
    }
}

/// Any URL of `http` or `https` below the limit of 32 bits, by no more than the
/// length of what the tunnel adds, has a tunnel that can be worked out.
pub proof fn law_ordinary_urls_fit(upstream: Seq<char>, url: Seq<char>)
    requires
        url_parse(upstream) == Some(url),
        scheme_of(url) == "http"@ || scheme_of(url) == "https"@,
        url.len() + 14 <= 0xffff_ffff,
    ensures
        tunnel_fits(upstream),
{
    reveal_strlit("ws");
    reveal_strlit("wss");
    reveal_strlit("http");
    reveal_strlit("https");
    lemma_tunnel_path();
    lemma_until(url, seq![':']);
    assert("http"@.len() != "https"@.len());
}

/// The host in an authority stands behind the user and before the port, whatever
/// these are.
pub proof fn law_host_stands_between_user_and_port(
    user: Seq<char>,
    host: Seq<char>,
    port: Seq<char>,
)
    requires
        forall|i: int| 0 <= i < user.len() ==> #[trigger] user[i] != '@',
        host.len() > 0,
        forall|i: int| 0 <= i < host.len() ==> #[trigger] host[i] != '@',
        forall|i: int| 0 <= i < host.len() ==> #[trigger] host[i] != ':',
        host[0] != '[',
        forall|i: int| 0 <= i < port.len() ==> #[trigger] port[i] != '@',
    ensures
        host_in(host) == host,
        host_in(host + seq![':'] + port) == host,
        host_in(user + seq!['@'] + host) == host,
        host_in(user + seq!['@'] + host + seq![':'] + port) == host,
{
    lemma_host(host, Seq::empty());
    lemma_host(host, seq![':'] + port);
    assert(host + Seq::<char>::empty() =~= host);
    assert(host + (seq![':'] + port) =~= host + seq![':'] + port);
    let at = seq!['@'];
    assert(at[0] == '@');
    lemma_after_user(user, host);
    lemma_after_user(user, host + seq![':'] + port);
    assert(user + at + host + seq![':'] + port =~= user + at + (host + seq![':'] + port));
    lemma_no_user(host);
    lemma_no_user(host + seq![':'] + port);
}

/// A host in brackets is taken with its brackets, before the port.
pub proof fn law_host_keeps_its_brackets(inner: Seq<char>, port: Seq<char>)
    requires
        forall|i: int| 0 <= i < inner.len() ==> #[trigger] inner[i] != '@' && inner[i] != ']',
        forall|i: int| 0 <= i < port.len() ==> #[trigger] port[i] != '@',
    ensures
        host_in(seq!['['] + inner + seq![']']) == seq!['['] + inner + seq![']'],
        host_in(seq!['['] + inner + seq![']', ':'] + port) == seq!['['] + inner + seq![']'],
{
    let open = seq!['['] + inner;
    let close = seq![']'];
    let whole = open + close;
    let more = open + seq![']', ':'] + port;
    assert forall|i: int| 0 <= i < open.len() implies !close.contains(#[trigger] open[i]) by {
        if i > 0 {
            assert(inner[i - 1] != ']');
        }
    }
    assert(close[0] == ']');
    assert forall|i: int| 0 <= i < more.len() implies #[trigger] more[i] != '@' by {
        if 0 < i < open.len() {
            assert(inner[i - 1] != '@');
        } else if i >= open.len() + 2 {
            assert(port[i - open.len() - 2] != '@');
        }
    }
    assert forall|i: int| 0 <= i < whole.len() implies #[trigger] whole[i] != '@' by {
        if 0 < i < open.len() {
            assert(inner[i - 1] != '@');
        }
    }
    lemma_no_user(whole);
    lemma_no_user(more);
    lemma_until_parts(open, close, close);
    assert(more =~= open + (seq![']', ':'] + port));
    lemma_until_parts(open, seq![']', ':'] + port, close);
    assert(open.push(']') =~= whole);
}

/// An authority without a user is its host and its port.
proof fn lemma_no_user(rest: Seq<char>)
    requires
        forall|i: int| 0 <= i < rest.len() ==> #[trigger] rest[i] != '@',
    ensures
        after_user(rest) == rest,
{
    let at = seq!['@'];
    assert forall|i: int| 0 <= i < rest.len() implies !at.contains(#[trigger] rest[i]) by {
        assert(rest[i] != '@');
    }
    lemma_until_parts(rest, Seq::empty(), at);
    assert(rest + Seq::<char>::empty() =~= rest);
}

/// What follows the user is the host and the port.
proof fn lemma_after_user(user: Seq<char>, rest: Seq<char>)
    requires
        forall|i: int| 0 <= i < user.len() ==> #[trigger] user[i] != '@',
    ensures
        after_user(user + seq!['@'] + rest) == rest,
{
    let at = seq!['@'];
    assert(at[0] == '@');
    assert forall|i: int| 0 <= i < user.len() implies !at.contains(#[trigger] user[i]) by {
        assert(user[i] != '@');
    }
    assert(user + at + rest =~= user + (at + rest));
    lemma_until_parts(user, at + rest, at);
    assert((user + at + rest).skip(user.len() as int + 1) =~= rest);
}

/// A host ends where the port begins.
proof fn lemma_host(host: Seq<char>, rest: Seq<char>)
    requires
        host.len() > 0,
        forall|i: int| 0 <= i < host.len() ==> #[trigger] host[i] != ':',
        rest.len() > 0 ==> rest[0] == ':',
    ensures
        until(host + rest, seq![':']) == host,
{
    let colon = seq![':'];
    assert(colon[0] == ':');
    assert forall|i: int| 0 <= i < host.len() implies !colon.contains(#[trigger] host[i]) by {
        assert(host[i] != ':');
    }
    lemma_until_parts(host, rest, colon);
}

/// Requests are addressed to the host in the backend's URL, where that is reached
/// by `http` or `https`.
pub proof fn law_host_is_that_of_the_url(upstream: Seq<char>, url: Seq<char>)
    requires
        url_parse(upstream) == Some(url),
    ensures
        scheme_of(url) == "http"@ || scheme_of(url) == "https"@ ==> host_of(upstream) == host_in(
            authority_of(url),
        ),
        scheme_of(url) != "http"@ && scheme_of(url) != "https"@ ==> host_of(upstream) == (
        match url_host(url) {
            Some(host) => host,
            None => Seq::empty(),
        }),
{
}

} // verus!
