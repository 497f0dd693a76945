//! The relay: what is done with each request of the game.
//!
//! A request is first shown to `Relay::receive`, which answers questions about
//! the relay itself. Any other one goes to `Relay::handle`, which sends it
//! through the tunnel or forwards it to the backend; what became of it comes
//! back to `Relay::conclude`, `Relay::upstream_answered` or
//! `Relay::upstream_failed`. A sync that failed in the tunnel is forwarded after
//! all, and `pass_on` makes the reply from the answer of the backend.
use crate::commands::{
    answers_with, commands_of, is_merge_of, key_of, law_merge_keeps_distinct_commands,
    law_merged_is_a_merge, law_response_goes_back_with_the_commands, merge_response, merged,
    merged_response, queue_of,
};
use crate::config::{Config, ConfigView};
use crate::endpoint::{host_of, upstream_host};
use crate::headers::{
    ascii_text, forward_headers, forward_method, forwarded, header_entries, header_text,
    headers_view, law_connection_headers_stay, law_forwarded_request_is_marked,
    law_headers_of_the_game_go_along, law_host_is_the_backend, law_token_is_sent,
    law_visible_text_keeps_its_bytes, token, valid_name, valid_value, visible, Header, HeaderView,
    HEADER_LIMIT,
};
use crate::json::{array_view, json_pretty, json_text, Json, JsonView, NumberView};
use crate::sync::{payload_of, shard_of, sync_payload};
use crate::text::{
    decimal, joined, law_trimmed_end_takes_the_run, lossy_text, lowered, text_view, to_decimal,
    trim_end, trimmed_end,
};
use crate::tunnel::{
    after_begin, after_finish, law_nothing_waits_unless_pushed, pushes, says_sync, state_at,
    sync_message,
    Outgoing, SyncError, SyncOutcome, Tunnel, TunnelStep, TunnelView,
};
use hyper::header::{HeaderMap, HeaderValue};
use vstd::prelude::*;
use vstd::utf8::{decode_utf8, encode_utf8, valid_utf8};

verus! {

/// How long to wait for the backend's answer to a forwarded request, in seconds.
pub const UPSTREAM_TIMEOUT_SECS: u64 = 10;

// ---------------------------------------------------------------------------
// Requests and replies.
// ---------------------------------------------------------------------------

/// A request of the game.
#[derive(Debug)]
pub struct Request {
    pub method: String,
    pub path: String,
    pub query: Option<String>,
    pub headers: Vec<Header>,
    pub body: Vec<u8>,
}

/// What a `Request` holds.
#[verifier::ext_equal]
pub struct RequestView {
    pub method: Seq<char>,
    pub path: Seq<char>,
    pub query: Option<Seq<char>>,
    pub headers: Seq<HeaderView>,
    pub body: Seq<u8>,
}

impl Request {
    pub open spec fn view(&self) -> RequestView {
        RequestView {
            method: self.method@,
            path: self.path@,
            query: text_view(self.query),
            headers: headers_view(self.headers@),
            body: self.body@,
        }
    }
}

/// A reply to the game.
#[derive(Debug)]
pub struct Reply {
    pub status: u16,
    pub content_type: Option<String>,
    pub content_length: Option<String>,
    pub body: Vec<u8>,
}

/// What a `Reply` holds.
#[verifier::ext_equal]
pub struct ReplyView {
    pub status: u16,
    pub content_type: Option<Seq<char>>,
    pub content_length: Option<Seq<char>>,
    pub body: Seq<u8>,
}

impl Reply {
    pub open spec fn view(&self) -> ReplyView {
        ReplyView {
            status: self.status,
            content_type: text_view(self.content_type),
            content_length: text_view(self.content_length),
            body: self.body@,
        }
    }
}

/// A request as it goes to the backend.
#[derive(Debug)]
pub struct Forward {
    pub method: String,
    pub target: String,
    pub headers: HeaderMap<HeaderValue>,
    pub body: Option<Vec<u8>>,
}

/// What a `Forward` holds.
#[verifier::ext_equal]
pub struct ForwardView {
    pub method: Seq<char>,
    pub target: Seq<char>,
    pub headers: Map<Seq<char>, Seq<Seq<u8>>>,
    pub body: Option<Seq<u8>>,
}

impl Forward {
    pub open spec fn view(&self) -> ForwardView {
        ForwardView {
            method: self.method@,
            target: self.target@,
            headers: header_entries(self.headers),
            body: match self.body {
                Some(bytes) => Some(bytes@),
                None => None,
            },
        }
    }
}

/// A sync that went through the tunnel: its message, and the pushed commands
/// that go back with its answer.
#[derive(Debug)]
pub struct TunnelSync {
    pub outgoing: Outgoing,
    pub local: Vec<Json>,
}

/// What is to be done with a request.
#[derive(Debug)]
pub enum Step {
    /// Send the message through the tunnel and wait for the answer.
    Sync(TunnelSync),
    /// Send the request to the backend.
    Forward(Forward),
}

/// What becomes of a request whose sync went through the tunnel.
#[derive(Debug)]
pub enum Conclusion {
    /// The sync was answered: this is the reply.
    Reply(Reply),
    /// The sync failed: the request goes to the backend after all.
    Forward(SyncError, Forward),
}

/// What has been counted so far.
#[derive(Debug, Clone, Copy)]
pub struct Counters {
    /// Requests received.
    pub requests: u64,
    /// Requests that did not reach the backend.
    pub errors: u64,
    /// When the backend last answered, in milliseconds since the Unix epoch, or
    /// zero.
    pub last_ok: i64,
}

/// The count that follows a count. It starts anew after the greatest one.
pub open spec fn bumped(count: u64) -> u64 {
    if count == u64::MAX {
        0
    } else {
        (count + 1) as u64
    }
}

/// The count that follows a count.
fn bump(count: u64) -> (next: u64)
    ensures
        next == bumped(count),
{
    if count == u64::MAX {
        0
    } else {
        count + 1
    }
}

/// Something that is counted.
pub enum Counted {
    /// A request was received.
    Received,
    /// A request was answered by the backend, at this time.
    Answered(i64),
    /// A request did not reach the backend.
    Failed,
}

/// The counters after something that is counted.
pub open spec fn counted(counters: Counters, what: Counted) -> Counters {
    match what {
        Counted::Received => Counters { requests: bumped(counters.requests), ..counters },
        Counted::Answered(now) => Counters { last_ok: now, ..counters },
        Counted::Failed => Counters { errors: bumped(counters.errors), ..counters },
    }
}

// ---------------------------------------------------------------------------
// What the relay says.
// ---------------------------------------------------------------------------

/// The paths that ask about the relay itself.
pub open spec fn is_status_path(path: Seq<char>) -> bool {
    path == "/"@ || path == "/relay-status"@
}

/// The address that the relay listens on.
pub open spec fn listening(port: u16) -> Seq<char> {
    "http://127.0.0.1:"@ + decimal(port as nat)
}

/// A whole number as JSON.
pub open spec fn json_number(i: int) -> JsonView {
    JsonView::Number(
        if i < 0 {
            NumberView::Negative(i as i64)
        } else {
            NumberView::Unsigned(i as u64)
        },
    )
}

/// What the relay says about itself.
pub open spec fn status_json(config: ConfigView, counters: Counters) -> JsonView {
    JsonView::Object(
        Map::<Seq<char>, JsonView>::empty().insert("relay"@, JsonView::Text("DSTP"@)).insert(
            "listening"@,
            JsonView::Text(listening(config.port)),
        ).insert("upstream"@, JsonView::Text(config.upstream)).insert(
            "requests"@,
            json_number(counters.requests as int),
        ).insert("errors"@, json_number(counters.errors as int)).insert(
            "lastUpstreamOkAt"@,
            json_number(counters.last_ok as int),
        ),
    )
}

/// The reply to a question about the relay itself.
pub open spec fn status_reply(config: ConfigView, counters: Counters) -> ReplyView {
    ReplyView {
        status: 200,
        content_type: Some("application/json"@),
        content_length: None,
        body: encode_utf8(
            match json_pretty(status_json(config, counters)) {
                Some(text) => text,
                None => Seq::empty(),
            },
        ),
    }
}

/// What the relay says when the backend was not reached.
pub open spec fn failure_json(is_timeout: bool, message: Seq<char>) -> JsonView {
    JsonView::Object(
        Map::<Seq<char>, JsonView>::empty().insert(
            "error"@,
            JsonView::Text(
                if is_timeout {
                    "relay_upstream_timeout"@
                } else {
                    "relay_upstream_unreachable"@
                },
            ),
        ).insert("message"@, JsonView::Text(message)),
    )
}

/// The reply when the backend was not reached: 504 where it did not answer in
/// time, and otherwise 502.
pub open spec fn failure_reply(is_timeout: bool, message: Seq<char>) -> ReplyView {
    ReplyView {
        status: if is_timeout {
            504
        } else {
            502
        },
        content_type: Some("application/json"@),
        content_length: None,
        body: encode_utf8(json_text(failure_json(is_timeout, message))),
    }
}

/// The reply to a sync that was answered through the tunnel.
pub open spec fn sync_reply(response: JsonView, local: Seq<JsonView>) -> ReplyView {
    let body = encode_utf8(json_text(merged_response(response, local)));
    ReplyView {
        status: 200,
        content_type: Some("application/json"@),
        content_length: Some(decimal(body.len())),
        body,
    }
}

/// The reply to a request that the backend answered: its status, its content
/// type where that is plain text, and its body.
pub open spec fn passed_reply(
    status: u16,
    content_type: Option<Seq<u8>>,
    body: Seq<u8>,
) -> ReplyView {
    ReplyView {
        status,
        content_type: match content_type {
            Some(bytes) => if visible(bytes) {
                Some(ascii_text(bytes))
            } else {
                None
            },
            None => None,
        },
        content_length: Some(decimal(body.len())),
        body,
    }
}

// ---------------------------------------------------------------------------
// Where a request goes.
// ---------------------------------------------------------------------------

/// The path of a request with its query.
pub open spec fn path_and_query_of(path: Seq<char>, query: Option<Seq<char>>) -> Seq<char> {
    match query {
        Some(text) => path + "?"@ + text,
        None => path,
    }
}

/// The path of a request with its query.
pub fn path_and_query(path: &str, query: &Option<String>) -> (text: String)
    ensures
        text@ == path_and_query_of(path@, text_view(*query)),
{
    let mut text = path.to_owned();
    if let Some(rest) = query {
        text.append("?");
        text.append(rest.as_str());
    }
    text
}

/// The address that a request is forwarded to.
pub open spec fn target_of(
    upstream: Seq<char>,
    path: Seq<char>,
    query: Option<Seq<char>>,
) -> Seq<char> {
    trimmed_end(upstream, '/') + path_and_query_of(path, query)
}

/// A method whose requests are forwarded without a body.
pub open spec fn is_bodiless(method: Seq<char>) -> bool {
    method == "GET"@ || method == "HEAD"@
}

/// A request as it goes to the backend.
pub open spec fn forward_of(config: ConfigView, request: RequestView) -> ForwardView {
    ForwardView {
        method: if token(request.method) {
            request.method
        } else {
            "GET"@
        },
        target: target_of(config.upstream, request.path, request.query),
        headers: forwarded(request.headers, host_of(config.upstream), config.token),
        body: if is_bodiless(request.method) {
            None
        } else {
            Some(request.body)
        },
    }
}

/// A request that goes through the tunnel while the connection is up.
pub open spec fn is_sync(request: RequestView) -> bool {
    request.method == "POST"@ && request.path == "/api/dst/sync"@
}

/// The pushed commands that go back with a sync.
pub open spec fn local_of(
    pushed: Map<Seq<char>, Seq<JsonView>>,
    payload: JsonView,
) -> Seq<JsonView> {
    match payload.text_field("shard_id"@) {
        Some(shard) => queue_of(pushed, shard),
        None => Seq::empty(),
    }
}

/// The tunnel once the pushed commands of a sync are taken.
pub open spec fn after_drain<S, W>(
    tunnel: TunnelView<S, W>,
    payload: JsonView,
) -> TunnelView<S, W> {
    match payload.text_field("shard_id"@) {
        Some(shard) => TunnelView { pushed: tunnel.pushed.remove(shard), ..tunnel },
        None => tunnel,
    }
}

/// Makes the reply to a request from the answer of the backend.
pub fn pass_on(status: u16, content_type: &Option<Vec<u8>>, body: Vec<u8>) -> (reply: Reply)
    ensures
        reply@ == passed_reply(
            status,
            match *content_type {
                Some(bytes) => Some(bytes@),
                None => None,
            },
            body@,
        ),
        reply.status == status,
        reply.body@ == body@,
{
    let content_type = match content_type {
        Some(bytes) => header_text(bytes.as_slice()),
        None => None,
    };
    Reply { status, content_type, content_length: Some(to_decimal(body.len() as u64)), body }
}

/// The relay.
pub struct Relay<S, W> {
    pub config: Config,
    pub counters: Counters,
    pub tunnel: Tunnel<S, W>,
}

impl<S, W> Relay<S, W> {
    pub open spec fn wf(&self) -> bool {
        self.tunnel.wf()
    }

    /// A relay that has done nothing yet.
    pub fn new(config: Config) -> (relay: Relay<S, W>)
        ensures
            relay.wf(),
            relay.config == config,
            relay.counters == (Counters { requests: 0, errors: 0, last_ok: 0 }),
            !relay.tunnel@.ready,
            relay.tunnel@.sender is None,
            relay.tunnel@.seq == 0,
            relay.tunnel@.pending == Map::<u64, W>::empty(),
            relay.tunnel@.pushed == Map::<Seq<char>, Seq<JsonView>>::empty(),
    {
        Relay {
            config,
            counters: Counters { requests: 0, errors: 0, last_ok: 0 },
            tunnel: Tunnel::new(),
        }
    }

    /// What the relay says about itself.
    pub fn status(&self) -> (reply: Reply)
        ensures
            reply@ == status_reply(self.config@, self.counters),
    {
        let port = to_decimal(self.config.port as u64);
        let address = joined("http://127.0.0.1:", port.as_str());
        let mut json = Json::object();
        json.set("relay", Json::text("DSTP"));
        json.set("listening", Json::text(address.as_str()));
        json.set("upstream", Json::text(self.config.upstream.as_str()));
        json.set("requests", Json::unsigned(self.counters.requests));
        json.set("errors", Json::unsigned(self.counters.errors));
        json.set("lastUpstreamOkAt", Json::signed(self.counters.last_ok));
        assert(json@ == status_json(self.config@, self.counters));
        Reply {
            status: 200,
            content_type: Some("application/json".to_owned()),
            content_length: None,
            body: json.to_pretty().as_str().as_bytes_vec(),
        }
    }

    /// Counts a request, and answers it where it asks about the relay itself.
    pub fn receive(&mut self, path: &str) -> (reply: Option<Reply>)
        ensures
            final(self).config == old(self).config,
            final(self).tunnel == old(self).tunnel,
            final(self).counters == counted(old(self).counters, Counted::Received),
            match reply {
                Some(r) => is_status_path(path@) && r@ == status_reply(
                    old(self).config@,
                    final(self).counters,
                ),
                None => !is_status_path(path@),
            },
            reply is Some <==> path@ == "/"@ || path@ == "/relay-status"@,
    {
        self.counters.requests = bump(self.counters.requests);
        if *path == *"/" || *path == *"/relay-status" {
            Some(self.status())
        } else {
            None
        }
    }

    /// The request as it goes to the backend.
    pub fn forward(&self, request: &Request) -> (out: Forward)
        requires
            request.headers@.len() + 4 <= HEADER_LIMIT,
        ensures
            out@ == forward_of(self.config@, request@),
            match out.body {
                Some(bytes) => {
                    &&& request.method@ != "GET"@
                    &&& request.method@ != "HEAD"@
                    &&& bytes@ == request.body@
                },
                None => request.method@ == "GET"@ || request.method@ == "HEAD"@,
            },
            token(request.method@) ==> out.method@ == request.method@,
    {
        let base = trim_end(self.config.upstream.as_str(), '/');
        let rest = path_and_query(request.path.as_str(), &request.query);
        let target = joined(base.as_str(), rest.as_str());
        let host = upstream_host(self.config.upstream.as_str());
        let headers = forward_headers(&request.headers, host.as_str(), &self.config.token);
        let method = request.method.as_str();
        let body = if *method == *"GET" || *method == *"HEAD" {
            None
        } else {
            let mut bytes: Vec<u8> = Vec::new();
            bytes.extend_from_slice(request.body.as_slice());
            assert(bytes@ =~= request.body@);
            Some(bytes)
        };
        Forward { method: forward_method(method), target, headers, body }
    }

    /// Tries to start a sync through the tunnel. The pushed commands of its
    /// shard are taken as soon as its data is read.
    pub fn try_ws_sync(&mut self, body: &[u8], waiter: W) -> (begun: Option<TunnelSync>)
        requires
            old(self).wf(),
            old(self).tunnel@.ready ==> old(self).tunnel@.seq < u64::MAX,
        ensures
            final(self).wf(),
            final(self).config == old(self).config,
            final(self).counters == old(self).counters,
            match payload_of(lossy_text(body@)) {
                Some(payload) => {
                    let drained = after_drain(old(self).tunnel@, payload);
                    &&& final(self).tunnel@ == after_begin(drained, waiter)
                    &&& match begun {
                        Some(sync) => {
                            &&& drained.ready
                            &&& drained.sender is Some
                            &&& sync.outgoing.id == drained.seq + 1
                            &&& sync.outgoing.message@ == json_text(
                                sync_message(sync.outgoing.id, payload),
                            )
                            &&& says_sync(sync.outgoing.message@, sync.outgoing.id, payload)
                            &&& final(self).tunnel@.pending.contains_key(sync.outgoing.id)
                            &&& final(self).tunnel@.pending[sync.outgoing.id] == waiter
                            &&& array_view(sync.local@) == local_of(
                                old(self).tunnel@.pushed,
                                payload,
                            )
                        },
                        None => !drained.ready || drained.sender is None,
                    }
                },
                None => final(self).tunnel@ == old(self).tunnel@ && begun is None,
            },
            valid_utf8(body@) ==> lossy_text(body@) == decode_utf8(body@),
    {
        let payload = match sync_payload(body) {
            Some(json) => json,
            None => {
                return None;
            },
        };
        let local = match shard_of(&payload) {
            Some(shard) => self.tunnel.drain(shard.as_str()),
            None => {
                let none: Vec<Json> = Vec::new();
                assert(array_view(none@) =~= Seq::<JsonView>::empty());
                none
            },
        };
        match self.tunnel.begin_sync(payload, waiter) {
            Ok(outgoing) => Some(TunnelSync { outgoing, local }),
            Err(_) => None,
        }
    }

    /// Whether a request is a sync that may go through the tunnel: it takes a
    /// number then.
    pub fn may_tunnel(&self, request: &Request) -> (may: bool)
        ensures
            may == (is_sync(request@) && self.tunnel@.ready),
            may == (request.method@ == "POST"@ && request.path@ == "/api/dst/sync"@
                && self.tunnel@.ready),
    {
        *request.method.as_str() == *"POST" && *request.path.as_str() == *"/api/dst/sync"
            && self.tunnel.is_ws_ready()
    }

    /// Decides what is to be done with a request: a sync goes through the tunnel
    /// while the connection is up, and anything else goes to the backend, as a
    /// sync does that cannot go through the tunnel.
    pub fn handle(&mut self, request: &Request, waiter: W) -> (step: Step)
        requires
            old(self).wf(),
            is_sync(request@) && old(self).tunnel@.ready ==> old(self).tunnel@.seq < u64::MAX,
            request.headers@.len() + 4 <= HEADER_LIMIT,
        ensures
            final(self).wf(),
            final(self).config == old(self).config,
            final(self).counters == old(self).counters,
            match step {
                Step::Sync(sync) => {
                    let before = old(self).tunnel@;
                    let payload = payload_of(lossy_text(request@.body))->0;
                    &&& is_sync(request@)
                    &&& before.ready
                    &&& before.sender is Some
                    &&& payload_of(lossy_text(request@.body)) is Some
                    &&& final(self).tunnel@ == after_begin(after_drain(before, payload), waiter)
                    &&& sync.outgoing.id == before.seq + 1
                    &&& sync.outgoing.message@ == json_text(
                        sync_message(sync.outgoing.id, payload),
                    )
                    &&& says_sync(sync.outgoing.message@, sync.outgoing.id, payload)
                    &&& final(self).tunnel@.pending.contains_key(sync.outgoing.id)
                    &&& final(self).tunnel@.pending[sync.outgoing.id] == waiter
                    &&& array_view(sync.local@) == local_of(before.pushed, payload)
                },
                Step::Forward(out) => {
                    let before = old(self).tunnel@;
                    let payload = payload_of(lossy_text(request@.body));
                    &&& out@ == forward_of(old(self).config@, request@)
                    &&& if is_sync(request@) && before.ready && payload is Some {
                        &&& before.sender is None
                        &&& final(self).tunnel@ == after_begin(
                            after_drain(before, payload->0),
                            waiter,
                        )
                    } else {
                        final(self).tunnel@ == before
                    }
                },
            },
            step is Sync <==> {
                &&& request.method@ == "POST"@
                &&& request.path@ == "/api/dst/sync"@
                &&& old(self).tunnel@.ready
                &&& old(self).tunnel@.sender is Some
                &&& payload_of(lossy_text(request.body@)) is Some
            },
            is_sync(request@) && old(self).tunnel@.ready && valid_utf8(request@.body)
                ==> lossy_text(request@.body) == decode_utf8(request@.body),
    {
        if self.may_tunnel(request) {
            if let Some(sync) = self.try_ws_sync(request.body.as_slice(), waiter) {
                return Step::Sync(sync);
            }
        }
        Step::Forward(self.forward(request))
    }

    /// Ends a sync that went through the tunnel: makes the reply where it was
    /// answered; `now` is the time of the answer. Where it failed its request is
    /// forwarded to the backend.
    pub fn conclude(
        &mut self,
        request: &Request,
        sync: TunnelSync,
        outcome: SyncOutcome,
        now: i64,
    ) -> (conclusion: Conclusion)
        requires
            old(self).wf(),
            request.headers@.len() + 4 <= HEADER_LIMIT,
        ensures
            final(self).wf(),
            final(self).config == old(self).config,
            final(self).tunnel@ == after_finish(old(self).tunnel@, sync.outgoing.id, outcome),
            match outcome {
                SyncOutcome::Answered(response) => {
                    &&& conclusion matches Conclusion::Reply(reply)
                    &&& reply@ == sync_reply(response@, array_view(sync.local@))
                    &&& replies_with(reply@, response@, array_view(sync.local@))
                    &&& final(self).counters == counted(
                        old(self).counters,
                        Counted::Answered(now),
                    )
                },
                failure => {
                    &&& conclusion matches Conclusion::Forward(error, out)
                    &&& error == (match failure {
                        SyncOutcome::SendFailed => SyncError::SendFailed,
                        SyncOutcome::Closed => SyncError::Closed,
                        _ => SyncError::TimedOut,
                    })
                    &&& out@ == forward_of(old(self).config@, request@)
                    &&& final(self).counters == old(self).counters
                },
            },
    {
        match self.tunnel.finish_sync(sync.outgoing.id, outcome) {
            Ok(response) => {
                proof {
                    law_sync_reply_carries_the_commands(response@, array_view(sync.local@));
                }
                let body = merge_response(response, sync.local).to_text().as_str().as_bytes_vec();
                self.counters.last_ok = now;
                Conclusion::Reply(
                    Reply {
                        status: 200,
                        content_type: Some("application/json".to_owned()),
                        content_length: Some(to_decimal(body.len() as u64)),
                        body,
                    },
                )
            },
            Err(error) => Conclusion::Forward(error, self.forward(request)),
        }
    }

    /// The backend began to answer a request at the time `now`. The reply is made
    /// by `pass_on` once the answer was read.
    pub fn upstream_answered(&mut self, now: i64)
        ensures
            final(self).config == old(self).config,
            final(self).tunnel == old(self).tunnel,
            final(self).counters == counted(old(self).counters, Counted::Answered(now)),
    {
        self.counters.last_ok = now;
    }

    /// Makes the reply to a request that did not reach the backend, or was not
    /// answered in time.
    pub fn upstream_failed(&mut self, is_timeout: bool, message: &str) -> (reply: Reply)
        ensures
            final(self).config == old(self).config,
            final(self).tunnel == old(self).tunnel,
            final(self).counters == counted(old(self).counters, Counted::Failed),
            reply@ == failure_reply(is_timeout, message@),
            reply.status == if is_timeout {
                504int
            } else {
                502int
            },
    {
        self.counters.errors = bump(self.counters.errors);
        let mut json = Json::object();
        if is_timeout {
            json.set("error", Json::text("relay_upstream_timeout"));
        } else {
            json.set("error", Json::text("relay_upstream_unreachable"));
        }
        json.set("message", Json::text(message));
        Reply {
            status: if is_timeout {
                504
            } else {
                502
            },
            content_type: Some("application/json".to_owned()),
            content_length: None,
            body: json.to_text().as_str().as_bytes_vec(),
        }
    }
}

// ---------------------------------------------------------------------------
// What holds of the relay as a whole.
// ---------------------------------------------------------------------------

/// A forwarded request keeps its path and its query: its address ends in them.
pub proof fn law_path_and_query_are_kept(
    upstream: Seq<char>,
    path: Seq<char>,
    query: Option<Seq<char>>,
)
    ensures
        ({
            let target = target_of(upstream, path, query);
            let rest = path_and_query_of(path, query);
            &&& target.len() >= rest.len()
            &&& target.skip(target.len() - rest.len()) == rest
        }),
{
    let base = trimmed_end(upstream, '/');
    let rest = path_and_query_of(path, query);
    assert((base + rest).skip(base.len() as int) =~= rest);
}

/// A slash at the end of the backend's URL makes no difference.
pub proof fn law_trailing_slash_makes_no_difference(
    upstream: Seq<char>,
    path: Seq<char>,
    query: Option<Seq<char>>,
)
    ensures
        target_of(upstream.push('/'), path, query) == target_of(upstream, path, query),
{
    assert(upstream.push('/').drop_last() =~= upstream);
}

/// A sync takes the pushed commands of its shard along: they wait no longer, and
/// those of other shards stay as they are.
pub proof fn law_sync_takes_the_pushed_commands<S, W>(
    tunnel: TunnelView<S, W>,
    payload: JsonView,
    waiter: W,
    other: Seq<char>,
)
    requires
        payload.text_field("shard_id"@) is Some,
        other != payload.text_field("shard_id"@)->0,
    ensures
        ({
            let shard = payload.text_field("shard_id"@)->0;
            let after = after_begin(after_drain(tunnel, payload), waiter);
            &&& local_of(tunnel.pushed, payload) == queue_of(tunnel.pushed, shard)
            &&& queue_of(after.pushed, shard) == Seq::<JsonView>::empty()
            &&& queue_of(after.pushed, other) == queue_of(tunnel.pushed, other)
        }),
{
}

/// Each pushed command goes back once: between two syncs of a shard, whatever
/// happens, nothing waits for the shard unless it is pushed, so the second sync
/// takes no pushed command, and an answer to it that brings no command goes back
/// without any.
pub proof fn law_pushed_commands_go_back_once<S, W>(
    tunnel: TunnelView<S, W>,
    first: JsonView,
    waiter: W,
    steps: Seq<TunnelStep<S, W>>,
    second: JsonView,
    response: JsonView,
)
    requires
        first.text_field("shard_id"@) is Some,
        second.text_field("shard_id"@) == first.text_field("shard_id"@),
        forall|j: int|
            0 <= j < steps.len() ==> !#[trigger] pushes(
                steps,
                j,
                first.text_field("shard_id"@)->0,
            ),
        response is Object,
        commands_of(response) == Seq::<JsonView>::empty(),
    ensures
        ({
            let begun = after_begin(after_drain(tunnel, first), waiter);
            let local = local_of(state_at(begun, steps, steps.len() as int).pushed, second);
            &&& local == Seq::<JsonView>::empty()
            &&& merged_response(response, local).field("commands"@) == Some(
                JsonView::Array(Seq::empty()),
            )
        }),
{
    let begun = after_begin(after_drain(tunnel, first), waiter);
    let shard = first.text_field("shard_id"@)->0;
    law_nothing_waits_unless_pushed(begun, steps, shard, steps.len() as int);
    let none = Seq::<JsonView>::empty();
    assert(none + commands_of(response) =~= none);
    assert(merged(none) =~= none);
}

/// Something that is counted, and the number of the call that it belongs to.
pub struct Event {
    pub call: nat,
    pub what: Counted,
}

/// The counters after a run of events.
pub open spec fn counted_all(counters: Counters, events: Seq<Event>) -> Counters
    decreases events.len(),
{
    if events.len() == 0 {
        counters
    } else {
        counted(counted_all(counters, events.drop_last()), events.last().what)
    }
}

/// How many requests were received in a run.
pub open spec fn received(events: Seq<Event>) -> nat
    decreases events.len(),
{
    if events.len() == 0 {
        0
    } else if events.last().what is Received {
        received(events.drop_last()) + 1
    } else {
        received(events.drop_last())
    }
}

/// How many requests did not reach the backend in a run.
pub open spec fn failed(events: Seq<Event>) -> nat
    decreases events.len(),
{
    if events.len() == 0 {
        0
    } else if events.last().what is Failed {
        failed(events.drop_last()) + 1
    } else {
        failed(events.drop_last())
    }
}

/// What a run holds of one call.
pub open spec fn events_of(events: Seq<Event>, call: nat) -> Seq<Event>
    decreases events.len(),
{
    if events.len() == 0 {
        Seq::empty()
    } else if events.last().call == call {
        events_of(events.drop_last(), call).push(events.last())
    } else {
        events_of(events.drop_last(), call)
    }
}

/// What a call may have done so far: its request is received once, and after
/// that it is answered or fails, once.
pub open spec fn is_call(events: Seq<Event>) -> bool {
    &&& events.len() <= 2
    &&& events.len() >= 1 ==> events[0].what is Received
    &&& events.len() == 2 ==> !(events[1].what is Received)
}

/// How many of the first `calls` calls failed.
pub open spec fn failed_calls(events: Seq<Event>, calls: nat) -> nat
    decreases calls,
{
    if calls == 0 {
        0
    } else {
        let last = events_of(events, (calls - 1) as nat);
        failed_calls(events, (calls - 1) as nat) + if last.len() > 0 && last.last().what is Failed {
            1nat
        } else {
            0nat
        }
    }
}

/// How many of the first `calls` calls have begun.
pub open spec fn begun_calls(events: Seq<Event>, calls: nat) -> nat
    decreases calls,
{
    if calls == 0 {
        0
    } else {
        begun_calls(events, (calls - 1) as nat) + if events_of(events, (calls - 1) as nat).len()
            > 0 {
            1nat
        } else {
            0nat
        }
    }
}

/// Over a run, in whatever order its calls take turns, the counters grow by the
/// number of requests received and of those that did not reach the backend.
pub proof fn law_counters_count(counters: Counters, events: Seq<Event>)
    requires
        counters.requests + received(events) <= u64::MAX,
        counters.errors + failed(events) <= u64::MAX,
    ensures
        counted_all(counters, events).requests == counters.requests + received(events),
        counted_all(counters, events).errors == counters.errors + failed(events),
    decreases events.len(),
{
    if events.len() > 0 {
        law_counters_count(counters, events.drop_last());
    }
}

/// The sum of what each of the first `calls` calls received.
spec fn sum_received(events: Seq<Event>, calls: nat) -> nat
    decreases calls,
{
    if calls == 0 {
        0
    } else {
        sum_received(events, (calls - 1) as nat) + received(events_of(events, (calls - 1) as nat))
    }
}

/// The sum of what failed of each of the first `calls` calls.
spec fn sum_failed(events: Seq<Event>, calls: nat) -> nat
    decreases calls,
{
    if calls == 0 {
        0
    } else {
        sum_failed(events, (calls - 1) as nat) + failed(events_of(events, (calls - 1) as nat))
    }
}

/// One more event adds to the sums what it counts for.
proof fn lemma_sum_step(events: Seq<Event>, calls: nat)
    requires
        events.len() > 0,
    ensures
        sum_received(events, calls) == sum_received(events.drop_last(), calls) + if
            events.last().call < calls && events.last().what is Received {
            1nat
        } else {
            0nat
        },
        sum_failed(events, calls) == sum_failed(events.drop_last(), calls) + if
            events.last().call < calls && events.last().what is Failed {
            1nat
        } else {
            0nat
        },
    decreases calls,
{
    if calls > 0 {
        lemma_sum_step(events, (calls - 1) as nat);
        let rest = events_of(events.drop_last(), (calls - 1) as nat);
        assert(rest.push(events.last()).drop_last() =~= rest);
    }
}

/// What is counted is counted for some call.
proof fn lemma_sums(events: Seq<Event>, calls: nat)
    requires
        forall|i: int| 0 <= i < events.len() ==> (#[trigger] events[i]).call < calls,
    ensures
        sum_received(events, calls) == received(events),
        sum_failed(events, calls) == failed(events),
    decreases events.len(),
{
    if events.len() > 0 {
        let start = events.drop_last();
        assert forall|i: int| 0 <= i < start.len() implies (#[trigger] start[i]).call < calls by {
            assert(events[i].call < calls);
        }
        assert(events[events.len() - 1].call < calls);
        lemma_sums(start, calls);
        lemma_sum_step(events, calls);
    } else {
        lemma_nothing(events, calls);
    }
}

/// Where nothing happened nothing is counted.
proof fn lemma_nothing(events: Seq<Event>, calls: nat)
    requires
        events.len() == 0,
    ensures
        sum_received(events, calls) == 0,
        sum_failed(events, calls) == 0,
    decreases calls,
{
    if calls > 0 {
        lemma_nothing(events, (calls - 1) as nat);
    }
}

/// What the calls add up to.
proof fn lemma_calls(events: Seq<Event>, calls: nat)
    requires
        forall|call: nat| call < calls ==> is_call(#[trigger] events_of(events, call)),
    ensures
        sum_received(events, calls) == begun_calls(events, calls),
        sum_failed(events, calls) == failed_calls(events, calls),
        failed_calls(events, calls) <= begun_calls(events, calls) <= calls,
        (forall|call: nat| call < calls ==> (#[trigger] events_of(events, call)).len() > 0)
            ==> begun_calls(events, calls) == calls,
    decreases calls,
{
    if calls > 0 {
        let last = events_of(events, (calls - 1) as nat);
        lemma_calls(events, (calls - 1) as nat);
        assert(is_call(last));
        reveal_with_fuel(received, 3);
        reveal_with_fuel(failed, 3);
    }
}

/// Of calls that take turns in whatever order, as many are counted as have begun
/// and as many errors as calls failed, so there are never more errors than
/// requests. Once each has begun the requests counted are the calls.
pub proof fn law_counters_over_calls(events: Seq<Event>, calls: nat)
    requires
        calls <= u64::MAX,
        forall|i: int| 0 <= i < events.len() ==> (#[trigger] events[i]).call < calls,
        forall|call: nat| call < calls ==> is_call(#[trigger] events_of(events, call)),
    ensures
        ({
            let after = counted_all(Counters { requests: 0, errors: 0, last_ok: 0 }, events);
            &&& after.requests == begun_calls(events, calls)
            &&& after.errors == failed_calls(events, calls)
            &&& after.errors <= after.requests <= calls
            &&& (forall|call: nat| call < calls ==> (#[trigger] events_of(events, call)).len() > 0)
                ==> after.requests == calls
        }),
{
    lemma_sums(events, calls);
    lemma_calls(events, calls);
    law_counters_count(Counters { requests: 0, errors: 0, last_ok: 0 }, events);
}

// ---------------------------------------------------------------------------
// What the backend and the game are given.
// ---------------------------------------------------------------------------

/// A request goes to the backend with its own method, where that is one, and its
/// body, byte for byte; a GET or a HEAD request goes without a body.
pub proof fn law_forwarded_request_keeps_method_and_body(config: ConfigView, request: RequestView)
    ensures
        request.method != "GET"@ && request.method != "HEAD"@ ==> forward_of(config, request).body
            == Some(request.body),
        request.method == "GET"@ || request.method == "HEAD"@ ==> forward_of(
            config,
            request,
        ).body is None,
        token(request.method) ==> forward_of(config, request).method == request.method,
        !token(request.method) ==> forward_of(config, request).method == "GET"@,
{
}

/// A run of slashes.
pub open spec fn slashes(count: nat) -> Seq<char> {
    Seq::new(count, |i: int| '/')
}

/// A request goes to the backend's URL without the slashes at its end, followed by
/// its own path and, after a question mark, its own query if it has one.
pub proof fn law_forwarded_request_keeps_its_address(config: ConfigView, request: RequestView)
    ensures
        exists|base: Seq<char>, count: nat|
            {
                &&& config.upstream == #[trigger] (base + slashes(count))
                &&& base.len() > 0 ==> base.last() != '/'
                &&& forward_of(config, request).target == match request.query {
                    Some(query) => base + request.path + seq!['?'] + query,
                    None => base + request.path,
                }
            },
{
    reveal_strlit("?");
    let base = trimmed_end(config.upstream, '/');
    law_trimmed_end_takes_the_run(config.upstream, '/');
    let count = (config.upstream.len() - base.len()) as nat;
    assert(config.upstream =~= base + slashes(count));
    assert("?"@ =~= seq!['?']);
    let target = forward_of(config, request).target;
    if let Some(query) = request.query {
        assert(target =~= base + request.path + seq!['?'] + query);
    } else {
        assert(target =~= base + request.path);
    }
}

/// A forwarded request bears the host of the backend, the mark of the relay and
/// the shared secret, each where it can be a header; whatever the game sent.
pub proof fn law_forwarded_request_bears_the_secret(config: ConfigView, request: RequestView)
    ensures
        ({
            let headers = forward_of(config, request).headers;
            &&& config.token matches Some(secret) ==> (valid_value(encode_utf8(secret)) ==> (
            headers.contains_key("x-dstp-relay-token"@) && headers["x-dstp-relay-token"@] == seq![
                encode_utf8(secret),
            ]))
            &&& headers.contains_key("x-dstp-relay"@)
            &&& headers["x-dstp-relay"@] == seq![encode_utf8(seq!['1'])]
            &&& valid_value(encode_utf8(host_of(config.upstream))) ==> headers.contains_key(
                "host"@,
            ) && headers["host"@] == seq![encode_utf8(host_of(config.upstream))]
            &&& !headers.contains_key("connection"@)
            &&& !headers.contains_key("content-length"@)
            &&& headers == forwarded(request.headers, host_of(config.upstream), config.token)
        }),
{
    reveal_strlit("1");
    assert("1"@ =~= seq!['1']);
    law_host_is_the_backend(request.headers, host_of(config.upstream), config.token);
    law_forwarded_request_is_marked(request.headers, host_of(config.upstream), config.token);
    law_connection_headers_stay(request.headers, host_of(config.upstream), config.token);
    if let Some(secret) = config.token {
        if valid_value(encode_utf8(secret)) {
            law_token_is_sent(request.headers, host_of(config.upstream), secret);
        }
    }
}

/// A header of the game that is none of those that the relay sets or drops goes
/// to the backend with its value unchanged.
pub proof fn law_forwarded_request_keeps_its_headers(
    config: ConfigView,
    request: RequestView,
    i: int,
)
    requires
        0 <= i < request.headers.len(),
        valid_name(request.headers[i].name),
        valid_value(request.headers[i].value),
        lowered(request.headers[i].name) != "host"@,
        lowered(request.headers[i].name) != "connection"@,
        lowered(request.headers[i].name) != "content-length"@,
        lowered(request.headers[i].name) != "x-forwarded-for"@,
        lowered(request.headers[i].name) != "x-dstp-relay"@,
        lowered(request.headers[i].name) != "x-dstp-relay-token"@,
        forall|j: int|
            i < j < request.headers.len() ==> lowered((#[trigger] request.headers[j]).name)
                != lowered(request.headers[i].name),
    ensures
        ({
            let headers = forward_of(config, request).headers;
            &&& headers.contains_key(lowered(request.headers[i].name))
            &&& headers[lowered(request.headers[i].name)] == seq![request.headers[i].value]
        }),
{
    law_headers_of_the_game_go_along(
        request.headers,
        host_of(config.upstream),
        config.token,
        i,
    );
}

/// What the backend answers reaches the game: the same status, whatever it is, the
/// same body, its length in decimal, and the same content type where that is plain
/// text.
pub proof fn law_answer_of_the_backend_is_passed_on(
    status: u16,
    content_type: Option<Seq<u8>>,
    body: Seq<u8>,
)
    ensures
        ({
            let reply = passed_reply(status, content_type, body);
            &&& reply.status == status
            &&& reply.body == body
            &&& reply.content_length == Some(decimal(body.len()))
            &&& match content_type {
                Some(bytes) => if visible(bytes) {
                    reply.content_type matches Some(text) && encode_utf8(text) == bytes
                } else {
                    reply.content_type is None
                },
                None => reply.content_type is None,
            }
        }),
{
    if let Some(bytes) = content_type {
        if visible(bytes) {
            law_visible_text_keeps_its_bytes(bytes);
        }
    }
}

/// Different answers of the backend give different replies.
pub proof fn law_different_answers_give_different_replies(
    status: u16,
    other_status: u16,
    content_type: Option<Seq<u8>>,
    other_type: Option<Seq<u8>>,
    body: Seq<u8>,
    other_body: Seq<u8>,
)
    requires
        passed_reply(status, content_type, body) == passed_reply(
            other_status,
            other_type,
            other_body,
        ),
    ensures
        status == other_status,
        body == other_body,
{
}

/// A request that did not reach the backend is answered with 504 where it took too
/// long and 502 otherwise, and with JSON that says which, and why in the very words
/// given.
pub proof fn law_failure_is_told(is_timeout: bool, message: Seq<char>)
    ensures
        ({
            let reply = failure_reply(is_timeout, message);
            &&& reply.status == if is_timeout {
                504int
            } else {
                502int
            }
            &&& reply.content_type == Some("application/json"@)
            &&& reply.content_length is None
            &&& exists|json: JsonView|
                {
                    &&& reply.body == encode_utf8(#[trigger] json_text(json))
                    &&& json.field("error"@) == Some(
                        JsonView::Text(
                            if is_timeout {
                                "relay_upstream_timeout"@
                            } else {
                                "relay_upstream_unreachable"@
                            },
                        ),
                    )
                    &&& json.field("message"@) == Some(JsonView::Text(message))
                    &&& forall|name: Seq<char>|
                        name != "error"@ && name != "message"@ ==> (#[trigger] json.field(
                            name,
                        )) is None
                }
        }),
{
    reveal_strlit("error");
    reveal_strlit("message");
    assert("error"@.len() != "message"@.len());
    let json = failure_json(is_timeout, message);
    assert(failure_reply(is_timeout, message).body == encode_utf8(json_text(json)));
}

/// What the relay says of itself: its name, where it listens, where it forwards
/// to, and what it counted, each as it is, and nothing else.
pub open spec fn tells_of(json: JsonView, config: ConfigView, counters: Counters) -> bool {
    &&& json.field("relay"@) == Some(JsonView::Text("DSTP"@))
    &&& json.field("listening"@) == Some(
        JsonView::Text("http://127.0.0.1:"@ + decimal(config.port as nat)),
    )
    &&& json.field("upstream"@) == Some(JsonView::Text(config.upstream))
    &&& json.field("requests"@) == Some(JsonView::Number(NumberView::Unsigned(counters.requests)))
    &&& json.field("errors"@) == Some(JsonView::Number(NumberView::Unsigned(counters.errors)))
    &&& json.field("lastUpstreamOkAt"@) == Some(
        JsonView::Number(
            if counters.last_ok < 0 {
                NumberView::Negative(counters.last_ok)
            } else {
                NumberView::Unsigned(counters.last_ok as u64)
            },
        ),
    )
    &&& forall|name: Seq<char>|
        name != "relay"@ && name != "listening"@ && name != "upstream"@ && name != "requests"@
            && name != "errors"@ && name != "lastUpstreamOkAt"@ ==> (#[trigger] json.field(
            name,
        )) is None
}

/// A question about the relay is answered with 200 and the indented JSON of what
/// the relay says of itself.
pub proof fn law_status_is_told(config: ConfigView, counters: Counters)
    ensures
        ({
            let reply = status_reply(config, counters);
            &&& reply.status == 200
            &&& reply.content_type == Some("application/json"@)
            &&& reply.content_length is None
            &&& exists|json: JsonView|
                tells_of(json, config, counters) && (#[trigger] json_pretty(json) matches Some(
                    text,
                ) ==> reply.body == encode_utf8(text))
        }),
{
    reveal_strlit("relay");
    reveal_strlit("listening");
    reveal_strlit("upstream");
    reveal_strlit("requests");
    reveal_strlit("errors");
    reveal_strlit("lastUpstreamOkAt");
    assert("relay"@.len() == 5 && "listening"@.len() == 9 && "upstream"@.len() == 8
        && "requests"@.len() == 8 && "errors"@.len() == 6 && "lastUpstreamOkAt"@.len() == 16);
    assert("upstream"@[0] != "requests"@[0]);
    let json = status_json(config, counters);
    assert(tells_of(json, config, counters));
    assert(json_pretty(json) matches Some(text) ==> status_reply(config, counters).body
        == encode_utf8(text));
}

/// The relay answers questions about itself on two paths and no others.
pub proof fn law_status_paths(path: Seq<char>)
    ensures
        is_status_path(path) <==> path == seq!['/'] || path == "/relay-status"@,
{
    reveal_strlit("/");
    assert("/"@ =~= seq!['/']);
}

/// The reply to a sync that was answered through the tunnel: the JSON text of an
/// answer that holds the commands pushed for its shard, merged with those of the
/// response, and is otherwise the response.
pub open spec fn replies_with(
    reply: ReplyView,
    response: JsonView,
    local: Seq<JsonView>,
) -> bool {
    &&& reply.status == 200
    &&& reply.content_type == Some("application/json"@)
    &&& reply.content_length == Some(decimal(reply.body.len()))
    &&& exists|answer: JsonView|
        reply.body == encode_utf8(#[trigger] json_text(answer)) && answers_with(
            answer,
            response,
            local,
        )
}

/// The reply to a sync carries the response and each pushed command.
pub proof fn law_sync_reply_carries_the_commands(response: JsonView, local: Seq<JsonView>)
    ensures
        replies_with(sync_reply(response, local), response, local),
{
    law_response_goes_back_with_the_commands(response, local);
    let answer = merged_response(response, local);
    assert(sync_reply(response, local).body == encode_utf8(json_text(answer)));
}

/// A list holds a command with the key of the given one.
pub open spec fn holds_key(list: Seq<JsonView>, command: JsonView) -> bool {
    exists|j: int| 0 <= j < list.len() && key_of(#[trigger] list[j]) == key_of(command)
}

/// Of each pushed command the reply to a sync holds one with the same key, where
/// the response is an object.
pub proof fn law_each_pushed_command_goes_back(response: JsonView, local: Seq<JsonView>, i: int)
    requires
        response is Object,
        0 <= i < local.len(),
    ensures
        exists|answer: JsonView|
            {
                &&& sync_reply(response, local).body == encode_utf8(#[trigger] json_text(answer))
                &&& answer.field("commands"@) matches Some(JsonView::Array(list))
                &&& holds_key(list, local[i])
            },
{
    let answer = merged_response(response, local);
    let all = local + commands_of(response);
    let list = merged(all);
    reveal(is_merge_of);
    law_merged_is_a_merge(all);
    assert(all[i] == local[i]);
    assert(holds_key(list, local[i]));
    assert(answer.field("commands"@) == Some(JsonView::Array(list)));
    assert(sync_reply(response, local).body == encode_utf8(json_text(answer)));
}

/// Pushed commands with different keys all go back, in the order in which they
/// were pushed, where the response is an object without a list of commands.
pub proof fn law_pushed_commands_go_back_in_order(
    fields: Map<Seq<char>, JsonView>,
    local: Seq<JsonView>,
)
    requires
        !(fields.contains_key("commands"@) && fields["commands"@] is Array),
        forall|a: int, b: int|
            0 <= a < b < local.len() ==> key_of(#[trigger] local[a]) != key_of(
                #[trigger] local[b],
            ),
    ensures
        sync_reply(JsonView::Object(fields), local).body == encode_utf8(
            json_text(JsonView::Object(fields.insert("commands"@, JsonView::Array(local)))),
        ),
{
    let response = JsonView::Object(fields);
    assert(commands_of(response) == Seq::<JsonView>::empty());
    assert(local + Seq::<JsonView>::empty() =~= local);
    law_merge_keeps_distinct_commands(local);
}

/// Only a POST request to the path of syncs is a sync.
pub proof fn law_syncs_are_posted(request: RequestView)
    ensures
        is_sync(request) <==> request.method == "POST"@ && request.path == "/api/dst/sync"@,
{
}

/// A sync that names its shard by a text takes all that waits for that shard and
/// nothing else; any other one takes nothing.
pub proof fn law_sync_takes_what_waits_for_its_shard<S, W>(
    tunnel: TunnelView<S, W>,
    payload: JsonView,
    shard: Seq<char>,
    other: Seq<char>,
)
    requires
        other != shard,
    ensures
        ({
            let after = after_drain(tunnel, payload);
            &&& after.ready == tunnel.ready
            &&& after.sender == tunnel.sender
            &&& after.seq == tunnel.seq
            &&& after.pending == tunnel.pending
            &&& payload.field("shard_id"@) == Some(JsonView::Text(shard)) ==> {
                &&& tunnel.pushed.contains_key(shard) ==> local_of(tunnel.pushed, payload)
                    == tunnel.pushed[shard]
                &&& !tunnel.pushed.contains_key(shard) ==> local_of(tunnel.pushed, payload)
                    == Seq::<JsonView>::empty()
                &&& !after.pushed.contains_key(shard)
                &&& after.pushed.contains_key(other) == tunnel.pushed.contains_key(other)
                &&& tunnel.pushed.contains_key(other) ==> after.pushed[other]
                    == tunnel.pushed[other]
            }
            &&& !(payload.field("shard_id"@) matches Some(JsonView::Text(_))) ==> {
                &&& local_of(tunnel.pushed, payload) == Seq::<JsonView>::empty()
                &&& after == tunnel
            }
        }),
{
}

/// The counters count without end, modulo two to the power of 64, and the time of
/// the last answer is that of the last one in the run.
pub proof fn law_counters_count_on(counters: Counters, events: Seq<Event>, i: int)
    ensures
        counted_all(counters, events).requests as int == (counters.requests + received(events))
            % 0x1_0000_0000_0000_0000,
        counted_all(counters, events).errors as int == (counters.errors + failed(events))
            % 0x1_0000_0000_0000_0000,
        0 <= i < events.len() && events[i].what is Answered && (forall|k: int|
            i < k < events.len() ==> !((#[trigger] events[k]).what is Answered)) ==> counted_all(
            counters,
            events,
        ).last_ok == events[i].what->Answered_0,
        (forall|k: int| 0 <= k < events.len() ==> !((#[trigger] events[k]).what is Answered))
            ==> counted_all(counters, events).last_ok == counters.last_ok,
    decreases events.len(),
{
    if events.len() > 0 {
        let start = events.drop_last();
        law_counters_count_on(counters, start, i);
        assert(events[events.len() - 1] == events.last());
        if 0 <= i < events.len() && events[i].what is Answered && (forall|k: int|
            i < k < events.len() ==> !((#[trigger] events[k]).what is Answered)) {
            assert forall|k: int| i < k < start.len() implies !((
            #[trigger] start[k]).what is Answered) by {
                assert(!(events[k].what is Answered));
            }
        }
        if forall|k: int| 0 <= k < events.len() ==> !((#[trigger] events[k]).what is Answered) {
            assert forall|k: int| 0 <= k < start.len() implies !((
            #[trigger] start[k]).what is Answered) by {
                assert(!(events[k].what is Answered));
            }
        }
    }
}

/// The backend has ten seconds to answer.
pub proof fn law_backend_has_ten_seconds()
    ensures
        UPSTREAM_TIMEOUT_SECS == 10,
{
}

/// Requests and replies are seen as they are.
pub proof fn law_requests_and_replies_are_seen_as_they_are(
    request: Request,
    reply: Reply,
    out: Forward,
)
    ensures
        request@.method == request.method@,
        request@.path == request.path@,
        request@.query == (match request.query {
            Some(text) => Some(text@),
            None => None,
        }),
        request@.headers == headers_view(request.headers@),
        request@.body == request.body@,
        reply@.status == reply.status,
        reply@.content_type == (match reply.content_type {
            Some(text) => Some(text@),
            None => None,
        }),
        reply@.content_length == (match reply.content_length {
            Some(text) => Some(text@),
            None => None,
        }),
        reply@.body == reply.body@,
        out@.method == out.method@,
        out@.target == out.target@,
        out@.headers == header_entries(out.headers),
        out@.body == (match out.body {
            Some(bytes) => Some(bytes@),
            None => None,
        }),
{
}

} // verus!
