//! The tunnel: one lasting connection to the backend, over which syncs are sent
//! and answered by number, and commands are pushed.
//!
//! `Tunnel` holds what is known of the connection. What is sent to it and what
//! arrives on it is carried by the caller, who is told what to do. `S` is what
//! the caller sends messages with, and `W` is what waits for an answer.
use crate::commands::{queue_of, PushBuffer};
use crate::endpoint::{checked_ws_url, tunnel_fits, tunnel_url};
use crate::json::{json_parse, json_text, Json, JsonView, NumberView};
use crate::text::decode_strict;
use std::collections::HashMap;
use vstd::arithmetic::power2::{lemma2_to64, lemma_pow2_unfold, pow2};
use vstd::prelude::*;
use vstd::utf8::{
    decode_utf8, encode_utf8, encode_utf8_decode_utf8, encode_utf8_valid_utf8, valid_utf8,
};

verus! {

broadcast use vstd::std_specs::hash::group_hash_axioms;

// ---------------------------------------------------------------------------
// Reconnecting.
// ---------------------------------------------------------------------------

/// How long to wait for the answer to a sync, in seconds.
pub const SYNC_TIMEOUT_SECS: u64 = 10;

/// How long to wait before the first new attempt, in milliseconds.
pub const FIRST_DELAY: u64 = 1000;

/// The longest wait between two attempts, in milliseconds.
pub const LONGEST_DELAY: u64 = 30_000;

/// The wait that follows a wait.
pub open spec fn delay_after(delay: u64) -> u64 {
    if delay * 2 < LONGEST_DELAY {
        (delay * 2) as u64
    } else {
        LONGEST_DELAY
    }
}

/// The wait after `failures` failed attempts in a row, not counting the last
/// one.
pub open spec fn nth_delay(failures: nat) -> u64
    decreases failures,
{
    if failures == 0 {
        FIRST_DELAY
    } else {
        delay_after(nth_delay((failures - 1) as nat))
    }
}

/// How long to wait before the next attempt to connect.
#[derive(Debug)]
pub struct Backoff {
    delay: u64,
}

impl Backoff {
    /// The wait stays within its bounds.
    pub closed spec fn wf(&self) -> bool {
        FIRST_DELAY <= self.delay <= LONGEST_DELAY
    }

    /// The wait that comes next.
    pub closed spec fn view(&self) -> u64 {
        self.delay
    }

    /// Nothing has failed yet.
    pub fn new() -> (backoff: Backoff)
        ensures
            backoff.wf(),
            backoff@ == nth_delay(0),
            backoff@ == 1000,
    {
        Backoff { delay: FIRST_DELAY }
    }

    /// An attempt succeeded: the waits start anew.
    pub fn reset(&mut self)
        ensures
            final(self).wf(),
            final(self)@ == nth_delay(0),
            final(self)@ == 1000,
    {
        self.delay = FIRST_DELAY;
    }

    /// An attempt failed, or the connection was lost: how long to wait now. The
    /// wait after that is twice as long, up to the longest one.
    pub fn next_delay(&mut self) -> (delay: u64)
        requires
            old(self).wf(),
        ensures
            final(self).wf(),
            delay == old(self)@,
            FIRST_DELAY <= delay <= LONGEST_DELAY,
            final(self)@ == delay_after(delay),
            delay * 2 <= 30_000 ==> final(self)@ == delay * 2,
            delay * 2 > 30_000 ==> final(self)@ == 30_000,
    {
        let delay = self.delay;
        let twice = delay * 2;
        self.delay = if twice < LONGEST_DELAY {
            twice
        } else {
            LONGEST_DELAY
        };
        delay
    }
}

/// The waits never shrink while attempts fail, and stay within their bounds.
pub proof fn law_delays_grow_within_bounds(failures: nat)
    ensures
        FIRST_DELAY <= nth_delay(failures) <= nth_delay(failures + 1) <= LONGEST_DELAY,
    decreases failures,
{
    if failures > 0 {
        law_delays_grow_within_bounds((failures - 1) as nat);
    }
}

/// The waits double from the first one on, up to the longest one.
pub proof fn law_delays_double(failures: nat)
    ensures
        FIRST_DELAY * pow2(failures) < LONGEST_DELAY ==> nth_delay(failures) == FIRST_DELAY * pow2(
            failures,
        ),
        FIRST_DELAY * pow2(failures) >= LONGEST_DELAY ==> nth_delay(failures) == LONGEST_DELAY,
    decreases failures,
{
    if failures == 0 {
        lemma2_to64();
    } else {
        law_delays_double((failures - 1) as nat);
        lemma_pow2_unfold(failures);
    }
}

/// From the sixth failure in a row on, the wait is the longest one.
pub proof fn law_delays_reach_the_longest(failures: nat)
    requires
        failures >= 5,
    ensures
        nth_delay(failures) == LONGEST_DELAY,
    decreases failures,
{
    if failures == 5 {
        reveal_with_fuel(nth_delay, 6);
    } else {
        law_delays_reach_the_longest((failures - 1) as nat);
    }
}

/// Where the tunnel leads to, if there is to be one.
#[derive(Debug)]
pub enum TunnelPlan {
    /// There is none: it is switched off, or the backend has no address for it.
    Off,
    /// It leads to this address.
    To(String),
    /// The address is too long to be worked out.
    TooLong,
}

/// Works out where the tunnel leads to.
pub fn plan_tunnel(use_ws: bool, upstream: &str) -> (plan: TunnelPlan)
    ensures
        match plan {
            TunnelPlan::Off => !use_ws || (tunnel_fits(upstream@) && tunnel_url(upstream@) is None),
            TunnelPlan::To(url) => {
                &&& use_ws
                &&& tunnel_fits(upstream@)
                &&& tunnel_url(upstream@) == Some(url@)
            },
            TunnelPlan::TooLong => use_ws && !tunnel_fits(upstream@),
        },
{
    if !use_ws {
        return TunnelPlan::Off;
    }
    match checked_ws_url(upstream) {
        Some(Some(url)) => TunnelPlan::To(url),
        Some(None) => TunnelPlan::Off,
        None => TunnelPlan::TooLong,
    }
}

// ---------------------------------------------------------------------------
// The state of the tunnel.
// ---------------------------------------------------------------------------

/// The tunnel.
pub struct Tunnel<S, W> {
    ready: bool,
    sender: Option<S>,
    seq: u64,
    pending: HashMap<u64, W>,
    pushed: PushBuffer,
}

/// What a `Tunnel` holds.
#[verifier::ext_equal]
#[verifier::reject_recursive_types(S)]
#[verifier::reject_recursive_types(W)]
pub struct TunnelView<S, W> {
    /// The connection is up.
    pub ready: bool,
    /// What messages are sent with.
    pub sender: Option<S>,
    /// The number of the last sync.
    pub seq: u64,
    /// What waits for the answer to each sync that was not answered yet.
    pub pending: Map<u64, W>,
    /// The pushed commands that wait for each shard.
    pub pushed: Map<Seq<char>, Seq<JsonView>>,
}

/// A sync that goes out.
#[derive(Debug)]
pub struct Outgoing {
    /// Its number.
    pub id: u64,
    /// The message to send.
    pub message: String,
}

/// Why a sync over the tunnel failed.
#[derive(Debug, PartialEq, Eq, Structural, Clone, Copy)]
pub enum SyncError {
    NotReady,
    SendFailed,
    Closed,
    TimedOut,
}

impl SyncError {
    /// The name of the error.
    pub open spec fn name(self) -> Seq<char> {
        match self {
            SyncError::NotReady => "ws_not_ready"@,
            SyncError::SendFailed => "ws_send_failed"@,
            SyncError::Closed => "websocket_closed"@,
            SyncError::TimedOut => "ws_timeout"@,
        }
    }

    /// The name of the error.
    pub fn text(self) -> (text: &'static str)
        ensures
            text@ == self.name(),
    {
        match self {
            SyncError::NotReady => "ws_not_ready",
            SyncError::SendFailed => "ws_send_failed",
            SyncError::Closed => "websocket_closed",
            SyncError::TimedOut => "ws_timeout",
        }
    }
}

/// What became of a sync that went out.
#[derive(Debug)]
pub enum SyncOutcome {
    /// The backend answered.
    Answered(Json),
    /// The message could not be sent.
    SendFailed,
    /// The connection was lost.
    Closed,
    /// There was no answer in time.
    TimedOut,
}

/// What arrives on the connection.
#[derive(Debug)]
pub enum Frame {
    Text(String),
    Binary(Vec<u8>),
    /// The connection was closed, or failed.
    End,
    /// Anything else.
    Other,
}

/// What to do about something that arrived.
pub enum Incoming<W> {
    /// A command was pushed: its type and its shard.
    Pushed { kind: String, shard: String },
    /// A sync was answered: hand the data to what waits for it.
    Answer { waiter: W, data: Json },
    /// The message is no JSON.
    Malformed(String),
    /// Nothing is to be done.
    Ignored,
    /// The connection is over.
    Ended,
}

/// What happens to the connection.
pub enum LinkEvent<S> {
    /// It is to be made, for the first time or after a wait.
    Due,
    /// It was made.
    Opened,
    /// It could not be made.
    Refused,
    /// Messages can be sent with this.
    Attached(S),
    /// Something arrived on it.
    Arrived(Frame),
}

/// What to do about the connection.
pub enum LinkAction<W> {
    /// Make it.
    Connect,
    /// Set up what messages are sent with.
    Attach,
    /// Read from it, once what arrived is seen to.
    Read(Incoming<W>),
    /// Let it go, and wait for so many milliseconds.
    Wait(u64),
}

/// The message that carries the sync number `id`.
pub open spec fn sync_message(id: u64, data: JsonView) -> JsonView {
    JsonView::Object(
        Map::<Seq<char>, JsonView>::empty().insert(
            "id"@,
            JsonView::Number(NumberView::Unsigned(id)),
        ).insert("type"@, JsonView::Text("sync"@)).insert("data"@, data),
    )
}

/// A text is the JSON of a message that bears the number `id`, says that it is a
/// sync and carries the data.
pub open spec fn says_sync(text: Seq<char>, id: u64, data: JsonView) -> bool {
    exists|message: JsonView|
        {
            &&& text == #[trigger] json_text(message)
            &&& message.field("id"@) == Some(JsonView::Number(NumberView::Unsigned(id)))
            &&& message.field("type"@) == Some(JsonView::Text("sync"@))
            &&& message.field("data"@) == Some(data)
        }
}

/// The message of a sync says what it is to say.
proof fn lemma_says_sync(id: u64, data: JsonView)
    ensures
        says_sync(json_text(sync_message(id, data)), id, data),
{
    let none = "x"@;
    reveal_strlit("x");
    reveal_strlit("id");
    reveal_strlit("type");
    reveal_strlit("data");
    assert("id"@.len() == 2 && "type"@.len() == 4 && "data"@.len() == 4 && none.len() == 1);
    law_sync_message_bears_its_number(id, data, none);
}

/// The message that carries a sync.
fn make_message(id: u64, data: Json) -> (message: String)
    ensures
        says_sync(message@, id, data@),
        message@ == json_text(sync_message(id, data@)),
{
    let mut json = Json::object();
    json.set("id", Json::unsigned(id));
    json.set("type", Json::text("sync"));
    json.set("data", data);
    proof {
        lemma_says_sync(id, data@);
    }
    json.to_text()
}

/// A message that pushes a command.
pub open spec fn is_push(message: JsonView) -> bool {
    &&& message.text_field("type"@) == Some("command"@)
    &&& message.text_field("shard_id"@) is Some
    &&& message.field("command"@) is Some
}

/// The data of an answer.
pub open spec fn answer_data(message: JsonView) -> JsonView {
    match message.field("data"@) {
        Some(data) => data,
        None => JsonView::Null,
    }
}

/// The type of a command, as far as it has one.
pub open spec fn kind_of(command: JsonView) -> Seq<char> {
    match command.text_field("type"@) {
        Some(text) => text,
        None => "?"@,
    }
}

/// The tunnel after a message arrived: a pushed command waits for its shard, and
/// an answered sync waits no longer.
pub open spec fn after_message<S, W>(
    tunnel: TunnelView<S, W>,
    message: JsonView,
) -> TunnelView<S, W> {
    if is_push(message) {
        let shard = message.text_field("shard_id"@)->0;
        TunnelView {
            pushed: tunnel.pushed.insert(
                shard,
                queue_of(tunnel.pushed, shard).push(message.field("command"@)->0),
            ),
            ..tunnel
        }
    } else {
        match message.unsigned_field("id"@) {
            Some(id) => TunnelView { pending: tunnel.pending.remove(id), ..tunnel },
            None => tunnel,
        }
    }
}

/// What is to be done about a message that arrived.
pub open spec fn tells<S, W>(
    tunnel: TunnelView<S, W>,
    message: JsonView,
    incoming: Incoming<W>,
) -> bool {
    if is_push(message) {
        &&& incoming matches Incoming::Pushed { kind, shard }
        &&& kind@ == kind_of(message.field("command"@)->0)
        &&& shard@ == message.text_field("shard_id"@)->0
    } else {
        match message.unsigned_field("id"@) {
            Some(id) => if tunnel.pending.contains_key(id) {
                &&& incoming matches Incoming::Answer { waiter, data }
                &&& waiter == tunnel.pending[id]
                &&& data@ == answer_data(message)
            } else {
                incoming is Ignored
            },
            None => incoming is Ignored,
        }
    }
}

/// What a text that arrived does to the tunnel, and what is to be done about
/// it.
pub open spec fn text_arrives<S, W>(
    before: TunnelView<S, W>,
    text: Seq<char>,
    after: TunnelView<S, W>,
    incoming: Incoming<W>,
) -> bool {
    match json_parse(text) {
        Ok(message) => after == after_message(before, message) && tells(before, message, incoming),
        Err(reason) => {
            &&& after == before
            &&& incoming matches Incoming::Malformed(m)
            &&& m@ == reason
        },
    }
}

/// What something that arrived does to the tunnel, and what is to be done about
/// it. Binary data counts as text where it is UTF-8.
pub open spec fn frame_arrives<S, W>(
    before: TunnelView<S, W>,
    frame: Frame,
    after: TunnelView<S, W>,
    incoming: Incoming<W>,
) -> bool {
    match frame {
        Frame::Text(text) => text_arrives(before, text@, after, incoming),
        Frame::Binary(bytes) => if valid_utf8(bytes@) {
            text_arrives(before, decode_utf8(bytes@), after, incoming)
        } else {
            after == before && incoming is Ignored
        },
        Frame::End => after == before && incoming is Ended,
        Frame::Other => after == before && incoming is Ignored,
    }
}

/// The tunnel after it was tried to start a sync.
pub open spec fn after_begin<S, W>(tunnel: TunnelView<S, W>, waiter: W) -> TunnelView<S, W> {
    if !tunnel.ready {
        tunnel
    } else {
        let id = (tunnel.seq + 1) as u64;
        TunnelView {
            seq: id,
            pending: if tunnel.sender is Some {
                tunnel.pending.insert(id, waiter)
            } else {
                tunnel.pending
            },
            ..tunnel
        }
    }
}

/// The tunnel after it is known what became of a sync.
pub open spec fn after_finish<S, W>(
    tunnel: TunnelView<S, W>,
    id: u64,
    outcome: SyncOutcome,
) -> TunnelView<S, W> {
    match outcome {
        SyncOutcome::SendFailed | SyncOutcome::TimedOut => TunnelView {
            pending: tunnel.pending.remove(id),
            ..tunnel
        },
        _ => tunnel,
    }
}

/// The tunnel once its connection is over.
pub open spec fn after_end<S, W>(tunnel: TunnelView<S, W>) -> TunnelView<S, W> {
    TunnelView { ready: false, sender: None, pending: Map::empty(), ..tunnel }
}

impl<S, W> Tunnel<S, W> {
    /// What is pending was numbered before, from one on.
    pub closed spec fn wf(&self) -> bool {
        &&& self.pushed.wf()
        &&& forall|id: u64| #[trigger]
            self.pending@.contains_key(id) ==> 1 <= id <= self.seq
    }

    pub closed spec fn view(&self) -> TunnelView<S, W> {
        TunnelView {
            ready: self.ready,
            sender: self.sender,
            seq: self.seq,
            pending: self.pending@,
            pushed: self.pushed@,
        }
    }

    /// A tunnel without a connection.
    pub fn new() -> (tunnel: Tunnel<S, W>)
        ensures
            tunnel.wf(),
            !tunnel@.ready,
            tunnel@.sender is None,
            tunnel@.seq == 0,
            tunnel@.pending == Map::<u64, W>::empty(),
            tunnel@.pushed == Map::<Seq<char>, Seq<JsonView>>::empty(),
    {
        Tunnel {
            ready: false,
            sender: None,
            seq: 0,
            pending: HashMap::new(),
            pushed: PushBuffer::new(),
        }
    }

    /// What is pending was numbered before.
    pub proof fn lemma_numbered(&self, id: u64)
        requires
            self.wf(),
            self@.pending.contains_key(id),
        ensures
            1 <= id <= self@.seq,
    {
    }

    /// Whether the connection is up.
    pub fn is_ws_ready(&self) -> (ready: bool)
        ensures
            ready == self@.ready,
    {
        self.ready
    }

    /// The number of the last sync.
    pub fn seq(&self) -> (seq: u64)
        ensures
            seq == self@.seq,
    {
        self.seq
    }

    /// What messages are sent with.
    pub fn sender(&self) -> (sender: Option<&S>)
        ensures
            match sender {
                Some(s) => self@.sender == Some(*s),
                None => self@.sender is None,
            },
    {
        self.sender.as_ref()
    }

    /// The connection is up.
    pub fn connected(&mut self)
        requires
            old(self).wf(),
        ensures
            final(self).wf(),
            final(self)@ == (TunnelView { ready: true, ..old(self)@ }),
            final(self)@ == after_step(old(self)@, TunnelStep::Connected),
    {
        self.ready = true;
    }

    /// Messages can be sent from now on.
    pub fn attach(&mut self, sender: S)
        requires
            old(self).wf(),
        ensures
            final(self).wf(),
            final(self)@ == (TunnelView { sender: Some(sender), ..old(self)@ }),
            final(self)@ == after_step(old(self)@, TunnelStep::Attached(sender)),
    {
        self.sender = Some(sender);
    }

    /// The connection is over. Nothing that waits for an answer is kept.
    pub fn disconnected(&mut self)
        requires
            old(self).wf(),
        ensures
            final(self).wf(),
            final(self)@ == after_end(old(self)@),
            final(self)@ == after_step(old(self)@, TunnelStep::Ended),
    {
        self.ready = false;
        self.sender = None;
        self.pending.clear();
    }

    /// Starts a sync: numbers it and lets `waiter` wait for its answer. The
    /// message is then to be sent.
    pub fn begin_sync(&mut self, data: Json, waiter: W) -> (begun: Result<Outgoing, SyncError>)
        requires
            old(self).wf(),
            old(self)@.ready ==> old(self)@.seq < u64::MAX,
        ensures
            final(self).wf(),
            final(self)@ == after_begin(old(self)@, waiter),
            final(self)@ == after_step(old(self)@, TunnelStep::Begun(waiter)),
            match begun {
                Ok(outgoing) => {
                    &&& old(self)@.ready
                    &&& old(self)@.sender is Some
                    &&& outgoing.id == old(self)@.seq + 1
                    &&& outgoing.message@ == json_text(sync_message(outgoing.id, data@))
                    &&& says_sync(outgoing.message@, outgoing.id, data@)
                    &&& final(self)@.pending.contains_key(outgoing.id)
                    &&& final(self)@.pending[outgoing.id] == waiter
                    &&& !old(self)@.pending.contains_key(outgoing.id)
                },
                Err(error) => {
                    &&& error == SyncError::NotReady
                    &&& !old(self)@.ready || old(self)@.sender is None
                },
            },
    {
        if !self.ready {
            return Err(SyncError::NotReady);
        }
        self.seq = self.seq + 1;
        let id = self.seq;
        if self.sender.is_none() {
            return Err(SyncError::NotReady);
        }
        self.pending.insert(id, waiter);
        Ok(Outgoing { id, message: make_message(id, data) })
    }

    /// Ends a sync that went out. One that could not be sent, or was not
    /// answered in time, waits no longer.
    pub fn finish_sync(&mut self, id: u64, outcome: SyncOutcome) -> (answer: Result<Json, SyncError>)
        requires
            old(self).wf(),
        ensures
            final(self).wf(),
            final(self)@ == after_finish(old(self)@, id, outcome),
            final(self)@ == after_step(old(self)@, TunnelStep::Finished(id, outcome)),
            answer == (match outcome {
                SyncOutcome::Answered(data) => Ok::<Json, SyncError>(data),
                SyncOutcome::SendFailed => Err(SyncError::SendFailed),
                SyncOutcome::Closed => Err(SyncError::Closed),
                SyncOutcome::TimedOut => Err(SyncError::TimedOut),
            }),
    {
        match outcome {
            SyncOutcome::Answered(data) => Ok(data),
            SyncOutcome::SendFailed => {
                self.pending.remove(&id);
                Err(SyncError::SendFailed)
            },
            SyncOutcome::Closed => Err(SyncError::Closed),
            SyncOutcome::TimedOut => {
                self.pending.remove(&id);
                Err(SyncError::TimedOut)
            },
        }
    }

    /// Takes in a message: lets a pushed command wait for its shard, or tells
    /// whom an answer is for.
    pub fn take_message(&mut self, message: Json) -> (incoming: Incoming<W>)
        requires
            old(self).wf(),
        ensures
            final(self).wf(),
            final(self)@ == after_message(old(self)@, message@),
            final(self)@ == after_step(old(self)@, TunnelStep::Arrived(message@)),
            tells(old(self)@, message@, incoming),
    {
        let is_command = match message.get_str("type") {
            Some(text) => *text == *"command",
            None => false,
        };
        if is_command {
            let shard = match message.get_str("shard_id") {
                Some(text) => Some(text.to_owned()),
                None => None,
            };
            if let Some(shard) = shard {
                if message.get("command").is_some() {
                    if let Some(command) = message.into_field("command") {
                        let kind = match command.get_str("type") {
                            Some(text) => text.to_owned(),
                            None => "?".to_owned(),
                        };
                        self.pushed.push(shard.as_str(), command);
                        return Incoming::Pushed { kind, shard };
                    }
                    return Incoming::Ignored;
                }
            }
        }
        if let Some(id) = message.get_u64("id") {
            let removed = self.pending.remove(&id);
            if let Some(waiter) = removed {
                let data = match message.into_field("data") {
                    Some(data) => data,
                    None => Json::Null,
                };
                return Incoming::Answer { waiter, data };
            }
            assert(old(self)@.pending.remove(id) =~= old(self)@.pending);
        }
        Incoming::Ignored
    }

    /// Takes in the text of a message.
    pub fn handle_ws_message(&mut self, text: &str) -> (incoming: Incoming<W>)
        requires
            old(self).wf(),
        ensures
            final(self).wf(),
            text_arrives(old(self)@, text@, final(self)@, incoming),
    {
        match Json::parse(text) {
            Ok(message) => self.take_message(message),
            Err(reason) => Incoming::Malformed(reason),
        }
    }

    /// Takes in what arrived on the connection. Binary data counts as text where
    /// it is UTF-8.
    pub fn take_frame(&mut self, frame: Frame) -> (incoming: Incoming<W>)
        requires
            old(self).wf(),
        ensures
            final(self).wf(),
            frame_arrives(old(self)@, frame, final(self)@, incoming),
    {
        match frame {
            Frame::Text(text) => self.handle_ws_message(text.as_str()),
            Frame::Binary(bytes) => match decode_strict(bytes) {
                Some(text) => self.handle_ws_message(text.as_str()),
                None => Incoming::Ignored,
            },
            Frame::End => Incoming::Ended,
            Frame::Other => Incoming::Ignored,
        }
    }

    /// Keeps the connection up: takes in what happened to it, and tells what is
    /// to be done next.
    pub fn connect_ws(&mut self, backoff: &mut Backoff, event: LinkEvent<S>) -> (action: LinkAction<
        W,
    >)
        requires
            old(self).wf(),
            old(backoff).wf(),
        ensures
            final(self).wf(),
            final(backoff).wf(),
            match event {
                LinkEvent::Due => {
                    &&& action is Connect
                    &&& final(self)@ == old(self)@
                    &&& final(backoff)@ == old(backoff)@
                },
                LinkEvent::Opened => {
                    &&& action is Attach
                    &&& final(self)@ == after_step(old(self)@, TunnelStep::Connected)
                    &&& final(self)@ == (TunnelView { ready: true, ..old(self)@ })
                    &&& final(backoff)@ == nth_delay(0)
                },
                LinkEvent::Refused => {
                    &&& action == LinkAction::<W>::Wait(old(backoff)@)
                    &&& FIRST_DELAY <= old(backoff)@ <= LONGEST_DELAY
                    &&& final(self)@ == old(self)@
                    &&& final(backoff)@ == delay_after(old(backoff)@)
                },
                LinkEvent::Attached(sender) => {
                    &&& action == LinkAction::<W>::Read(Incoming::Ignored)
                    &&& final(self)@ == after_step(old(self)@, TunnelStep::Attached(sender))
                    &&& final(self)@ == (TunnelView { sender: Some(sender), ..old(self)@ })
                    &&& final(backoff)@ == old(backoff)@
                },
                LinkEvent::Arrived(frame) => if frame is End {
                    &&& action == LinkAction::<W>::Wait(old(backoff)@)
                    &&& FIRST_DELAY <= old(backoff)@ <= LONGEST_DELAY
                    &&& final(self)@ == after_end(old(self)@)
                    &&& final(backoff)@ == delay_after(old(backoff)@)
                } else {
                    &&& action matches LinkAction::Read(incoming) && frame_arrives(
                        old(self)@,
                        frame,
                        final(self)@,
                        incoming,
                    )
                    &&& final(backoff)@ == old(backoff)@
                },
            },
    {
        match event {
            LinkEvent::Due => LinkAction::Connect,
            LinkEvent::Opened => {
                backoff.reset();
                self.connected();
                LinkAction::Attach
            },
            LinkEvent::Refused => LinkAction::Wait(backoff.next_delay()),
            LinkEvent::Attached(sender) => {
                self.attach(sender);
                LinkAction::Read(Incoming::Ignored)
            },
            LinkEvent::Arrived(frame) => match self.take_frame(frame) {
                Incoming::Ended => {
                    self.disconnected();
                    LinkAction::Wait(backoff.next_delay())
                },
                incoming => LinkAction::Read(incoming),
            },
        }
    }

    /// Takes the commands that were pushed for a shard.
    pub fn drain(&mut self, shard: &str) -> (commands: Vec<Json>)
        requires
            old(self).wf(),
        ensures
            final(self).wf(),
            crate::json::array_view(commands@) == queue_of(old(self)@.pushed, shard@),
            final(self)@ == (TunnelView { pushed: old(self)@.pushed.remove(shard@), ..old(self)@ }),
            final(self)@ == after_step(old(self)@, TunnelStep::Drained(shard@)),
    {
        self.pushed.drain(shard)
    }
}

// ---------------------------------------------------------------------------
// What holds of the tunnel over several steps.
// ---------------------------------------------------------------------------

/// An answer reaches what waits for it, and only that: a message that bears the
/// number of a sync that was begun, and pushes no command, hands its data to
/// what began to wait then.
pub proof fn law_answer_reaches_its_sync<S, W>(
    tunnel: TunnelView<S, W>,
    waiter: W,
    message: JsonView,
    incoming: Incoming<W>,
)
    requires
        tunnel.ready,
        tunnel.sender is Some,
        tunnel.seq < u64::MAX,
        !is_push(message),
        message.unsigned_field("id"@) == Some((tunnel.seq + 1) as u64),
        tells(after_begin(tunnel, waiter), message, incoming),
    ensures
        incoming matches Incoming::Answer { waiter: w, data } && w == waiter && data@
            == answer_data(message),
{
}

/// What waits goes on waiting whatever happens to other syncs: when another one
/// begins or ends, when another one is answered, and when a command is pushed.
pub proof fn law_other_syncs_do_not_disturb<S, W>(
    tunnel: TunnelView<S, W>,
    id: u64,
    waiter: W,
    other: u64,
    outcome: SyncOutcome,
    message: JsonView,
)
    requires
        tunnel.pending.contains_key(id),
        id <= tunnel.seq < u64::MAX,
        other != id,
        is_push(message) || message.unsigned_field("id"@) != Some(id),
    ensures
        after_begin(tunnel, waiter).pending.contains_key(id),
        after_begin(tunnel, waiter).pending[id] == tunnel.pending[id],
        after_finish(tunnel, other, outcome).pending.contains_key(id),
        after_finish(tunnel, other, outcome).pending[id] == tunnel.pending[id],
        after_message(tunnel, message).pending.contains_key(id),
        after_message(tunnel, message).pending[id] == tunnel.pending[id],
{
}

/// A sync is answered at most once: a second answer with the same number is
/// ignored and changes nothing.
pub proof fn law_answered_once<S, W>(
    tunnel: TunnelView<S, W>,
    first: JsonView,
    second: JsonView,
    id: u64,
    incoming: Incoming<W>,
)
    requires
        !is_push(first),
        !is_push(second),
        first.unsigned_field("id"@) == Some(id),
        second.unsigned_field("id"@) == Some(id),
        tells(after_message(tunnel, first), second, incoming),
    ensures
        incoming is Ignored,
        after_message(after_message(tunnel, first), second) == after_message(tunnel, first),
{
    assert(tunnel.pending.remove(id).remove(id) =~= tunnel.pending.remove(id));
}

/// A sync that was given up is not answered any more.
pub proof fn law_given_up_sync_is_not_answered<S, W>(
    tunnel: TunnelView<S, W>,
    id: u64,
    outcome: SyncOutcome,
    message: JsonView,
    incoming: Incoming<W>,
)
    requires
        outcome is SendFailed || outcome is TimedOut,
        !is_push(message),
        message.unsigned_field("id"@) == Some(id),
        tells(after_finish(tunnel, id, outcome), message, incoming),
    ensures
        incoming is Ignored,
{
}

/// Each sync gets a number that no earlier one has.
pub proof fn law_numbers_grow<S, W>(tunnel: TunnelView<S, W>, waiter: W)
    requires
        tunnel.ready,
        tunnel.seq < u64::MAX,
    ensures
        after_begin(tunnel, waiter).seq == tunnel.seq + 1,
{
}

/// Once the connection is over nothing waits for an answer, no sync can begin
/// before the next connection, and the pushed commands are still there.
pub proof fn law_end_of_connection<S, W>(tunnel: TunnelView<S, W>, waiter: W)
    ensures
        forall|id: u64| !after_end(tunnel).pending.contains_key(id),
        after_begin(after_end(tunnel), waiter) == after_end(tunnel),
        after_end(tunnel).pushed == tunnel.pushed,
        after_end(tunnel).seq == tunnel.seq,
{
}

/// A pushed command is the last one that the next sync of its shard takes, and
/// the commands of other shards stay as they are.
pub proof fn law_pushed_command_waits_for_its_shard<S, W>(
    tunnel: TunnelView<S, W>,
    message: JsonView,
    other: Seq<char>,
)
    requires
        is_push(message),
    ensures
        ({
            let shard = message.text_field("shard_id"@)->0;
            let after = after_message(tunnel, message);
            &&& queue_of(after.pushed, shard) == queue_of(tunnel.pushed, shard).push(
                message.field("command"@)->0,
            )
            &&& other != shard ==> queue_of(after.pushed, other) == queue_of(tunnel.pushed, other)
            &&& queue_of(after.pushed.remove(shard), shard) == Seq::<JsonView>::empty()
            &&& other != shard ==> queue_of(after.pushed.remove(shard), other) == queue_of(
                tunnel.pushed,
                other,
            )
        }),
{
}

// ---------------------------------------------------------------------------
// What holds over a run, in whatever order its steps come.
// ---------------------------------------------------------------------------

/// Something that happens to the tunnel.
#[verifier::reject_recursive_types(S)]
#[verifier::reject_recursive_types(W)]
pub enum TunnelStep<S, W> {
    /// The connection is up.
    Connected,
    /// Messages can be sent.
    Attached(S),
    /// The connection is over.
    Ended,
    /// It is tried to start a sync.
    Begun(W),
    /// It is known what became of the sync with this number.
    Finished(u64, SyncOutcome),
    /// A message arrived.
    Arrived(JsonView),
    /// The pushed commands of this shard are taken.
    Drained(Seq<char>),
}

/// The tunnel after a step.
pub open spec fn after_step<S, W>(
    tunnel: TunnelView<S, W>,
    step: TunnelStep<S, W>,
) -> TunnelView<S, W> {
    match step {
        TunnelStep::Connected => TunnelView { ready: true, ..tunnel },
        TunnelStep::Attached(sender) => TunnelView { sender: Some(sender), ..tunnel },
        TunnelStep::Ended => after_end(tunnel),
        TunnelStep::Begun(waiter) => after_begin(tunnel, waiter),
        TunnelStep::Finished(id, outcome) => after_finish(tunnel, id, outcome),
        TunnelStep::Arrived(message) => after_message(tunnel, message),
        TunnelStep::Drained(shard) => TunnelView { pushed: tunnel.pushed.remove(shard), ..tunnel },
    }
}

/// The tunnel before step `k` of a run, or after the run where `k` is its
/// length.
pub open spec fn state_at<S, W>(
    tunnel: TunnelView<S, W>,
    steps: Seq<TunnelStep<S, W>>,
    k: int,
) -> TunnelView<S, W>
    decreases k,
{
    if k <= 0 {
        tunnel
    } else {
        after_step(state_at(tunnel, steps, k - 1), steps[k - 1])
    }
}

/// Step `k` of a run takes the next number for a sync.
pub open spec fn takes_number<S, W>(
    tunnel: TunnelView<S, W>,
    steps: Seq<TunnelStep<S, W>>,
    k: int,
) -> bool {
    &&& 0 <= k < steps.len()
    &&& steps[k] is Begun
    &&& state_at(tunnel, steps, k).ready
}

/// Step `k` of a run begins the sync number `id`, and `waiter` waits for its
/// answer.
pub open spec fn begins<S, W>(
    tunnel: TunnelView<S, W>,
    steps: Seq<TunnelStep<S, W>>,
    k: int,
    id: u64,
    waiter: W,
) -> bool {
    &&& takes_number(tunnel, steps, k)
    &&& state_at(tunnel, steps, k).sender is Some
    &&& steps[k] == TunnelStep::<S, W>::Begun(waiter)
    &&& id == state_at(tunnel, steps, k).seq + 1
}

/// Step `k` of a run is a message that bears the number `id`.
pub open spec fn bears<S, W>(steps: Seq<TunnelStep<S, W>>, k: int, id: u64) -> bool {
    &&& 0 <= k < steps.len()
    &&& steps[k] matches TunnelStep::Arrived(message)
    &&& !is_push(message)
    &&& message.unsigned_field("id"@) == Some(id)
}

/// Step `k` of a run answers the sync number `id`.
pub open spec fn answers<S, W>(
    tunnel: TunnelView<S, W>,
    steps: Seq<TunnelStep<S, W>>,
    k: int,
    id: u64,
) -> bool {
    bears(steps, k, id) && state_at(tunnel, steps, k).pending.contains_key(id)
}

/// At step `k` of a run the sync number `id` is over without an answer: it could
/// not be sent, there was no answer in time, or the connection is over.
pub open spec fn gives_up<S, W>(steps: Seq<TunnelStep<S, W>>, k: int, id: u64) -> bool {
    &&& 0 <= k < steps.len()
    &&& match steps[k] {
        TunnelStep::Ended => true,
        TunnelStep::Finished(other, outcome) => other == id && (outcome is SendFailed
            || outcome is TimedOut),
        _ => false,
    }
}

/// Step `k` of a run pushes a command for a shard.
pub open spec fn pushes<S, W>(steps: Seq<TunnelStep<S, W>>, k: int, shard: Seq<char>) -> bool {
    &&& 0 <= k < steps.len()
    &&& steps[k] matches TunnelStep::Arrived(message)
    &&& is_push(message)
    &&& message.text_field("shard_id"@) == Some(shard)
}

/// How many numbers the first `k` steps of a run take.
pub open spec fn numbers_taken<S, W>(
    tunnel: TunnelView<S, W>,
    steps: Seq<TunnelStep<S, W>>,
    k: int,
) -> nat
    decreases k,
{
    if k <= 0 {
        0
    } else {
        numbers_taken(tunnel, steps, k - 1) + if takes_number(tunnel, steps, k - 1) {
            1nat
        } else {
            0nat
        }
    }
}

/// The numbers last: each step of a run that takes one finds one left.
pub open spec fn numbers_last<S, W>(
    tunnel: TunnelView<S, W>,
    steps: Seq<TunnelStep<S, W>>,
) -> bool {
    forall|k: int| #[trigger]
        takes_number(tunnel, steps, k) ==> state_at(tunnel, steps, k).seq < u64::MAX
}

/// The numbers of syncs are consecutive, in whatever order the steps of a run
/// come: the last one is the one before the run, and one more for each that was
/// taken.
pub proof fn law_numbers_are_consecutive<S, W>(
    tunnel: TunnelView<S, W>,
    steps: Seq<TunnelStep<S, W>>,
    k: int,
)
    requires
        0 <= k <= steps.len(),
        tunnel.seq + numbers_taken(tunnel, steps, k) <= u64::MAX,
    ensures
        state_at(tunnel, steps, k).seq == tunnel.seq + numbers_taken(tunnel, steps, k),
    decreases k,
{
    if k > 0 {
        law_numbers_are_consecutive(tunnel, steps, k - 1);
    }
}

/// A step that takes a number finds one left.
proof fn lemma_number_left<S, W>(
    tunnel: TunnelView<S, W>,
    steps: Seq<TunnelStep<S, W>>,
    k: int,
)
    requires
        numbers_last(tunnel, steps),
        0 <= k < steps.len(),
    ensures
        steps[k] is Begun && state_at(tunnel, steps, k).ready ==> state_at(tunnel, steps, k).seq
            < u64::MAX,
{
    assert(takes_number(tunnel, steps, k) ==> state_at(tunnel, steps, k).seq < u64::MAX);
}

/// The number of the last sync never shrinks.
proof fn lemma_seq_grows<S, W>(
    tunnel: TunnelView<S, W>,
    steps: Seq<TunnelStep<S, W>>,
    from: int,
    to: int,
)
    requires
        0 <= from <= to <= steps.len(),
        numbers_last(tunnel, steps),
    ensures
        state_at(tunnel, steps, from).seq <= state_at(tunnel, steps, to).seq,
    decreases to,
{
    if from < to {
        lemma_seq_grows(tunnel, steps, from, to - 1);
        lemma_number_left(tunnel, steps, to - 1);
    }
}

/// No two syncs of a run get the same number, in whatever order its steps come;
/// a later one gets a greater one.
pub proof fn law_numbers_are_distinct<S, W>(
    tunnel: TunnelView<S, W>,
    steps: Seq<TunnelStep<S, W>>,
    i: int,
    j: int,
)
    requires
        numbers_last(tunnel, steps),
        i < j,
        takes_number(tunnel, steps, i),
        takes_number(tunnel, steps, j),
    ensures
        tunnel.seq < state_at(tunnel, steps, i + 1).seq < state_at(tunnel, steps, j + 1).seq,
{
    lemma_seq_grows(tunnel, steps, 0, i);
    lemma_seq_grows(tunnel, steps, i + 1, j);
}

/// What is not pending, and was numbered, never is pending again.
proof fn lemma_gone<S, W>(
    tunnel: TunnelView<S, W>,
    steps: Seq<TunnelStep<S, W>>,
    id: u64,
    from: int,
    to: int,
)
    requires
        0 <= from <= to <= steps.len(),
        numbers_last(tunnel, steps),
        id <= state_at(tunnel, steps, from).seq,
        !state_at(tunnel, steps, from).pending.contains_key(id),
    ensures
        !state_at(tunnel, steps, to).pending.contains_key(id),
    decreases to,
{
    if from < to {
        lemma_gone(tunnel, steps, id, from, to - 1);
        lemma_seq_grows(tunnel, steps, from, to - 1);
        lemma_number_left(tunnel, steps, to - 1);
    }
}

/// As long as a sync is pending it is the one that began it that waits.
proof fn lemma_same_waiter<S, W>(
    tunnel: TunnelView<S, W>,
    steps: Seq<TunnelStep<S, W>>,
    id: u64,
    waiter: W,
    i: int,
    k: int,
)
    requires
        numbers_last(tunnel, steps),
        begins(tunnel, steps, i, id, waiter),
        i < k <= steps.len(),
    ensures
        id <= state_at(tunnel, steps, k).seq,
        state_at(tunnel, steps, k).pending.contains_key(id) ==> state_at(
            tunnel,
            steps,
            k,
        ).pending[id] == waiter,
    decreases k,
{
    lemma_number_left(tunnel, steps, k - 1);
    if i + 1 < k {
        lemma_same_waiter(tunnel, steps, id, waiter, i, k - 1);
    }
}

/// An answer is that of its own sync, in whatever order the steps of a run come:
/// the message that answers the sync number `id` hands its data to what began to
/// wait when that sync began.
pub proof fn law_answers_reach_their_syncs<S, W>(
    tunnel: TunnelView<S, W>,
    steps: Seq<TunnelStep<S, W>>,
    id: u64,
    waiter: W,
    i: int,
    j: int,
    incoming: Incoming<W>,
)
    requires
        numbers_last(tunnel, steps),
        begins(tunnel, steps, i, id, waiter),
        i < j,
        answers(tunnel, steps, j, id),
        tells(state_at(tunnel, steps, j), steps[j]->Arrived_0, incoming),
    ensures
        incoming matches Incoming::Answer { waiter: w, data } && w == waiter && data@
            == answer_data(steps[j]->Arrived_0),
{
    lemma_same_waiter(tunnel, steps, id, waiter, i, j);
}

/// A sync that began is answered by the first message that bears its number, if
/// it is not given up before, whatever else happens in the meantime.
pub proof fn law_waiting_sync_is_answered<S, W>(
    tunnel: TunnelView<S, W>,
    steps: Seq<TunnelStep<S, W>>,
    id: u64,
    waiter: W,
    i: int,
    j: int,
)
    requires
        begins(tunnel, steps, i, id, waiter),
        i < j,
        bears(steps, j, id),
        forall|k: int| i < k < j ==> !#[trigger] bears(steps, k, id) && !gives_up(steps, k, id),
    ensures
        answers(tunnel, steps, j, id),
{
    lemma_waits(tunnel, steps, id, waiter, i, j);
}

/// A sync that began is pending until it is answered or given up.
proof fn lemma_waits<S, W>(
    tunnel: TunnelView<S, W>,
    steps: Seq<TunnelStep<S, W>>,
    id: u64,
    waiter: W,
    i: int,
    j: int,
)
    requires
        begins(tunnel, steps, i, id, waiter),
        i < j <= steps.len(),
        forall|k: int| i < k < j ==> !#[trigger] bears(steps, k, id) && !gives_up(steps, k, id),
    ensures
        state_at(tunnel, steps, j).pending.contains_key(id),
    decreases j,
{
    if i + 1 < j {
        lemma_waits(tunnel, steps, id, waiter, i, j - 1);
        assert(!bears(steps, j - 1, id));
    }
}

/// Once a sync is answered, or given up, its number is not pending any more, for
/// the rest of the run: no later message answers it.
pub proof fn law_ended_sync_is_gone<S, W>(
    tunnel: TunnelView<S, W>,
    steps: Seq<TunnelStep<S, W>>,
    id: u64,
    waiter: W,
    i: int,
    j: int,
    k: int,
)
    requires
        numbers_last(tunnel, steps),
        begins(tunnel, steps, i, id, waiter),
        i < j < k <= steps.len(),
        answers(tunnel, steps, j, id) || gives_up(steps, j, id),
    ensures
        !state_at(tunnel, steps, k).pending.contains_key(id),
        !answers(tunnel, steps, k, id),
{
    lemma_same_waiter(tunnel, steps, id, waiter, i, j + 1);
    assert(!state_at(tunnel, steps, j + 1).pending.contains_key(id));
    lemma_gone(tunnel, steps, id, j + 1, k);
}

/// Only what began is answered: the number of an answer that was not pending
/// before the run is that of a sync that began in it.
pub proof fn law_only_begun_syncs_are_answered<S, W>(
    tunnel: TunnelView<S, W>,
    steps: Seq<TunnelStep<S, W>>,
    id: u64,
    j: int,
)
    requires
        numbers_last(tunnel, steps),
        !tunnel.pending.contains_key(id),
        answers(tunnel, steps, j, id),
    ensures
        exists|i: int, waiter: W| i < j && #[trigger] begins(tunnel, steps, i, id, waiter),
{
    lemma_begun(tunnel, steps, id, j);
}

/// What is pending, and was not before the run, began in it.
proof fn lemma_begun<S, W>(
    tunnel: TunnelView<S, W>,
    steps: Seq<TunnelStep<S, W>>,
    id: u64,
    k: int,
)
    requires
        numbers_last(tunnel, steps),
        0 <= k <= steps.len(),
        !tunnel.pending.contains_key(id),
        state_at(tunnel, steps, k).pending.contains_key(id),
    ensures
        exists|i: int, waiter: W| i < k && #[trigger] begins(tunnel, steps, i, id, waiter),
    decreases k,
{
    if k > 0 {
        if state_at(tunnel, steps, k - 1).pending.contains_key(id) {
            lemma_begun(tunnel, steps, id, k - 1);
        } else {
            lemma_number_left(tunnel, steps, k - 1);
            let waiter = steps[k - 1]->Begun_0;
            assert(begins(tunnel, steps, k - 1, id, waiter));
        }
    }
}

/// Where nothing waits for a shard, nothing does after a run that pushes nothing
/// for it.
pub proof fn law_nothing_waits_unless_pushed<S, W>(
    tunnel: TunnelView<S, W>,
    steps: Seq<TunnelStep<S, W>>,
    shard: Seq<char>,
    k: int,
)
    requires
        0 <= k <= steps.len(),
        queue_of(tunnel.pushed, shard) == Seq::<JsonView>::empty(),
        forall|j: int| 0 <= j < k ==> !#[trigger] pushes(steps, j, shard),
    ensures
        queue_of(state_at(tunnel, steps, k).pushed, shard) == Seq::<JsonView>::empty(),
    decreases k,
{
    if k > 0 {
        law_nothing_waits_unless_pushed(tunnel, steps, shard, k - 1);
        assert(!pushes(steps, k - 1, shard));
    }
}

/// What was pushed for a shard is taken once: from one step that takes it to the
/// next, nothing waits for the shard unless it was pushed in between.
pub proof fn law_pushed_commands_are_taken_once<S, W>(
    tunnel: TunnelView<S, W>,
    steps: Seq<TunnelStep<S, W>>,
    shard: Seq<char>,
    i: int,
    k: int,
)
    requires
        0 <= i < k <= steps.len(),
        steps[i] == TunnelStep::<S, W>::Drained(shard),
        forall|j: int| i < j < k ==> !#[trigger] pushes(steps, j, shard),
    ensures
        queue_of(state_at(tunnel, steps, k).pushed, shard) == Seq::<JsonView>::empty(),
    decreases k,
{
    if i + 1 < k {
        law_pushed_commands_are_taken_once(tunnel, steps, shard, i, k - 1);
        assert(!pushes(steps, k - 1, shard));
    }
}

// ---------------------------------------------------------------------------
// What goes out, and what comes in.
// ---------------------------------------------------------------------------

/// The message of a sync bears its number, says that it is one, carries its data,
/// and holds nothing else.
pub proof fn law_sync_message_bears_its_number(id: u64, data: JsonView, other: Seq<char>)
    requires
        other != "id"@,
        other != "type"@,
        other != "data"@,
    ensures
        ({
            let message = sync_message(id, data);
            &&& message.unsigned_field("id"@) == Some(id)
            &&& message.field("id"@) == Some(JsonView::Number(NumberView::Unsigned(id)))
            &&& message.field("type"@) == Some(JsonView::Text("sync"@))
            &&& message.field("data"@) == Some(data)
            &&& message.field(other) is None
        }),
{
    reveal_strlit("id");
    reveal_strlit("type");
    reveal_strlit("data");
    assert("id"@.len() == 2 && "type"@.len() == 4 && "data"@.len() == 4);
    assert("type"@[0] != "data"@[0]);
}

/// Different syncs go out with different numbers, whatever their data.
pub proof fn law_sync_messages_are_told_apart(
    id: u64,
    other: u64,
    data: JsonView,
    other_data: JsonView,
)
    requires
        id != other,
    ensures
        sync_message(id, data).field("id"@) != sync_message(other, other_data).field("id"@),
        sync_message(id, data) != sync_message(other, other_data),
{
    let none = "x"@;
    reveal_strlit("x");
    reveal_strlit("id");
    reveal_strlit("type");
    reveal_strlit("data");
    assert("id"@.len() == 2 && "type"@.len() == 4 && "data"@.len() == 4 && none.len() == 1);
    law_sync_message_bears_its_number(id, data, none);
    law_sync_message_bears_its_number(other, other_data, none);
}

/// An answer that bears the number found in the message of a sync, and is no
/// command, is handed to what waits for that sync, with its data, or with null
/// where it has none; after that nothing waits for that sync.
pub proof fn law_sync_is_answered_by_the_number_it_sent<S, W>(
    tunnel: TunnelView<S, W>,
    waiter: W,
    data: JsonView,
    answer: JsonView,
    incoming: Incoming<W>,
)
    requires
        tunnel.ready,
        tunnel.sender is Some,
        tunnel.seq < u64::MAX,
        answer.unsigned_field("id"@) == sync_message(
            (tunnel.seq + 1) as u64,
            data,
        ).unsigned_field("id"@),
        answer.text_field("type"@) != Some("command"@),
        tells(after_begin(tunnel, waiter), answer, incoming),
    ensures
        incoming matches Incoming::Answer { waiter: w, data: given } && w == waiter && given@ == (
        match answer.field("data"@) {
            Some(value) => value,
            None => JsonView::Null,
        }),
        !after_message(after_begin(tunnel, waiter), answer).pending.contains_key(
            (tunnel.seq + 1) as u64,
        ),
{
    let none = "x"@;
    reveal_strlit("x");
    reveal_strlit("id");
    reveal_strlit("type");
    reveal_strlit("data");
    assert("id"@.len() == 2 && "type"@.len() == 4 && "data"@.len() == 4 && none.len() == 1);
    law_sync_message_bears_its_number((tunnel.seq + 1) as u64, data, none);
}

/// Starting a sync takes the next number and lets the waiter wait under it; it
/// disturbs nothing else. Without a connection nothing happens, and without
/// anything to send with only the number is used up.
pub proof fn law_starting_a_sync<S, W>(tunnel: TunnelView<S, W>, waiter: W, other: u64)
    requires
        tunnel.ready ==> tunnel.seq < u64::MAX,
        other != tunnel.seq + 1,
    ensures
        ({
            let after = after_begin(tunnel, waiter);
            &&& after.ready == tunnel.ready
            &&& after.sender == tunnel.sender
            &&& after.pushed == tunnel.pushed
            &&& after.pending.contains_key(other) == tunnel.pending.contains_key(other)
            &&& tunnel.pending.contains_key(other) ==> after.pending[other]
                == tunnel.pending[other]
            &&& after.seq == tunnel.seq + if tunnel.ready {
                1int
            } else {
                0int
            }
            &&& tunnel.ready && tunnel.sender is Some ==> after.pending.contains_key(after.seq)
                && after.pending[after.seq] == waiter
            &&& !tunnel.ready || tunnel.sender is None ==> after.pending == tunnel.pending
        }),
{
}

/// Ending a sync that was not sent, or not answered in time, takes away what waits
/// for it and nothing else; ending any other one changes nothing.
pub proof fn law_ending_a_sync<S, W>(
    tunnel: TunnelView<S, W>,
    id: u64,
    outcome: SyncOutcome,
    other: u64,
)
    requires
        other != id,
    ensures
        ({
            let after = after_finish(tunnel, id, outcome);
            &&& after.ready == tunnel.ready
            &&& after.sender == tunnel.sender
            &&& after.seq == tunnel.seq
            &&& after.pushed == tunnel.pushed
            &&& after.pending.contains_key(other) == tunnel.pending.contains_key(other)
            &&& tunnel.pending.contains_key(other) ==> after.pending[other]
                == tunnel.pending[other]
            &&& outcome is SendFailed || outcome is TimedOut ==> !after.pending.contains_key(id)
            &&& outcome is Answered || outcome is Closed ==> after == tunnel
        }),
{
}

/// The end of the connection leaves nothing to send with and nobody waiting, and
/// keeps the numbers and the pushed commands.
pub proof fn law_end_leaves_nobody_waiting<S, W>(tunnel: TunnelView<S, W>, id: u64)
    ensures
        ({
            let after = after_end(tunnel);
            &&& !after.ready
            &&& after.sender is None
            &&& !after.pending.contains_key(id)
            &&& after.seq == tunnel.seq
            &&& after.pushed == tunnel.pushed
        }),
{
}

/// A message of type `command` that names a shard and holds a command lets that
/// command wait for that shard, behind those that wait already. It concerns no
/// other shard and no sync, whatever else the message holds.
pub proof fn law_command_waits_for_its_shard<S, W>(
    tunnel: TunnelView<S, W>,
    message: JsonView,
    shard: Seq<char>,
    command: JsonView,
    other: Seq<char>,
    incoming: Incoming<W>,
)
    requires
        message.field("type"@) == Some(JsonView::Text("command"@)),
        message.field("shard_id"@) == Some(JsonView::Text(shard)),
        message.field("command"@) == Some(command),
        other != shard,
        tells(tunnel, message, incoming),
    ensures
        ({
            let after = after_message(tunnel, message);
            &&& after.pushed.contains_key(shard)
            &&& after.pushed[shard] == if tunnel.pushed.contains_key(shard) {
                tunnel.pushed[shard].push(command)
            } else {
                seq![command]
            }
            &&& after.pushed.contains_key(other) == tunnel.pushed.contains_key(other)
            &&& tunnel.pushed.contains_key(other) ==> after.pushed[other] == tunnel.pushed[other]
            &&& after.pending == tunnel.pending
            &&& after.seq == tunnel.seq
            &&& after.ready == tunnel.ready
            &&& after.sender == tunnel.sender
            &&& incoming matches Incoming::Pushed { kind, shard: told }
            &&& told@ == shard
            &&& kind@ == match command.field("type"@) {
                Some(JsonView::Text(text)) => text,
                _ => "?"@,
            }
        }),
{
    assert(Seq::<JsonView>::empty().push(command) =~= seq![command]);
}

/// A message pushes a command: it is of type `command`, names a shard by a text
/// and holds a command.
pub open spec fn brings_command(message: JsonView, shard: Seq<char>, command: JsonView) -> bool {
    &&& message.field("type"@) == Some(JsonView::Text("command"@))
    &&& message.field("shard_id"@) == Some(JsonView::Text(shard))
    &&& message.field("command"@) == Some(command)
}

/// A message that pushes no command and bears the number of a sync that waits
/// hands its data, or null, to what waits for that sync and for no other; one that
/// bears no such number changes nothing. Neither touches what was pushed.
pub proof fn law_answer_is_handed_over<S, W>(
    tunnel: TunnelView<S, W>,
    message: JsonView,
    id: u64,
    other: u64,
    incoming: Incoming<W>,
)
    requires
        forall|shard: Seq<char>, command: JsonView| !#[trigger] brings_command(
            message,
            shard,
            command,
        ),
        other != id,
        tells(tunnel, message, incoming),
    ensures
        ({
            let after = after_message(tunnel, message);
            let bears = message.field("id"@) == Some(JsonView::Number(NumberView::Unsigned(id)));
            &&& after.pushed == tunnel.pushed
            &&& after.seq == tunnel.seq
            &&& after.ready == tunnel.ready
            &&& after.sender == tunnel.sender
            &&& bears && tunnel.pending.contains_key(id) ==> {
                &&& incoming matches Incoming::Answer { waiter, data }
                &&& waiter == tunnel.pending[id]
                &&& data@ == match message.field("data"@) {
                    Some(value) => value,
                    None => JsonView::Null,
                }
            }
            &&& bears ==> !after.pending.contains_key(id)
            &&& bears ==> after.pending.contains_key(other) == tunnel.pending.contains_key(other)
            &&& bears && tunnel.pending.contains_key(other) ==> after.pending[other]
                == tunnel.pending[other]
            &&& bears && !tunnel.pending.contains_key(id) ==> incoming is Ignored
            &&& !(message.field("id"@) matches Some(JsonView::Number(NumberView::Unsigned(_))))
                ==> after == tunnel && incoming is Ignored
        }),
{
    if is_push(message) {
        let shard = message.text_field("shard_id"@)->0;
        assert(brings_command(message, shard, message.field("command"@)->0));
    }
}

/// Binary data that is the UTF-8 of a text does what that text does; binary data
/// that is no UTF-8, and anything that is neither text nor binary data, does
/// nothing, and is told apart from the end.
pub proof fn law_binary_frames_count_as_text<S, W>(
    before: TunnelView<S, W>,
    text: String,
    bytes: Vec<u8>,
    after: TunnelView<S, W>,
    incoming: Incoming<W>,
)
    ensures
        bytes@ == encode_utf8(text@) ==> (frame_arrives(
            before,
            Frame::Binary(bytes),
            after,
            incoming,
        ) <==> frame_arrives(before, Frame::Text(text), after, incoming)),
        !valid_utf8(bytes@) && frame_arrives(before, Frame::Binary(bytes), after, incoming)
            ==> after == before && incoming is Ignored,
        frame_arrives(before, Frame::Other, after, incoming) ==> after == before
            && incoming is Ignored,
        frame_arrives(before, Frame::End, after, incoming) ==> after == before && incoming is Ended,
{
    encode_utf8_valid_utf8(text@);
    encode_utf8_decode_utf8(text@);
}

/// A text does what its JSON says; one that is no JSON changes nothing, and the
/// reason is told.
pub proof fn law_texts_do_what_their_json_says<S, W>(
    before: TunnelView<S, W>,
    text: String,
    after: TunnelView<S, W>,
    incoming: Incoming<W>,
)
    requires
        frame_arrives(before, Frame::Text(text), after, incoming),
    ensures
        json_parse(text@) matches Ok(message) ==> after == after_message(before, message) && tells(
            before,
            message,
            incoming,
        ),
        json_parse(text@) matches Err(reason) ==> after == before && (incoming matches Incoming::Malformed(
            told,
        ) && told@ == reason),
{
}

/// The commands that the first `k` steps of a run push for a shard, in that order.
pub open spec fn pushed_for<S, W>(
    steps: Seq<TunnelStep<S, W>>,
    shard: Seq<char>,
    k: int,
) -> Seq<JsonView>
    decreases k,
{
    if k <= 0 {
        Seq::empty()
    } else {
        let earlier = pushed_for(steps, shard, k - 1);
        match steps[k - 1] {
            TunnelStep::Arrived(message) => match message.field("command"@) {
                Some(command) => if brings_command(message, shard, command) {
                    earlier.push(command)
                } else {
                    earlier
                },
                None => earlier,
            },
            _ => earlier,
        }
    }
}

/// What waits for a shard is what was pushed for it, all of it and in that order,
/// whatever else happens, until it is taken.
pub proof fn law_what_waits_is_what_was_pushed<S, W>(
    tunnel: TunnelView<S, W>,
    steps: Seq<TunnelStep<S, W>>,
    shard: Seq<char>,
    k: int,
)
    requires
        0 <= k <= steps.len(),
        !tunnel.pushed.contains_key(shard),
        forall|j: int| 0 <= j < k ==> (#[trigger] steps[j]) != TunnelStep::<S, W>::Drained(shard),
    ensures
        queue_of(state_at(tunnel, steps, k).pushed, shard) == pushed_for(steps, shard, k),
        pushed_for(steps, shard, k).len() > 0 ==> state_at(tunnel, steps, k).pushed.contains_key(
            shard,
        ) && state_at(tunnel, steps, k).pushed[shard] == pushed_for(steps, shard, k),
    decreases k,
{
    if k > 0 {
        law_what_waits_is_what_was_pushed(tunnel, steps, shard, k - 1);
        assert(steps[k - 1] != TunnelStep::<S, W>::Drained(shard));
        if let TunnelStep::Arrived(message) = steps[k - 1] {
            if is_push(message) {
                let to = message.text_field("shard_id"@)->0;
                let command = message.field("command"@)->0;
                assert(brings_command(message, to, command));
            }
        }
    }
}

/// Each way in which a sync can fail has a name of its own.
pub proof fn law_errors_are_told_apart(one: SyncError, other: SyncError)
    requires
        one.name() == other.name(),
    ensures
        one == other,
{
    reveal_strlit("ws_not_ready");
    reveal_strlit("ws_send_failed");
    reveal_strlit("websocket_closed");
    reveal_strlit("ws_timeout");
    assert("ws_not_ready"@.len() == 12 && "ws_send_failed"@.len() == 14
        && "websocket_closed"@.len() == 16 && "ws_timeout"@.len() == 10);
}

/// A sync waits ten seconds for its answer, and the waits between attempts to
/// connect lie between one second and half a minute.
pub proof fn law_tunnel_waits()
    ensures
        SYNC_TIMEOUT_SECS == 10,
        FIRST_DELAY == 1_000,
        LONGEST_DELAY == 30_000,
{
}

/// Once the connection is up and messages can be sent the tunnel is ready for
/// syncs, and neither step changes anything else; taking what was pushed for a
/// shard changes nothing but that.
pub proof fn law_opening_changes_nothing_else<S, W>(
    tunnel: TunnelView<S, W>,
    sender: S,
    shard: Seq<char>,
    other: Seq<char>,
)
    requires
        other != shard,
    ensures
        ({
            let open = after_step(
                after_step(tunnel, TunnelStep::Connected),
                TunnelStep::Attached(sender),
            );
            let drained = after_step(tunnel, TunnelStep::Drained(shard));
            &&& after_step(tunnel, TunnelStep::Connected).ready
            &&& after_step(tunnel, TunnelStep::Connected).sender == tunnel.sender
            &&& after_step(tunnel, TunnelStep::Attached(sender)).ready == tunnel.ready
            &&& open.ready
            &&& open.sender == Some(sender)
            &&& open.seq == tunnel.seq
            &&& open.pending == tunnel.pending
            &&& open.pushed == tunnel.pushed
            &&& drained.ready == tunnel.ready
            &&& drained.sender == tunnel.sender
            &&& drained.seq == tunnel.seq
            &&& drained.pending == tunnel.pending
            &&& !drained.pushed.contains_key(shard)
            &&& drained.pushed.contains_key(other) == tunnel.pushed.contains_key(other)
            &&& tunnel.pushed.contains_key(other) ==> drained.pushed[other]
                == tunnel.pushed[other]
        }),
{
}

} // verus!
