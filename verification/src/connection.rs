//! One connection of the frontend socket: what each line a consumer sends leads
//! to, and what is written back. The transport is NDJSON, one JSON object per
//! line.
use vstd::prelude::*;

use crate::frontend_api::{error, is_reply, Request, RequestBody, MAX_REQUEST_BYTES, PROTOCOL};
use crate::json;
use crate::json::Json;
use crate::text::decimal;

verus! {

/// How long the client loop may take for a reply, in seconds.
pub const EXCHANGE_TIMEOUT_SECS: u64 = 65;

/// How long writing one message may take, in seconds.
pub const WRITE_TIMEOUT_SECS: u64 = 2;

/// The directory of the sockets of user `uid`, unless another is configured.
pub fn default_socket_directory(uid: u32) -> (path: String)
    ensures
        path@ == "/tmp/herdr-clients-"@ + crate::text::decimal_digits(uid as nat),
{
    let digits = decimal(uid as u64);
    "/tmp/herdr-clients-".to_owned().concat(digits.as_str())
}

/// The file name of a client's socket in its directory.
pub fn socket_file_name(client_id: &str) -> (name: String)
    ensures
        name@ == client_id@ + ".sock"@,
{
    client_id.to_owned().concat(".sock")
}

/// The first message of every connection.
pub open spec fn hello_json(client_id: Seq<char>) -> Json {
    Json::empty_object().with("type"@, Json::Text("hello"@)).with(
        "protocol"@,
        Json::from_unsigned(PROTOCOL as u64),
    ).with("client_id"@, Json::Text(client_id))
}

/// The first message of every connection.
pub fn hello(client_id: &str) -> (message: serde_json::Value)
    ensures
        json::content(message) == hello_json(client_id@),
{
    let mut message = json::object();
    json::set_entry(&mut message, "type", json::text("hello"));
    json::set_entry(&mut message, "protocol", json::unsigned(PROTOCOL as u64));
    json::set_entry(&mut message, "client_id", json::text(client_id));
    message
}

/// The message that carries a published snapshot.
#[derive(Debug)]
pub struct SnapshotEnvelope<'a> {
    pub kind: &'static str,
    pub id: u64,
    pub snapshot: &'a serde_json::Value,
}

impl<'a> SnapshotEnvelope<'a> {
    /// The envelope of `snapshot` for request `id`.
    pub fn new(id: u64, snapshot: &'a serde_json::Value) -> (envelope: Self)
        ensures
            envelope.kind@ == "snapshot"@,
            envelope.id == id,
            *envelope.snapshot == *snapshot,
    {
        SnapshotEnvelope { kind: "snapshot", id, snapshot }
    }

    /// The message as JSON data.
    pub open spec fn data(self) -> Json {
        Json::empty_object().with("type"@, Json::Text(self.kind@)).with(
            "id"@,
            Json::from_unsigned(self.id),
        ).with("snapshot"@, json::content(*self.snapshot))
    }

    /// The message as a JSON value.
    pub fn to_value(&self) -> (message: serde_json::Value)
        ensures
            json::content(message) == self.data(),
    {
        let mut message = json::object();
        json::set_entry(&mut message, "type", json::text(self.kind));
        json::set_entry(&mut message, "id", json::unsigned(self.id));
        json::set_entry(&mut message, "snapshot", json::copy(self.snapshot));
        message
    }

    /// The message as it is written: its fields in the order type, id, snapshot, on
    /// one line.
    pub open spec fn line(self) -> Seq<u8> {
        vstd::utf8::encode_utf8("{\"type\":"@) + json::json_text(Json::Text(self.kind@))
            + vstd::utf8::encode_utf8(",\"id\":"@) + vstd::utf8::encode_utf8(
            crate::text::decimal_digits(self.id as nat),
        ) + vstd::utf8::encode_utf8(",\"snapshot\":"@) + json::json_text(
            json::content(*self.snapshot),
        ) + seq![125u8, 10u8]
    }

    /// Frames the message: its fields in the order type, id, snapshot around the
    /// snapshot's own JSON text, on one line ended by the only line feed.
    pub fn encode(&self) -> (encoded: Result<Vec<u8>, serde_json::Error>)
        ensures
            encoded matches Ok(bytes) && {
                &&& bytes@ == self.line()
                &&& forall|i: int| 0 <= i < bytes@.len() - 1 ==> #[trigger] bytes@[i] != 10u8
            },
    {
        let mut kind = match json::to_vec(&json::text(self.kind)) {
            Ok(text) => text,
            Err(failure) => return Err(failure),
        };
        let mut snapshot = match json::to_vec(self.snapshot) {
            Ok(text) => text,
            Err(failure) => return Err(failure),
        };
        let id = decimal(self.id);
        proof {
            reveal_strlit("{\"type\":");
            reveal_strlit(",\"id\":");
            reveal_strlit(",\"snapshot\":");
            crate::text::decimal_digits_are_digits(self.id as nat);
            plain_text_has_no_line_feed("{\"type\":"@);
            plain_text_has_no_line_feed(",\"id\":"@);
            plain_text_has_no_line_feed(id@);
            plain_text_has_no_line_feed(",\"snapshot\":"@);
        }
        let mut line: Vec<u8> = Vec::new();
        push_bytes(&mut line, "{\"type\":".as_bytes());
        line.append(&mut kind);
        push_bytes(&mut line, ",\"id\":".as_bytes());
        push_bytes(&mut line, id.as_str().as_bytes());
        push_bytes(&mut line, ",\"snapshot\":".as_bytes());
        line.append(&mut snapshot);
        assert(!line@.contains(10u8));
        let ghost text = line@;
        line.push(125u8);
        line.push(10u8);
        assert(line@ =~= self.line());
        assert forall|i: int| 0 <= i < line@.len() - 1 implies #[trigger] line@[i] != 10u8 by {
            if i < text.len() {
                assert(line@[i] == text[i]);
                assert(text.contains(text[i]));
            }
        }
        Ok(line)
    }
}

/// Appends bytes to a line.
fn push_bytes(line: &mut Vec<u8>, bytes: &[u8])
    ensures
        final(line)@ == old(line)@ + bytes@,
{
    line.extend_from_slice(bytes);
    assert(line@ =~= old(line)@ + bytes@);
}

proof fn plain_text_has_no_line_feed(text: Seq<char>)
    requires
        forall|i: int| 0 <= i < text.len() ==> ' ' <= #[trigger] text[i] <= '~',
    ensures
        !vstd::utf8::encode_utf8(text).contains(10u8),
{
    vstd::utf8::is_ascii_chars_encode_utf8(text);
    let bytes = vstd::utf8::encode_utf8(text);
    assert forall|i: int| 0 <= i < bytes.len() implies #[trigger] bytes[i] != 10u8 by {
        assert(text[i] as u8 == bytes[i]);
    }
}

/// Frames a message: its JSON text on one line, ended by the only line feed.
pub fn encode_message(value: &serde_json::Value) -> (encoded: Result<Vec<u8>, serde_json::Error>)
    ensures
        encoded matches Ok(bytes) && {
            &&& bytes@ == json::json_text(json::content(*value)).push(10u8)
            &&& forall|i: int| 0 <= i < bytes@.len() - 1 ==> #[trigger] bytes@[i] != 10u8
        },
{
    match json::to_vec(value) {
        Ok(text) => {
            let mut message = text;
            let ghost line = message@;
            message.push(10u8);
            assert forall|i: int| 0 <= i < message@.len() - 1 implies #[trigger] message@[i]
                != 10u8 by {
                assert(message@[i] == line[i]);
                assert(line.contains(line[i]));
            }
            Ok(message)
        },
        Err(failure) => Err(failure),
    }
}

/// What a line that was read leads to. A line is read up to its line feed, and no
/// further than one byte over the limit.
#[derive(Debug)]
pub enum Received {
    /// The consumer closed the connection.
    Closed,
    /// The line is over the limit: write the response and close.
    TooLarge(serde_json::Value),
    /// Read the line as a request.
    Line,
}

/// Checks the length of a line that was read.
pub fn receive(line: &[u8]) -> (received: Received)
    ensures
        line@.len() == 0 ==> received is Closed,
        line@.len() > MAX_REQUEST_BYTES ==> (received matches Received::TooLarge(response)
            && json::content(response) == crate::frontend_api::error_json(
            None,
            "request_too_large"@,
            "request exceeds one MiB"@,
        )),
        0 < line@.len() <= MAX_REQUEST_BYTES ==> received is Line,
{
    if line.len() == 0 {
        Received::Closed
    } else if line.len() > MAX_REQUEST_BYTES {
        Received::TooLarge(error(None, "request_too_large", "request exceeds one MiB"))
    } else {
        Received::Line
    }
}

/// The request id in a line that is not a request, as far as it holds one.
pub open spec fn line_id(line: Seq<u8>) -> Option<u64> {
    match json::json_parsed(line) {
        Some(data) => data.entry("id"@).unsigned(),
        None => None,
    }
}

/// The request id in a line that is not a request, as far as it holds one.
pub fn request_id_of(line: &[u8]) -> (id: Option<u64>)
    ensures
        id == line_id(line@),
{
    match json::from_slice(line) {
        Ok(value) => json::as_u64(json::entry(&value, "id")),
        Err(_) => None,
    }
}

/// What a request leads to.
#[derive(Debug)]
pub enum Admitted {
    /// Write the response and read on.
    Answer(serde_json::Value),
    /// The connection becomes a push subscription: ask the client loop for a
    /// snapshot under this id, and push every snapshot from then on. EOF or extra
    /// input cancels it.
    Subscribe { id: u64, snapshot: Request },
    /// Ask the client loop, then write what [`deliver`] says and read on.
    Exchange { request: Request, wants_snapshot: bool },
}

/// Whether `admitted` is what a request, or a line with `id` that is none, leads
/// to.
pub open spec fn admission(parsed: Option<Request>, id: Option<u64>, admitted: Admitted) -> bool {
    match parsed {
        None => admitted matches Admitted::Answer(response) && json::content(response)
            == crate::frontend_api::error_json(
            id,
            "invalid_request"@,
            "invalid frontend request"@,
        ),
        Some(request) => if request.protocol != PROTOCOL {
            admitted matches Admitted::Answer(response) && json::content(response)
                == crate::frontend_api::error_json(
                Some(request.id),
                "unsupported_protocol"@,
                "expected frontend protocol 7"@,
            )
        } else if request.body is Subscribe {
            admitted == (Admitted::Subscribe {
                id: request.id,
                snapshot: Request {
                    protocol: request.protocol,
                    id: request.id,
                    body: RequestBody::Snapshot,
                },
            })
        } else {
            admitted == (Admitted::Exchange {
                request,
                wants_snapshot: request.body is Snapshot,
            })
        },
    }
}

/// Decides about a line: `parsed` is the request it holds, if it holds one.
pub fn decide_line(line: &[u8], parsed: Option<Request>) -> (admitted: Admitted)
    ensures
        admission(parsed, line_id(line@), admitted),
{
    match parsed {
        None => decide_request(None, request_id_of(line)),
        Some(request) => decide_request(Some(request), None),
    }
}

/// Decides about a request, or about a line with `id` that is none.
pub fn decide_request(parsed: Option<Request>, id: Option<u64>) -> (admitted: Admitted)
    ensures
        admission(parsed, id, admitted),
{
    let request = match parsed {
        Some(request) => request,
        None => return Admitted::Answer(
            error(id, "invalid_request", "invalid frontend request"),
        ),
    };
    if request.protocol != PROTOCOL {
        return Admitted::Answer(
            error(Some(request.id), "unsupported_protocol", "expected frontend protocol 7"),
        );
    }
    match &request.body {
        RequestBody::Subscribe => Admitted::Subscribe {
            id: request.id,
            snapshot: Request {
                protocol: request.protocol,
                id: request.id,
                body: RequestBody::Snapshot,
            },
        },
        RequestBody::Snapshot => Admitted::Exchange { request, wants_snapshot: true },
        _ => Admitted::Exchange { request, wants_snapshot: false },
    }
}

/// How an exchange with the client loop ended.
#[derive(Debug)]
pub enum ExchangeOutcome {
    /// The loop replied.
    Replied(serde_json::Value),
    /// The loop dropped the reply.
    Dropped,
    /// The loop did not reply in time.
    TimedOut,
    /// The loop's event queue was full.
    QueueFull,
    /// The loop was gone.
    QueueClosed,
}

impl ExchangeOutcome {
    /// The response to request `id`.
    pub open spec fn response(self, id: u64) -> Json {
        match self {
            ExchangeOutcome::Replied(response) => json::content(response),
            ExchangeOutcome::Dropped => crate::frontend_api::error_json(
                Some(id),
                "client_unavailable"@,
                "client dropped the reply; mutation outcome is unknown; do not replay"@,
            ),
            ExchangeOutcome::TimedOut => crate::frontend_api::error_json(
                Some(id),
                "timeout"@,
                "client reply timed out; mutation outcome is unknown; do not replay"@,
            ),
            ExchangeOutcome::QueueFull => crate::frontend_api::error_json(
                Some(id),
                "busy"@,
                "client event queue is full"@,
            ),
            ExchangeOutcome::QueueClosed => crate::frontend_api::error_json(
                Some(id),
                "client_unavailable"@,
                "client event loop is unavailable; request was not submitted"@,
            ),
        }
    }
}

/// The response to request `id` when its exchange ended so.
pub fn exchange(id: u64, outcome: ExchangeOutcome) -> (response: serde_json::Value)
    ensures
        json::content(response) == outcome.response(id),
{
    match outcome {
        ExchangeOutcome::Replied(response) => response,
        ExchangeOutcome::Dropped => error(
            Some(id),
            "client_unavailable",
            "client dropped the reply; mutation outcome is unknown; do not replay",
        ),
        ExchangeOutcome::TimedOut => error(
            Some(id),
            "timeout",
            "client reply timed out; mutation outcome is unknown; do not replay",
        ),
        ExchangeOutcome::QueueFull => error(Some(id), "busy", "client event queue is full"),
        ExchangeOutcome::QueueClosed => error(
            Some(id),
            "client_unavailable",
            "client event loop is unavailable; request was not submitted",
        ),
    }
}

/// What is written after an exchange.
#[derive(Debug)]
pub enum Delivery {
    /// The snapshot published last, in its envelope.
    Snapshot,
    /// The response itself.
    Response(serde_json::Value),
}

/// Decides what is written for a response. A request for a snapshot is answered
/// with the published snapshot once the loop has replied with a result.
pub fn deliver(wants_snapshot: bool, response: serde_json::Value) -> (delivery: Delivery)
    ensures
        delivery == (if wants_snapshot && crate::frontend_api::carries_result(
            json::content(response),
        ) {
            Delivery::Snapshot
        } else {
            Delivery::Response(response)
        }),
{
    if wants_snapshot && is_reply(&response) {
        Delivery::Snapshot
    } else {
        Delivery::Response(response)
    }
}

/// What one connection is waiting for.
#[derive(Debug, Clone, Copy, PartialEq, Eq, Structural)]
pub enum ConnectionState {
    /// To be opened.
    Opening,
    /// The next line.
    Reading,
    /// The end of the exchange for a request.
    Asking { id: u64, wants_snapshot: bool },
    /// The end of the exchange that a subscription starts with.
    Subscribing { id: u64 },
    /// The next snapshot of a subscription.
    Pushing { id: u64 },
    /// Nothing: the connection is over.
    Closed,
}

/// What happened to a connection.
#[derive(Debug)]
pub enum ConnectionEvent {
    /// It was opened.
    Opened,
    /// A line was read; `parsed` is the request it holds, if it holds one.
    Line { line: Vec<u8>, parsed: Option<Request> },
    /// The exchange for the request it asked for ended.
    Ended(ExchangeOutcome),
    /// A snapshot was published.
    Published,
    /// No snapshot will be published any more.
    PublisherGone,
    /// The consumer of a subscription sent something or closed the connection.
    Interrupted,
}

/// A message to write.
#[derive(Debug)]
pub enum Message {
    /// A message of its own.
    Data(serde_json::Value),
    /// The snapshot published last, in the envelope for request `id`.
    Snapshot { id: u64 },
}

/// A [`Message`] over the data it carries.
pub ghost enum MessageView {
    Data(Json),
    Snapshot(u64),
}

impl View for Message {
    type V = MessageView;

    open spec fn view(&self) -> MessageView {
        match *self {
            Message::Data(value) => MessageView::Data(json::content(value)),
            Message::Snapshot { id } => MessageView::Snapshot(id),
        }
    }
}

/// What a connection does about an event: write a message, and ask the client
/// loop for a request.
#[derive(Debug)]
pub struct Step {
    pub write: Option<Message>,
    pub ask: Option<Request>,
}

impl Step {
    /// Whether this step writes exactly `message` and asks for nothing.
    pub open spec fn only_writes(self, message: MessageView) -> bool {
        (self.write matches Some(written) && written@ == message) && self.ask is None
    }

    /// Whether this step writes nothing and asks for nothing.
    pub open spec fn is_idle(self) -> bool {
        self.write is None && self.ask is None
    }
}

/// One connection of a consumer.
#[derive(Debug)]
pub struct Connection {
    pub client_id: String,
    pub state: ConnectionState,
}

impl ConnectionState {
    /// Whether `step` and the state `after` are what a line leads to.
    pub open spec fn read(
        line: Seq<u8>,
        parsed: Option<Request>,
        after: ConnectionState,
        step: Step,
    ) -> bool {
        if line.len() == 0 {
            after is Closed && step.is_idle()
        } else if line.len() > MAX_REQUEST_BYTES {
            after is Closed && step.only_writes(
                MessageView::Data(
                    crate::frontend_api::error_json(
                        None,
                        "request_too_large"@,
                        "request exceeds one MiB"@,
                    ),
                ),
            )
        } else {
            exists|admitted: Admitted| #[trigger]
                admission(parsed, line_id(line), admitted) && match admitted {
                    Admitted::Answer(response) => after is Reading && step.only_writes(
                        MessageView::Data(json::content(response)),
                    ),
                    Admitted::Subscribe { id, snapshot } => after == (
                    ConnectionState::Subscribing { id }) && step.write is None && step.ask == Some(
                        snapshot,
                    ),
                    Admitted::Exchange { request, wants_snapshot } => after == (
                    ConnectionState::Asking { id: request.id, wants_snapshot }) && step.write
                        is None && step.ask == Some(request),
                }
        }
    }

    /// Whether `step` and the state `after` are what an event leads to. An event
    /// that this state does not wait for leads to nothing.
    pub open spec fn stepped(
        self,
        client_id: Seq<char>,
        event: ConnectionEvent,
        after: ConnectionState,
        step: Step,
    ) -> bool {
        match (self, event) {
            (ConnectionState::Opening, ConnectionEvent::Opened) => after is Reading
                && step.only_writes(MessageView::Data(hello_json(client_id))),
            (ConnectionState::Reading, ConnectionEvent::Line { line, parsed }) => Self::read(
                line@,
                parsed,
                after,
                step,
            ),
            (
                ConnectionState::Asking { id, wants_snapshot },
                ConnectionEvent::Ended(outcome),
            ) => after is Reading && step.only_writes(
                if wants_snapshot && crate::frontend_api::carries_result(outcome.response(id)) {
                    MessageView::Snapshot(id)
                } else {
                    MessageView::Data(outcome.response(id))
                },
            ),
            (ConnectionState::Subscribing { id }, ConnectionEvent::Ended(outcome)) => if
            crate::frontend_api::carries_result(outcome.response(id)) {
                after == (ConnectionState::Pushing { id }) && step.only_writes(
                    MessageView::Snapshot(id),
                )
            } else {
                after is Closed && step.only_writes(MessageView::Data(outcome.response(id)))
            },
            (ConnectionState::Pushing { id }, ConnectionEvent::Published) => after == self
                && step.only_writes(MessageView::Snapshot(id)),
            (ConnectionState::Pushing { .. }, ConnectionEvent::PublisherGone) => after is Closed
                && step.is_idle(),
            (ConnectionState::Subscribing { .. }, ConnectionEvent::Interrupted) => after is Closed
                && step.is_idle(),
            (ConnectionState::Pushing { .. }, ConnectionEvent::Interrupted) => after is Closed
                && step.is_idle(),
            _ => after == self && step.is_idle(),
        }
    }
}

fn write_data(value: serde_json::Value) -> (step: Step)
    ensures
        step.only_writes(MessageView::Data(json::content(value))),
{
    Step { write: Some(Message::Data(value)), ask: None }
}

fn write_snapshot(id: u64) -> (step: Step)
    ensures
        step.only_writes(MessageView::Snapshot(id)),
{
    Step { write: Some(Message::Snapshot { id }), ask: None }
}

impl Connection {
    /// A connection to be opened.
    pub fn new(client_id: String) -> (connection: Self)
        ensures
            connection.client_id == client_id,
            connection.state is Opening,
    {
        Connection { client_id, state: ConnectionState::Opening }
    }

    /// Takes in an event and says what to do about it.
    pub fn step(&mut self, event: ConnectionEvent) -> (step: Step)
        ensures
            final(self).client_id == old(self).client_id,
            old(self).state.stepped(old(self).client_id@, event, final(self).state, step),
    {
        match (self.state, event) {
            (ConnectionState::Opening, ConnectionEvent::Opened) => {
                self.state = ConnectionState::Reading;
                write_data(hello(self.client_id.as_str()))
            },
            (ConnectionState::Reading, ConnectionEvent::Line { line, parsed }) => match receive(
                line.as_slice(),
            ) {
                Received::Closed => {
                    self.state = ConnectionState::Closed;
                    Step { write: None, ask: None }
                },
                Received::TooLarge(response) => {
                    self.state = ConnectionState::Closed;
                    write_data(response)
                },
                Received::Line => {
                    let admitted = decide_line(line.as_slice(), parsed);
                    assert(admission(parsed, line_id(line@), admitted));
                    match admitted {
                        Admitted::Answer(response) => write_data(response),
                        Admitted::Subscribe { id, snapshot } => {
                            self.state = ConnectionState::Subscribing { id };
                            Step { write: None, ask: Some(snapshot) }
                        },
                        Admitted::Exchange { request, wants_snapshot } => {
                            self.state =
                            ConnectionState::Asking { id: request.id, wants_snapshot };
                            Step { write: None, ask: Some(request) }
                        },
                    }
                },
            },
            (ConnectionState::Asking { id, wants_snapshot }, ConnectionEvent::Ended(outcome)) => {
                self.state = ConnectionState::Reading;
                match deliver(wants_snapshot, exchange(id, outcome)) {
                    Delivery::Snapshot => write_snapshot(id),
                    Delivery::Response(response) => write_data(response),
                }
            },
            (ConnectionState::Subscribing { id }, ConnectionEvent::Ended(outcome)) => match deliver(
                true,
                exchange(id, outcome),
            ) {
                Delivery::Snapshot => {
                    self.state = ConnectionState::Pushing { id };
                    write_snapshot(id)
                },
                Delivery::Response(response) => {
                    self.state = ConnectionState::Closed;
                    write_data(response)
                },
            },
            (ConnectionState::Pushing { id }, ConnectionEvent::Published) => write_snapshot(id),
            (ConnectionState::Pushing { .. }, ConnectionEvent::PublisherGone) => {
                self.state = ConnectionState::Closed;
                Step { write: None, ask: None }
            },
            (ConnectionState::Subscribing { .. }, ConnectionEvent::Interrupted) => {
                self.state = ConnectionState::Closed;
                Step { write: None, ask: None }
            },
            (ConnectionState::Pushing { .. }, ConnectionEvent::Interrupted) => {
                self.state = ConnectionState::Closed;
                Step { write: None, ask: None }
            },
            _ => Step { write: None, ask: None },
        }
    }
}

/// The first message of a connection is the greeting: nothing else is written
/// before it, and no later event takes the connection back to where it is due.
pub proof fn law_a_connection_opens_with_the_greeting(
    before: ConnectionState,
    client_id: Seq<char>,
    event: ConnectionEvent,
    after: ConnectionState,
    step: Step,
)
    requires
        before.stepped(client_id, event, after, step),
    ensures
        before is Opening && step.write is Some ==> step.only_writes(
            MessageView::Data(hello_json(client_id)),
        ),
        after is Opening ==> before is Opening && step.is_idle(),
{
}

/// Every line that is read is answered once: at once, or, where it is asked
/// about, when the exchange ends. Only then is the next line read.
pub proof fn law_every_line_is_answered_once(
    before: ConnectionState,
    client_id: Seq<char>,
    event: ConnectionEvent,
    after: ConnectionState,
    step: Step,
)
    requires
        before.stepped(client_id, event, after, step),
    ensures
        before is Reading && (event matches ConnectionEvent::Line { line, .. } && line@.len() > 0)
            ==> (step.write is Some <==> step.ask is None),
        step.ask is Some <==> before is Reading && (after is Asking || after is Subscribing),
        before is Asking && after is Reading ==> step.write is Some && step.ask is None,
        before is Asking ==> after is Reading || (after == before && step.is_idle()),
{
}

/// A subscription consumes its connection: it never reads a line again and asks
/// for nothing more, its first message is a snapshot or the refusal that ends it,
/// and from then on it writes snapshots only.
pub proof fn law_a_subscription_consumes_its_connection(
    before: ConnectionState,
    client_id: Seq<char>,
    event: ConnectionEvent,
    after: ConnectionState,
    step: Step,
)
    requires
        before.stepped(client_id, event, after, step),
        before is Subscribing || before is Pushing,
    ensures
        after is Subscribing || after is Pushing || after is Closed,
        step.ask is None,
        after is Pushing && step.write is Some ==> step.write->0@ is Snapshot,
        before is Subscribing && after is Pushing ==> step.write is Some,
        before is Pushing && step.write is Some ==> after is Pushing,
        event is Interrupted ==> after is Closed && step.is_idle(),
{
}

/// Nothing happens on a closed connection.
pub proof fn law_a_closed_connection_stays_closed(
    client_id: Seq<char>,
    event: ConnectionEvent,
    after: ConnectionState,
    step: Step,
)
    requires
        ConnectionState::Closed.stepped(client_id, event, after, step),
    ensures
        after is Closed,
        step.is_idle(),
{
}

/// A subscription never reaches the client loop as one: what is exchanged for it
/// is a snapshot request under its id.
pub proof fn law_subscriptions_are_not_exchanged(
    parsed: Option<Request>,
    id: Option<u64>,
    admitted: Admitted,
)
    requires
        admission(parsed, id, admitted),
    ensures
        admitted matches Admitted::Exchange { request, .. } ==> !(request.body is Subscribe),
        admitted matches Admitted::Subscribe { id: subscribed, snapshot } ==> snapshot.body
            is Snapshot && snapshot.id == subscribed && (parsed matches Some(request)
            && request.id == subscribed),
{
}

/// Only requests of this protocol get past admission.
pub proof fn law_other_protocols_are_refused(
    request: Request,
    id: Option<u64>,
    admitted: Admitted,
)
    requires
        admission(Some(request), id, admitted),
    ensures
        request.protocol != PROTOCOL <==> admitted is Answer,
{
}

/// An exchange that ended without a reply is answered with an error that carries
/// the request's id, so no snapshot is delivered for it.
pub proof fn law_a_failed_exchange_is_no_result(outcome: ExchangeOutcome, id: u64)
    requires
        !(outcome is Replied),
    ensures
        !crate::frontend_api::carries_result(outcome.response(id)),
        outcome.response(id).entry("id"@) == Json::from_unsigned(id),
{
    crate::frontend_api::law_responses_are_told_apart(
        id,
        Json::Null,
        Some(id),
        "client_unavailable"@,
        "client dropped the reply; mutation outcome is unknown; do not replay"@,
    );
    crate::frontend_api::law_responses_are_told_apart(
        id,
        Json::Null,
        Some(id),
        "timeout"@,
        "client reply timed out; mutation outcome is unknown; do not replay"@,
    );
    crate::frontend_api::law_responses_are_told_apart(
        id,
        Json::Null,
        Some(id),
        "busy"@,
        "client event queue is full"@,
    );
    crate::frontend_api::law_responses_are_told_apart(
        id,
        Json::Null,
        Some(id),
        "client_unavailable"@,
        "client event loop is unavailable; request was not submitted"@,
    );
}

proof fn message_keys_differ()
    ensures
        "type"@ != "id"@,
        "type"@ != "error"@,
        "type"@ != "protocol"@,
        "type"@ != "client_id"@,
        "type"@ != "snapshot"@,
        "id"@ != "error"@,
        "id"@ != "snapshot"@,
        "protocol"@ != "client_id"@,
        "code"@ != "message"@,
        "error"@ != "reply"@,
{
    reveal_strlit("type");
    reveal_strlit("id");
    reveal_strlit("error");
    reveal_strlit("protocol");
    reveal_strlit("client_id");
    reveal_strlit("snapshot");
    reveal_strlit("code");
    reveal_strlit("message");
    reveal_strlit("reply");
    assert("type"@.len() == 4 && "id"@.len() == 2 && "error"@.len() == 5);
    assert("protocol"@.len() == 8 && "client_id"@.len() == 9 && "snapshot"@.len() == 8);
    assert("code"@.len() == 4 && "message"@.len() == 7);
    assert("error"@[0] == 'e' && "reply"@[0] == 'r');
}

/// A request of this protocol, other than a subscription, is asked for as it was
/// read, and what the client loop replies is written: the reply itself, whatever it
/// holds, unless a snapshot was requested and the reply carries a result; then the
/// published snapshot under the request's id. The connection then reads on.
pub proof fn law_a_request_is_answered_with_its_reply(
    client_id: Seq<char>,
    line: Vec<u8>,
    request: Request,
    reply: serde_json::Value,
    asking: ConnectionState,
    after: ConnectionState,
    first: Step,
    second: Step,
)
    requires
        0 < line@.len() <= 1048576,
        request.protocol == 7,
        !(request.body is Subscribe),
        ConnectionState::Reading.stepped(
            client_id,
            ConnectionEvent::Line { line, parsed: Some(request) },
            asking,
            first,
        ),
        asking.stepped(
            client_id,
            ConnectionEvent::Ended(ExchangeOutcome::Replied(reply)),
            after,
            second,
        ),
    ensures
        first.write is None,
        first.ask == Some(request),
        after is Reading,
        second.ask is None,
        request.body is Snapshot && json::content(reply).entry("type"@) == Json::Text("reply"@)
            ==> (second.write matches Some(Message::Snapshot { id }) && id == request.id),
        !(request.body is Snapshot && json::content(reply).entry("type"@) == Json::Text("reply"@))
            ==> (second.write matches Some(Message::Data(value)) && json::content(value)
            == json::content(reply)),
{
}

/// What a request is asked about with decides nothing but the answer to a snapshot
/// request: a request is exchanged for a snapshot exactly where its body asks for
/// one.
pub proof fn law_only_a_snapshot_request_wants_a_snapshot(
    request: Request,
    id: Option<u64>,
    admitted: Admitted,
)
    requires
        admission(Some(request), id, admitted),
        request.protocol == 7,
    ensures
        request.body is Subscribe <==> admitted is Subscribe,
        !(request.body is Subscribe) ==> admitted is Exchange,
        admitted matches Admitted::Exchange { request: exchanged, wants_snapshot } ==> exchanged
            == request && (wants_snapshot <==> request.body is Snapshot),
        admitted matches Admitted::Subscribe { id: subscribed, snapshot } ==> subscribed
            == request.id && snapshot.id == request.id && snapshot.protocol == 7
            && snapshot.body is Snapshot,
{
}

/// A request whose exchange ends without a reply is answered with an error under
/// its id, whatever it asked for: `client_unavailable` where the loop was gone or
/// dropped the reply, `timeout` where it took too long, `busy` where its queue was
/// full. The connection then reads on.
pub proof fn law_a_failed_exchange_is_answered_with_its_code(
    client_id: Seq<char>,
    line: Vec<u8>,
    request: Request,
    outcome: ExchangeOutcome,
    asking: ConnectionState,
    after: ConnectionState,
    first: Step,
    second: Step,
)
    requires
        0 < line@.len() <= 1048576,
        request.protocol == 7,
        !(request.body is Subscribe),
        !(outcome is Replied),
        ConnectionState::Reading.stepped(
            client_id,
            ConnectionEvent::Line { line, parsed: Some(request) },
            asking,
            first,
        ),
        asking.stepped(client_id, ConnectionEvent::Ended(outcome), after, second),
    ensures
        after is Reading,
        second.write is Some && second.write->0 is Data,
        ({
            let response = json::content(second.write->0->Data_0);
            &&& response.entry("type"@) == Json::Text("error"@)
            &&& response.entry("id"@) == Json::from_unsigned(request.id)
            &&& response.entry("error"@).entry("code"@) == Json::Text(
                match outcome {
                    ExchangeOutcome::TimedOut => "timeout"@,
                    ExchangeOutcome::QueueFull => "busy"@,
                    _ => "client_unavailable"@,
                },
            )
        }),
{
    message_keys_differ();
}

/// A subscription asks for a snapshot under its own id. Where that gives a result
/// its first message is the snapshot under that id, every publication is another,
/// and it ends with the publisher or when its consumer interrupts; where it gives
/// none, its only message is what the client loop answered.
pub proof fn law_a_subscription_starts_with_a_snapshot_and_follows_it(
    client_id: Seq<char>,
    line: Vec<u8>,
    request: Request,
    reply: serde_json::Value,
    event: ConnectionEvent,
    asking: ConnectionState,
    pushing: ConnectionState,
    after: ConnectionState,
    first: Step,
    second: Step,
    third: Step,
)
    requires
        0 < line@.len() <= 1048576,
        request.protocol == 7,
        request.body is Subscribe,
        ConnectionState::Reading.stepped(
            client_id,
            ConnectionEvent::Line { line, parsed: Some(request) },
            asking,
            first,
        ),
        asking.stepped(
            client_id,
            ConnectionEvent::Ended(ExchangeOutcome::Replied(reply)),
            pushing,
            second,
        ),
        pushing.stepped(client_id, event, after, third),
    ensures
        first.write is None,
        first.ask matches Some(asked) && asked.id == request.id && asked.protocol == 7
            && asked.body is Snapshot,
        json::content(reply).entry("type"@) == Json::Text("reply"@) ==> {
            &&& second.write matches Some(Message::Snapshot { id }) && id == request.id
            &&& event is Published ==> (third.write matches Some(Message::Snapshot { id }) && id
                == request.id) && after == pushing
            &&& event is PublisherGone || event is Interrupted ==> third.write is None
                && after is Closed
        },
        json::content(reply).entry("type"@) != Json::Text("reply"@) ==> {
            &&& second.write matches Some(Message::Data(value)) && json::content(value)
                == json::content(reply)
            &&& pushing is Closed
            &&& third.write is None && after is Closed
        },
{
}

/// A line that holds no request is answered as invalid, under the unsigned id that
/// its JSON data has, if any; a request of another protocol as unsupported, under
/// its id; and the connection reads on. A line over one MiB is answered once and
/// ends the connection; the end of input just ends it.
pub proof fn law_every_other_line_is_refused(
    client_id: Seq<char>,
    line: Vec<u8>,
    parsed: Option<Request>,
    after: ConnectionState,
    step: Step,
)
    requires
        ConnectionState::Reading.stepped(
            client_id,
            ConnectionEvent::Line { line, parsed },
            after,
            step,
        ),
        line@.len() == 0 || line@.len() > 1048576 || parsed is None || parsed->0.protocol != 7,
    ensures
        step.ask is None,
        line@.len() == 0 ==> step.write is None && after is Closed,
        line@.len() > 0 ==> step.write is Some && step.write->0 is Data,
        line@.len() > 0 ==> {
            let response = json::content(step.write->0->Data_0);
            &&& response.entry("type"@) == Json::Text("error"@)
            &&& line@.len() > 1048576 ==> {
                &&& after is Closed
                &&& response.entry("id"@) == Json::Null
                &&& response.entry("error"@).entry("code"@) == Json::Text("request_too_large"@)
            }
            &&& line@.len() <= 1048576 && parsed is Some ==> {
                &&& after is Reading
                &&& response.entry("id"@) == Json::from_unsigned(parsed->0.id)
                &&& response.entry("error"@).entry("code"@) == Json::Text("unsupported_protocol"@)
            }
            &&& line@.len() <= 1048576 && parsed is None ==> {
                let named = match json::json_parsed(line@) {
                    Some(data) => data.entry("id"@),
                    None => Json::Null,
                };
                &&& after is Reading
                &&& response.entry("error"@).entry("code"@) == Json::Text("invalid_request"@)
                &&& forall|n: u64|
                    response.entry("id"@) == #[trigger] Json::from_unsigned(n) <==> named
                        == Json::from_unsigned(n)
                &&& (forall|n: u64| named != #[trigger] Json::from_unsigned(n)) ==> response.entry(
                    "id"@,
                ) == Json::Null
            }
        },
{
    message_keys_differ();
    if line@.len() > 0 && line@.len() <= 1048576 && parsed is None {
        let named = match json::json_parsed(line@) {
            Some(data) => data.entry("id"@),
            None => Json::Null,
        };
        if let Some(id) = line_id(line@) {
            assert(named == Json::from_unsigned(id));
        } else {
            assert forall|n: u64| named != #[trigger] Json::from_unsigned(n) by {}
        }
    }
}

/// The greeting says the protocol and the client's id, and a connection that opens
/// writes it and reads on.
pub proof fn law_the_greeting_names_protocol_and_client(
    client_id: Seq<char>,
    after: ConnectionState,
    step: Step,
)
    requires
        ConnectionState::Opening.stepped(client_id, ConnectionEvent::Opened, after, step),
    ensures
        after is Reading,
        step.ask is None,
        step.write is Some && step.write->0 is Data,
        json::content(step.write->0->Data_0).entry("type"@) == Json::Text("hello"@),
        json::content(step.write->0->Data_0).entry("protocol"@) == Json::from_unsigned(7),
        json::content(step.write->0->Data_0).entry("client_id"@) == Json::Text(client_id),
{
    message_keys_differ();
}

/// An envelope carries its kind, its id and its snapshot, and nothing else.
pub proof fn law_an_envelope_carries_its_fields<'a>(envelope: SnapshotEnvelope<'a>)
    ensures
        envelope.data().entry("type"@) == Json::Text(envelope.kind@),
        envelope.data().entry("id"@) == Json::from_unsigned(envelope.id),
        envelope.data().entry("snapshot"@) == json::content(*envelope.snapshot),
        envelope.data() matches Json::Object(entries) && entries.dom() =~= set![
            "type"@,
            "id"@,
            "snapshot"@,
        ],
{
    message_keys_differ();
}

} // verus!
