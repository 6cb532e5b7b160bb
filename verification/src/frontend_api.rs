//! Process-scoped frontend API for same-user tools on the TUI host. Protocol 7
//! is private and lockstep: consumers and this client ship together, with no
//! fallback to older versions.
//!
//! Request handling and reply settlement are plain client-loop logic. The loop
//! owns the reply handles: the API is generic in their type `S`, keeps a handle
//! while its reply is pending, and gives it back together with the response to
//! send.
use vstd::prelude::*;
use vstd::std_specs::convert::FromSpecImpl;

use crate::endpoint::{
    parse_endpoint, ClientEndpointId, ClientEndpointStatus, EndpointConnection, EndpointKey,
    EndpointRegistry,
};
use crate::json;
use crate::json::Json;
use crate::shell::{
    ClientEndpointFocusTarget, ClientShellEndpoint, ClientShellState, FocusTargetView,
};
use crate::text::{decimal, str_eq};

verus! {

/// The protocol this client speaks.
pub const PROTOCOL: u32 = 7;

/// The most bytes one request line may have.
pub const MAX_REQUEST_BYTES: usize = 1048576;

/// Cross-endpoint selects settle via the observed selection; this bounds the
/// wait, in nanoseconds.
pub const SELECT_DEADLINE_NANOS: u128 = 12_000_000_000;

/// Where a request is aimed: the endpoint and the server boot that produced
/// the ids the consumer captured. Pane, tab, and workspace ids are per-server
/// counters, so a different boot must reject rather than act on a reused id.
#[derive(Debug)]
pub struct Route {
    pub endpoint_id: String,
    pub boot_id: Option<String>,
}

/// What a select request aims at.
#[derive(Debug)]
pub enum Target {
    Workspace(String),
    Tab(String),
    Pane(String),
}

impl View for Target {
    type V = FocusTargetView;

    open spec fn view(&self) -> FocusTargetView {
        match self {
            Target::Workspace(id) => FocusTargetView::Workspace(id@),
            Target::Tab(id) => FocusTargetView::Tab(id@),
            Target::Pane(id) => FocusTargetView::Pane(id@),
        }
    }
}

impl FromSpecImpl<Target> for ClientEndpointFocusTarget {
    open spec fn obeys_from_spec() -> bool {
        true
    }

    open spec fn from_spec(target: Target) -> Self {
        match target {
            Target::Workspace(id) => ClientEndpointFocusTarget::Workspace(id),
            Target::Tab(id) => ClientEndpointFocusTarget::Tab(id),
            Target::Pane(id) => ClientEndpointFocusTarget::Pane(id),
        }
    }
}

impl From<Target> for ClientEndpointFocusTarget {
    fn from(target: Target) -> (converted: Self) {
        match target {
            Target::Workspace(id) => ClientEndpointFocusTarget::Workspace(id),
            Target::Tab(id) => ClientEndpointFocusTarget::Tab(id),
            Target::Pane(id) => ClientEndpointFocusTarget::Pane(id),
        }
    }
}

impl FocusTargetView {
    /// The method that focuses this target on its endpoint.
    pub open spec fn focus_method_name(self) -> Seq<char> {
        match self {
            FocusTargetView::Workspace(_) => "workspace.focus"@,
            FocusTargetView::Tab(_) => "tab.focus"@,
            FocusTargetView::Pane(_) => "pane.focus"@,
        }
    }

    /// The parameters of that method.
    pub open spec fn focus_params(self) -> Json {
        match self {
            FocusTargetView::Workspace(id) => Json::empty_object().with(
                "workspace_id"@,
                Json::Text(id),
            ),
            FocusTargetView::Tab(id) => Json::empty_object().with("tab_id"@, Json::Text(id)),
            FocusTargetView::Pane(id) => Json::empty_object().with("pane_id"@, Json::Text(id)),
        }
    }
}

impl Target {
    /// The method that focuses this target on its endpoint, and its parameters.
    pub fn focus_method(&self) -> (call: (&'static str, serde_json::Value))
        ensures
            call.0@ == self@.focus_method_name(),
            json::content(call.1) == self@.focus_params(),
    {
        let (method, key, id): (&'static str, &str, &str) = match self {
            Target::Workspace(id) => ("workspace.focus", "workspace_id", id.as_str()),
            Target::Tab(id) => ("tab.focus", "tab_id", id.as_str()),
            Target::Pane(id) => ("pane.focus", "pane_id", id.as_str()),
        };
        let mut params = json::object();
        json::set_entry(&mut params, key, json::text(id));
        (method, params)
    }
}

/// One request of a consumer.
#[derive(Debug)]
pub struct Request {
    pub protocol: u32,
    pub id: u64,
    pub body: RequestBody,
}

/// What a request asks for.
#[derive(Debug)]
pub enum RequestBody {
    Snapshot,
    Subscribe,
    Select { route: Route, target: Target },
    Input { text: Option<String>, keys: Option<Vec<String>> },
    /// Any endpoint method the server advertises on the client command lane.
    Call { route: Route, method: String, params: serde_json::Value },
}

/// A request and the handle its reply goes to.
#[derive(Debug)]
pub struct Event<S> {
    pub request: Request,
    pub reply: S,
}

/// A response, ready to be sent through its reply handle.
#[derive(Debug)]
pub struct Reply<S> {
    pub sender: S,
    pub response: serde_json::Value,
}

/// The error response with a code and a message.
pub open spec fn error_json(id: Option<u64>, code: Seq<char>, message: Seq<char>) -> Json {
    Json::empty_object().with("type"@, Json::Text("error"@)).with(
        "id"@,
        match id {
            Some(id) => Json::from_unsigned(id),
            None => Json::Null,
        },
    ).with(
        "error"@,
        Json::empty_object().with("code"@, Json::Text(code)).with("message"@, Json::Text(message)),
    )
}

/// The response that carries a result.
pub open spec fn success_json(id: u64, result: Json) -> Json {
    Json::empty_object().with("type"@, Json::Text("reply"@)).with(
        "id"@,
        Json::from_unsigned(id),
    ).with("result"@, result)
}

/// The result of a request that only acknowledges.
pub open spec fn ok_json() -> Json {
    Json::empty_object().with("ok"@, Json::Bool(true))
}

/// The error response with a code and a message.
pub fn error(id: Option<u64>, code: &str, message: &str) -> (response: serde_json::Value)
    ensures
        json::content(response) == error_json(id, code@, message@),
{
    let mut detail = json::object();
    json::set_entry(&mut detail, "code", json::text(code));
    json::set_entry(&mut detail, "message", json::text(message));
    let mut response = json::object();
    json::set_entry(&mut response, "type", json::text("error"));
    json::set_entry(
        &mut response,
        "id",
        match id {
            Some(id) => json::unsigned(id),
            None => json::null(),
        },
    );
    json::set_entry(&mut response, "error", detail);
    response
}

/// The response that carries a result.
pub fn success(id: u64, result: serde_json::Value) -> (response: serde_json::Value)
    ensures
        json::content(response) == success_json(id, json::content(result)),
{
    let mut response = json::object();
    json::set_entry(&mut response, "type", json::text("reply"));
    json::set_entry(&mut response, "id", json::unsigned(id));
    json::set_entry(&mut response, "result", result);
    response
}

/// The result of a request that only acknowledges.
pub fn ok_result() -> (result: serde_json::Value)
    ensures
        json::content(result) == ok_json(),
{
    let mut result = json::object();
    json::set_entry(&mut result, "ok", json::boolean(true));
    result
}

/// Whether a response carries a result.
pub open spec fn carries_result(response: Json) -> bool {
    response.entry("type"@) == Json::Text("reply"@)
}

/// Whether a response carries a result.
pub fn is_reply(response: &serde_json::Value) -> (result: bool)
    ensures
        result == carries_result(json::content(*response)),
{
    match json::as_str(json::entry(response, "type")) {
        Some(kind) => str_eq(kind, "reply"),
        None => false,
    }
}

/// A rejection by an endpoint.
#[derive(Debug)]
pub struct ClientShellEndpointError {
    pub code: Option<String>,
    pub message: String,
}

impl ClientShellEndpointError {
    /// The code that a consumer sees for this rejection.
    pub open spec fn wire_code(self) -> Seq<char> {
        match self.code {
            Some(code) => if code@ == "endpoint_cancelled"@ {
                "cancelled"@
            } else {
                code@
            },
            None => "endpoint_error"@,
        }
    }
}

/// A frontend reply waiting on an endpoint command result. It is settled through
/// [`FrontendReply::settle`] when the result, expiry, or cancellation arrives.
#[derive(Debug)]
pub struct FrontendReply<S> {
    pub id: u64,
    pub sender: S,
}

/// The response to request `id` when its endpoint gave `result`.
pub open spec fn settled_json(
    id: u64,
    result: Result<serde_json::Value, ClientShellEndpointError>,
) -> Json {
    match result {
        Ok(value) => success_json(id, json::content(value)),
        Err(rejected) => error_json(Some(id), rejected.wire_code(), rejected.message@),
    }
}

impl<S> FrontendReply<S> {
    /// The response for an endpoint's result.
    pub fn settle(self, result: Result<serde_json::Value, ClientShellEndpointError>) -> (reply:
        Reply<S>)
        ensures
            reply.sender == self.sender,
            json::content(reply.response) == settled_json(self.id, result),
    {
        let response = match result {
            Ok(value) => success(self.id, value),
            Err(rejected) => {
                let code: &str = match &rejected.code {
                    Some(code) => if str_eq(code.as_str(), "endpoint_cancelled") {
                        "cancelled"
                    } else {
                        code.as_str()
                    },
                    None => "endpoint_error",
                };
                error(Some(self.id), code, rejected.message.as_str())
            },
        };
        Reply { sender: self.sender, response }
    }
}

/// The endpoint that a captured route reaches, or the code and message of the
/// refusal.
pub open spec fn route_resolved(route: Route, shell: ClientShellState) -> Result<
    EndpointKey,
    (Seq<char>, Seq<char>),
> {
    match crate::endpoint::endpoint_named(route.endpoint_id@) {
        None => Err(("unknown_endpoint"@, "invalid endpoint identity"@)),
        Some(id) => match crate::shell::endpoint_with(shell.endpoints@, id) {
            None => Err(("unknown_endpoint"@, "endpoint is not a member of this frontend"@)),
            Some(endpoint) => if endpoint.boot() != crate::shell::optional_text(route.boot_id) {
                Err(
                    (
                        "stale_route"@,
                        "endpoint identity changed; refresh the snapshot and retry once"@,
                    ),
                )
            } else {
                Ok(id)
            },
        },
    }
}

/// Whether an endpoint's connection advertised a method.
pub open spec fn method_supported(
    registry: EndpointRegistry,
    endpoint: EndpointKey,
    method: Seq<char>,
) -> bool {
    crate::endpoint::connection_to(registry.connections@, endpoint) matches Some(connection)
        && connection.advertises(method)
}

/// Why the endpoint command lane refuses a request, if it does: code and message.
pub open spec fn lane_refusal(
    shell: ClientShellState,
    registry: EndpointRegistry,
    endpoint: EndpointKey,
    method: Seq<char>,
) -> Option<(Seq<char>, Seq<char>)> {
    match crate::shell::endpoint_with(shell.endpoints@, endpoint) {
        None => Some(("unknown_endpoint"@, "endpoint is not a member of this frontend"@)),
        Some(retained) => if retained.status != ClientEndpointStatus::Online {
            Some(("endpoint_unavailable"@, "endpoint is not online"@))
        } else if retained.boot() is None {
            Some(
                (
                    "endpoint_not_ready"@,
                    "endpoint has no server identity yet; retry after its snapshot arrives"@,
                ),
            )
        } else if !method_supported(registry, endpoint, method) {
            Some(("unsupported_method"@, "endpoint does not advertise this method"@))
        } else {
            None
        },
    }
}

/// Resolve a route to an endpoint whose retained snapshot still carries the
/// captured boot identity.
fn resolve(route: &Route, shell: &ClientShellState) -> (resolved: Result<
    ClientEndpointId,
    (&'static str, &'static str),
>)
    ensures
        match (route_resolved(*route, *shell), resolved) {
            (Ok(id), Ok(endpoint)) => endpoint@ == id,
            (Err((code, message)), Err(refusal)) => refusal.0@ == code && refusal.1@ == message,
            _ => false,
        },
{
    let id = match parse_endpoint(route.endpoint_id.as_str()) {
        Some(id) => id,
        None => return Err(("unknown_endpoint", "invalid endpoint identity")),
    };
    let boot_id = match shell.frontend_endpoint_boot_id(&id) {
        Some(boot_id) => boot_id,
        None => return Err(("unknown_endpoint", "endpoint is not a member of this frontend")),
    };
    let same = match (&boot_id, &route.boot_id) {
        (Some(a), Some(b)) => *a == *b,
        (None, None) => true,
        _ => false,
    };
    if !same {
        return Err(
            (
                "stale_route",
                "endpoint identity changed; refresh the snapshot and retry once",
            ),
        );
    }
    Ok(id)
}

/// Whether the endpoint command lane refuses a request.
fn is_refused(
    shell: &ClientShellState,
    registry: &EndpointRegistry,
    endpoint_id: &ClientEndpointId,
    method: &str,
) -> (refused: bool)
    ensures
        refused == lane_refusal(*shell, *registry, endpoint_id@, method@) is Some,
{
    let route = match shell.frontend_endpoint_route(endpoint_id, registry) {
        Some(route) => route,
        None => return true,
    };
    if route.status != ClientEndpointStatus::Online || route.boot_id.is_none() {
        return true;
    }
    match registry.connection(endpoint_id) {
        Some(connection) => !connection.supports_method(method),
        None => true,
    }
}

impl RequestBody {
    /// Whether the request ends up on the endpoint command lane: its route is
    /// current, its endpoint is active (for a call with an available surface that
    /// is not frozen), and the lane does not refuse it.
    pub open spec fn reaches_lane(
        self,
        shell: ClientShellState,
        frozen: bool,
        registry: EndpointRegistry,
    ) -> bool {
        match self {
            RequestBody::Select { route, target } => {
                &&& route_resolved(route, shell) matches Ok(endpoint)
                &&& registry.active@ == endpoint
                &&& lane_refusal(shell, registry, endpoint, target@.focus_method_name()) is None
            },
            RequestBody::Call { route, method, .. } => {
                &&& route_resolved(route, shell) matches Ok(endpoint)
                &&& registry.active@ == endpoint && registry.surface_available && !frozen
                &&& lane_refusal(shell, registry, endpoint, method@) is None
            },
            _ => false,
        }
    }

    /// Whether the request ends up on the endpoint command lane.
    pub fn uses_lane(
        &self,
        shell: &ClientShellState,
        frozen: bool,
        registry: &EndpointRegistry,
    ) -> (uses: bool)
        ensures
            uses == self.reaches_lane(*shell, frozen, *registry),
    {
        match self {
            RequestBody::Select { route, target } => match resolve(route, shell) {
                Ok(endpoint_id) => {
                    let (method, _) = target.focus_method();
                    *registry.active_id() == endpoint_id && !is_refused(
                        shell,
                        registry,
                        &endpoint_id,
                        method,
                    )
                },
                Err(_) => false,
            },
            RequestBody::Call { route, method, .. } => match resolve(route, shell) {
                Ok(endpoint_id) => *registry.active_id() == endpoint_id
                    && registry.active_surface_available() && !frozen && !is_refused(
                    shell,
                    registry,
                    &endpoint_id,
                    method.as_str(),
                ),
                Err(_) => false,
            },
            _ => false,
        }
    }
}

/// The id of a client's `n`th request on the endpoint command lane.
pub open spec fn lane_request_id(client_id: Seq<char>, n: nat) -> Seq<char> {
    "frontend-api:"@ + client_id + ":"@ + crate::text::decimal_digits(n)
}

/// A request in the shape of the runtime API.
pub open spec fn lane_request_json(id: Seq<char>, method: Seq<char>, params: Json) -> Json {
    Json::empty_object().with("id"@, Json::Text(id)).with("method"@, Json::Text(method)).with(
        "params"@,
        params,
    )
}

/// A validated request for the endpoint command lane. The loop reads `document`
/// as a runtime API request and reports through
/// [`FrontendRequests::accept_endpoint_request`] whether it is one.
#[derive(Debug)]
pub struct EndpointRequest<S> {
    pub reply: FrontendReply<S>,
    pub endpoint_id: ClientEndpointId,
    pub generation: u64,
    pub boot_id: String,
    pub request_id: String,
    pub method: String,
    pub document: serde_json::Value,
}

/// A request to put on an endpoint's command lane.
#[derive(Debug)]
pub struct EndpointCommand {
    pub endpoint_id: ClientEndpointId,
    pub generation: u64,
    pub boot_id: String,
    pub document: serde_json::Value,
}

/// Validated intent, dispatched in the same event-loop turn before acknowledgment.
#[derive(Debug)]
pub enum Dispatch<S, E> {
    /// Dispatch through the ordinary input pipeline; the loop replies after applying.
    Input { id: u64, reply: S, events: Vec<E> },
    /// The endpoint is not active: start a native activation carrying the target.
    /// The reply lives in the api's pending selects and settles from observation.
    Select { endpoint: ClientEndpointId, target: ClientEndpointFocusTarget },
}

/// What the loop does about a request.
#[derive(Debug)]
pub enum Outcome<S, E> {
    /// Send the response.
    Reply(Reply<S>),
    /// Carry out the intent.
    Dispatch(Dispatch<S, E>),
    /// Check the request's document and hand it to the endpoint command lane.
    Submit(EndpointRequest<S>),
}

/// Whether the outcome sends exactly `response` through `sender`.
pub open spec fn replied<S, E>(outcome: Outcome<S, E>, sender: S, response: Json) -> bool {
    outcome matches Outcome::Reply(reply) && reply.sender == sender && json::content(
        reply.response,
    ) == response
}

/// A request of the command lane whose result has not arrived.
#[derive(Debug)]
pub struct PendingRequest<S> {
    pub request_id: String,
    pub boot_id: String,
    pub method: String,
    pub reply: FrontendReply<S>,
}

/// The frontend's requests on the endpoint command lane, in the order they were
/// made.
#[derive(Debug)]
pub struct FrontendRequests<S> {
    pub pending: Vec<PendingRequest<S>>,
}

/// Whether a pending request has an id, and a boot when one is given.
pub open spec fn answers<S>(
    request: PendingRequest<S>,
    request_id: Seq<char>,
    boot_id: Option<Seq<char>>,
) -> bool {
    request.request_id@ == request_id && (boot_id matches Some(boot) ==> request.boot_id@ == boot)
}

/// The first position from `start` on of a request with an id, under a boot when
/// one is given.
pub open spec fn request_position<S>(
    pending: Seq<PendingRequest<S>>,
    request_id: Seq<char>,
    boot_id: Option<Seq<char>>,
    start: int,
) -> Option<int>
    decreases pending.len() - start,
{
    if start >= pending.len() {
        None
    } else if answers(pending[start], request_id, boot_id) {
        Some(start)
    } else {
        request_position(pending, request_id, boot_id, start + 1)
    }
}

/// Whether `after` is `before` without the request at `position`, if any, and
/// `reply` settles that one with `result`.
pub open spec fn request_settled<S>(
    before: Seq<PendingRequest<S>>,
    after: Seq<PendingRequest<S>>,
    position: Option<int>,
    result: Result<serde_json::Value, ClientShellEndpointError>,
    reply: Option<Reply<S>>,
) -> bool {
    match position {
        Some(i) => {
            &&& after == before.remove(i)
            &&& reply matches Some(reply) && reply.sender == before[i].reply.sender
                && json::content(reply.response) == settled_json(before[i].reply.id, result)
        },
        None => after == before && reply is None,
    }
}

impl<S> FrontendRequests<S> {
    /// No requests.
    pub fn new() -> (requests: Self)
        ensures
            requests.pending@.len() == 0,
    {
        FrontendRequests { pending: Vec::new() }
    }

    /// Keep a reply until its request's result arrives.
    pub fn register_frontend_request(
        &mut self,
        request_id: String,
        boot_id: String,
        method: String,
        reply: FrontendReply<S>,
    )
        ensures
            final(self).pending@ == old(self).pending@.push(
                PendingRequest { request_id, boot_id, method, reply },
            ),
    {
        self.pending.push(PendingRequest { request_id, boot_id, method, reply });
    }

    fn position(&self, request_id: &str, boot_id: Option<&str>) -> (position: Option<usize>)
        ensures
            request_position(
                self.pending@,
                request_id@,
                crate::shell::optional_str(boot_id),
                0,
            ) == (match position {
                Some(i) => Some(i as int),
                None => None,
            }),
            position matches Some(i) ==> i < self.pending@.len(),
    {
        let ghost boot = crate::shell::optional_str(boot_id);
        let mut i: usize = 0;
        while i < self.pending.len()
            invariant
                i <= self.pending@.len(),
                boot == crate::shell::optional_str(boot_id),
                request_position(self.pending@, request_id@, boot, i as int) == request_position(
                    self.pending@,
                    request_id@,
                    boot,
                    0,
                ),
            decreases self.pending@.len() - i,
        {
            let same_boot = match boot_id {
                Some(boot_id) => str_eq(self.pending[i].boot_id.as_str(), boot_id),
                None => true,
            };
            if str_eq(self.pending[i].request_id.as_str(), request_id) && same_boot {
                return Some(i);
            }
            i += 1;
        }
        None
    }

    /// An endpoint under a boot answered a request: settle its reply.
    pub fn handle_endpoint_result(
        &mut self,
        boot_id: &str,
        request_id: &str,
        result: Result<serde_json::Value, ClientShellEndpointError>,
    ) -> (reply: Option<Reply<S>>)
        ensures
            request_settled(
                old(self).pending@,
                final(self).pending@,
                request_position(old(self).pending@, request_id@, Some(boot_id@), 0),
                result,
                reply,
            ),
    {
        match self.position(request_id, Some(boot_id)) {
            Some(i) => {
                let request = self.pending.remove(i);
                Some(request.reply.settle(result))
            },
            None => None,
        }
    }

    /// A request was cancelled, with an unknown outcome: settle its reply.
    pub fn cancel_endpoint_request(&mut self, request_id: &str, message: &str) -> (reply: Option<
        Reply<S>,
    >)
        ensures
            match request_position(old(self).pending@, request_id@, None, 0) {
                Some(i) => {
                    &&& final(self).pending@ == old(self).pending@.remove(i)
                    &&& reply matches Some(reply) && reply.sender
                        == old(self).pending@[i].reply.sender && json::content(reply.response)
                        == error_json(Some(old(self).pending@[i].reply.id), "cancelled"@, message@)
                },
                None => final(self).pending@ == old(self).pending@ && reply is None,
            },
    {
        match self.position(request_id, None) {
            Some(i) => {
                let request = self.pending.remove(i);
                Some(
                    request.reply.settle(
                        Err(
                            ClientShellEndpointError {
                                code: Some("endpoint_cancelled".to_owned()),
                                message: message.to_owned(),
                            },
                        ),
                    ),
                )
            },
            None => None,
        }
    }

    /// The loop has read a request's document as a runtime API request, or found
    /// that it is none. A valid request is kept until its result arrives and
    /// becomes a command for its endpoint's lane; any other is refused.
    pub fn accept_endpoint_request(&mut self, request: EndpointRequest<S>, valid: bool) -> (
    accepted: Result<EndpointCommand, Reply<S>>)
        ensures
            valid ==> accepted == Ok::<EndpointCommand, Reply<S>>(
                EndpointCommand {
                    endpoint_id: request.endpoint_id,
                    generation: request.generation,
                    boot_id: request.boot_id,
                    document: request.document,
                },
            ) && final(self).pending@ == old(self).pending@.push(
                PendingRequest {
                    request_id: request.request_id,
                    boot_id: request.boot_id,
                    method: request.method,
                    reply: request.reply,
                },
            ),
            !valid ==> final(self).pending@ == old(self).pending@ && (accepted matches Err(reply)
                && reply.sender == request.reply.sender && json::content(reply.response)
                == error_json(
                Some(request.reply.id),
                "invalid_params"@,
                "method or parameters are invalid"@,
            )),
    {
        if !valid {
            return Err(
                Reply {
                    sender: request.reply.sender,
                    response: error(
                        Some(request.reply.id),
                        "invalid_params",
                        "method or parameters are invalid",
                    ),
                },
            );
        }
        self.register_frontend_request(
            request.request_id,
            request.boot_id.clone(),
            request.method,
            request.reply,
        );
        Ok(
            EndpointCommand {
                endpoint_id: request.endpoint_id,
                generation: request.generation,
                boot_id: request.boot_id,
                document: request.document,
            },
        )
    }
}

/// Whether each key was read as the event at its place.
pub open spec fn keys_read<E, K: Fn(&String) -> Option<E>>(
    keys: Seq<String>,
    parse_key: K,
    events: Seq<E>,
) -> bool {
    &&& events.len() == keys.len()
    &&& forall|i: int|
        0 <= i < keys.len() ==> call_ensures(
            parse_key,
            (&keys[i],),
            Some(#[trigger] events[i]),
        )
}

/// Whether `events` is how `text` or `keys`, whichever is given, was read.
pub open spec fn input_read<E, R: Fn(&[u8]) -> Vec<E>, K: Fn(&String) -> Option<E>>(
    text: Option<String>,
    keys: Option<Vec<String>>,
    parse_raw: R,
    parse_key: K,
    events: Seq<E>,
) -> bool {
    match (text, keys) {
        (Some(text), None) => exists|bytes: &[u8], read: Vec<E>|
            bytes@ == vstd::utf8::encode_utf8(text@) && #[trigger] call_ensures(
                parse_raw,
                (bytes,),
                read,
            ) && read@ == events,
        (None, Some(keys)) => keys_read(keys@, parse_key, events),
        _ => false,
    }
}

/// Whether the keys were read as `events` up to one that is unknown, which
/// `message` names.
pub open spec fn key_unknown<E, K: Fn(&String) -> Option<E>>(
    keys: Seq<String>,
    parse_key: K,
    events: Seq<E>,
    message: Seq<char>,
) -> bool {
    let first = events.len() as int;
    &&& first < keys.len()
    &&& keys_read(keys.take(first), parse_key, events)
    &&& call_ensures(parse_key, (&keys[first],), None::<E>)
    &&& message == "unknown key: "@ + keys[first]@
}

/// Whether `message` says why `text` and `keys` are no input: not exactly one of
/// them is given, or it names the first key that is unknown.
pub open spec fn input_refused<E, K: Fn(&String) -> Option<E>>(
    text: Option<String>,
    keys: Option<Vec<String>>,
    parse_key: K,
    message: Seq<char>,
) -> bool {
    match (text, keys) {
        (Some(_), None) => false,
        (None, Some(keys)) => exists|events: Seq<E>|
            key_unknown(keys@, parse_key, events, message),
        _ => message == "provide exactly one of text or keys"@,
    }
}

/// Reads the input of a request: raw text through `parse_raw`, or key names, each
/// through `parse_key`.
pub fn input_events<E, R: Fn(&[u8]) -> Vec<E>, K: Fn(&String) -> Option<E>>(
    text: Option<String>,
    keys: Option<Vec<String>>,
    parse_raw: R,
    parse_key: K,
) -> (read: Result<Vec<E>, String>)
    requires
        forall|bytes: &[u8]| call_requires(parse_raw, (bytes,)),
        forall|key: &String| call_requires(parse_key, (key,)),
    ensures
        match read {
            Ok(events) => input_read(text, keys, parse_raw, parse_key, events@),
            Err(message) => input_refused::<E, K>(text, keys, parse_key, message@),
        },
{
    match (text, keys) {
        (Some(text), None) => {
            let bytes: &[u8] = text.as_str().as_bytes();
            let events = parse_raw(bytes);
            assert(call_ensures(parse_raw, (bytes,), events));
            Ok(events)
        },
        (None, Some(names)) => {
            let mut events: Vec<E> = Vec::new();
            let mut i: usize = 0;
            while i < names.len()
                invariant
                    i <= names@.len(),
                    text is None,
                    keys == Some(names),
                    forall|key: &String| call_requires(parse_key, (key,)),
                    keys_read(names@.take(i as int), parse_key, events@),
                decreases names@.len() - i,
            {
                match parse_key(&names[i]) {
                    Some(event) => {
                        let ghost before = events@;
                        events.push(event);
                        assert forall|j: int| 0 <= j < i + 1 implies call_ensures(
                            parse_key,
                            (&names@.take(i + 1)[j],),
                            Some(#[trigger] events@[j]),
                        ) by {
                            if j < i {
                                assert(events@[j] == before[j]);
                                assert(names@.take(i as int)[j] == names@.take(i + 1)[j]);
                            }
                        }
                    },
                    None => {
                        let message = "unknown key: ".to_owned().concat(names[i].as_str());
                        assert(key_unknown(keys->0@, parse_key, events@, message@));
                        return Err(message);
                    },
                }
                i += 1;
            }
            assert(names@.take(names@.len() as int) =~= names@);
            Ok(events)
        },
        _ => Err("provide exactly one of text or keys".to_owned()),
    }
}

/// A cross-endpoint select whose outcome has not been observed.
#[derive(Debug)]
pub struct PendingSelect<S> {
    pub id: u64,
    pub sender: S,
    pub endpoint: ClientEndpointId,
    pub target: ClientEndpointFocusTarget,
    /// When it was queued, in nanoseconds of a monotonic clock.
    pub queued_at: u128,
}

impl<S> PendingSelect<S> {
    /// The response this select is due at `now`, if any: success once its target
    /// is observed focused, else a timeout from the deadline on.
    pub open spec fn due(self, shell: ClientShellState, now: u128) -> Option<Json> {
        if shell.active_endpoint_id@ == self.endpoint@ && shell.target_focused(self.target@) {
            Some(success_json(self.id, ok_json()))
        } else if now - self.queued_at >= SELECT_DEADLINE_NANOS {
            Some(
                error_json(
                    Some(self.id),
                    "timeout"@,
                    "navigation did not settle; outcome is unknown; do not replay"@,
                ),
            )
        } else {
            None
        }
    }

    /// The response this select is due at `now`, if any.
    fn response(&self, shell: &ClientShellState, now: u128) -> (response: Option<serde_json::Value>)
        ensures
            self.due(*shell, now) == (match response {
                Some(response) => Some(json::content(response)),
                None => None,
            }),
    {
        if shell.active_endpoint_id == self.endpoint && shell.frontend_target_active(&self.target) {
            Some(success(self.id, ok_result()))
        } else if now >= self.queued_at && now - self.queued_at >= SELECT_DEADLINE_NANOS {
            Some(
                error(
                    Some(self.id),
                    "timeout",
                    "navigation did not settle; outcome is unknown; do not replay",
                ),
            )
        } else {
            None
        }
    }
}

/// The selects that are due at `now`.
pub open spec fn due_selects<S>(
    selects: Seq<PendingSelect<S>>,
    shell: ClientShellState,
    now: u128,
) -> Seq<PendingSelect<S>> {
    selects.filter(|select: PendingSelect<S>| select.due(shell, now) is Some)
}

/// The selects that stay pending at `now`.
pub open spec fn waiting_selects<S>(
    selects: Seq<PendingSelect<S>>,
    shell: ClientShellState,
    now: u128,
) -> Seq<PendingSelect<S>> {
    selects.filter(|select: PendingSelect<S>| select.due(shell, now) is None)
}

/// Whether `replies` answers each of `settled`, in order.
pub open spec fn selects_answered<S>(
    replies: Seq<Reply<S>>,
    settled: Seq<PendingSelect<S>>,
    shell: ClientShellState,
    now: u128,
) -> bool {
    &&& replies.len() == settled.len()
    &&& forall|i: int|
        0 <= i < replies.len() ==> (#[trigger] replies[i]).sender == settled[i].sender && Some(
            json::content(replies[i].response),
        ) == settled[i].due(shell, now)
}

/// The state of one client's frontend API.
#[derive(Debug)]
pub struct FrontendApi<S> {
    pub client_id: String,
    /// How many snapshots were published.
    pub revision: u64,
    /// The snapshot published last; null before the first.
    pub snapshot: serde_json::Value,
    pub previous_observation: Option<u64>,
    pub pending_selects: Vec<PendingSelect<S>>,
    /// How many requests were made on the endpoint command lane.
    pub next_request: u64,
}

impl<S> FrontendApi<S> {
    /// The API of a client, with nothing published and nothing pending.
    pub fn new(client_id: String) -> (api: Self)
        ensures
            api.client_id == client_id,
            api.revision == 0,
            json::content(api.snapshot) == Json::Null,
            api.previous_observation is None,
            api.pending_selects@.len() == 0,
            api.next_request == 0,
    {
        FrontendApi {
            client_id,
            revision: 0,
            snapshot: json::null(),
            previous_observation: None,
            pending_selects: Vec::new(),
            next_request: 0,
        }
    }

    /// Whether the published snapshot is that of a client, under its fingerprint.
    pub open spec fn shows(
        self,
        shell: ClientShellState,
        frozen: bool,
        registry: EndpointRegistry,
    ) -> bool {
        &&& self.previous_observation == Some(shell.observed(registry, frozen).fingerprint())
        &&& json::content(self.snapshot) == shell.published(registry, frozen).with(
            "client_id"@,
            Json::Text(self.client_id@),
        ).with("revision"@, Json::from_unsigned(self.revision))
    }

    /// Whether the fingerprint of what is observed is not the one published last.
    pub open spec fn is_news(
        self,
        shell: ClientShellState,
        frozen: bool,
        registry: EndpointRegistry,
    ) -> bool {
        self.previous_observation != Some(shell.observed(registry, frozen).fingerprint())
    }

    /// Whether an observation would be published under a new revision.
    pub fn has_news(
        &self,
        shell: &ClientShellState,
        frozen: bool,
        registry: &EndpointRegistry,
    ) -> (news: bool)
        ensures
            news == self.is_news(*shell, frozen, *registry),
    {
        let observation: u64 = shell.frontend_observation_fingerprint(registry, frozen);
        match self.previous_observation {
            Some(previous) => previous != observation,
            None => true,
        }
    }

    /// Whether `after` is this API after an observation: an unchanged fingerprint
    /// changes nothing, any other publishes the snapshot under the next revision.
    pub open spec fn refreshed(
        self,
        after: Self,
        shell: ClientShellState,
        frozen: bool,
        registry: EndpointRegistry,
    ) -> bool {
        if !self.is_news(shell, frozen, registry) {
            after == self
        } else {
            &&& after.client_id == self.client_id
            &&& after.revision == self.revision + 1
            &&& after.shows(shell, frozen, registry)
            &&& after.pending_selects == self.pending_selects
            &&& after.next_request == self.next_request
        }
    }

    /// Called at the loop boundary, including turns ending in `continue`, never by
    /// rendering. Says whether a snapshot was published.
    pub fn publish(
        &mut self,
        subscribers: usize,
        shell: &ClientShellState,
        frozen: bool,
        registry: &EndpointRegistry,
    ) -> (published: bool)
        requires
            subscribers > 0 && old(self).is_news(*shell, frozen, *registry) ==> old(self).revision
                < u64::MAX,
        ensures
            subscribers == 0 ==> *final(self) == *old(self) && !published,
            subscribers > 0 ==> old(self).refreshed(*final(self), *shell, frozen, *registry)
                && published == old(self).is_news(*shell, frozen, *registry),
    {
        // Snapshot requests explicitly refresh the inventory in the client loop;
        // only subscriptions keep it hot.
        if subscribers == 0 {
            return false;
        }
        self.refresh_snapshot(shell, frozen, registry)
    }

    /// Publish a snapshot unless the observation is the one published last. Says
    /// whether it did.
    pub fn refresh_snapshot(
        &mut self,
        shell: &ClientShellState,
        frozen: bool,
        registry: &EndpointRegistry,
    ) -> (published: bool)
        requires
            old(self).is_news(*shell, frozen, *registry) ==> old(self).revision < u64::MAX,
        ensures
            old(self).refreshed(*final(self), *shell, frozen, *registry),
            published == old(self).is_news(*shell, frozen, *registry),
    {
        let observation: u64 = shell.frontend_observation_fingerprint(registry, frozen);
        let unchanged = match self.previous_observation {
            Some(previous) => previous == observation,
            None => false,
        };
        if unchanged {
            return false;
        }
        self.previous_observation = Some(observation);
        self.revision += 1;
        let mut snapshot = shell.frontend_snapshot(registry, frozen);
        json::set_entry(&mut snapshot, "client_id", json::text(self.client_id.as_str()));
        json::set_entry(&mut snapshot, "revision", json::unsigned(self.revision));
        self.snapshot = snapshot;
        true
    }

    /// Resolve a route to an endpoint whose retained snapshot still carries the
    /// captured boot identity.
    pub fn resolve_route(route: &Route, shell: &ClientShellState) -> (resolved: Result<
        ClientEndpointId,
        (&'static str, &'static str),
    >)
        ensures
            match (route_resolved(*route, *shell), resolved) {
                (Ok(id), Ok(endpoint)) => endpoint@ == id,
                (Err((code, message)), Err(refusal)) => refusal.0@ == code && refusal.1@ == message,
                _ => false,
            },
    {
        resolve(route, shell)
    }

    /// Whether the outcome is what becomes of a request on the endpoint command
    /// lane, and `after` is this API after it.
    pub open spec fn enqueued<E>(
        self,
        after: Self,
        reply: FrontendReply<S>,
        method: Seq<char>,
        params: Json,
        endpoint: EndpointKey,
        shell: ClientShellState,
        registry: EndpointRegistry,
        outcome: Outcome<S, E>,
    ) -> bool {
        match lane_refusal(shell, registry, endpoint, method) {
            Some((code, message)) => after == self && replied(
                outcome,
                reply.sender,
                error_json(Some(reply.id), code, message),
            ),
            None => {
                let retained = crate::shell::endpoint_with(shell.endpoints@, endpoint)->0;
                let request_id = lane_request_id(self.client_id@, after.next_request as nat);
                &&& after.next_request == self.next_request + 1
                &&& after == (FrontendApi { next_request: after.next_request, ..self })
                &&& outcome matches Outcome::Submit(request) && {
                    &&& request.reply == reply
                    &&& request.endpoint_id@ == endpoint
                    &&& request.generation == retained.generation(registry)
                    &&& Some(request.boot_id@) == retained.boot()
                    &&& request.request_id@ == request_id
                    &&& request.method@ == method
                    &&& json::content(request.document) == lane_request_json(
                        request_id,
                        method,
                        params,
                    )
                }
            },
        }
    }

    /// Validate one request for the endpoint command lane. Its reply settles from
    /// the endpoint result or its cancellation.
    pub fn enqueue_endpoint_request<E>(
        &mut self,
        reply: FrontendReply<S>,
        method: &str,
        params: serde_json::Value,
        endpoint_id: ClientEndpointId,
        shell: &ClientShellState,
        registry: &EndpointRegistry,
    ) -> (outcome: Outcome<S, E>)
        requires
            lane_refusal(*shell, *registry, endpoint_id@, method@) is None ==> old(
                self,
            ).next_request < u64::MAX,
        ensures
            old(self).enqueued(
                *final(self),
                reply,
                method@,
                json::content(params),
                endpoint_id@,
                *shell,
                *registry,
                outcome,
            ),
    {
        let route = match shell.frontend_endpoint_route(&endpoint_id, registry) {
            Some(route) => route,
            None => return refuse(
                reply,
                "unknown_endpoint",
                "endpoint is not a member of this frontend",
            ),
        };
        if route.status != ClientEndpointStatus::Online {
            return refuse(reply, "endpoint_unavailable", "endpoint is not online");
        }
        let boot_id: String = match route.boot_id {
            Some(boot_id) => boot_id.to_owned(),
            None => return refuse(
                reply,
                "endpoint_not_ready",
                "endpoint has no server identity yet; retry after its snapshot arrives",
            ),
        };
        let generation: u64 = route.generation;
        let supported = match registry.connection(&endpoint_id) {
            Some(connection) => connection.supports_method(method),
            None => false,
        };
        if !supported {
            return refuse(reply, "unsupported_method", "endpoint does not advertise this method");
        }
        self.next_request += 1;
        let number = decimal(self.next_request);
        let request_id = "frontend-api:".to_owned().concat(self.client_id.as_str()).concat(
            ":",
        ).concat(number.as_str());
        let mut document = json::object();
        json::set_entry(&mut document, "id", json::text(request_id.as_str()));
        json::set_entry(&mut document, "method", json::text(method));
        json::set_entry(&mut document, "params", params);
        Outcome::Submit(
            EndpointRequest {
                reply,
                endpoint_id,
                generation,
                boot_id,
                request_id,
                method: method.to_owned(),
                document,
            },
        )
    }

    /// Whether the outcome is what becomes of an event, and `after` is this API
    /// after it.
    pub open spec fn handled<E, R: Fn(&[u8]) -> Vec<E>, K: Fn(&String) -> Option<E>>(
        self,
        after: Self,
        event: Event<S>,
        shell: ClientShellState,
        frozen: bool,
        registry: EndpointRegistry,
        now: u128,
        parse_raw: R,
        parse_key: K,
        outcome: Outcome<S, E>,
    ) -> bool {
        let id = event.request.id;
        let reply = FrontendReply { id, sender: event.reply };
        match event.request.body {
            RequestBody::Snapshot => {
                &&& self.refreshed(after, shell, frozen, registry)
                &&& replied(outcome, event.reply, success_json(id, Json::Null))
            },
            RequestBody::Subscribe => {
                &&& after == self
                &&& replied(
                    outcome,
                    event.reply,
                    error_json(
                        Some(id),
                        "invalid_request"@,
                        "observation request reached mutation dispatch"@,
                    ),
                )
            },
            RequestBody::Input { text, keys } => {
                &&& after == self
                &&& match outcome {
                    Outcome::Dispatch(Dispatch::Input { id: input_id, reply: sender, events }) => {
                        &&& input_id == id
                        &&& sender == event.reply
                        &&& input_read(text, keys, parse_raw, parse_key, events@)
                    },
                    Outcome::Reply(refusal) => {
                        &&& refusal.sender == event.reply
                        &&& exists|message: Seq<char>|
                            #[trigger] input_refused::<E, K>(text, keys, parse_key, message)
                                && json::content(refusal.response) == error_json(
                                Some(id),
                                "invalid_params"@,
                                message,
                            )
                    },
                    _ => false,
                }
            },
            RequestBody::Select { route, target } => match route_resolved(route, shell) {
                Err((code, message)) => {
                    &&& after == self
                    &&& replied(outcome, event.reply, error_json(Some(id), code, message))
                },
                Ok(endpoint) => if registry.active@ == endpoint {
                    self.enqueued(
                        after,
                        reply,
                        target@.focus_method_name(),
                        target@.focus_params(),
                        endpoint,
                        shell,
                        registry,
                        outcome,
                    )
                } else {
                    &&& after == (FrontendApi { pending_selects: after.pending_selects, ..self })
                    &&& after.pending_selects@.len() == self.pending_selects@.len() + 1
                    &&& after.pending_selects@.drop_last() == self.pending_selects@
                    &&& after.pending_selects@.last().id == id
                    &&& after.pending_selects@.last().sender == event.reply
                    &&& after.pending_selects@.last().endpoint@ == endpoint
                    &&& after.pending_selects@.last().target@ == target@
                    &&& after.pending_selects@.last().queued_at == now
                    &&& outcome matches Outcome::Dispatch(
                        Dispatch::Select { endpoint: activated, target: focused },
                    ) && activated@ == endpoint && focused@ == target@
                },
            },
            RequestBody::Call { route, method, params } => match route_resolved(route, shell) {
                Err((code, message)) => {
                    &&& after == self
                    &&& replied(outcome, event.reply, error_json(Some(id), code, message))
                },
                Ok(endpoint) => if registry.active@ != endpoint || !registry.surface_available
                    || frozen {
                    &&& after == self
                    &&& replied(
                        outcome,
                        event.reply,
                        error_json(
                            Some(id),
                            "inactive_endpoint"@,
                            "endpoint must already be active with an available lease"@,
                        ),
                    )
                } else {
                    self.enqueued(
                        after,
                        reply,
                        method@,
                        json::content(params),
                        endpoint,
                        shell,
                        registry,
                        outcome,
                    )
                },
            },
        }
    }

    /// Handle one request of a consumer at `now`.
    pub fn handle<E, R: Fn(&[u8]) -> Vec<E>, K: Fn(&String) -> Option<E>>(
        &mut self,
        event: Event<S>,
        shell: &ClientShellState,
        frozen: bool,
        endpoints: &EndpointRegistry,
        now: u128,
        parse_raw: R,
        parse_key: K,
    ) -> (outcome: Outcome<S, E>)
        requires
            event.request.body is Snapshot && old(self).is_news(*shell, frozen, *endpoints) ==> old(
                self,
            ).revision < u64::MAX,
            event.request.body.reaches_lane(*shell, frozen, *endpoints) ==> old(self).next_request
                < u64::MAX,
            forall|bytes: &[u8]| call_requires(parse_raw, (bytes,)),
            forall|key: &String| call_requires(parse_key, (key,)),
        ensures
            old(self).handled(
                *final(self),
                event,
                *shell,
                frozen,
                *endpoints,
                now,
                parse_raw,
                parse_key,
                outcome,
            ),
    {
        let id: u64 = event.request.id;
        let reply = FrontendReply { id, sender: event.reply };
        match event.request.body {
            RequestBody::Snapshot => {
                let _ = self.refresh_snapshot(shell, frozen, endpoints);
                // The socket serializes the published snapshot itself instead of
                // copying the inventory into a reply.
                Outcome::Reply(Reply { sender: reply.sender, response: success(id, json::null()) })
            },
            RequestBody::Subscribe => refuse(
                reply,
                "invalid_request",
                "observation request reached mutation dispatch",
            ),
            RequestBody::Input { text, keys } => match input_events(
                text,
                keys,
                parse_raw,
                parse_key,
            ) {
                Ok(events) => Outcome::Dispatch(
                    Dispatch::Input { id, reply: reply.sender, events },
                ),
                Err(message) => {
                    assert(input_refused::<E, K>(text, keys, parse_key, message@));
                    refuse(reply, "invalid_params", message.as_str())
                },
            },
            RequestBody::Select { route, target } => {
                let endpoint_id = match Self::resolve_route(&route, shell) {
                    Ok(endpoint_id) => endpoint_id,
                    Err((code, message)) => return refuse(reply, code, message),
                };
                if *endpoints.active_id() == endpoint_id {
                    let (method, params) = target.focus_method();
                    self.enqueue_endpoint_request(
                        reply,
                        method,
                        params,
                        endpoint_id,
                        shell,
                        endpoints,
                    )
                } else {
                    let target: ClientEndpointFocusTarget = ClientEndpointFocusTarget::from(target);
                    self.pending_selects.push(
                        PendingSelect {
                            id,
                            sender: reply.sender,
                            endpoint: endpoint_id.clone(),
                            target: target.clone(),
                            queued_at: now,
                        },
                    );
                    assert(self.pending_selects@.drop_last() =~= old(self).pending_selects@);
                    Outcome::Dispatch(Dispatch::Select { endpoint: endpoint_id, target })
                }
            },
            RequestBody::Call { route, method, params } => {
                let endpoint_id = match Self::resolve_route(&route, shell) {
                    Ok(endpoint_id) => endpoint_id,
                    Err((code, message)) => return refuse(reply, code, message),
                };
                if *endpoints.active_id() != endpoint_id || !endpoints.active_surface_available()
                    || frozen {
                    return refuse(
                        reply,
                        "inactive_endpoint",
                        "endpoint must already be active with an available lease",
                    );
                }
                self.enqueue_endpoint_request(
                    reply,
                    method.as_str(),
                    params,
                    endpoint_id,
                    shell,
                    endpoints,
                )
            },
        }
    }

    /// Settle cross-endpoint selects from observed state. Called once per loop
    /// boundary; replies only on a confirmed target or the deadline.
    pub fn settle_selects(&mut self, shell: &ClientShellState, now: u128) -> (replies: Vec<
        Reply<S>,
    >)
        ensures
            selects_answered(
                replies@,
                due_selects(old(self).pending_selects@, *shell, now),
                *shell,
                now,
            ),
            final(self).pending_selects@ == waiting_selects(
                old(self).pending_selects@,
                *shell,
                now,
            ),
            *final(self) == (FrontendApi {
                pending_selects: final(self).pending_selects,
                ..*old(self)
            }),
    {
        let ghost all = self.pending_selects@;
        let ghost is_due = |select: PendingSelect<S>| select.due(*shell, now) is Some;
        let ghost is_waiting = |select: PendingSelect<S>| select.due(*shell, now) is None;
        let mut rest: Vec<PendingSelect<S>> = Vec::new();
        std::mem::swap(&mut rest, &mut self.pending_selects);
        let mut keep: Vec<PendingSelect<S>> = Vec::new();
        let mut replies: Vec<Reply<S>> = Vec::new();
        let ghost mut n: int = 0;
        proof {
            reveal(Seq::filter);
            assert(all.skip(0) =~= all);
            assert(all.take(0) =~= Seq::empty());
        }
        while rest.len() > 0
            invariant
                0 <= n <= all.len(),
                rest@ == all.skip(n),
                is_due == (|select: PendingSelect<S>| select.due(*shell, now) is Some),
                is_waiting == (|select: PendingSelect<S>| select.due(*shell, now) is None),
                keep@ == all.take(n).filter(is_waiting),
                selects_answered(replies@, all.take(n).filter(is_due), *shell, now),
            decreases rest@.len(),
        {
            let pending = rest.remove(0);
            proof {
                reveal(Seq::filter);
                assert(pending == all[n]);
                assert(all.skip(n).remove(0) =~= all.skip(n + 1));
                assert(all.take(n + 1).drop_last() =~= all.take(n));
                assert(all.take(n + 1).last() == all[n]);
            }
            match pending.response(shell, now) {
                Some(response) => {
                    replies.push(Reply { sender: pending.sender, response });
                },
                None => keep.push(pending),
            }
            proof {
                n = n + 1;
            }
        }
        assert(all.take(n) =~= all);
        self.pending_selects = keep;
        replies
    }
}

/// Answer a request with an error.
fn refuse<S, E>(reply: FrontendReply<S>, code: &str, message: &str) -> (outcome: Outcome<S, E>)
    ensures
        replied(outcome, reply.sender, error_json(Some(reply.id), code@, message@)),
{
    Outcome::Reply(
        Reply { sender: reply.sender, response: error(Some(reply.id), code, message) },
    )
}

proof fn response_keys_differ()
    ensures
        "type"@ != "id"@,
        "type"@ != "error"@,
        "type"@ != "result"@,
        "id"@ != "error"@,
        "id"@ != "result"@,
        "error"@ != "reply"@,
{
    reveal_strlit("type");
    reveal_strlit("id");
    reveal_strlit("error");
    reveal_strlit("result");
    reveal_strlit("reply");
    assert("type"@.len() == 4 && "id"@.len() == 2 && "error"@.len() == 5);
    assert("result"@.len() == 6 && "error"@[0] == 'e' && "reply"@[0] == 'r');
}

/// Responses that carry a result and error responses are told apart, and each
/// carries the id of its request.
pub proof fn law_responses_are_told_apart(
    id: u64,
    result: Json,
    error_id: Option<u64>,
    code: Seq<char>,
    message: Seq<char>,
)
    ensures
        carries_result(success_json(id, result)),
        success_json(id, result).entry("id"@) == Json::from_unsigned(id),
        success_json(id, result).entry("result"@) == result,
        !carries_result(error_json(error_id, code, message)),
        error_json(error_id, code, message).entry("id"@) == (match error_id {
            Some(id) => Json::from_unsigned(id),
            None => Json::Null,
        }),
        error_json(error_id, code, message).entry("error"@).entry("code"@) == Json::Text(code),
        error_json(error_id, code, message).entry("error"@).entry("message"@) == Json::Text(
            message,
        ),
{
    response_keys_differ();
    reveal_strlit("code");
    reveal_strlit("message");
    assert("code"@.len() == 4 && "message"@.len() == 7);
}

/// Handling a request leaves its reply handle in exactly one place: in the
/// response to send, in the dispatched input, in the submitted request, or in one
/// new pending select.
pub proof fn law_a_reply_handle_is_kept_once<
    S,
    E,
    R: Fn(&[u8]) -> Vec<E>,
    K: Fn(&String) -> Option<E>,
>(
    before: FrontendApi<S>,
    after: FrontendApi<S>,
    event: Event<S>,
    shell: ClientShellState,
    frozen: bool,
    registry: EndpointRegistry,
    now: u128,
    parse_raw: R,
    parse_key: K,
    outcome: Outcome<S, E>,
)
    requires
        before.handled(
            after,
            event,
            shell,
            frozen,
            registry,
            now,
            parse_raw,
            parse_key,
            outcome,
        ),
    ensures
        match outcome {
            Outcome::Reply(reply) => reply.sender == event.reply && after.pending_selects@
                == before.pending_selects@,
            Outcome::Dispatch(Dispatch::Input { reply, .. }) => reply == event.reply
                && after.pending_selects@ == before.pending_selects@,
            Outcome::Dispatch(Dispatch::Select { .. }) => after.pending_selects@
                == before.pending_selects@.push(after.pending_selects@.last())
                && after.pending_selects@.last().sender == event.reply,
            Outcome::Submit(request) => request.reply.sender == event.reply
                && after.pending_selects@ == before.pending_selects@,
        },
{
    if let Outcome::Dispatch(Dispatch::Select { .. }) = outcome {
        let selects = after.pending_selects@;
        assert(selects =~= selects.drop_last().push(selects.last()));
    }
}

/// A response given at once carries the id of its request, and one that refuses
/// the request leaves the API as it was.
pub proof fn law_a_refusal_changes_nothing<
    S,
    E,
    R: Fn(&[u8]) -> Vec<E>,
    K: Fn(&String) -> Option<E>,
>(
    before: FrontendApi<S>,
    after: FrontendApi<S>,
    event: Event<S>,
    shell: ClientShellState,
    frozen: bool,
    registry: EndpointRegistry,
    now: u128,
    parse_raw: R,
    parse_key: K,
    reply: Reply<S>,
)
    requires
        before.handled(
            after,
            event,
            shell,
            frozen,
            registry,
            now,
            parse_raw,
            parse_key,
            Outcome::<S, E>::Reply(reply),
        ),
    ensures
        json::content(reply.response).entry("id"@) == Json::from_unsigned(event.request.id),
        !carries_result(json::content(reply.response)) ==> after == before,
{
    response_keys_differ();
}

/// A request reaches an endpoint only while the endpoint's retained snapshot
/// carries the boot id that the route captured.
pub proof fn law_only_a_current_route_acts<
    S,
    E,
    R: Fn(&[u8]) -> Vec<E>,
    K: Fn(&String) -> Option<E>,
>(
    before: FrontendApi<S>,
    after: FrontendApi<S>,
    event: Event<S>,
    route: Route,
    shell: ClientShellState,
    frozen: bool,
    registry: EndpointRegistry,
    now: u128,
    parse_raw: R,
    parse_key: K,
    outcome: Outcome<S, E>,
)
    requires
        before.handled(
            after,
            event,
            shell,
            frozen,
            registry,
            now,
            parse_raw,
            parse_key,
            outcome,
        ),
        match event.request.body {
            RequestBody::Select { route: aimed, .. } => aimed == route,
            RequestBody::Call { route: aimed, .. } => aimed == route,
            _ => false,
        },
    ensures
        !(outcome is Reply) ==> {
            &&& crate::endpoint::endpoint_named(route.endpoint_id@) matches Some(id)
                && crate::shell::endpoint_with(shell.endpoints@, id) matches Some(retained)
                && retained.boot() == crate::shell::optional_text(route.boot_id)
            &&& outcome matches Outcome::Submit(request) ==> Some(request.boot_id@)
                == crate::shell::optional_text(route.boot_id)
        },
{
}

/// A request whose boot id no longer matches the endpoint's retained snapshot is
/// refused as stale.
pub proof fn law_a_stale_route_is_refused<
    S,
    E,
    R: Fn(&[u8]) -> Vec<E>,
    K: Fn(&String) -> Option<E>,
>(
    before: FrontendApi<S>,
    after: FrontendApi<S>,
    event: Event<S>,
    route: Route,
    id: EndpointKey,
    retained: ClientShellEndpoint,
    shell: ClientShellState,
    frozen: bool,
    registry: EndpointRegistry,
    now: u128,
    parse_raw: R,
    parse_key: K,
    outcome: Outcome<S, E>,
)
    requires
        before.handled(
            after,
            event,
            shell,
            frozen,
            registry,
            now,
            parse_raw,
            parse_key,
            outcome,
        ),
        match event.request.body {
            RequestBody::Select { route: aimed, .. } => aimed == route,
            RequestBody::Call { route: aimed, .. } => aimed == route,
            _ => false,
        },
        crate::endpoint::endpoint_named(route.endpoint_id@) == Some(id),
        crate::shell::endpoint_with(shell.endpoints@, id) == Some(retained),
        retained.boot() != crate::shell::optional_text(route.boot_id),
    ensures
        after == before,
        replied(
            outcome,
            event.reply,
            error_json(
                Some(event.request.id),
                "stale_route"@,
                "endpoint identity changed; refresh the snapshot and retry once"@,
            ),
        ),
{
}

/// A request reaches the endpoint command lane only while its endpoint is online
/// and advertises the method; a call besides only while the endpoint is active
/// with an available surface that is not frozen.
pub proof fn law_the_lane_takes_only_what_an_endpoint_can_do<
    S,
    E,
    R: Fn(&[u8]) -> Vec<E>,
    K: Fn(&String) -> Option<E>,
>(
    before: FrontendApi<S>,
    after: FrontendApi<S>,
    event: Event<S>,
    shell: ClientShellState,
    frozen: bool,
    registry: EndpointRegistry,
    now: u128,
    parse_raw: R,
    parse_key: K,
    request: EndpointRequest<S>,
)
    requires
        before.handled(
            after,
            event,
            shell,
            frozen,
            registry,
            now,
            parse_raw,
            parse_key,
            Outcome::<S, E>::Submit(request),
        ),
    ensures
        method_supported(registry, request.endpoint_id@, request.method@),
        crate::shell::endpoint_with(shell.endpoints@, request.endpoint_id@) matches Some(retained)
            && retained.status == ClientEndpointStatus::Online,
        registry.active@ == request.endpoint_id@,
        event.request.body is Call ==> registry.surface_available && !frozen,
{
}

/// Whether a code is one of those a request can be refused with at once.
pub open spec fn is_refusal_code(code: Seq<char>) -> bool {
    ||| code == "stale_route"@
    ||| code == "unknown_endpoint"@
    ||| code == "endpoint_unavailable"@
    ||| code == "endpoint_not_ready"@
    ||| code == "inactive_endpoint"@
    ||| code == "unsupported_method"@
    ||| code == "invalid_params"@
    ||| code == "invalid_request"@
}

/// A request that is refused at once is refused with a documented code.
pub proof fn law_refusals_have_documented_codes<
    S,
    E,
    R: Fn(&[u8]) -> Vec<E>,
    K: Fn(&String) -> Option<E>,
>(
    before: FrontendApi<S>,
    after: FrontendApi<S>,
    event: Event<S>,
    shell: ClientShellState,
    frozen: bool,
    registry: EndpointRegistry,
    now: u128,
    parse_raw: R,
    parse_key: K,
    reply: Reply<S>,
)
    requires
        before.handled(
            after,
            event,
            shell,
            frozen,
            registry,
            now,
            parse_raw,
            parse_key,
            Outcome::<S, E>::Reply(reply),
        ),
        !carries_result(json::content(reply.response)),
    ensures
        exists|code: Seq<char>, message: Seq<char>|
            is_refusal_code(code) && json::content(reply.response) == #[trigger] error_json(
                Some(event.request.id),
                code,
                message,
            ),
{
    response_keys_differ();
}

/// No two requests of one client on the endpoint command lane have the same id.
pub proof fn law_lane_request_ids_never_repeat(client_id: Seq<char>, m: nat, n: nat)
    ensures
        lane_request_id(client_id, m) == lane_request_id(client_id, n) ==> m == n,
{
    let prefix = "frontend-api:"@ + client_id + ":"@;
    let cut = prefix.len() as int;
    if lane_request_id(client_id, m) == lane_request_id(client_id, n) {
        assert(lane_request_id(client_id, m).skip(cut) =~= crate::text::decimal_digits(m));
        assert(lane_request_id(client_id, n).skip(cut) =~= crate::text::decimal_digits(n));
        crate::text::decimal_digits_injective(m, n);
    }
}

/// A result or cancellation settles the earliest pending request that it answers,
/// and none when it answers none.
pub proof fn law_the_earliest_answered_request_is_settled<S>(
    pending: Seq<PendingRequest<S>>,
    request_id: Seq<char>,
    boot_id: Option<Seq<char>>,
    start: int,
)
    requires
        0 <= start,
    ensures
        match request_position(pending, request_id, boot_id, start) {
            Some(i) => {
                &&& start <= i < pending.len()
                &&& answers(pending[i], request_id, boot_id)
                &&& forall|j: int|
                    start <= j < i ==> !answers(#[trigger] pending[j], request_id, boot_id)
            },
            None => forall|j: int|
                start <= j < pending.len() ==> !answers(
                    #[trigger] pending[j],
                    request_id,
                    boot_id,
                ),
        },
    decreases pending.len() - start,
{
    if start < pending.len() && !answers(pending[start], request_id, boot_id) {
        law_the_earliest_answered_request_is_settled(pending, request_id, boot_id, start + 1);
    }
}

/// While request ids differ, a settled request is settled once: nothing that
/// arrives for its id afterwards finds a pending request.
pub proof fn law_a_request_is_settled_once<S>(
    pending: Seq<PendingRequest<S>>,
    request_id: Seq<char>,
    boot_id: Option<Seq<char>>,
    later_boot_id: Option<Seq<char>>,
    i: int,
)
    requires
        forall|j: int, k: int|
            0 <= j < k < pending.len() ==> (#[trigger] pending[j]).request_id@ != (
            #[trigger] pending[k]).request_id@,
        request_position(pending, request_id, boot_id, 0) == Some(i),
    ensures
        request_position(pending.remove(i), request_id, later_boot_id, 0) is None,
{
    law_the_earliest_answered_request_is_settled(pending, request_id, boot_id, 0);
    let left = pending.remove(i);
    law_the_earliest_answered_request_is_settled(left, request_id, later_boot_id, 0);
    if let Some(j) = request_position(left, request_id, later_boot_id, 0) {
        if j < i {
            assert(left[j] == pending[j]);
        } else {
            assert(left[j] == pending[j + 1]);
        }
    }
}

/// An unchanged projection is published once.
pub proof fn law_an_unchanged_projection_is_published_once<S>(
    before: FrontendApi<S>,
    once: FrontendApi<S>,
    twice: FrontendApi<S>,
    shell: ClientShellState,
    frozen: bool,
    registry: EndpointRegistry,
)
    requires
        before.refreshed(once, shell, frozen, registry),
        once.refreshed(twice, shell, frozen, registry),
    ensures
        twice == once,
{
}

/// A published snapshot has exactly the documented fields, among them the client's
/// id and a revision that no earlier snapshot had.
pub proof fn law_published_snapshots_have_the_documented_fields<S>(
    before: FrontendApi<S>,
    after: FrontendApi<S>,
    shell: ClientShellState,
    frozen: bool,
    registry: EndpointRegistry,
)
    requires
        before.refreshed(after, shell, frozen, registry),
        before.is_news(shell, frozen, registry),
    ensures
        json::content(after.snapshot) matches Json::Object(entries) && entries.dom() =~= set![
            "client_id"@,
            "revision"@,
            "focused"@,
            "input_ready"@,
            "active_endpoint_id"@,
            "input_target"@,
            "endpoints"@,
        ],
        json::content(after.snapshot).entry("client_id"@) == Json::Text(before.client_id@),
        json::content(after.snapshot).entry("revision"@) == Json::from_unsigned(after.revision),
        after.revision > before.revision,
{
    reveal_strlit("client_id");
    reveal_strlit("revision");
    assert("client_id"@.len() == 9 && "revision"@.len() == 8);
}

/// Whether JSON data lists the endpoints of a client in order, each under its
/// identity and with the boot id of its retained snapshot.
pub open spec fn lists_routes(data: Json, endpoints: Seq<ClientShellEndpoint>) -> bool {
    data.entry("endpoints"@) matches Json::Array(entries) && entries.len() == endpoints.len()
        && forall|i: int|
        0 <= i < endpoints.len() ==> (#[trigger] entries[i]).entry("endpoint_id"@) == Json::Text(
            endpoints[i].endpoint_id@.storage_text(),
        ) && entries[i].entry("boot_id"@) == Json::from_optional_text(endpoints[i].boot())
}

proof fn published_projection_lists_routes<S>(
    api: FrontendApi<S>,
    shell: ClientShellState,
    frozen: bool,
    registry: EndpointRegistry,
)
    requires
        api.shows(shell, frozen, registry),
    ensures
        lists_routes(json::content(api.snapshot), shell.endpoints@),
{
    reveal_strlit("client_id");
    reveal_strlit("revision");
    reveal_strlit("endpoints");
    assert("client_id"@[0] == 'c' && "revision"@.len() == 8 && "endpoints"@.len() == 9
        && "endpoints"@[0] == 'e');
    let entries = crate::shell::endpoints_published(shell.endpoints@);
    assert(json::content(api.snapshot).entry("endpoints"@) == Json::Array(entries));
    assert forall|i: int| 0 <= i < shell.endpoints@.len() implies (#[trigger] entries[i]).entry(
        "endpoint_id"@,
    ) == Json::Text(shell.endpoints@[i].endpoint_id@.storage_text()) && entries[i].entry(
        "boot_id"@,
    ) == Json::from_optional_text(shell.endpoints@[i].boot()) by {
        crate::shell::law_an_entry_names_its_endpoint_and_boot(shell.endpoints@[i]);
    }
}

/// A subscription holds current routes: whenever the loop has published, the
/// snapshot lists the endpoints that the client retains, each with the boot id of
/// its retained snapshot. `shown` is what the snapshot was published from before;
/// what is observed now and then must not be different observations that share a
/// fingerprint.
pub proof fn law_a_subscription_holds_current_routes<S>(
    before: FrontendApi<S>,
    after: FrontendApi<S>,
    shown: ClientShellState,
    shown_frozen: bool,
    shown_registry: EndpointRegistry,
    shell: ClientShellState,
    frozen: bool,
    registry: EndpointRegistry,
)
    requires
        before.previous_observation is None || before.shows(shown, shown_frozen, shown_registry),
        before.refreshed(after, shell, frozen, registry),
        shown.observed(shown_registry, shown_frozen).fingerprint() == shell.observed(
            registry,
            frozen,
        ).fingerprint() ==> shown.observed(shown_registry, shown_frozen) == shell.observed(
            registry,
            frozen,
        ),
    ensures
        lists_routes(json::content(after.snapshot), shell.endpoints@),
        after.shows(shell, frozen, registry) || (after == before && after.shows(
            shown,
            shown_frozen,
            shown_registry,
        )),
{
    if before.is_news(shell, frozen, registry) {
        published_projection_lists_routes(after, shell, frozen, registry);
    } else {
        published_projection_lists_routes(before, shown, shown_frozen, shown_registry);
        let then = crate::shell::endpoints_observed(shown.endpoints@, shown_registry);
        let now = crate::shell::endpoints_observed(shell.endpoints@, registry);
        assert(then == now);
        assert(then.len() == shown.endpoints@.len() && now.len() == shell.endpoints@.len());
        assert forall|i: int| 0 <= i < shell.endpoints@.len() implies
            #[trigger] shell.endpoints@[i].endpoint_id@ == shown.endpoints@[i].endpoint_id@
            && shell.endpoints@[i].boot() == shown.endpoints@[i].boot() by {
            assert(then[i] == shown.endpoints@[i].observed(shown_registry));
            assert(now[i] == shell.endpoints@[i].observed(registry));
        }
        let entries = json::content(after.snapshot).entry("endpoints"@)->Array_0;
        assert forall|i: int| 0 <= i < shell.endpoints@.len() implies (#[trigger] entries[i]).entry(
            "endpoint_id"@,
        ) == Json::Text(shell.endpoints@[i].endpoint_id@.storage_text()) && entries[i].entry(
            "boot_id"@,
        ) == Json::from_optional_text(shell.endpoints@[i].boot()) by {
            assert(shell.endpoints@[i].endpoint_id@ == shown.endpoints@[i].endpoint_id@);
        }
    }
}

/// Handling a request changes the published snapshot only by publishing, and only
/// a snapshot request publishes.
pub proof fn law_only_publishing_changes_the_snapshot<
    S,
    E,
    R: Fn(&[u8]) -> Vec<E>,
    K: Fn(&String) -> Option<E>,
>(
    before: FrontendApi<S>,
    after: FrontendApi<S>,
    event: Event<S>,
    shell: ClientShellState,
    frozen: bool,
    registry: EndpointRegistry,
    now: u128,
    parse_raw: R,
    parse_key: K,
    outcome: Outcome<S, E>,
)
    requires
        before.handled(
            after,
            event,
            shell,
            frozen,
            registry,
            now,
            parse_raw,
            parse_key,
            outcome,
        ),
    ensures
        event.request.body is Snapshot ==> before.refreshed(after, shell, frozen, registry),
        !(event.request.body is Snapshot) ==> after.snapshot == before.snapshot && after.revision
            == before.revision && after.previous_observation == before.previous_observation,
{
}

/// A route read off a snapshot that lists the retained endpoints resolves to the
/// endpoint it was read from.
pub proof fn law_a_listed_route_resolves(
    data: Json,
    entries: Seq<Json>,
    i: int,
    route: Route,
    shell: ClientShellState,
)
    requires
        shell.well_formed(),
        lists_routes(data, shell.endpoints@),
        data.entry("endpoints"@) == Json::Array(entries),
        0 <= i < entries.len(),
        entries[i].entry("endpoint_id"@) == Json::Text(route.endpoint_id@),
        entries[i].entry("boot_id"@) == Json::from_optional_text(
            crate::shell::optional_text(route.boot_id),
        ),
    ensures
        route_resolved(route, shell) == Ok::<EndpointKey, (Seq<char>, Seq<char>)>(
            shell.endpoints@[i].endpoint_id@,
        ),
{
    assert(shell.endpoints@[i].well_formed());
    retained_endpoint_is_found(shell.endpoints@, i);
}

proof fn retained_endpoint_is_found(endpoints: Seq<ClientShellEndpoint>, i: int)
    requires
        0 <= i < endpoints.len(),
        forall|j: int|
            0 <= j < i ==> (#[trigger] endpoints[j]).endpoint_id@ != endpoints[i].endpoint_id@,
    ensures
        crate::shell::endpoint_with(endpoints, endpoints[i].endpoint_id@) == Some(endpoints[i]),
    decreases endpoints.len(),
{
    if i > 0 {
        let rest = endpoints.skip(1);
        assert(endpoints[0].endpoint_id@ != endpoints[i].endpoint_id@);
        assert(rest[i - 1] == endpoints[i]);
        assert forall|j: int| 0 <= j < i - 1 implies (#[trigger] rest[j]).endpoint_id@
            != rest[i - 1].endpoint_id@ by {
            assert(rest[j] == endpoints[j + 1]);
        }
        retained_endpoint_is_found(rest, i - 1);
    }
}

/// Every pending select is either answered or kept, never both and never neither.
pub proof fn law_selects_are_answered_or_kept<S>(
    selects: Seq<PendingSelect<S>>,
    shell: ClientShellState,
    now: u128,
)
    ensures
        due_selects(selects, shell, now).to_multiset().add(
            waiting_selects(selects, shell, now).to_multiset(),
        ) =~= selects.to_multiset(),
    decreases selects.len(),
{
    broadcast use vstd::seq_lib::group_to_multiset_ensures;

    reveal(Seq::filter);
    if selects.len() > 0 {
        let init = selects.drop_last();
        law_selects_are_answered_or_kept(init, shell, now);
        assert(selects =~= init.push(selects.last()));
    }
}

/// A pending select is answered with success exactly when its target is observed
/// focused on its endpoint; otherwise it waits out the deadline and then times
/// out.
pub proof fn law_a_select_settles_from_observation<S>(
    select: PendingSelect<S>,
    shell: ClientShellState,
    now: u128,
)
    ensures
        (select.due(shell, now) matches Some(response) && carries_result(response)) <==> (
        shell.active_endpoint_id@ == select.endpoint@ && shell.target_focused(select.target@)),
        select.due(shell, now) is None <==> !(shell.active_endpoint_id@ == select.endpoint@
            && shell.target_focused(select.target@)) && now - select.queued_at
            < SELECT_DEADLINE_NANOS,
{
    response_keys_differ();
}

/// A target becomes a focus target of the same kind with the same id.
pub proof fn law_a_target_keeps_its_kind_and_id(target: Target, focus: ClientEndpointFocusTarget)
    requires
        focus@ == target@ || focus
            == <ClientEndpointFocusTarget as vstd::std_specs::convert::FromSpec<Target>>::from_spec(
        target),
    ensures
        target matches Target::Workspace(asked) ==> (focus matches ClientEndpointFocusTarget::Workspace(aimed) && aimed@
            == asked@),
        target matches Target::Tab(asked) ==> (focus matches ClientEndpointFocusTarget::Tab(aimed) && aimed@
            == asked@),
        target matches Target::Pane(asked) ==> (focus matches ClientEndpointFocusTarget::Pane(aimed) && aimed@
            == asked@),
{
}

/// A select on an endpoint that is not active starts its activation with the very
/// target that was asked for, and queues one select that waits for that target on
/// that endpoint: workspace for workspace, tab for tab, pane for pane.
pub proof fn law_a_select_elsewhere_carries_its_target<
    S,
    E,
    R: Fn(&[u8]) -> Vec<E>,
    K: Fn(&String) -> Option<E>,
>(
    before: FrontendApi<S>,
    after: FrontendApi<S>,
    event: Event<S>,
    route: Route,
    target: Target,
    id: EndpointKey,
    retained: ClientShellEndpoint,
    shell: ClientShellState,
    frozen: bool,
    registry: EndpointRegistry,
    now: u128,
    parse_raw: R,
    parse_key: K,
    outcome: Outcome<S, E>,
)
    requires
        before.handled(
            after,
            event,
            shell,
            frozen,
            registry,
            now,
            parse_raw,
            parse_key,
            outcome,
        ),
        event.request.body == (RequestBody::Select { route, target }),
        crate::endpoint::endpoint_named(route.endpoint_id@) == Some(id),
        crate::shell::endpoint_with(shell.endpoints@, id) == Some(retained),
        retained.snapshot is Some <==> route.boot_id is Some,
        retained.snapshot is Some ==> retained.snapshot->0.boot_id@ == route.boot_id->0@,
        registry.active@ != id,
    ensures
        outcome matches Outcome::Dispatch(Dispatch::Select { endpoint, .. }) && endpoint@ == id,
        after.pending_selects@.len() == before.pending_selects@.len() + 1,
        forall|i: int|
            0 <= i < before.pending_selects@.len() ==> #[trigger] after.pending_selects@[i]
                == before.pending_selects@[i],
        after.pending_selects@.last().id == event.request.id,
        after.pending_selects@.last().sender == event.reply,
        after.pending_selects@.last().endpoint@ == id,
        after.pending_selects@.last().queued_at == now,
        after.revision == before.revision && after.next_request == before.next_request,
        target matches Target::Workspace(asked) ==> (after.pending_selects@.last().target matches ClientEndpointFocusTarget::Workspace(aimed) && aimed@
            == asked@),
        target matches Target::Tab(asked) ==> (after.pending_selects@.last().target matches ClientEndpointFocusTarget::Tab(aimed) && aimed@
            == asked@),
        target matches Target::Pane(asked) ==> (after.pending_selects@.last().target matches ClientEndpointFocusTarget::Pane(aimed) && aimed@
            == asked@),
        target matches Target::Workspace(asked) ==> (outcome->Dispatch_0->Select_target matches ClientEndpointFocusTarget::Workspace(aimed) && aimed@
            == asked@),
        target matches Target::Tab(asked) ==> (outcome->Dispatch_0->Select_target matches ClientEndpointFocusTarget::Tab(aimed) && aimed@
            == asked@),
        target matches Target::Pane(asked) ==> (outcome->Dispatch_0->Select_target matches ClientEndpointFocusTarget::Pane(aimed) && aimed@
            == asked@),
{
    assert forall|i: int| 0 <= i < before.pending_selects@.len() implies
        #[trigger] after.pending_selects@[i] == before.pending_selects@[i] by {
        assert(after.pending_selects@.drop_last()[i] == after.pending_selects@[i]);
    }
}

/// The method that focuses a target and the parameters it is called with name the
/// target's own kind and id, and nothing else.
pub proof fn law_a_focus_method_names_the_target(target: Target)
    ensures
        target matches Target::Workspace(id) ==> target@.focus_method_name() == "workspace.focus"@
            && target@.focus_params() == Json::Object(
            Map::empty().insert("workspace_id"@, Json::Text(id@)),
        ),
        target matches Target::Tab(id) ==> target@.focus_method_name() == "tab.focus"@
            && target@.focus_params() == Json::Object(
            Map::empty().insert("tab_id"@, Json::Text(id@)),
        ),
        target matches Target::Pane(id) ==> target@.focus_method_name() == "pane.focus"@
            && target@.focus_params() == Json::Object(
            Map::empty().insert("pane_id"@, Json::Text(id@)),
        ),
{
}

/// Whether a connection advertised a method to the client.
pub open spec fn has_method(connection: EndpointConnection, method: Seq<char>) -> bool {
    exists|k: int|
        0 <= k < connection.methods@.len() && (#[trigger] connection.methods@[k])@ == method
}

proof fn lane_document_keys_differ()
    ensures
        "id"@ != "method"@,
        "id"@ != "params"@,
        "method"@ != "params"@,
{
    reveal_strlit("id");
    reveal_strlit("method");
    reveal_strlit("params");
    assert("id"@.len() == 2 && "method"@[0] == 'm' && "params"@[0] == 'p' && "method"@.len() == 6
        && "params"@.len() == 6);
}

/// A call on the active endpoint, with an available surface that is not frozen, is
/// submitted where the endpoint is online under a boot and advertises the method:
/// the method and parameters asked for, under a fresh request id, to the endpoint's
/// connection and boot, with the reply owed to the consumer who asked.
pub proof fn law_a_call_is_submitted_as_it_was_asked<
    S,
    E,
    R: Fn(&[u8]) -> Vec<E>,
    K: Fn(&String) -> Option<E>,
>(
    before: FrontendApi<S>,
    after: FrontendApi<S>,
    event: Event<S>,
    route: Route,
    method: String,
    params: serde_json::Value,
    id: EndpointKey,
    retained: ClientShellEndpoint,
    connection: EndpointConnection,
    shell: ClientShellState,
    frozen: bool,
    registry: EndpointRegistry,
    now: u128,
    parse_raw: R,
    parse_key: K,
    outcome: Outcome<S, E>,
)
    requires
        before.handled(
            after,
            event,
            shell,
            frozen,
            registry,
            now,
            parse_raw,
            parse_key,
            outcome,
        ),
        event.request.body == (RequestBody::Call { route, method, params }),
        crate::endpoint::endpoint_named(route.endpoint_id@) == Some(id),
        crate::shell::endpoint_with(shell.endpoints@, id) == Some(retained),
        retained.snapshot is Some <==> route.boot_id is Some,
        retained.snapshot is Some ==> retained.snapshot->0.boot_id@ == route.boot_id->0@,
        registry.active@ == id,
        registry.surface_available,
        !frozen,
        retained.status == ClientEndpointStatus::Online,
        retained.snapshot is Some,
        crate::endpoint::connection_to(registry.connections@, id) == Some(connection),
        retained.endpoint_id@ == id,
        has_method(connection, method@),
    ensures
        outcome is Submit,
        outcome->Submit_0.method@ == method@,
        outcome->Submit_0.endpoint_id@ == id,
        outcome->Submit_0.generation == connection.generation,
        outcome->Submit_0.boot_id@ == route.boot_id->0@,
        outcome->Submit_0.reply.id == event.request.id,
        outcome->Submit_0.reply.sender == event.reply,
        outcome->Submit_0.request_id@ == "frontend-api:"@ + before.client_id@ + ":"@
            + crate::text::decimal_digits((before.next_request + 1) as nat),
        json::content(outcome->Submit_0.document).entry("id"@) == Json::Text(
            outcome->Submit_0.request_id@,
        ),
        json::content(outcome->Submit_0.document).entry("method"@) == Json::Text(method@),
        json::content(outcome->Submit_0.document).entry("params"@) == json::content(params),
        after.next_request == before.next_request + 1,
        after.pending_selects == before.pending_selects,
{
    lane_document_keys_differ();
    assert(connection.advertises(method@));
}

/// A select on the active endpoint is submitted as the focus method of its own
/// kind, with the id asked for.
pub proof fn law_a_select_here_is_submitted_as_a_focus_call<
    S,
    E,
    R: Fn(&[u8]) -> Vec<E>,
    K: Fn(&String) -> Option<E>,
>(
    before: FrontendApi<S>,
    after: FrontendApi<S>,
    event: Event<S>,
    route: Route,
    target: Target,
    id: EndpointKey,
    retained: ClientShellEndpoint,
    connection: EndpointConnection,
    method: Seq<char>,
    key: Seq<char>,
    asked: Seq<char>,
    shell: ClientShellState,
    frozen: bool,
    registry: EndpointRegistry,
    now: u128,
    parse_raw: R,
    parse_key: K,
    outcome: Outcome<S, E>,
)
    requires
        before.handled(
            after,
            event,
            shell,
            frozen,
            registry,
            now,
            parse_raw,
            parse_key,
            outcome,
        ),
        event.request.body == (RequestBody::Select { route, target }),
        crate::endpoint::endpoint_named(route.endpoint_id@) == Some(id),
        crate::shell::endpoint_with(shell.endpoints@, id) == Some(retained),
        retained.snapshot is Some <==> route.boot_id is Some,
        retained.snapshot is Some ==> retained.snapshot->0.boot_id@ == route.boot_id->0@,
        registry.active@ == id,
        retained.status == ClientEndpointStatus::Online,
        retained.snapshot is Some,
        crate::endpoint::connection_to(registry.connections@, id) == Some(connection),
        retained.endpoint_id@ == id,
        has_method(connection, method),
        match target {
            Target::Workspace(text) => method == "workspace.focus"@ && key == "workspace_id"@
                && asked == text@,
            Target::Tab(text) => method == "tab.focus"@ && key == "tab_id"@ && asked == text@,
            Target::Pane(text) => method == "pane.focus"@ && key == "pane_id"@ && asked == text@,
        },
    ensures
        outcome is Submit,
        outcome->Submit_0.method@ == method,
        outcome->Submit_0.endpoint_id@ == id,
        outcome->Submit_0.generation == connection.generation,
        outcome->Submit_0.boot_id@ == route.boot_id->0@,
        outcome->Submit_0.reply.id == event.request.id,
        outcome->Submit_0.reply.sender == event.reply,
        json::content(outcome->Submit_0.document).entry("method"@) == Json::Text(method),
        json::content(outcome->Submit_0.document).entry("params"@) == Json::Object(
            Map::empty().insert(key, Json::Text(asked)),
        ),
        after.next_request == before.next_request + 1,
        after.pending_selects == before.pending_selects,
{
    lane_document_keys_differ();
    assert(connection.advertises(method));
}

/// A call is refused while its endpoint is not active, or its surface is not
/// available, or it is frozen.
pub proof fn law_a_call_needs_the_active_endpoint<
    S,
    E,
    R: Fn(&[u8]) -> Vec<E>,
    K: Fn(&String) -> Option<E>,
>(
    before: FrontendApi<S>,
    after: FrontendApi<S>,
    event: Event<S>,
    route: Route,
    method: String,
    params: serde_json::Value,
    id: EndpointKey,
    retained: ClientShellEndpoint,
    shell: ClientShellState,
    frozen: bool,
    registry: EndpointRegistry,
    now: u128,
    parse_raw: R,
    parse_key: K,
    outcome: Outcome<S, E>,
)
    requires
        before.handled(
            after,
            event,
            shell,
            frozen,
            registry,
            now,
            parse_raw,
            parse_key,
            outcome,
        ),
        event.request.body == (RequestBody::Call { route, method, params }),
        crate::endpoint::endpoint_named(route.endpoint_id@) == Some(id),
        crate::shell::endpoint_with(shell.endpoints@, id) == Some(retained),
        retained.snapshot is Some <==> route.boot_id is Some,
        retained.snapshot is Some ==> retained.snapshot->0.boot_id@ == route.boot_id->0@,
        registry.active@ != id || !registry.surface_available || frozen,
    ensures
        after == before,
        outcome is Reply,
        outcome->Reply_0.sender == event.reply,
        json::content(outcome->Reply_0.response).entry("type"@) == Json::Text("error"@),
        json::content(outcome->Reply_0.response).entry("id"@) == Json::from_unsigned(
            event.request.id,
        ),
        json::content(outcome->Reply_0.response).entry("error"@).entry("code"@) == Json::Text(
            "inactive_endpoint"@,
        ),
{
    response_keys_differ();
    reveal_strlit("code");
    reveal_strlit("message");
    assert("code"@.len() == 4 && "message"@.len() == 7);
}

/// The lane refuses a request for the first of these reasons that holds, and for
/// no other: the endpoint is not retained, is not online, has no snapshot, or has
/// no connection that advertises the method.
pub proof fn law_the_lane_refuses_for_its_reasons_only(
    shell: ClientShellState,
    registry: EndpointRegistry,
    endpoint: EndpointKey,
    method: Seq<char>,
)
    ensures
        ({
            let retained = crate::shell::endpoint_with(shell.endpoints@, endpoint);
            let connection = crate::endpoint::connection_to(registry.connections@, endpoint);
            let refusal = lane_refusal(shell, registry, endpoint, method);
            if retained is None {
                refusal is Some && (refusal->0).0 == "unknown_endpoint"@
            } else if retained->0.status != ClientEndpointStatus::Online {
                refusal is Some && (refusal->0).0 == "endpoint_unavailable"@
            } else if retained->0.snapshot is None {
                refusal is Some && (refusal->0).0 == "endpoint_not_ready"@
            } else if !(connection is Some && has_method(connection->0, method)) {
                refusal is Some && (refusal->0).0 == "unsupported_method"@
            } else {
                refusal is None
            }
        }),
{
    if let Some(connection) = crate::endpoint::connection_to(registry.connections@, endpoint) {
        assert(connection.advertises(method) == has_method(connection, method));
    }
}

/// A route resolves to the endpoint it names exactly where the client retains that
/// endpoint under the very boot the route captured, or under none where it captured
/// none; otherwise it is refused as unknown or as stale.
pub proof fn law_a_route_resolves_under_its_boot_only(route: Route, shell: ClientShellState)
    ensures
        ({
            let id = crate::endpoint::endpoint_named(route.endpoint_id@);
            let resolved = route_resolved(route, shell);
            if id is None || crate::shell::endpoint_with(shell.endpoints@, id->0) is None {
                resolved is Err && resolved->Err_0.0 == "unknown_endpoint"@
            } else {
                let retained = crate::shell::endpoint_with(shell.endpoints@, id->0)->0;
                if (retained.snapshot is Some <==> route.boot_id is Some) && (retained.snapshot
                    is Some ==> retained.snapshot->0.boot_id@ == route.boot_id->0@) {
                    resolved == Ok::<EndpointKey, (Seq<char>, Seq<char>)>(id->0)
                } else {
                    resolved is Err && resolved->Err_0.0 == "stale_route"@
                }
            }
        }),
{
}

/// An endpoint's result is the reply's result; a rejection is an error under the
/// endpoint's own code, `cancelled` for a cancellation and `endpoint_error` where
/// it gave none, with its message; both carry the id of the request.
pub proof fn law_a_settled_reply_carries_what_the_endpoint_said(
    id: u64,
    result: Result<serde_json::Value, ClientShellEndpointError>,
)
    ensures
        settled_json(id, result).entry("id"@) == Json::from_unsigned(id),
        result matches Ok(value) ==> settled_json(id, result).entry("type"@) == Json::Text(
            "reply"@,
        ) && settled_json(id, result).entry("result"@) == json::content(value),
        result matches Err(rejected) ==> {
            let response = settled_json(id, result);
            &&& response.entry("type"@) == Json::Text("error"@)
            &&& response.entry("error"@).entry("message"@) == Json::Text(rejected.message@)
            &&& rejected.code is None ==> response.entry("error"@).entry("code"@) == Json::Text(
                "endpoint_error"@,
            )
            &&& rejected.code is Some && rejected.code->0@ == "endpoint_cancelled"@
                ==> response.entry("error"@).entry("code"@) == Json::Text("cancelled"@)
            &&& rejected.code is Some && rejected.code->0@ != "endpoint_cancelled"@
                ==> response.entry("error"@).entry("code"@) == Json::Text(rejected.code->0@)
        },
{
    response_keys_differ();
    reveal_strlit("code");
    reveal_strlit("message");
    assert("code"@.len() == 4 && "message"@.len() == 7);
}

/// Settling takes exactly the answered request out of the pending ones, keeps the
/// others in their order, and gives back the handle that request was made with.
pub proof fn law_settling_takes_out_one_request<S>(
    before: Seq<PendingRequest<S>>,
    after: Seq<PendingRequest<S>>,
    i: int,
    result: Result<serde_json::Value, ClientShellEndpointError>,
    reply: Option<Reply<S>>,
)
    requires
        0 <= i < before.len(),
        request_settled(before, after, Some(i), result, reply),
    ensures
        reply is Some,
        reply->0.sender == before[i].reply.sender,
        json::content(reply->0.response).entry("id"@) == Json::from_unsigned(before[i].reply.id),
        after.len() == before.len() - 1,
        forall|j: int| 0 <= j < i ==> #[trigger] after[j] == before[j],
        forall|j: int| i <= j < after.len() ==> #[trigger] after[j] == before[j + 1],
{
    law_a_settled_reply_carries_what_the_endpoint_said(before[i].reply.id, result);
}

/// A select that waits is answered with success as soon as its endpoint is active
/// and the active snapshot focuses its target, whatever the time; otherwise with a
/// timeout from twelve seconds after it was queued on, and not before.
pub proof fn law_a_select_waits_twelve_seconds_for_its_target<S>(
    select: PendingSelect<S>,
    shell: ClientShellState,
    now: u128,
)
    ensures
        ({
            let observed = shell.active_endpoint_id@ == select.endpoint@ && shell.snapshot is Some
                && match select.target {
                ClientEndpointFocusTarget::Workspace(id) => {
                    let focused = shell.snapshot->0.focused_workspace_id;
                    focused is Some && focused->0@ == id@
                },
                ClientEndpointFocusTarget::Tab(id) => {
                    let focused = shell.snapshot->0.focused_tab_id;
                    focused is Some && focused->0@ == id@
                },
                ClientEndpointFocusTarget::Pane(id) => {
                    let focused = shell.snapshot->0.focused_pane_id;
                    focused is Some && focused->0@ == id@
                },
            };
            let due = select.due(shell, now);
            if observed {
                &&& due is Some
                &&& due->0.entry("type"@) == Json::Text("reply"@)
                &&& due->0.entry("id"@) == Json::from_unsigned(select.id)
                &&& due->0.entry("result"@).entry("ok"@) == Json::Bool(true)
            } else if now >= select.queued_at + 12_000_000_000 {
                &&& due is Some
                &&& due->0.entry("type"@) == Json::Text("error"@)
                &&& due->0.entry("id"@) == Json::from_unsigned(select.id)
                &&& due->0.entry("error"@).entry("code"@) == Json::Text("timeout"@)
            } else {
                due is None
            }
        }),
{
    response_keys_differ();
    reveal_strlit("code");
    reveal_strlit("message");
    assert("code"@.len() == 4 && "message"@.len() == 7);
}

/// Settling answers the selects that are due and no others, and keeps those that
/// are not due and no others.
pub proof fn law_only_due_selects_are_answered<S>(
    selects: Seq<PendingSelect<S>>,
    shell: ClientShellState,
    now: u128,
    select: PendingSelect<S>,
)
    ensures
        due_selects(selects, shell, now).contains(select) <==> selects.contains(select)
            && select.due(shell, now) is Some,
        waiting_selects(selects, shell, now).contains(select) <==> selects.contains(select)
            && select.due(shell, now) is None,
{
    broadcast use vstd::seq_lib::group_filter_ensures;

    let is_due = |select: PendingSelect<S>| select.due(shell, now) is Some;
    let is_waiting = |select: PendingSelect<S>| select.due(shell, now) is None;
    if selects.filter(is_due).contains(select) {
        selects.lemma_filter_contains_rev(is_due, select);
    }
    if selects.filter(is_waiting).contains(select) {
        selects.lemma_filter_contains_rev(is_waiting, select);
    }
}

/// A snapshot request is answered with an empty result under its id, a
/// subscription that gets here is refused, and neither waits.
pub proof fn law_observation_requests_are_answered_at_once<
    S,
    E,
    R: Fn(&[u8]) -> Vec<E>,
    K: Fn(&String) -> Option<E>,
>(
    before: FrontendApi<S>,
    after: FrontendApi<S>,
    event: Event<S>,
    shell: ClientShellState,
    frozen: bool,
    registry: EndpointRegistry,
    now: u128,
    parse_raw: R,
    parse_key: K,
    outcome: Outcome<S, E>,
)
    requires
        before.handled(
            after,
            event,
            shell,
            frozen,
            registry,
            now,
            parse_raw,
            parse_key,
            outcome,
        ),
        event.request.body is Snapshot || event.request.body is Subscribe,
    ensures
        outcome is Reply,
        outcome->Reply_0.sender == event.reply,
        json::content(outcome->Reply_0.response).entry("id"@) == Json::from_unsigned(
            event.request.id,
        ),
        event.request.body is Snapshot ==> json::content(outcome->Reply_0.response).entry("type"@)
            == Json::Text("reply"@) && json::content(outcome->Reply_0.response).entry("result"@)
            == Json::Null,
        event.request.body is Subscribe ==> json::content(outcome->Reply_0.response).entry("type"@)
            == Json::Text("error"@) && json::content(outcome->Reply_0.response).entry(
            "error"@,
        ).entry("code"@) == Json::Text("invalid_request"@) && after == before,
{
    response_keys_differ();
    reveal_strlit("code");
    reveal_strlit("message");
    assert("code"@.len() == 4 && "message"@.len() == 7);
}

/// Input is dispatched exactly where one of text and keys is given and every key is
/// known: the text read as a whole, or one event for each key in order, each what
/// its key was read as. The reply stays with the loop under the request's id.
pub proof fn law_input_is_dispatched_as_it_was_given<
    S,
    E,
    R: Fn(&[u8]) -> Vec<E>,
    K: Fn(&String) -> Option<E>,
>(
    before: FrontendApi<S>,
    after: FrontendApi<S>,
    event: Event<S>,
    text: Option<String>,
    keys: Option<Vec<String>>,
    shell: ClientShellState,
    frozen: bool,
    registry: EndpointRegistry,
    now: u128,
    parse_raw: R,
    parse_key: K,
    outcome: Outcome<S, E>,
)
    requires
        before.handled(
            after,
            event,
            shell,
            frozen,
            registry,
            now,
            parse_raw,
            parse_key,
            outcome,
        ),
        event.request.body == (RequestBody::Input { text, keys }),
    ensures
        after == before,
        text is Some && keys is None ==> (outcome matches Outcome::Dispatch(
            Dispatch::Input { id, reply, events },
        ) && id == event.request.id && reply == event.reply && exists|bytes: &[u8], read: Vec<E>|
            bytes@ == vstd::utf8::encode_utf8(text->0@) && #[trigger] call_ensures(
                parse_raw,
                (bytes,),
                read,
            ) && read@ == events@),
        text is None && keys is Some ==> match outcome {
            Outcome::Dispatch(Dispatch::Input { id, reply, events }) => {
                &&& id == event.request.id
                &&& reply == event.reply
                &&& events@.len() == keys->0@.len()
                &&& forall|i: int|
                    0 <= i < events@.len() ==> call_ensures(
                        parse_key,
                        (&keys->0@[i],),
                        Some(#[trigger] events@[i]),
                    )
            },
            Outcome::Reply(refusal) => {
                &&& refusal.sender == event.reply
                &&& exists|i: int|
                    0 <= i < keys->0@.len() && call_ensures(
                        parse_key,
                        (&#[trigger] keys->0@[i],),
                        None::<E>,
                    )
            },
            _ => false,
        },
        (text is Some <==> keys is Some) ==> outcome is Reply && outcome->Reply_0.sender
            == event.reply && json::content(outcome->Reply_0.response).entry("error"@).entry(
            "message"@,
        ) == Json::Text("provide exactly one of text or keys"@),
        outcome is Reply ==> json::content(outcome->Reply_0.response).entry("error"@).entry(
            "code"@,
        ) == Json::Text("invalid_params"@) && json::content(outcome->Reply_0.response).entry("id"@)
            == Json::from_unsigned(event.request.id),
{
    response_keys_differ();
    reveal_strlit("code");
    reveal_strlit("message");
    assert("code"@.len() == 4 && "message"@.len() == 7);
    if text is None && keys is Some && outcome is Reply {
        let message = choose|message: Seq<char>| #[trigger]
            input_refused::<E, K>(text, keys, parse_key, message) && json::content(
                outcome->Reply_0.response,
            ) == error_json(Some(event.request.id), "invalid_params"@, message);
        let events = choose|events: Seq<E>| key_unknown(keys->0@, parse_key, events, message);
        assert(call_ensures(parse_key, (&keys->0@[events.len() as int],), None::<E>));
    }
}

/// What is observed is published exactly where its fingerprint is not the one that
/// was published last: then under the next revision, with the client's id, and in
/// every other field as the client projects it.
pub proof fn law_a_new_observation_is_published<S>(
    before: FrontendApi<S>,
    after: FrontendApi<S>,
    shell: ClientShellState,
    frozen: bool,
    registry: EndpointRegistry,
    field: Seq<char>,
)
    requires
        before.refreshed(after, shell, frozen, registry),
    ensures
        ({
            let fingerprint = shell.observed(registry, frozen).fingerprint();
            if before.previous_observation == Some(fingerprint) {
                after == before
            } else {
                &&& after.revision == before.revision + 1
                &&& after.previous_observation == Some(fingerprint)
                &&& json::content(after.snapshot).entry("revision"@) == Json::from_unsigned(
                    after.revision,
                )
                &&& json::content(after.snapshot).entry("client_id"@) == Json::Text(
                    before.client_id@,
                )
                &&& field != "revision"@ && field != "client_id"@ ==> json::content(
                    after.snapshot,
                ).entry(field) == shell.published(registry, frozen).entry(field)
                &&& after.client_id == before.client_id
                &&& after.pending_selects == before.pending_selects
                &&& after.next_request == before.next_request
            }
        }),
{
    reveal_strlit("client_id");
    reveal_strlit("revision");
    assert("client_id"@.len() == 9 && "revision"@.len() == 8);
}

/// A change of a retained endpoint, such as a new revision of its snapshot, is
/// published with the new document, unless the two observations share a
/// fingerprint: whatever was published before, the next publication has a new
/// revision and carries what is retained now.
pub proof fn law_a_changed_endpoint_is_published<S>(
    before: FrontendApi<S>,
    once: FrontendApi<S>,
    twice: FrontendApi<S>,
    shown: ClientShellState,
    shown_frozen: bool,
    shown_registry: EndpointRegistry,
    shell: ClientShellState,
    frozen: bool,
    registry: EndpointRegistry,
    i: int,
)
    requires
        before.refreshed(once, shown, shown_frozen, shown_registry),
        once.refreshed(twice, shell, frozen, registry),
        0 <= i < shown.endpoints@.len(),
        i < shell.endpoints@.len(),
        ({
            let (then, now) = (shown.endpoints@[i], shell.endpoints@[i]);
            ||| then.endpoint_id@ != now.endpoint_id@
            ||| then.label@ != now.label@
            ||| then.status != now.status
            ||| then.snapshot_generation != now.snapshot_generation
            ||| then.snapshot is Some != now.snapshot is Some
            ||| then.snapshot is Some && then.snapshot->0.boot_id@ != now.snapshot->0.boot_id@
            ||| then.snapshot is Some && then.snapshot->0.revision != now.snapshot->0.revision
        }),
        shown.observed(shown_registry, shown_frozen).fingerprint() == shell.observed(
            registry,
            frozen,
        ).fingerprint() ==> shown.observed(shown_registry, shown_frozen) == shell.observed(
            registry,
            frozen,
        ),
    ensures
        twice.revision == once.revision + 1,
        json::content(twice.snapshot).entry("endpoints"@) matches Json::Array(entries)
            && entries.len() == shell.endpoints@.len() && entries[i].entry("label"@) == Json::Text(
            shell.endpoints@[i].label@,
        ) && (shell.endpoints@[i].snapshot is Some ==> entries[i].entry("snapshot"@)
            == json::content(shell.endpoints@[i].snapshot->0.document)),
{
    reveal_strlit("client_id");
    reveal_strlit("revision");
    reveal_strlit("endpoints");
    assert("client_id"@[0] == 'c' && "revision"@.len() == 8 && "endpoints"@.len() == 9
        && "endpoints"@[0] == 'e');
    crate::shell::law_the_observation_is_every_scalar_of_the_projection(
        shown,
        shell,
        shown_registry,
        registry,
        shown_frozen,
        frozen,
    );
    assert(!crate::shell::same_endpoint_scalars(shown.endpoints@[i], shell.endpoints@[i]));
    crate::shell::law_the_snapshot_lists_every_endpoint(shell, registry, frozen, i);
}

/// A pending request answers to its own id and, where a boot is given, to its own
/// boot.
pub proof fn law_a_request_answers_to_its_id_and_boot<S>(
    request: PendingRequest<S>,
    request_id: Seq<char>,
    boot_id: Option<Seq<char>>,
)
    ensures
        answers(request, request_id, boot_id) <==> request.request_id@ == request_id && (boot_id
            is None || boot_id->0 == request.boot_id@),
{
}

/// A select or call whose route does not resolve, or that the lane refuses, changes
/// nothing and is told why: an error with the code and message of the refusal,
/// under the request's id, to the consumer who asked.
pub proof fn law_a_refused_request_is_told_why<
    S,
    E,
    R: Fn(&[u8]) -> Vec<E>,
    K: Fn(&String) -> Option<E>,
>(
    before: FrontendApi<S>,
    after: FrontendApi<S>,
    event: Event<S>,
    route: Route,
    code: Seq<char>,
    message: Seq<char>,
    shell: ClientShellState,
    frozen: bool,
    registry: EndpointRegistry,
    now: u128,
    parse_raw: R,
    parse_key: K,
    outcome: Outcome<S, E>,
)
    requires
        before.handled(
            after,
            event,
            shell,
            frozen,
            registry,
            now,
            parse_raw,
            parse_key,
            outcome,
        ),
        match event.request.body {
            RequestBody::Select { route: aimed, target } => aimed == route && (route_resolved(
                route,
                shell,
            ) == Err::<EndpointKey, _>((code, message)) || (route_resolved(route, shell) == Ok::<
                EndpointKey,
                (Seq<char>, Seq<char>),
            >(registry.active@) && lane_refusal(
                shell,
                registry,
                registry.active@,
                target@.focus_method_name(),
            ) == Some((code, message)))),
            RequestBody::Call { route: aimed, method, .. } => aimed == route && (route_resolved(
                route,
                shell,
            ) == Err::<EndpointKey, _>((code, message)) || (route_resolved(route, shell) == Ok::<
                EndpointKey,
                (Seq<char>, Seq<char>),
            >(registry.active@) && registry.surface_available && !frozen && lane_refusal(
                shell,
                registry,
                registry.active@,
                method@,
            ) == Some((code, message)))),
            _ => false,
        },
    ensures
        after == before,
        outcome is Reply,
        outcome->Reply_0.sender == event.reply,
        json::content(outcome->Reply_0.response).entry("type"@) == Json::Text("error"@),
        json::content(outcome->Reply_0.response).entry("id"@) == Json::from_unsigned(
            event.request.id,
        ),
        json::content(outcome->Reply_0.response).entry("error"@).entry("code"@) == Json::Text(code),
        json::content(outcome->Reply_0.response).entry("error"@).entry("message"@) == Json::Text(
            message,
        ),
{
    response_keys_differ();
    reveal_strlit("code");
    reveal_strlit("message");
    assert("code"@.len() == 4 && "message"@.len() == 7);
}

} // verus!
