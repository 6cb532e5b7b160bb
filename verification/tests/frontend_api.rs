use herdr_client::endpoint::{
    parse_endpoint, ClientEndpointId, ClientEndpointStatus, EndpointConnection, EndpointRegistry,
    ProfileId,
};
use herdr_client::frontend_api::{
    error, input_events, is_reply, ok_result, success, ClientShellEndpointError, Dispatch, Event,
    FrontendApi, FrontendReply, FrontendRequests, Outcome, PendingSelect, Reply, Request,
    RequestBody, Route, Target, PROTOCOL, SELECT_DEADLINE_NANOS,
};
use herdr_client::shell::{ClientEndpointFocusTarget, ClientShellSnapshot, ClientShellState};
use serde_json::Value;

const SECOND: u128 = 1_000_000_000;
const PROFILE: &str = "0123456789abcdef0123456789abcdef";

fn object(entries: &[(&str, Value)]) -> Value {
    let mut map = serde_json::Map::new();
    for (key, value) in entries {
        map.insert((*key).to_string(), value.clone());
    }
    Value::Object(map)
}

fn shell() -> ClientShellState {
    ClientShellState::new()
}

fn test_api() -> FrontendApi<u32> {
    FrontendApi::new("test-client".into())
}

fn ssh_id() -> ClientEndpointId {
    ClientEndpointId::Ssh(ProfileId::parse(PROFILE).unwrap())
}

/// A raw-input parser for the tests: one event for the whole text.
fn raw(bytes: &[u8]) -> Vec<String> {
    vec![format!("raw:{}", String::from_utf8(bytes.to_vec()).unwrap())]
}

/// A key table for the tests.
fn key(name: &String) -> Option<String> {
    match name.as_str() {
        "ctrl+a" | "a" => Some(format!("key:{name}")),
        _ => None,
    }
}

fn handle_in(
    api: &mut FrontendApi<u32>,
    shell: &ClientShellState,
    frozen: bool,
    endpoints: &EndpointRegistry,
    id: u64,
    body: RequestBody,
) -> Outcome<u32, String> {
    let event = Event {
        request: Request {
            protocol: PROTOCOL,
            id,
            body,
        },
        reply: 77,
    };
    api.handle(event, shell, frozen, endpoints, 5 * SECOND, raw, key)
}

fn handle(
    api: &mut FrontendApi<u32>,
    shell: &ClientShellState,
    id: u64,
    body: RequestBody,
) -> Outcome<u32, String> {
    handle_in(api, shell, false, &EndpointRegistry::empty(), id, body)
}

fn response(outcome: Outcome<u32, String>) -> Value {
    match outcome {
        Outcome::Reply(Reply { sender, response }) => {
            assert_eq!(sender, 77);
            response
        }
        other => panic!("expected a reply, got {other:?}"),
    }
}

fn route(endpoint_id: &str, boot_id: Option<&str>) -> Route {
    Route {
        endpoint_id: endpoint_id.into(),
        boot_id: boot_id.map(str::to_owned),
    }
}

fn call(route: Route, method: &str, params: Value) -> RequestBody {
    RequestBody::Call {
        route,
        method: method.into(),
        params,
    }
}

fn snapshot(boot_id: &str) -> ClientShellSnapshot {
    ClientShellSnapshot {
        boot_id: boot_id.into(),
        revision: 4,
        focused_workspace_id: Some("w1".into()),
        focused_tab_id: Some("t1".into()),
        focused_pane_id: Some("p1".into()),
        document: object(&[("boot_id", boot_id.into())]),
    }
}

/// A shell whose local endpoint is online under a boot.
fn online_shell() -> ClientShellState {
    let mut shell = shell();
    shell.endpoints[0].status = ClientEndpointStatus::Online;
    shell.endpoints[0].snapshot_generation = Some(3);
    shell.endpoints[0].snapshot = Some(snapshot("boot"));
    shell.snapshot = Some(snapshot("boot"));
    shell
}

/// A registry whose local connection advertises some methods.
fn local_registry(methods: &[&str]) -> EndpointRegistry {
    EndpointRegistry {
        connections: vec![EndpointConnection {
            endpoint_id: ClientEndpointId::Local,
            generation: 3,
            methods: methods.iter().map(|method| (*method).to_owned()).collect(),
        }],
        active: ClientEndpointId::Local,
        surface_available: true,
    }
}

#[test]
fn error_and_success_payloads_match_the_wire_contract() {
    let value = error(Some(7), "stale_route", "refresh and retry");
    assert_eq!(value["type"], "error");
    assert_eq!(value["id"], 7);
    assert_eq!(value["error"]["code"], "stale_route");
    let value = success(8, object(&[("ok", true.into())]));
    assert_eq!(value["type"], "reply");
    assert_eq!(value["id"], 8);
    assert_eq!(value["result"]["ok"], true);
}

#[test]
fn input_events_require_exactly_one_of_text_or_keys() {
    assert!(input_events(Some("hello".into()), None, raw, key).is_ok());
    assert!(input_events(None, Some(vec!["ctrl+a".into()]), raw, key).is_ok());
    assert!(input_events(Some("x".into()), Some(vec!["a".into()]), raw, key).is_err());
    assert!(input_events(None, None, raw, key).is_err());
    assert!(input_events(None, Some(vec!["not-a-key".into()]), raw, key).is_err());
}

#[test]
fn endpoint_identity_parses_local_and_ssh() {
    assert_eq!(parse_endpoint("local"), Some(ClientEndpointId::Local));
    assert!(parse_endpoint("nostr").is_none());
    let profile = "0123456789abcdef0123456789abcdef";
    assert_eq!(parse_endpoint(&format!("ssh:{profile}")), Some(ssh_id()));
}

#[test]
fn settle_selects_reports_deadline_and_keeps_fresh_until_confirmed() {
    let now = 100 * SECOND;
    let mut api = test_api();
    api.pending_selects.push(PendingSelect {
        id: 1,
        sender: 41,
        endpoint: ssh_id(),
        target: ClientEndpointFocusTarget::Pane("p1".into()),
        queued_at: now - 15 * SECOND,
    });
    let shell = shell();
    let replies = api.settle_selects(&shell, now);
    assert_eq!(replies.len(), 1);
    assert_eq!(replies[0].sender, 41);
    assert_eq!(replies[0].response["error"]["code"], "timeout");

    let mut api = test_api();
    api.pending_selects.push(PendingSelect {
        id: 2,
        sender: 42,
        endpoint: ssh_id(),
        target: ClientEndpointFocusTarget::Tab("t1".into()),
        queued_at: now - SECOND,
    });
    let replies = api.settle_selects(&shell, now);
    assert_eq!(api.pending_selects.len(), 1);
    assert!(replies.is_empty());
}

fn register(requests: &mut FrontendRequests<u32>, request_id: &str, id: u64, sender: u32) {
    requests.register_frontend_request(
        request_id.into(),
        "boot".into(),
        "agent.prompt".into(),
        FrontendReply { id, sender },
    );
}

#[test]
fn shell_results_settle_calls_and_cancellations_reply_unknown_outcome() {
    let mut requests = FrontendRequests::new();
    register(&mut requests, "frontend-api:test:1", 7, 1);
    let pong = object(&[
        ("type", "pong".into()),
        ("version", "0.9.1".into()),
        ("protocol", 5.into()),
    ]);
    let reply = requests
        .handle_endpoint_result("boot", "frontend-api:test:1", Ok(pong))
        .unwrap();
    assert_eq!(reply.sender, 1);
    assert_eq!(reply.response["type"], "reply");
    assert_eq!(reply.response["id"], 7);
    assert_eq!(reply.response["result"]["version"], "0.9.1");

    register(&mut requests, "frontend-api:test:2", 9, 2);
    let reply = requests
        .cancel_endpoint_request("frontend-api:test:2", "outcome is unknown")
        .unwrap();
    assert_eq!(reply.sender, 2);
    assert_eq!(reply.response["error"]["code"], "cancelled");
}

#[test]
fn snapshot_request_publishes_inventory_and_replies() {
    let mut api = test_api();
    let shell = shell();
    let reply = response(handle(&mut api, &shell, 3, RequestBody::Snapshot));
    assert_eq!(reply["type"], "reply");
    assert_eq!(api.snapshot["client_id"], "test-client");
    assert_eq!(api.snapshot["revision"], 1);
    assert_eq!(api.snapshot["active_endpoint_id"], "local");
}

#[test]
fn subscriptions_never_reach_mutation_dispatch() {
    let mut api = test_api();
    let shell = shell();
    let reply = response(handle(&mut api, &shell, 4, RequestBody::Subscribe));
    assert_eq!(reply["error"]["code"], "invalid_request");
}

#[test]
fn input_dispatch_returns_a_pipeline_outcome_for_the_loop() {
    let mut api = test_api();
    let shell = shell();
    let outcome = handle(
        &mut api,
        &shell,
        11,
        RequestBody::Input {
            text: None,
            keys: Some(vec!["ctrl+a".into()]),
        },
    );
    let Outcome::Dispatch(Dispatch::Input { id, reply, events }) = outcome else {
        panic!("expected input dispatch");
    };
    assert_eq!(id, 11);
    // The loop owns the reply; it is sent after the events were applied.
    assert_eq!(reply, 77);
    assert_eq!(events, ["key:ctrl+a"]);
}

#[test]
fn select_and_call_on_unknown_endpoint_report_unknown_endpoint() {
    let mut api = test_api();
    let shell = shell();
    let endpoint = "ssh:0123456789abcdef0123456789abcdef";
    for body in [
        RequestBody::Select {
            route: route(endpoint, Some("boot")),
            target: Target::Pane("p1".into()),
        },
        call(
            route(endpoint, Some("boot")),
            "agent.prompt",
            object(&[("target", "p1".into()), ("text", "hi".into())]),
        ),
    ] {
        let reply = response(handle(&mut api, &shell, 13, body));
        assert_eq!(reply["error"]["code"], "unknown_endpoint");
    }
}

#[test]
fn stale_boot_identity_is_rejected_before_dispatch() {
    let mut api = test_api();
    let shell = shell();
    let reply = response(handle(
        &mut api,
        &shell,
        15,
        call(
            route("local", Some("rebooted")),
            "pane.focus_direction",
            object(&[("pane_id", "p1".into()), ("direction", "left".into())]),
        ),
    ));
    assert_eq!(reply["error"]["code"], "stale_route");
}

#[test]
fn call_on_the_inactive_local_endpoint_is_rejected_before_enqueue() {
    let mut api = test_api();
    let shell = shell();
    let reply = response(handle_in(
        &mut api,
        &shell,
        true,
        &EndpointRegistry::empty(),
        14,
        call(
            route("local", None),
            "pane.focus_direction",
            object(&[("pane_id", "p1".into()), ("direction", "left".into())]),
        ),
    ));
    assert_eq!(reply["error"]["code"], "inactive_endpoint");
    assert_eq!(
        reply["error"]["message"],
        "endpoint must already be active with an available lease"
    );
}

#[test]
fn error_responses_carry_exactly_their_fields() {
    let expected = object(&[
        ("type", "error".into()),
        ("id", Value::Null),
        (
            "error",
            object(&[("code", "busy".into()), ("message", "later".into())]),
        ),
    ]);
    assert_eq!(error(None, "busy", "later"), expected);
}

#[test]
fn responses_with_a_result_are_told_apart() {
    assert!(is_reply(&success(1, ok_result())));
    assert!(!is_reply(&error(Some(1), "reply", "reply")));
    assert!(!is_reply(&Value::Null));
    assert!(!is_reply(&object(&[("type", 7.into())])));
}

#[test]
fn every_target_has_its_focus_method() {
    for (target, method, key) in [
        (Target::Workspace("x".into()), "workspace.focus", "workspace_id"),
        (Target::Tab("x".into()), "tab.focus", "tab_id"),
        (Target::Pane("x".into()), "pane.focus", "pane_id"),
    ] {
        let (name, params) = target.focus_method();
        assert_eq!(name, method);
        assert_eq!(params, object(&[(key, "x".into())]));
    }
    assert!(matches!(
        ClientEndpointFocusTarget::from(Target::Tab("t".into())),
        ClientEndpointFocusTarget::Tab(id) if id == "t"
    ));
}

#[test]
fn input_reads_the_text_or_each_key_in_order() {
    assert_eq!(
        input_events(Some("héllo".into()), None, raw, key),
        Ok(vec!["raw:héllo".to_string()])
    );
    assert_eq!(
        input_events(None, Some(vec!["a".into(), "ctrl+a".into()]), raw, key),
        Ok(vec!["key:a".to_string(), "key:ctrl+a".to_string()])
    );
    assert_eq!(input_events(None, Some(vec![]), raw, key), Ok(vec![]));
    assert_eq!(
        input_events(None, Some(vec!["a".into(), "q".into(), "z".into()]), raw, key),
        Err("unknown key: q".to_string())
    );
    assert_eq!(
        input_events(None, None, raw, key),
        Err("provide exactly one of text or keys".to_string())
    );
}

#[test]
fn refused_input_is_answered_with_invalid_params() {
    let mut api = test_api();
    let reply = response(handle(
        &mut api,
        &shell(),
        12,
        RequestBody::Input {
            text: None,
            keys: Some(vec!["nope".into()]),
        },
    ));
    assert_eq!(reply, error(Some(12), "invalid_params", "unknown key: nope"));
}

#[test]
fn endpoint_rejections_keep_their_code() {
    for (code, wire) in [
        (Some("endpoint_cancelled"), "cancelled"),
        (Some("pane_not_found"), "pane_not_found"),
        (None, "endpoint_error"),
    ] {
        let reply = FrontendReply { id: 5, sender: 9u32 };
        let settled = reply.settle(Err(ClientShellEndpointError {
            code: code.map(str::to_owned),
            message: "why".into(),
        }));
        assert_eq!(settled.sender, 9);
        assert_eq!(settled.response, error(Some(5), wire, "why"));
    }
}

#[test]
fn results_settle_only_the_request_of_their_boot() {
    let mut requests = FrontendRequests::new();
    register(&mut requests, "r1", 1, 1);
    register(&mut requests, "r2", 2, 2);
    assert!(requests
        .handle_endpoint_result("other-boot", "r1", Ok(Value::Null))
        .is_none());
    assert!(requests
        .handle_endpoint_result("boot", "r3", Ok(Value::Null))
        .is_none());
    assert!(requests.cancel_endpoint_request("r3", "gone").is_none());
    assert_eq!(requests.pending.len(), 2);
    let reply = requests
        .handle_endpoint_result("boot", "r1", Ok(Value::Null))
        .unwrap();
    assert_eq!(reply.response, success(1, Value::Null));
    assert_eq!(requests.pending.len(), 1);
    assert_eq!(requests.pending[0].request_id, "r2");
    assert!(requests
        .handle_endpoint_result("boot", "r1", Ok(Value::Null))
        .is_none());
}

#[test]
fn a_call_on_the_active_endpoint_is_submitted() {
    let mut api = test_api();
    let params = object(&[("pane_id", "p1".into())]);
    let registry = local_registry(&["pane.close"]);
    for n in [1, 2] {
        let outcome = handle_in(
            &mut api,
            &online_shell(),
            false,
            &registry,
            20,
            call(route("local", Some("boot")), "pane.close", params.clone()),
        );
        let Outcome::Submit(request) = outcome else {
            panic!("expected a submitted request");
        };
        let request_id = format!("frontend-api:test-client:{n}");
        assert_eq!(request.request_id, request_id);
        assert_eq!(request.endpoint_id, ClientEndpointId::Local);
        assert_eq!(request.generation, 3);
        assert_eq!(request.boot_id, "boot");
        assert_eq!(request.method, "pane.close");
        assert_eq!(request.reply.id, 20);
        assert_eq!(request.reply.sender, 77);
        assert_eq!(
            request.document,
            object(&[
                ("id", request_id.into()),
                ("method", "pane.close".into()),
                ("params", params.clone()),
            ])
        );
    }
    assert_eq!(api.next_request, 2);
}

#[test]
fn the_command_lane_refuses_what_an_endpoint_cannot_take() {
    let body = || call(route("local", Some("boot")), "pane.close", Value::Null);
    let registry = local_registry(&["pane.focus"]);
    let mut api = test_api();

    let reply = response(handle_in(&mut api, &online_shell(), false, &registry, 1, body()));
    assert_eq!(reply["error"]["code"], "unsupported_method");

    let mut shell = online_shell();
    shell.endpoints[0].status = ClientEndpointStatus::Reconnecting;
    let reply = response(handle_in(&mut api, &shell, false, &registry, 2, body()));
    assert_eq!(reply["error"]["code"], "endpoint_unavailable");

    let mut shell = online_shell();
    shell.endpoints[0].snapshot = None;
    let bootless = call(route("local", None), "pane.focus", Value::Null);
    let reply = response(handle_in(&mut api, &shell, false, &registry, 3, bootless));
    assert_eq!(reply["error"]["code"], "endpoint_not_ready");

    let reply = response(handle_in(&mut api, &online_shell(), true, &registry, 4, body()));
    assert_eq!(reply["error"]["code"], "inactive_endpoint");

    let reply = response(handle(
        &mut api,
        &online_shell(),
        5,
        call(route("nostr", None), "pane.close", Value::Null),
    ));
    assert_eq!(
        reply,
        error(Some(5), "unknown_endpoint", "invalid endpoint identity")
    );
    assert_eq!(api.next_request, 0);
    assert!(api.pending_selects.is_empty());
}

#[test]
fn a_select_on_the_active_endpoint_focuses_through_the_lane() {
    let mut api = test_api();
    let outcome = handle_in(
        &mut api,
        &online_shell(),
        true,
        &local_registry(&["tab.focus"]),
        30,
        RequestBody::Select {
            route: route("local", Some("boot")),
            target: Target::Tab("t4".into()),
        },
    );
    let Outcome::Submit(request) = outcome else {
        panic!("expected a submitted request");
    };
    assert_eq!(request.method, "tab.focus");
    assert_eq!(request.document["params"], object(&[("tab_id", "t4".into())]));
}

#[test]
fn a_select_on_another_endpoint_waits_for_the_observed_focus() {
    let mut api = test_api();
    let mut registry = local_registry(&[]);
    registry.active = ssh_id();
    let mut shell = online_shell();
    shell.active_endpoint_id = ssh_id();
    let outcome = handle_in(
        &mut api,
        &shell,
        false,
        &registry,
        31,
        RequestBody::Select {
            route: route("local", Some("boot")),
            target: Target::Pane("p1".into()),
        },
    );
    assert!(matches!(
        outcome,
        Outcome::Dispatch(Dispatch::Select {
            endpoint: ClientEndpointId::Local,
            target: ClientEndpointFocusTarget::Pane(ref id),
        }) if id == "p1"
    ));
    assert_eq!(api.pending_selects.len(), 1);
    assert_eq!(api.pending_selects[0].queued_at, 5 * SECOND);

    // Another endpoint is still active: nothing is confirmed.
    assert!(api.settle_selects(&shell, 6 * SECOND).is_empty());
    shell.active_endpoint_id = ClientEndpointId::Local;
    let replies = api.settle_selects(&shell, 6 * SECOND);
    assert_eq!(replies.len(), 1);
    assert_eq!(replies[0].response, success(31, ok_result()));
    assert!(api.pending_selects.is_empty());
}

#[test]
fn a_select_times_out_exactly_at_its_deadline() {
    assert_eq!(SELECT_DEADLINE_NANOS, 12 * SECOND);
    let select = |queued_at| PendingSelect {
        id: 6,
        sender: 1,
        endpoint: ssh_id(),
        target: ClientEndpointFocusTarget::Workspace("w9".into()),
        queued_at,
    };
    let mut api = test_api();
    api.pending_selects.push(select(SECOND));
    // A clock reading before the queueing counts as no time at all.
    assert!(api.settle_selects(&shell(), 0).is_empty());
    assert!(api.settle_selects(&shell(), 13 * SECOND - 1).is_empty());
    let replies = api.settle_selects(&shell(), 13 * SECOND);
    assert_eq!(
        replies[0].response,
        error(
            Some(6),
            "timeout",
            "navigation did not settle; outcome is unknown; do not replay"
        )
    );
}

#[test]
fn settled_selects_leave_the_others_in_order() {
    let mut api = test_api();
    for (id, queued_at) in [(1, 0), (2, 50), (3, 1), (4, 60)] {
        api.pending_selects.push(PendingSelect {
            id,
            sender: id as u32,
            endpoint: ssh_id(),
            target: ClientEndpointFocusTarget::Pane("p".into()),
            queued_at: queued_at * SECOND,
        });
    }
    let replies = api.settle_selects(&shell(), 61 * SECOND);
    let answered: Vec<u32> = replies.iter().map(|reply| reply.sender).collect();
    assert_eq!(answered, [1, 3]);
    let kept: Vec<u64> = api.pending_selects.iter().map(|select| select.id).collect();
    assert_eq!(kept, [2, 4]);
}

#[test]
fn accepted_requests_wait_for_their_result_and_others_are_refused() {
    let mut api = test_api();
    let mut requests = FrontendRequests::new();
    let mut submit = |requests: &mut FrontendRequests<u32>, valid: bool| {
        let outcome = handle_in(
            &mut api,
            &online_shell(),
            false,
            &local_registry(&["pane.close"]),
            40,
            call(route("local", Some("boot")), "pane.close", Value::Null),
        );
        let Outcome::Submit(request) = outcome else {
            panic!("expected a submitted request");
        };
        requests.accept_endpoint_request(request, valid)
    };
    let command = submit(&mut requests, true).unwrap();
    assert_eq!(command.endpoint_id, ClientEndpointId::Local);
    assert_eq!(command.generation, 3);
    assert_eq!(command.boot_id, "boot");
    assert_eq!(command.document["id"], "frontend-api:test-client:1");
    assert_eq!(requests.pending.len(), 1);
    assert_eq!(requests.pending[0].boot_id, "boot");
    assert_eq!(requests.pending[0].method, "pane.close");

    let reply = submit(&mut requests, false).unwrap_err();
    assert_eq!(
        reply.response,
        error(Some(40), "invalid_params", "method or parameters are invalid")
    );
    assert_eq!(requests.pending.len(), 1);
}

#[test]
fn an_unchanged_projection_is_published_once() {
    let mut api = test_api();
    let registry = local_registry(&[]);
    let mut shell = online_shell();
    assert!(!api.publish(0, &shell, false, &registry));
    assert_eq!(api.snapshot, Value::Null);
    assert!(api.publish(1, &shell, false, &registry));
    assert!(!api.publish(1, &shell, false, &registry));
    assert_eq!(api.revision, 1);
    assert_eq!(api.snapshot["revision"], 1);
    shell.outer_focused = Some(true);
    assert!(api.publish(2, &shell, false, &registry));
    assert_eq!(api.snapshot["revision"], 2);
    assert_eq!(api.snapshot["focused"], true);
}

#[test]
fn a_published_snapshot_has_the_documented_fields() {
    let mut api = test_api();
    assert!(api.refresh_snapshot(&online_shell(), false, &local_registry(&[])));
    let keys: Vec<_> = api.snapshot.as_object().unwrap().keys().cloned().collect();
    assert_eq!(
        keys,
        [
            "active_endpoint_id",
            "client_id",
            "endpoints",
            "focused",
            "input_ready",
            "input_target",
            "revision"
        ]
    );
}

#[test]
fn only_what_raises_a_counter_needs_room_in_it() {
    let mut api = test_api();
    api.revision = u64::MAX;
    api.next_request = u64::MAX;
    assert!(!api.publish(0, &shell(), false, &EndpointRegistry::empty()));
    response(handle(&mut api, &shell(), 60, RequestBody::Subscribe));
    let input = RequestBody::Input {
        text: Some("x".into()),
        keys: None,
    };
    assert!(matches!(
        handle(&mut api, &shell(), 61, input),
        Outcome::Dispatch(Dispatch::Input { .. })
    ));
    // A refused call takes no request number.
    let refused = || call(route("local", Some("boot")), "pane.close", Value::Null);
    let registry = local_registry(&[]);
    assert!(!refused().uses_lane(&online_shell(), false, &registry));
    let reply = response(handle_in(&mut api, &online_shell(), false, &registry, 62, refused()));
    assert_eq!(reply["error"]["code"], "unsupported_method");

    // An unchanged projection takes no revision.
    let mut api = test_api();
    assert!(api.has_news(&shell(), false, &registry));
    assert!(api.refresh_snapshot(&shell(), false, &registry));
    api.revision = u64::MAX;
    assert!(!api.has_news(&shell(), false, &registry));
    assert!(!api.publish(1, &shell(), false, &registry));
    let reply = response(handle_in(
        &mut api,
        &shell(),
        false,
        &registry,
        63,
        RequestBody::Snapshot,
    ));
    assert_eq!(reply, success(63, Value::Null));
    assert_eq!(api.revision, u64::MAX);
}

#[test]
fn the_lane_is_used_where_nothing_refuses_the_request() {
    let registry = local_registry(&["pane.close", "tab.focus"]);
    let close = || call(route("local", Some("boot")), "pane.close", Value::Null);
    let select = |boot| RequestBody::Select {
        route: route("local", Some(boot)),
        target: Target::Tab("t".into()),
    };
    assert!(close().uses_lane(&online_shell(), false, &registry));
    assert!(!close().uses_lane(&online_shell(), true, &registry));
    assert!(select("boot").uses_lane(&online_shell(), true, &registry));
    assert!(!select("old").uses_lane(&online_shell(), true, &registry));
    let mut away = local_registry(&["pane.close", "tab.focus"]);
    away.active = ssh_id();
    assert!(!close().uses_lane(&online_shell(), false, &away));
    assert!(!select("boot").uses_lane(&online_shell(), false, &away));
    let mut offline = online_shell();
    offline.endpoints[0].status = ClientEndpointStatus::Attention;
    assert!(!close().uses_lane(&offline, false, &registry));
    assert!(!RequestBody::Snapshot.uses_lane(&online_shell(), false, &registry));
}

#[test]
fn a_route_read_off_the_published_snapshot_resolves() {
    let mut api = test_api();
    let mut shell = online_shell();
    let registry = local_registry(&[]);
    for boot in ["boot", "boot-2"] {
        shell.endpoints[0].snapshot = Some(snapshot(boot));
        api.publish(1, &shell, false, &registry);
        let entry = &api.snapshot["endpoints"][0];
        assert_eq!(entry["boot_id"], boot);
        let read = route(
            entry["endpoint_id"].as_str().unwrap(),
            entry["boot_id"].as_str(),
        );
        assert_eq!(
            FrontendApi::<u32>::resolve_route(&read, &shell),
            Ok(ClientEndpointId::Local)
        );
    }
    assert_eq!(
        FrontendApi::<u32>::resolve_route(&route("local", Some("boot")), &shell),
        Err((
            "stale_route",
            "endpoint identity changed; refresh the snapshot and retry once"
        ))
    );
}

#[test]
fn a_refused_request_leaves_the_api_as_it_was() {
    let mut api = test_api();
    let shell = online_shell();
    response(handle(
        &mut api,
        &shell,
        50,
        RequestBody::Select {
            route: route("local", Some("old-boot")),
            target: Target::Pane("p1".into()),
        },
    ));
    assert_eq!(api.revision, 0);
    assert_eq!(api.next_request, 0);
    assert!(api.pending_selects.is_empty());
    assert!(api.previous_observation.is_none());
}
