use herdr_client::endpoint::{
    ClientEndpointId, ClientEndpointStatus, EndpointConnection, EndpointRegistry, ProfileId,
};
use herdr_client::shell::{
    ClientClipboardImageTarget, ClientEndpointFocusTarget, ClientShellEndpoint,
    ClientShellSnapshot, ClientShellState,
};
use serde_json::Value;

fn ssh_id() -> ClientEndpointId {
    ClientEndpointId::Ssh(ProfileId::parse("0123456789abcdef0123456789abcdef").unwrap())
}

fn document() -> Value {
    let mut entries = serde_json::Map::new();
    entries.insert("boot_id".into(), "boot".into());
    entries.insert("panes".into(), Value::from(vec!["p1"]));
    Value::Object(entries)
}

fn snapshot() -> ClientShellSnapshot {
    ClientShellSnapshot {
        boot_id: "boot".into(),
        revision: 1,
        focused_workspace_id: Some("w1".into()),
        focused_tab_id: Some("t1".into()),
        focused_pane_id: Some("p1".into()),
        document: document(),
    }
}

fn registry() -> EndpointRegistry {
    EndpointRegistry {
        connections: vec![EndpointConnection {
            endpoint_id: ClientEndpointId::Local,
            generation: 8,
            methods: vec!["pane.focus".into()],
        }],
        active: ClientEndpointId::Local,
        surface_available: true,
    }
}

#[test]
fn route_identity_is_the_retained_snapshot_boot() {
    let mut state = ClientShellState::new();
    assert_eq!(
        state.frontend_endpoint_boot_id(&ClientEndpointId::Local),
        Some(None)
    );
    assert_eq!(
        state.frontend_endpoint_boot_id(&ClientEndpointId::Ssh(
            ProfileId::parse("0123456789abcdef0123456789abcdef").unwrap()
        )),
        None
    );
    let mut snapshot = snapshot();
    snapshot.boot_id = "boot-a".into();
    state.endpoints[0].snapshot_generation = Some(3);
    state.endpoints[0].snapshot = Some(snapshot);
    assert_eq!(
        state.frontend_endpoint_boot_id(&ClientEndpointId::Local),
        Some(Some("boot-a".into()))
    );
}

#[test]
fn frontend_snapshot_carries_only_the_published_fields() {
    let state = ClientShellState::new();
    let registry = EndpointRegistry::empty();
    let snapshot = state.frontend_snapshot(&registry, false);
    let keys: Vec<_> = snapshot.as_object().unwrap().keys().cloned().collect();
    assert_eq!(
        keys,
        [
            "active_endpoint_id",
            "endpoints",
            "focused",
            "input_ready",
            "input_target"
        ]
    );
    let endpoint = &snapshot["endpoints"][0];
    let keys: Vec<_> = endpoint.as_object().unwrap().keys().cloned().collect();
    assert_eq!(
        keys,
        ["boot_id", "endpoint_id", "label", "snapshot", "status"]
    );
}

#[test]
fn the_snapshot_publishes_every_endpoint() {
    let mut state = ClientShellState::new();
    state.endpoints[0].snapshot = Some(snapshot());
    for (label, status) in [
        ("a", ClientEndpointStatus::Online),
        ("b", ClientEndpointStatus::Reconnecting),
        ("c", ClientEndpointStatus::Attention),
        ("d", ClientEndpointStatus::Disabled),
    ] {
        state.endpoints.push(ClientShellEndpoint {
            endpoint_id: ssh_id(),
            label: label.into(),
            status,
            snapshot_generation: None,
            snapshot: None,
        });
    }
    let published = state.frontend_snapshot(&EndpointRegistry::empty(), false);
    let endpoints = published["endpoints"].as_array().unwrap();
    let statuses: Vec<&str> = endpoints
        .iter()
        .map(|endpoint| endpoint["status"].as_str().unwrap())
        .collect();
    assert_eq!(
        statuses,
        ["connecting", "online", "reconnecting", "attention", "disabled"]
    );
    assert_eq!(endpoints[0]["endpoint_id"], "local");
    assert_eq!(endpoints[0]["label"], "Local");
    assert_eq!(endpoints[0]["boot_id"], "boot");
    assert_eq!(endpoints[0]["snapshot"], document());
    // An entry has a boot id exactly where it has a snapshot, and it is that one's.
    for endpoint in endpoints {
        assert_eq!(endpoint["boot_id"], endpoint["snapshot"]["boot_id"]);
    }
    assert_eq!(
        endpoints[1]["endpoint_id"],
        "ssh:0123456789abcdef0123456789abcdef"
    );
    assert_eq!(endpoints[1]["label"], "a");
    assert_eq!(endpoints[1]["boot_id"], Value::Null);
    assert_eq!(endpoints[1]["snapshot"], Value::Null);
}

#[test]
fn input_has_a_target_only_with_an_available_surface() {
    let mut state = ClientShellState::new();
    let published = state.frontend_snapshot(&registry(), false);
    assert_eq!(published["input_ready"], true);
    assert_eq!(published["input_target"], Value::Null);
    state.clipboard_image_target = Some(ClientClipboardImageTarget::Pane("p1".into()));
    let published = state.frontend_snapshot(&registry(), false);
    assert_eq!(published["input_target"]["endpoint_id"], "local");
    assert_eq!(published["input_target"]["pane_id"], "p1");
    for (surface_available, frozen) in [(false, false), (true, true), (false, true)] {
        let mut registry = registry();
        registry.surface_available = surface_available;
        let published = state.frontend_snapshot(&registry, frozen);
        assert_eq!(published["input_ready"], false);
        assert_eq!(published["input_target"], Value::Null);
    }
}

#[test]
fn input_goes_to_the_pane_that_takes_images() {
    let mut state = ClientShellState::new();
    assert_eq!(state.frontend_input_pane(), None);
    state.snapshot = Some(snapshot());
    state.clipboard_image_target = Some(ClientClipboardImageTarget::Pane("p7".into()));
    assert_eq!(state.frontend_input_pane(), Some("p7".into()));
    state.clipboard_image_target = Some(ClientClipboardImageTarget::Popup("p8".into()));
    let popup = state.frontend_input_pane();
    state.clipboard_image_target = Some(ClientClipboardImageTarget::DirectTerminal);
    let direct = state.frontend_input_pane();
    assert_eq!((popup, direct), (None, None));
}

#[test]
fn a_target_is_active_where_the_active_snapshot_focuses_it() {
    let mut state = ClientShellState::new();
    let workspace = ClientEndpointFocusTarget::Workspace("w1".into());
    assert!(!state.frontend_target_active(&workspace));
    state.snapshot = Some(snapshot());
    assert!(state.frontend_target_active(&workspace));
    assert!(state.frontend_target_active(&ClientEndpointFocusTarget::Tab("t1".into())));
    assert!(state.frontend_target_active(&ClientEndpointFocusTarget::Pane("p1".into())));
    assert!(!state.frontend_target_active(&ClientEndpointFocusTarget::Workspace("t1".into())));
    assert!(!state.frontend_target_active(&ClientEndpointFocusTarget::Tab("p1".into())));
    assert!(!state.frontend_target_active(&ClientEndpointFocusTarget::Pane("p2".into())));
}

#[test]
fn a_route_carries_the_generation_boot_and_status() {
    let mut state = ClientShellState::new();
    state.endpoints[0].snapshot_generation = Some(3);
    state.endpoints[0].snapshot = Some(snapshot());
    let route = state
        .frontend_endpoint_route(&ClientEndpointId::Local, &registry())
        .unwrap();
    assert_eq!(route.boot_id, Some("boot"));
    assert_eq!(route.status, ClientEndpointStatus::Connecting);
    assert_eq!(route.generation, 8);
    let route = state
        .frontend_endpoint_route(&ClientEndpointId::Local, &EndpointRegistry::empty())
        .unwrap();
    assert_eq!(route.generation, 3);
    assert!(state
        .frontend_endpoint_route(&ssh_id(), &registry())
        .is_none());
}

#[test]
fn the_fingerprint_follows_what_is_observed() {
    let mut state = ClientShellState::new();
    let registry = registry();
    let first = state.frontend_observation_fingerprint(&registry, false);
    assert_eq!(first, state.frontend_observation_fingerprint(&registry, false));
    assert_ne!(first, state.frontend_observation_fingerprint(&registry, true));
    state.overlay_open = true;
    assert_ne!(first, state.frontend_observation_fingerprint(&registry, false));
    state.overlay_open = false;
    state.agent_projection_revision += 1;
    assert_ne!(first, state.frontend_observation_fingerprint(&registry, false));
    state.agent_projection_revision -= 1;
    state.endpoints[0].label = "Here".into();
    assert_ne!(first, state.frontend_observation_fingerprint(&registry, false));
    state.endpoints[0].label = "Local".into();
    assert_eq!(first, state.frontend_observation_fingerprint(&registry, false));
}
