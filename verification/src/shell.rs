//! Frontend-socket observations derived from the same retained projection used
//! for rendering and input. The wire identifies an endpoint by the server boot
//! id of its retained snapshot; a stale capture fails one comparison.
use std::collections::hash_map::DefaultHasher;
use std::hash::Hasher;

use vstd::prelude::*;

use crate::endpoint::{
    ClientEndpointId, ClientEndpointStatus, EndpointKey, EndpointRegistry,
};
use crate::json;
use crate::json::Json;
use crate::observation::{
    number_of_status, write_endpoint, write_flag, write_number, write_optional_number,
    write_optional_text, write_text, EndpointObservation, Observation,
};
use crate::text::str_eq;

verus! {

/// The retained snapshot of one endpoint: the parts that routing and focus read,
/// and the whole document as published.
#[derive(Debug)]
pub struct ClientShellSnapshot {
    pub boot_id: String,
    pub revision: u64,
    pub focused_workspace_id: Option<String>,
    pub focused_tab_id: Option<String>,
    pub focused_pane_id: Option<String>,
    pub document: serde_json::Value,
}

/// One endpoint as the client retains it.
#[derive(Debug)]
pub struct ClientShellEndpoint {
    pub endpoint_id: ClientEndpointId,
    pub label: String,
    pub status: ClientEndpointStatus,
    pub snapshot_generation: Option<u64>,
    pub snapshot: Option<ClientShellSnapshot>,
}

/// What receives a pasted image, and with it ordinary typed input.
#[derive(Debug)]
pub enum ClientClipboardImageTarget {
    Pane(String),
    Popup(String),
    DirectTerminal,
}

/// What a focus request aims at.
#[derive(Debug)]
pub enum ClientEndpointFocusTarget {
    Workspace(String),
    Tab(String),
    Pane(String),
}

/// What a [`ClientEndpointFocusTarget`] stands for.
pub enum FocusTargetView {
    Workspace(Seq<char>),
    Tab(Seq<char>),
    Pane(Seq<char>),
}

impl View for ClientEndpointFocusTarget {
    type V = FocusTargetView;

    open spec fn view(&self) -> FocusTargetView {
        match self {
            ClientEndpointFocusTarget::Workspace(id) => FocusTargetView::Workspace(id@),
            ClientEndpointFocusTarget::Tab(id) => FocusTargetView::Tab(id@),
            ClientEndpointFocusTarget::Pane(id) => FocusTargetView::Pane(id@),
        }
    }
}

impl Clone for ClientEndpointFocusTarget {
    fn clone(&self) -> (copy: Self)
        ensures
            copy == *self,
    {
        match self {
            ClientEndpointFocusTarget::Workspace(id) => ClientEndpointFocusTarget::Workspace(
                id.clone(),
            ),
            ClientEndpointFocusTarget::Tab(id) => ClientEndpointFocusTarget::Tab(id.clone()),
            ClientEndpointFocusTarget::Pane(id) => ClientEndpointFocusTarget::Pane(id.clone()),
        }
    }
}

/// The client's retained projection, as far as the frontend socket reads it.
#[derive(Debug)]
pub struct ClientShellState {
    pub endpoints: Vec<ClientShellEndpoint>,
    pub active_endpoint_id: ClientEndpointId,
    /// The snapshot of the active endpoint.
    pub snapshot: Option<ClientShellSnapshot>,
    /// Focus of the outer terminal, once it was reported.
    pub outer_focused: Option<bool>,
    /// Which mode the client is in.
    pub mode: u64,
    pub overlay_open: bool,
    pub clipboard_image_target: Option<ClientClipboardImageTarget>,
    pub agent_projection_revision: u64,
}

/// Where requests to an endpoint go.
#[derive(Debug)]
pub struct FrontendEndpointRoute<'a> {
    pub generation: u64,
    pub boot_id: Option<&'a str>,
    pub status: ClientEndpointStatus,
}

/// The view of an optional string.
pub open spec fn optional_text(text: Option<String>) -> Option<Seq<char>> {
    match text {
        Some(text) => Some(text@),
        None => None,
    }
}

/// The view of an optional string slice.
pub open spec fn optional_str(text: Option<&str>) -> Option<Seq<char>> {
    match text {
        Some(text) => Some(text@),
        None => None,
    }
}

/// The first of `endpoints` with an identity.
pub open spec fn endpoint_with(
    endpoints: Seq<ClientShellEndpoint>,
    id: EndpointKey,
) -> Option<ClientShellEndpoint>
    decreases endpoints.len(),
{
    if endpoints.len() == 0 {
        None
    } else if endpoints[0].endpoint_id@ == id {
        Some(endpoints[0])
    } else {
        endpoint_with(endpoints.skip(1), id)
    }
}

/// The wire name of a status.
pub open spec fn status_text(status: ClientEndpointStatus) -> Seq<char> {
    match status {
        ClientEndpointStatus::Connecting => "connecting"@,
        ClientEndpointStatus::Online => "online"@,
        ClientEndpointStatus::Reconnecting => "reconnecting"@,
        ClientEndpointStatus::Attention => "attention"@,
        ClientEndpointStatus::Disabled => "disabled"@,
    }
}

/// The generation of an endpoint's connection.
pub open spec fn connection_generation(
    registry: EndpointRegistry,
    endpoint: EndpointKey,
) -> Option<u64> {
    match crate::endpoint::connection_to(registry.connections@, endpoint) {
        Some(connection) => Some(connection.generation),
        None => None,
    }
}

impl ClientShellSnapshot {
    /// Whether the document is that of this snapshot: an object whose boot id,
    /// where it has one, is the snapshot's.
    pub open spec fn well_formed(self) -> bool {
        json::content(self.document) matches Json::Object(entries) && (entries.contains_key(
            "boot_id"@,
        ) ==> entries["boot_id"@] == Json::Text(self.boot_id@))
    }
}

impl ClientShellEndpoint {
    /// Whether the identity names an endpoint and a retained snapshot is well
    /// formed.
    pub open spec fn well_formed(self) -> bool {
        &&& crate::endpoint::endpoint_named(self.endpoint_id@.storage_text()) == Some(
            self.endpoint_id@,
        )
        &&& self.snapshot matches Some(snapshot) ==> snapshot.well_formed()
    }

    /// The boot id of the retained snapshot.
    pub open spec fn boot(self) -> Option<Seq<char>> {
        match self.snapshot {
            Some(snapshot) => Some(snapshot.boot_id@),
            None => None,
        }
    }

    /// The generation requests to this endpoint carry: that of its connection,
    /// else that of its snapshot, else 0.
    pub open spec fn generation(self, registry: EndpointRegistry) -> u64 {
        match (connection_generation(registry, self.endpoint_id@), self.snapshot_generation) {
            (Some(generation), _) => generation,
            (None, Some(generation)) => generation,
            (None, None) => 0,
        }
    }

    /// What is observed of this endpoint.
    pub open spec fn observed(self, registry: EndpointRegistry) -> EndpointObservation {
        EndpointObservation {
            endpoint: self.endpoint_id@,
            label: self.label@,
            status: self.status,
            snapshot_generation: self.snapshot_generation,
            snapshot: match self.snapshot {
                Some(snapshot) => Some((snapshot.boot_id@, snapshot.revision)),
                None => None,
            },
            connection_generation: connection_generation(registry, self.endpoint_id@),
        }
    }

    /// The published entry of this endpoint.
    pub open spec fn published(self) -> Json {
        Json::empty_object().with("endpoint_id"@, Json::Text(self.endpoint_id@.storage_text())).with(
            "label"@,
            Json::Text(self.label@),
        ).with("status"@, Json::Text(status_text(self.status))).with(
            "boot_id"@,
            Json::from_optional_text(self.boot()),
        ).with(
            "snapshot"@,
            match self.snapshot {
                Some(snapshot) => json::content(snapshot.document),
                None => Json::Null,
            },
        )
    }

    /// Where requests to this endpoint go.
    pub fn frontend_route<'a>(&'a self, registry: &EndpointRegistry) -> (route:
        FrontendEndpointRoute<'a>)
        ensures
            route.generation == self.generation(*registry),
            optional_str(route.boot_id) == self.boot(),
            route.status == self.status,
    {
        let generation: u64 = match registry.connection(&self.endpoint_id) {
            Some(connection) => connection.generation,
            None => match self.snapshot_generation {
                Some(generation) => generation,
                None => 0,
            },
        };
        FrontendEndpointRoute {
            generation,
            boot_id: match &self.snapshot {
                Some(snapshot) => Some(snapshot.boot_id.as_str()),
                None => None,
            },
            status: self.status,
        }
    }

    /// The published entry of this endpoint.
    fn publish(&self) -> (entry: serde_json::Value)
        ensures
            json::content(entry) == self.published(),
    {
        let status: &str = match self.status {
            ClientEndpointStatus::Connecting => "connecting",
            ClientEndpointStatus::Online => "online",
            ClientEndpointStatus::Reconnecting => "reconnecting",
            ClientEndpointStatus::Attention => "attention",
            ClientEndpointStatus::Disabled => "disabled",
        };
        let mut entry = json::object();
        let key = self.endpoint_id.storage_key();
        json::set_entry(&mut entry, "endpoint_id", json::text(key.as_str()));
        json::set_entry(&mut entry, "label", json::text(self.label.as_str()));
        json::set_entry(&mut entry, "status", json::text(status));
        match &self.snapshot {
            Some(snapshot) => {
                json::set_entry(&mut entry, "boot_id", json::text(snapshot.boot_id.as_str()));
                json::set_entry(&mut entry, "snapshot", json::copy(&snapshot.document));
            },
            None => {
                json::set_entry(&mut entry, "boot_id", json::null());
                json::set_entry(&mut entry, "snapshot", json::null());
            },
        }
        entry
    }
}

/// What is observed of each of a list of endpoints.
pub open spec fn endpoints_observed(
    endpoints: Seq<ClientShellEndpoint>,
    registry: EndpointRegistry,
) -> Seq<EndpointObservation> {
    endpoints.map_values(|endpoint: ClientShellEndpoint| endpoint.observed(registry))
}

/// The published entries of a list of endpoints.
pub open spec fn endpoints_published(endpoints: Seq<ClientShellEndpoint>) -> Seq<Json> {
    endpoints.map_values(|endpoint: ClientShellEndpoint| endpoint.published())
}

impl ClientShellState {
    /// A client that retains the local endpoint, not connected yet and without a
    /// snapshot.
    pub fn new() -> (shell: Self)
        ensures
            shell.endpoints@.len() == 1,
            shell.endpoints@[0].endpoint_id@ == EndpointKey::Local,
            shell.endpoints@[0].label@ == "Local"@,
            shell.endpoints@[0].status == ClientEndpointStatus::Connecting,
            shell.endpoints@[0].snapshot_generation is None,
            shell.endpoints@[0].snapshot is None,
            shell.active_endpoint_id@ == EndpointKey::Local,
            shell.snapshot is None,
            shell.outer_focused is None,
            shell.mode == 0,
            !shell.overlay_open,
            shell.clipboard_image_target is None,
            shell.agent_projection_revision == 0,
            shell.well_formed(),
    {
        proof {
            crate::endpoint::storage_text_names_its_endpoint(EndpointKey::Local);
        }
        let mut endpoints: Vec<ClientShellEndpoint> = Vec::new();
        endpoints.push(
            ClientShellEndpoint {
                endpoint_id: ClientEndpointId::Local,
                label: "Local".to_owned(),
                status: ClientEndpointStatus::Connecting,
                snapshot_generation: None,
                snapshot: None,
            },
        );
        ClientShellState {
            endpoints,
            active_endpoint_id: ClientEndpointId::Local,
            snapshot: None,
            outer_focused: None,
            mode: 0,
            overlay_open: false,
            clipboard_image_target: None,
            agent_projection_revision: 0,
        }
    }

    /// Whether every retained endpoint and the active snapshot are well formed and
    /// no identity is retained twice.
    pub open spec fn well_formed(self) -> bool {
        &&& forall|i: int|
            0 <= i < self.endpoints@.len() ==> (#[trigger] self.endpoints@[i]).well_formed()
        &&& forall|i: int, j: int|
            0 <= i < j < self.endpoints@.len() ==> (#[trigger] self.endpoints@[i]).endpoint_id@ != (
            #[trigger] self.endpoints@[j]).endpoint_id@
        &&& self.snapshot matches Some(snapshot) ==> snapshot.well_formed()
    }

    /// The pane receiving ordinary typed input.
    pub open spec fn input_pane(self) -> Option<Seq<char>> {
        match self.clipboard_image_target {
            Some(ClientClipboardImageTarget::Pane(pane)) => Some(pane@),
            _ => None,
        }
    }

    /// Whether the active endpoint's snapshot shows `target` as focused.
    pub open spec fn target_focused(self, target: FocusTargetView) -> bool {
        match self.snapshot {
            Some(snapshot) => match target {
                FocusTargetView::Workspace(id) => optional_text(snapshot.focused_workspace_id)
                    == Some(id),
                FocusTargetView::Tab(id) => optional_text(snapshot.focused_tab_id) == Some(id),
                FocusTargetView::Pane(id) => optional_text(snapshot.focused_pane_id) == Some(id),
            },
            None => false,
        }
    }

    /// What is observed of this client.
    pub open spec fn observed(self, registry: EndpointRegistry, frozen: bool) -> Observation {
        Observation {
            active_endpoint: self.active_endpoint_id@,
            outer_focused: self.outer_focused,
            frozen,
            surface_available: registry.surface_available,
            mode: self.mode,
            overlay_open: self.overlay_open,
            input_pane: self.input_pane(),
            agent_projection_revision: self.agent_projection_revision,
            endpoints: endpoints_observed(self.endpoints@, registry),
        }
    }

    /// Whether the active endpoint takes input: its surface is available and not
    /// frozen.
    pub open spec fn input_ready(registry: EndpointRegistry, frozen: bool) -> bool {
        registry.surface_available && !frozen
    }

    /// The published pane that ordinary typed input goes to, or null.
    pub open spec fn input_target(self, registry: EndpointRegistry, frozen: bool) -> Json {
        match self.input_pane() {
            Some(pane) if Self::input_ready(registry, frozen) => Json::empty_object().with(
                "endpoint_id"@,
                Json::Text(self.active_endpoint_id@.storage_text()),
            ).with("pane_id"@, Json::Text(pane)),
            _ => Json::Null,
        }
    }

    /// The snapshot published for this client.
    pub open spec fn published(self, registry: EndpointRegistry, frozen: bool) -> Json {
        Json::empty_object().with(
            "focused"@,
            match self.outer_focused {
                Some(focused) => Json::Bool(focused),
                None => Json::Null,
            },
        ).with("input_ready"@, Json::Bool(Self::input_ready(registry, frozen))).with(
            "active_endpoint_id"@,
            Json::Text(self.active_endpoint_id@.storage_text()),
        ).with("input_target"@, self.input_target(registry, frozen)).with(
            "endpoints"@,
            Json::Array(endpoints_published(self.endpoints@)),
        )
    }

    /// The retained endpoint with an identity.
    fn endpoint(&self, endpoint_id: &ClientEndpointId) -> (found: Option<&ClientShellEndpoint>)
        ensures
            endpoint_with(self.endpoints@, endpoint_id@) == (match found {
                Some(endpoint) => Some(*endpoint),
                None => None,
            }),
    {
        let mut i: usize = 0;
        assert(self.endpoints@.skip(0) =~= self.endpoints@);
        while i < self.endpoints.len()
            invariant
                i <= self.endpoints@.len(),
                endpoint_with(self.endpoints@.skip(i as int), endpoint_id@) == endpoint_with(
                    self.endpoints@,
                    endpoint_id@,
                ),
            decreases self.endpoints@.len() - i,
        {
            assert(self.endpoints@.skip(i as int).skip(1) =~= self.endpoints@.skip(i + 1));
            if self.endpoints[i].endpoint_id == *endpoint_id {
                return Some(&self.endpoints[i]);
            }
            i += 1;
        }
        None
    }

    /// The retained snapshot's boot id a captured route must match, or None
    /// when the endpoint is unknown.
    pub fn frontend_endpoint_boot_id(&self, endpoint_id: &ClientEndpointId) -> (boot: Option<
        Option<String>,
    >)
        ensures
            match endpoint_with(self.endpoints@, endpoint_id@) {
                Some(endpoint) => boot matches Some(boot) && optional_text(boot) == endpoint.boot(),
                None => boot is None,
            },
    {
        match self.endpoint(endpoint_id) {
            Some(endpoint) => Some(
                match &endpoint.snapshot {
                    Some(snapshot) => Some(snapshot.boot_id.clone()),
                    None => None,
                },
            ),
            None => None,
        }
    }

    /// Where requests to an endpoint go, or None when the endpoint is unknown.
    pub fn frontend_endpoint_route<'a>(
        &'a self,
        endpoint_id: &ClientEndpointId,
        registry: &EndpointRegistry,
    ) -> (route: Option<FrontendEndpointRoute<'a>>)
        ensures
            match endpoint_with(self.endpoints@, endpoint_id@) {
                Some(endpoint) => route matches Some(route) && route.generation
                    == endpoint.generation(*registry) && optional_str(route.boot_id)
                    == endpoint.boot() && route.status == endpoint.status,
                None => route is None,
            },
    {
        match self.endpoint(endpoint_id) {
            Some(endpoint) => Some(endpoint.frontend_route(registry)),
            None => None,
        }
    }

    /// Scalar-only fingerprint: no terminal locks, frame scans, or sorting.
    /// In-place acknowledgement rewrites bump `agent_projection_revision` because
    /// they leave snapshot identity intact.
    pub fn frontend_observation_fingerprint(&self, registry: &EndpointRegistry, frozen: bool) -> (
    fingerprint: u64)
        ensures
            fingerprint == self.observed(*registry, frozen).fingerprint(),
    {
        let ghost observation = self.observed(*registry, frozen);
        let mut hash = DefaultHasher::new();
        write_endpoint(&mut hash, &self.active_endpoint_id);
        write_flag(&mut hash, self.outer_focused.is_some());
        write_flag(
            &mut hash,
            match self.outer_focused {
                Some(focused) => focused,
                None => false,
            },
        );
        write_flag(&mut hash, frozen);
        write_flag(&mut hash, registry.active_surface_available());
        write_number(&mut hash, self.mode);
        write_flag(&mut hash, self.overlay_open);
        match self.frontend_input_pane() {
            Some(pane) => write_optional_text(&mut hash, Some(pane.as_str())),
            None => write_optional_text(&mut hash, None),
        }
        write_number(&mut hash, self.agent_projection_revision);
        assert(hash@ =~= observation.header_writes());
        let ghost seen = endpoints_observed(self.endpoints@, *registry);
        let mut i: usize = 0;
        assert(crate::observation::endpoint_writes(seen.take(0)) =~= Seq::<Seq<u8>>::empty());
        while i < self.endpoints.len()
            invariant
                i <= self.endpoints@.len(),
                seen == endpoints_observed(self.endpoints@, *registry),
                observation == self.observed(*registry, frozen),
                hash@ == observation.header_writes() + crate::observation::endpoint_writes(
                    seen.take(i as int),
                ),
            decreases self.endpoints@.len() - i,
        {
            let ghost before = hash@;
            let endpoint = &self.endpoints[i];
            write_endpoint(&mut hash, &endpoint.endpoint_id);
            write_text(&mut hash, endpoint.label.as_str());
            write_number(&mut hash, number_of_status(endpoint.status));
            write_optional_number(&mut hash, endpoint.snapshot_generation);
            match &endpoint.snapshot {
                Some(snapshot) => {
                    write_optional_text(&mut hash, Some(snapshot.boot_id.as_str()));
                    write_number(&mut hash, snapshot.revision);
                },
                None => {
                    write_optional_text(&mut hash, None);
                    write_number(&mut hash, 0);
                },
            }
            write_optional_number(
                &mut hash,
                match registry.connection(&endpoint.endpoint_id) {
                    Some(connection) => Some(connection.generation),
                    None => None,
                },
            );
            proof {
                assert(seen[i as int] == endpoint.observed(*registry));
                assert(hash@ =~= before + seen[i as int].writes());
                assert(seen.take(i + 1).drop_last() =~= seen.take(i as int));
                assert(hash@ =~= observation.header_writes() + crate::observation::endpoint_writes(
                    seen.take(i + 1),
                ));
            }
            i += 1;
        }
        assert(seen.take(seen.len() as int) =~= seen);
        hash.finish()
    }

    /// The pane receiving ordinary typed input, or None while a mode or overlay
    /// owns the keyboard.
    pub fn frontend_input_pane(&self) -> (pane: Option<String>)
        ensures
            optional_text(pane) == self.input_pane(),
    {
        match &self.clipboard_image_target {
            Some(ClientClipboardImageTarget::Pane(pane)) => Some(pane.clone()),
            Some(ClientClipboardImageTarget::Popup(_)) => None,
            Some(ClientClipboardImageTarget::DirectTerminal) => None,
            None => None,
        }
    }

    /// Whether the active endpoint's snapshot shows `target` as focused.
    pub fn frontend_target_active(&self, target: &ClientEndpointFocusTarget) -> (active: bool)
        ensures
            active == self.target_focused(target@),
    {
        match &self.snapshot {
            Some(snapshot) => match target {
                ClientEndpointFocusTarget::Workspace(id) => is_text(
                    &snapshot.focused_workspace_id,
                    id.as_str(),
                ),
                ClientEndpointFocusTarget::Tab(id) => is_text(
                    &snapshot.focused_tab_id,
                    id.as_str(),
                ),
                ClientEndpointFocusTarget::Pane(id) => is_text(
                    &snapshot.focused_pane_id,
                    id.as_str(),
                ),
            },
            None => false,
        }
    }

    /// The snapshot published for this client.
    pub fn frontend_snapshot(&self, registry: &EndpointRegistry, frozen: bool) -> (snapshot:
        serde_json::Value)
        ensures
            json::content(snapshot) == self.published(*registry, frozen),
    {
        let mut endpoints: Vec<serde_json::Value> = Vec::new();
        let mut i: usize = 0;
        while i < self.endpoints.len()
            invariant
                i <= self.endpoints@.len(),
                endpoints@.len() == i,
                forall|j: int|
                    0 <= j < i ==> json::content(#[trigger] endpoints@[j])
                        == self.endpoints@[j].published(),
            decreases self.endpoints@.len() - i,
        {
            endpoints.push(self.endpoints[i].publish());
            i += 1;
        }
        assert(json::contents(endpoints@) =~= endpoints_published(self.endpoints@));
        let active = self.active_endpoint_id.storage_key();
        let ready = registry.active_surface_available() && !frozen;
        let input_target = match self.frontend_input_pane() {
            Some(pane) if ready => {
                let mut target = json::object();
                json::set_entry(&mut target, "endpoint_id", json::text(active.as_str()));
                json::set_entry(&mut target, "pane_id", json::text(pane.as_str()));
                target
            },
            _ => json::null(),
        };
        let focused = match self.outer_focused {
            Some(focused) => json::boolean(focused),
            None => json::null(),
        };
        let mut snapshot = json::object();
        json::set_entry(&mut snapshot, "focused", focused);
        json::set_entry(&mut snapshot, "input_ready", json::boolean(ready));
        json::set_entry(&mut snapshot, "active_endpoint_id", json::text(active.as_str()));
        json::set_entry(&mut snapshot, "input_target", input_target);
        json::set_entry(&mut snapshot, "endpoints", json::array(endpoints));
        snapshot
    }
}

/// Whether `text` is there and equals `expected`.
fn is_text(text: &Option<String>, expected: &str) -> (same: bool)
    ensures
        same == (optional_text(*text) == Some(expected@)),
{
    match text {
        Some(text) => str_eq(text.as_str(), expected),
        None => false,
    }
}

/// A published snapshot has exactly the documented fields, and so has each of
/// its endpoint entries.
pub proof fn law_snapshot_carries_only_the_published_fields(
    shell: ClientShellState,
    endpoint: ClientShellEndpoint,
    registry: EndpointRegistry,
    frozen: bool,
)
    ensures
        shell.published(registry, frozen) matches Json::Object(entries) && entries.dom() =~= set![
            "active_endpoint_id"@,
            "endpoints"@,
            "focused"@,
            "input_ready"@,
            "input_target"@,
        ],
        endpoint.published() matches Json::Object(entries) && entries.dom() =~= set![
            "boot_id"@,
            "endpoint_id"@,
            "label"@,
            "snapshot"@,
            "status"@,
        ],
{
}

/// While the active endpoint's surface is unavailable or frozen, a snapshot
/// names no pane as the target of input.
pub proof fn law_no_input_target_without_an_available_surface(
    shell: ClientShellState,
    registry: EndpointRegistry,
    frozen: bool,
)
    requires
        !registry.surface_available || frozen,
    ensures
        shell.published(registry, frozen).entry("input_target"@) == Json::Null,
        shell.published(registry, frozen).entry("input_ready"@) == Json::Bool(false),
{
    published_field_names_differ();
}

proof fn published_field_names_differ()
    ensures
        "input_target"@ != "endpoints"@,
        "input_ready"@ != "endpoints"@,
        "input_ready"@ != "input_target"@,
        "input_ready"@ != "active_endpoint_id"@,
{
    reveal_strlit("input_target");
    reveal_strlit("input_ready");
    reveal_strlit("endpoints");
    reveal_strlit("active_endpoint_id");
    assert("input_target"@.len() == 12 && "input_ready"@.len() == 11);
    assert("endpoints"@.len() == 9 && "active_endpoint_id"@.len() == 18);
}

proof fn endpoint_field_names_differ()
    ensures
        "endpoint_id"@ != "label"@,
        "endpoint_id"@ != "status"@,
        "endpoint_id"@ != "boot_id"@,
        "endpoint_id"@ != "snapshot"@,
        "boot_id"@ != "snapshot"@,
{
    reveal_strlit("endpoint_id");
    reveal_strlit("label");
    reveal_strlit("status");
    reveal_strlit("boot_id");
    reveal_strlit("snapshot");
    assert("endpoint_id"@.len() == 11 && "label"@.len() == 5 && "status"@.len() == 6);
    assert("boot_id"@.len() == 7 && "snapshot"@.len() == 8);
}

/// A published endpoint entry names the endpoint and the boot of its retained
/// snapshot.
pub proof fn law_an_entry_names_its_endpoint_and_boot(endpoint: ClientShellEndpoint)
    ensures
        endpoint.published().entry("endpoint_id"@) == Json::Text(
            endpoint.endpoint_id@.storage_text(),
        ),
        endpoint.published().entry("boot_id"@) == Json::from_optional_text(endpoint.boot()),
{
    endpoint_field_names_differ();
}

/// A published endpoint entry has a boot id exactly where it has a snapshot, and a
/// boot id inside the snapshot is the same one.
pub proof fn law_an_entry_has_a_boot_exactly_with_a_snapshot(endpoint: ClientShellEndpoint)
    requires
        endpoint.well_formed(),
    ensures
        endpoint.published().entry("boot_id"@) == Json::Null <==> endpoint.published().entry(
            "snapshot"@,
        ) == Json::Null,
        endpoint.published().entry("snapshot"@).entry("boot_id"@) != Json::Null
            ==> endpoint.published().entry("snapshot"@).entry("boot_id"@)
            == endpoint.published().entry("boot_id"@),
{
    endpoint_field_names_differ();
}

/// The snapshot published for a client follows from what is observed of it and
/// the documents it retains: a change of anything else is not published, and an
/// unchanged observation of unchanged documents hides no change.
pub proof fn law_observation_determines_the_snapshot(
    a: ClientShellState,
    b: ClientShellState,
    registry_a: EndpointRegistry,
    registry_b: EndpointRegistry,
    frozen_a: bool,
    frozen_b: bool,
)
    requires
        a.observed(registry_a, frozen_a) == b.observed(registry_b, frozen_b),
        forall|i: int|
            #![trigger a.endpoints@[i]]
            0 <= i < a.endpoints@.len() ==> (a.endpoints@[i].snapshot matches Some(x)
                ==> b.endpoints@[i].snapshot matches Some(y) && json::content(x.document)
                == json::content(y.document)),
    ensures
        a.published(registry_a, frozen_a) == b.published(registry_b, frozen_b),
{
    let seen_a = endpoints_observed(a.endpoints@, registry_a);
    let seen_b = endpoints_observed(b.endpoints@, registry_b);
    assert(seen_a == seen_b);
    assert forall|i: int| 0 <= i < a.endpoints@.len() implies (#[trigger] a.endpoints@[i]).published()
        == b.endpoints@[i].published() by {
        assert(seen_a[i] == a.endpoints@[i].observed(registry_a));
        assert(seen_b[i] == b.endpoints@[i].observed(registry_b));
    }
    assert(a.endpoints@.len() == seen_a.len() && b.endpoints@.len() == seen_b.len());
    assert(endpoints_published(a.endpoints@) =~= endpoints_published(b.endpoints@));
}

/// The retained endpoint with an identity is the first one that has it, and there
/// is one wherever any has it.
pub proof fn law_the_first_endpoint_with_an_identity_counts(
    endpoints: Seq<ClientShellEndpoint>,
    id: EndpointKey,
    i: int,
)
    requires
        0 <= i < endpoints.len(),
        endpoints[i].endpoint_id@ == id,
        forall|j: int| 0 <= j < i ==> (#[trigger] endpoints[j]).endpoint_id@ != id,
    ensures
        endpoint_with(endpoints, id) == Some(endpoints[i]),
    decreases i,
{
    if i > 0 {
        assert(endpoints[0].endpoint_id@ != id);
        let rest = endpoints.skip(1);
        assert(rest[i - 1] == endpoints[i]);
        assert forall|j: int| 0 <= j < i - 1 implies (#[trigger] rest[j]).endpoint_id@ != id by {
            assert(rest[j] == endpoints[j + 1]);
        }
        law_the_first_endpoint_with_an_identity_counts(rest, id, i - 1);
    }
}

/// There is no retained endpoint with an identity that none has.
pub proof fn law_an_unknown_identity_has_no_endpoint(
    endpoints: Seq<ClientShellEndpoint>,
    id: EndpointKey,
)
    requires
        forall|j: int| 0 <= j < endpoints.len() ==> (#[trigger] endpoints[j]).endpoint_id@ != id,
    ensures
        endpoint_with(endpoints, id) is None,
    decreases endpoints.len(),
{
    if endpoints.len() > 0 {
        let rest = endpoints.skip(1);
        assert(endpoints[0].endpoint_id@ != id);
        assert forall|j: int| 0 <= j < rest.len() implies (#[trigger] rest[j]).endpoint_id@
            != id by {
            assert(rest[j] == endpoints[j + 1]);
        }
        law_an_unknown_identity_has_no_endpoint(rest, id);
    }
}

/// Requests to an endpoint carry the generation of its connection, else that of
/// its snapshot, else zero; its boot is that of its snapshot.
pub proof fn law_a_route_carries_the_connection_generation(
    endpoint: ClientShellEndpoint,
    registry: EndpointRegistry,
)
    ensures
        crate::endpoint::connection_to(
            registry.connections@,
            endpoint.endpoint_id@,
        ) matches Some(connection) ==> endpoint.generation(registry) == connection.generation,
        crate::endpoint::connection_to(registry.connections@, endpoint.endpoint_id@) is None
            && endpoint.snapshot_generation is Some ==> endpoint.generation(registry)
            == endpoint.snapshot_generation->0,
        crate::endpoint::connection_to(registry.connections@, endpoint.endpoint_id@) is None
            && endpoint.snapshot_generation is None ==> endpoint.generation(registry) == 0,
        endpoint.snapshot matches Some(snapshot) ==> endpoint.boot() == Some(snapshot.boot_id@),
        endpoint.snapshot is None ==> endpoint.boot() is None,
{
}

/// A target is focused exactly where the active snapshot's focused id of the same
/// kind is the target's; without an active snapshot nothing is.
pub proof fn law_a_target_is_focused_in_its_own_kind(
    shell: ClientShellState,
    snapshot: ClientShellSnapshot,
    id: Seq<char>,
)
    ensures
        shell.snapshot == Some(snapshot) ==> {
            &&& shell.target_focused(FocusTargetView::Workspace(id)) <==> (
            snapshot.focused_workspace_id matches Some(focused) && focused@ == id)
            &&& shell.target_focused(FocusTargetView::Tab(id)) <==> (
            snapshot.focused_tab_id matches Some(focused) && focused@ == id)
            &&& shell.target_focused(FocusTargetView::Pane(id)) <==> (
            snapshot.focused_pane_id matches Some(focused) && focused@ == id)
        },
        shell.snapshot is None ==> !shell.target_focused(FocusTargetView::Workspace(id))
            && !shell.target_focused(FocusTargetView::Tab(id)) && !shell.target_focused(
            FocusTargetView::Pane(id),
        ),
{
}

/// A focus target stands for the kind and the id it was made with.
pub proof fn law_a_focus_target_has_its_kind_and_id(target: ClientEndpointFocusTarget)
    ensures
        target matches ClientEndpointFocusTarget::Workspace(id) ==> target@
            == FocusTargetView::Workspace(id@),
        target matches ClientEndpointFocusTarget::Tab(id) ==> target@ == FocusTargetView::Tab(id@),
        target matches ClientEndpointFocusTarget::Pane(id) ==> target@ == FocusTargetView::Pane(
            id@,
        ),
{
}

/// Whether two clients agree on the pane that ordinary typed input goes to.
pub open spec fn same_input_pane(a: ClientShellState, b: ClientShellState) -> bool {
    match (a.clipboard_image_target, b.clipboard_image_target) {
        (
            Some(ClientClipboardImageTarget::Pane(p)),
            Some(ClientClipboardImageTarget::Pane(q)),
        ) => p@ == q@,
        (Some(ClientClipboardImageTarget::Pane(_)), _) => false,
        (_, Some(ClientClipboardImageTarget::Pane(_))) => false,
        _ => true,
    }
}

/// Whether two retained endpoints agree in everything that a snapshot's identity
/// and route are made of.
pub open spec fn same_endpoint_scalars(a: ClientShellEndpoint, b: ClientShellEndpoint) -> bool {
    &&& a.endpoint_id@ == b.endpoint_id@
    &&& a.label@ == b.label@
    &&& a.status == b.status
    &&& a.snapshot_generation == b.snapshot_generation
    &&& a.snapshot is Some <==> b.snapshot is Some
    &&& a.snapshot is Some ==> a.snapshot->0.boot_id@ == b.snapshot->0.boot_id@
    &&& a.snapshot is Some ==> a.snapshot->0.revision == b.snapshot->0.revision
}

/// Whether two registries agree on the generation of the connection to an
/// endpoint.
pub open spec fn same_connection(
    a: EndpointRegistry,
    b: EndpointRegistry,
    endpoint: EndpointKey,
) -> bool {
    let left = crate::endpoint::connection_to(a.connections@, endpoint);
    let right = crate::endpoint::connection_to(b.connections@, endpoint);
    (left is Some <==> right is Some) && (left is Some ==> left->0.generation
        == right->0.generation)
}

/// Two clients have the same observation exactly where they agree in every scalar
/// of the projection: active endpoint, outer focus, freeze, surface, mode, overlay,
/// input pane, agent projection, and of each endpoint its identity, label, status,
/// snapshot generation, boot, snapshot revision and connection generation. A
/// change of any of them is a change of the observation, and nothing else is.
pub proof fn law_the_observation_is_every_scalar_of_the_projection(
    a: ClientShellState,
    b: ClientShellState,
    registry_a: EndpointRegistry,
    registry_b: EndpointRegistry,
    frozen_a: bool,
    frozen_b: bool,
)
    ensures
        a.observed(registry_a, frozen_a) == b.observed(registry_b, frozen_b) <==> {
            &&& a.active_endpoint_id@ == b.active_endpoint_id@
            &&& a.outer_focused == b.outer_focused
            &&& frozen_a == frozen_b
            &&& registry_a.surface_available == registry_b.surface_available
            &&& a.mode == b.mode
            &&& a.overlay_open == b.overlay_open
            &&& same_input_pane(a, b)
            &&& a.agent_projection_revision == b.agent_projection_revision
            &&& a.endpoints@.len() == b.endpoints@.len()
            &&& forall|i: int|
                0 <= i < a.endpoints@.len() ==> same_endpoint_scalars(
                    #[trigger] a.endpoints@[i],
                    b.endpoints@[i],
                ) && same_connection(registry_a, registry_b, a.endpoints@[i].endpoint_id@)
        },
{
    let seen_a = endpoints_observed(a.endpoints@, registry_a);
    let seen_b = endpoints_observed(b.endpoints@, registry_b);
    assert(seen_a.len() == a.endpoints@.len() && seen_b.len() == b.endpoints@.len());
    assert forall|i: int|
        0 <= i < a.endpoints@.len() && a.endpoints@.len() == b.endpoints@.len() implies (seen_a[i]
        == seen_b[i] <==> same_endpoint_scalars(#[trigger] a.endpoints@[i], b.endpoints@[i])
        && same_connection(registry_a, registry_b, a.endpoints@[i].endpoint_id@)) by {
        assert(seen_a[i] == a.endpoints@[i].observed(registry_a));
        assert(seen_b[i] == b.endpoints@[i].observed(registry_b));
    }
    if a.observed(registry_a, frozen_a) == b.observed(registry_b, frozen_b) {
        assert(seen_a == seen_b);
    }
    if a.endpoints@.len() == b.endpoints@.len() && forall|i: int|
        0 <= i < a.endpoints@.len() ==> same_endpoint_scalars(
            #[trigger] a.endpoints@[i],
            b.endpoints@[i],
        ) && same_connection(registry_a, registry_b, a.endpoints@[i].endpoint_id@) {
        assert forall|i: int| 0 <= i < seen_a.len() implies seen_a[i] == seen_b[i] by {
            assert(same_endpoint_scalars(a.endpoints@[i], b.endpoints@[i]));
        }
        assert(seen_a =~= seen_b);
    }
}

proof fn snapshot_field_names_differ()
    ensures
        "focused"@ != "input_ready"@,
        "focused"@ != "active_endpoint_id"@,
        "focused"@ != "input_target"@,
        "focused"@ != "endpoints"@,
        "active_endpoint_id"@ != "input_target"@,
        "active_endpoint_id"@ != "endpoints"@,
        "endpoint_id"@ != "pane_id"@,
{
    reveal_strlit("focused");
    reveal_strlit("input_ready");
    reveal_strlit("active_endpoint_id");
    reveal_strlit("input_target");
    reveal_strlit("endpoints");
    reveal_strlit("endpoint_id");
    reveal_strlit("pane_id");
    assert("focused"@.len() == 7 && "input_ready"@.len() == 11 && "input_target"@.len() == 12);
    assert("active_endpoint_id"@.len() == 18 && "endpoints"@.len() == 9);
    assert("endpoint_id"@.len() == 11 && "pane_id"@.len() == 7);
}

/// The published active endpoint reads back as the client's, for every client.
pub proof fn law_the_snapshot_names_the_active_endpoint(
    shell: ClientShellState,
    registry: EndpointRegistry,
    frozen: bool,
)
    requires
        shell.active_endpoint_id@ matches EndpointKey::Ssh(profile)
            ==> crate::endpoint::is_profile_id(profile),
    ensures
        shell.published(registry, frozen).entry("active_endpoint_id"@) matches Json::Text(name)
            && crate::endpoint::endpoint_named(name) == Some(shell.active_endpoint_id@),
{
    published_field_names_differ();
    snapshot_field_names_differ();
    crate::endpoint::storage_text_names_its_endpoint(shell.active_endpoint_id@);
}

/// Clients with different active endpoints publish different active endpoints.
pub proof fn law_active_endpoints_are_published_apart(
    a: ClientShellState,
    b: ClientShellState,
    registry_a: EndpointRegistry,
    registry_b: EndpointRegistry,
    frozen_a: bool,
    frozen_b: bool,
)
    requires
        a.active_endpoint_id@ != b.active_endpoint_id@,
    ensures
        a.published(registry_a, frozen_a).entry("active_endpoint_id"@) != b.published(
            registry_b,
            frozen_b,
        ).entry("active_endpoint_id"@),
{
    published_field_names_differ();
    snapshot_field_names_differ();
    crate::endpoint::law_different_endpoints_have_different_texts(
        a.active_endpoint_id@,
        b.active_endpoint_id@,
    );
}

/// A snapshot names a pane as the target of input exactly where the surface is
/// available and not frozen and a pane takes typed input. It is then that pane, on
/// the active endpoint, whose published name reads back as that endpoint.
pub proof fn law_the_input_target_is_the_pane_on_the_active_endpoint(
    shell: ClientShellState,
    registry: EndpointRegistry,
    frozen: bool,
)
    requires
        shell.active_endpoint_id@ matches EndpointKey::Ssh(profile)
            ==> crate::endpoint::is_profile_id(profile),
    ensures
        ({
            let target = shell.published(registry, frozen).entry("input_target"@);
            match shell.clipboard_image_target {
                Some(ClientClipboardImageTarget::Pane(pane)) => if registry.surface_available
                    && !frozen {
                    &&& target.entry("pane_id"@) == Json::Text(pane@)
                    &&& target.entry("endpoint_id"@) == shell.published(registry, frozen).entry(
                        "active_endpoint_id"@,
                    )
                    &&& target.entry("endpoint_id"@) matches Json::Text(name)
                        && crate::endpoint::endpoint_named(name) == Some(
                        shell.active_endpoint_id@,
                    )
                } else {
                    target == Json::Null
                },
                _ => target == Json::Null,
            }
        }),
{
    published_field_names_differ();
    snapshot_field_names_differ();
    crate::endpoint::storage_text_names_its_endpoint(shell.active_endpoint_id@);
}

/// A snapshot publishes the outer focus as it was reported, null before that, and
/// input as ready exactly while the surface is available and not frozen.
pub proof fn law_the_snapshot_publishes_focus_and_readiness(
    shell: ClientShellState,
    registry: EndpointRegistry,
    frozen: bool,
)
    ensures
        shell.outer_focused is None ==> shell.published(registry, frozen).entry("focused"@)
            == Json::Null,
        shell.outer_focused is Some ==> shell.published(registry, frozen).entry("focused"@)
            == Json::Bool(shell.outer_focused->0),
        shell.published(registry, frozen).entry("input_ready"@) == Json::Bool(
            registry.surface_available && !frozen,
        ),
{
    published_field_names_differ();
    snapshot_field_names_differ();
}

/// A snapshot lists every retained endpoint in order, each with its identity, its
/// label, its status, and the boot and document of its snapshot, null without one.
pub proof fn law_the_snapshot_lists_every_endpoint(
    shell: ClientShellState,
    registry: EndpointRegistry,
    frozen: bool,
    i: int,
)
    requires
        0 <= i < shell.endpoints@.len(),
    ensures
        shell.published(registry, frozen).entry("endpoints"@) matches Json::Array(entries) && {
            let endpoint = shell.endpoints@[i];
            &&& entries.len() == shell.endpoints@.len()
            &&& entries[i].entry("endpoint_id"@) == Json::Text(endpoint.endpoint_id@.storage_text())
            &&& entries[i].entry("label"@) == Json::Text(endpoint.label@)
            &&& entries[i].entry("status"@) == Json::Text(
                match endpoint.status {
                    ClientEndpointStatus::Connecting => "connecting"@,
                    ClientEndpointStatus::Online => "online"@,
                    ClientEndpointStatus::Reconnecting => "reconnecting"@,
                    ClientEndpointStatus::Attention => "attention"@,
                    ClientEndpointStatus::Disabled => "disabled"@,
                },
            )
            &&& endpoint.snapshot matches Some(snapshot) ==> entries[i].entry("boot_id"@)
                == Json::Text(snapshot.boot_id@) && entries[i].entry("snapshot"@) == json::content(
                snapshot.document,
            )
            &&& endpoint.snapshot is None ==> entries[i].entry("boot_id"@) == Json::Null
                && entries[i].entry("snapshot"@) == Json::Null
        },
{
    endpoint_field_names_differ();
    reveal_strlit("label");
    reveal_strlit("status");
    reveal_strlit("boot_id");
    reveal_strlit("snapshot");
    assert("label"@.len() == 5 && "status"@.len() == 6 && "boot_id"@.len() == 7
        && "snapshot"@.len() == 8);
    let entries = endpoints_published(shell.endpoints@);
    assert(entries[i] == shell.endpoints@[i].published());
}

} // verus!
