//! Identities of the endpoints one client is attached to, and their registry.
use vstd::prelude::*;
use vstd::std_specs::cmp::PartialEqSpecImpl;

use crate::text::{chars_of, str_eq};

verus! {

/// Number of characters in a profile id.
pub const PROFILE_ID_LEN: usize = 32;

/// Whether `ch` is a lower-case hexadecimal digit.
pub open spec fn is_lower_hex(ch: char) -> bool {
    ('0' <= ch && ch <= '9') || ('a' <= ch && ch <= 'f')
}

/// Whether `text` names a profile: 32 lower-case hexadecimal digits.
pub open spec fn is_profile_id(text: Seq<char>) -> bool {
    &&& text.len() == PROFILE_ID_LEN
    &&& forall|i: int| 0 <= i < text.len() ==> is_lower_hex(#[trigger] text[i])
}

/// The stable identity of an SSH profile.
#[derive(Debug, Hash, Eq)]
pub struct ProfileId {
    text: String,
}

impl View for ProfileId {
    type V = Seq<char>;

    closed spec fn view(&self) -> Seq<char> {
        self.text@
    }
}

impl Clone for ProfileId {
    fn clone(&self) -> (copy: Self)
        ensures
            copy == *self,
    {
        proof {
            use_type_invariant(self);
        }
        ProfileId { text: self.text.clone() }
    }
}

impl PartialEq for ProfileId {
    fn eq(&self, other: &Self) -> (same: bool) {
        self.text == other.text
    }
}

impl PartialEqSpecImpl for ProfileId {
    open spec fn obeys_eq_spec() -> bool {
        true
    }

    open spec fn eq_spec(&self, other: &Self) -> bool {
        self@ == other@
    }
}

impl ProfileId {
    #[verifier::type_invariant]
    spec fn well_formed(&self) -> bool {
        is_profile_id(self.text@)
    }

    /// Reads a profile id.
    pub fn parse(value: &str) -> (parsed: Result<Self, String>)
        ensures
            parsed is Ok <==> is_profile_id(value@),
            parsed matches Ok(profile) ==> profile@ == value@,
            parsed matches Err(message) ==> message@ == "invalid profile id"@,
    {
        let chars = chars_of(value);
        if chars.len() != PROFILE_ID_LEN {
            return Err("invalid profile id".to_owned());
        }
        let mut i: usize = 0;
        while i < chars.len()
            invariant
                i <= chars@.len(),
                chars@ == value@,
                forall|j: int| 0 <= j < i ==> is_lower_hex(#[trigger] value@[j]),
            decreases chars@.len() - i,
        {
            let ch = chars[i];
            if !(('0' <= ch && ch <= '9') || ('a' <= ch && ch <= 'f')) {
                assert(!is_lower_hex(value@[i as int]));
                return Err("invalid profile id".to_owned());
            }
            i += 1;
        }
        Ok(ProfileId { text: value.to_owned() })
    }

    /// The id's text.
    pub fn as_str(&self) -> (text: &str)
        ensures
            text@ == self@,
            is_profile_id(text@),
    {
        proof {
            use_type_invariant(self);
        }
        self.text.as_str()
    }
}

/// The identity of one endpoint of the client: the local server or an SSH profile.
#[derive(Debug, Hash, Eq)]
pub enum ClientEndpointId {
    Local,
    Ssh(ProfileId),
}

/// What a [`ClientEndpointId`] stands for.
pub enum EndpointKey {
    Local,
    Ssh(Seq<char>),
}

impl View for ClientEndpointId {
    type V = EndpointKey;

    open spec fn view(&self) -> EndpointKey {
        match self {
            ClientEndpointId::Local => EndpointKey::Local,
            ClientEndpointId::Ssh(profile) => EndpointKey::Ssh(profile@),
        }
    }
}

impl Clone for ClientEndpointId {
    fn clone(&self) -> (copy: Self)
        ensures
            copy == *self,
    {
        match self {
            ClientEndpointId::Local => ClientEndpointId::Local,
            ClientEndpointId::Ssh(profile) => ClientEndpointId::Ssh(profile.clone()),
        }
    }
}

impl PartialEq for ClientEndpointId {
    fn eq(&self, other: &Self) -> (same: bool) {
        match (self, other) {
            (ClientEndpointId::Local, ClientEndpointId::Local) => true,
            (ClientEndpointId::Ssh(a), ClientEndpointId::Ssh(b)) => *a == *b,
            _ => false,
        }
    }
}

impl PartialEqSpecImpl for ClientEndpointId {
    open spec fn obeys_eq_spec() -> bool {
        true
    }

    open spec fn eq_spec(&self, other: &Self) -> bool {
        self@ == other@
    }
}

impl EndpointKey {
    /// The text under which the endpoint is stored and named on the wire.
    pub open spec fn storage_text(self) -> Seq<char> {
        match self {
            EndpointKey::Local => "local"@,
            EndpointKey::Ssh(profile) => "ssh:"@ + profile,
        }
    }
}

impl ClientEndpointId {
    /// The text under which the endpoint is stored and named on the wire.
    ///
    /// [`parse_endpoint`] reads it back as this endpoint.
    pub fn storage_key(&self) -> (key: String)
        ensures
            key@ == self@.storage_text(),
            endpoint_named(key@) == Some(self@),
    {
        match self {
            ClientEndpointId::Local => "local".to_owned(),
            ClientEndpointId::Ssh(profile) => {
                let name = profile.as_str();
                proof {
                    storage_text_names_its_endpoint(EndpointKey::Ssh(name@));
                }
                "ssh:".to_owned().concat(name)
            },
        }
    }
}

/// The endpoint that a wire identity names, if it names one.
pub open spec fn endpoint_named(value: Seq<char>) -> Option<EndpointKey> {
    if value == "local"@ {
        Some(EndpointKey::Local)
    } else if "ssh:"@.is_prefix_of(value) && is_profile_id(value.skip(4)) {
        Some(EndpointKey::Ssh(value.skip(4)))
    } else {
        None
    }
}

/// The stored text of an endpoint names that endpoint and no other.
pub proof fn storage_text_names_its_endpoint(key: EndpointKey)
    requires
        key matches EndpointKey::Ssh(profile) ==> is_profile_id(profile),
    ensures
        endpoint_named(key.storage_text()) == Some(key),
{
    reveal_strlit("local");
    reveal_strlit("ssh:");
    if let EndpointKey::Ssh(profile) = key {
        let text = "ssh:"@ + profile;
        assert("ssh:"@.is_prefix_of(text));
        assert(text.skip(4) =~= profile);
        assert(text.len() == 36);
    }
}

/// Reads an endpoint identity: `local`, or `ssh:` and a profile id.
pub fn parse_endpoint(value: &str) -> (parsed: Option<ClientEndpointId>)
    ensures
        endpoint_named(value@) == (match parsed {
            Some(endpoint) => Some(endpoint@),
            None => None,
        }),
{
    proof {
        reveal_strlit("ssh:");
    }
    if str_eq(value, "local") {
        return Some(ClientEndpointId::Local);
    }
    if value.unicode_len() < 4 || !str_eq(value.substring_char(0, 4), "ssh:") {
        proof {
            if "ssh:"@.is_prefix_of(value@) {
                assert(value@.subrange(0, 4) =~= "ssh:"@);
            }
        }
        return None;
    }
    assert("ssh:"@.is_prefix_of(value@)) by {
        assert(value@.subrange(0, 4) == "ssh:"@);
    }
    assert(value@.skip(4) =~= value@.subrange(4, value@.len() as int));
    match ProfileId::parse(value.substring_char(4, value.unicode_len())) {
        Ok(profile) => Some(ClientEndpointId::Ssh(profile)),
        Err(_) => None,
    }
}

/// How an endpoint is connected.
#[derive(Clone, Copy, Debug, PartialEq, Eq, Structural)]
pub enum ClientEndpointStatus {
    Connecting,
    Online,
    Reconnecting,
    Attention,
    Disabled,
}

/// An open connection to an endpoint, with the methods it advertised.
#[derive(Debug)]
pub struct EndpointConnection {
    pub endpoint_id: ClientEndpointId,
    pub generation: u64,
    pub methods: Vec<String>,
}

impl EndpointConnection {
    /// Whether the endpoint advertised `method`.
    pub open spec fn advertises(self, method: Seq<char>) -> bool {
        exists|i: int| 0 <= i < self.methods@.len() && (#[trigger] self.methods@[i])@ == method
    }

    /// Whether the endpoint advertised `method`.
    pub fn supports_method(&self, method: &str) -> (supported: bool)
        ensures
            supported == self.advertises(method@),
    {
        let mut i: usize = 0;
        while i < self.methods.len()
            invariant
                i <= self.methods@.len(),
                forall|j: int| 0 <= j < i ==> (#[trigger] self.methods@[j])@ != method@,
            decreases self.methods@.len() - i,
        {
            if str_eq(self.methods[i].as_str(), method) {
                return true;
            }
            i += 1;
        }
        false
    }
}

/// The first connection to `endpoint`.
pub open spec fn connection_to(
    connections: Seq<EndpointConnection>,
    endpoint: EndpointKey,
) -> Option<EndpointConnection>
    decreases connections.len(),
{
    if connections.len() == 0 {
        None
    } else if connections[0].endpoint_id@ == endpoint {
        Some(connections[0])
    } else {
        connection_to(connections.skip(1), endpoint)
    }
}

/// The connections of one client, the endpoint it presents, and whether that
/// endpoint's surface is available.
#[derive(Debug)]
pub struct EndpointRegistry {
    pub connections: Vec<EndpointConnection>,
    pub active: ClientEndpointId,
    pub surface_available: bool,
}

impl EndpointRegistry {
    /// A registry without connections, presenting the local endpoint.
    pub fn empty() -> (registry: Self)
        ensures
            registry.connections@.len() == 0,
            registry.active@ == EndpointKey::Local,
            !registry.surface_available,
    {
        EndpointRegistry {
            connections: Vec::new(),
            active: ClientEndpointId::Local,
            surface_available: false,
        }
    }

    /// The connection to an endpoint.
    pub fn connection(&self, endpoint_id: &ClientEndpointId) -> (found: Option<&EndpointConnection>)
        ensures
            connection_to(self.connections@, endpoint_id@) == (match found {
                Some(connection) => Some(*connection),
                None => None,
            }),
    {
        let mut i: usize = 0;
        assert(self.connections@.skip(0) =~= self.connections@);
        while i < self.connections.len()
            invariant
                i <= self.connections@.len(),
                connection_to(self.connections@.skip(i as int), endpoint_id@) == connection_to(
                    self.connections@,
                    endpoint_id@,
                ),
            decreases self.connections@.len() - i,
        {
            assert(self.connections@.skip(i as int).skip(1) =~= self.connections@.skip(i + 1));
            if self.connections[i].endpoint_id == *endpoint_id {
                return Some(&self.connections[i]);
            }
            i += 1;
        }
        None
    }

    /// The endpoint the client presents.
    pub fn active_id(&self) -> (endpoint: &ClientEndpointId)
        ensures
            *endpoint == self.active,
    {
        &self.active
    }

    /// Whether the presented endpoint's surface is available.
    pub fn active_surface_available(&self) -> (available: bool)
        ensures
            available == self.surface_available,
    {
        self.surface_available
    }
}

/// An endpoint is named by one text, and that text names no other: `local`, or
/// `ssh:` and the 32 lower-case hexadecimal digits of the profile.
pub proof fn law_endpoints_are_named_exactly(text: Seq<char>, key: EndpointKey)
    ensures
        endpoint_named(text) == Some(key) <==> match key {
            EndpointKey::Local => text == "local"@,
            EndpointKey::Ssh(profile) => {
                &&& text == "ssh:"@ + profile
                &&& profile.len() == 32
                &&& forall|i: int|
                    0 <= i < profile.len() ==> ('0' <= #[trigger] profile[i] <= '9' || 'a'
                        <= profile[i] <= 'f')
            },
        },
{
    reveal_strlit("local");
    reveal_strlit("ssh:");
    assert("local"@.len() == 5 && "ssh:"@.len() == 4 && "local"@[0] == 'l' && "ssh:"@[0] == 's');
    if let EndpointKey::Ssh(profile) = key {
        if text == "ssh:"@ + profile {
            assert(text[0] == 's');
            assert(text.skip(4) =~= profile);
            assert("ssh:"@.is_prefix_of(text));
        }
        if endpoint_named(text) == Some(key) {
            assert(text =~= "ssh:"@ + text.skip(4));
        }
        if is_profile_id(profile) {
            assert forall|i: int| 0 <= i < profile.len() implies ('0' <= #[trigger] profile[i]
                <= '9' || 'a' <= profile[i] <= 'f') by {
                assert(is_lower_hex(profile[i]));
            }
        }
    }
}

/// Different endpoints have different texts.
pub proof fn law_different_endpoints_have_different_texts(a: EndpointKey, b: EndpointKey)
    requires
        a != b,
    ensures
        a.storage_text() != b.storage_text(),
{
    reveal_strlit("local");
    reveal_strlit("ssh:");
    assert("local"@[0] == 'l' && "ssh:"@[0] == 's' && "ssh:"@.len() == 4);
    if let (EndpointKey::Ssh(p), EndpointKey::Ssh(q)) = (a, b) {
        assert(a.storage_text().skip(4) =~= p);
        assert(b.storage_text().skip(4) =~= q);
    } else {
        assert(a.storage_text()[0] != b.storage_text()[0]);
    }
}

/// The connection to an endpoint is the first one in the registry to it, and there
/// is one wherever the registry has any.
pub proof fn law_the_first_connection_to_an_endpoint_counts(
    connections: Seq<EndpointConnection>,
    endpoint: EndpointKey,
    i: int,
)
    requires
        0 <= i < connections.len(),
        connections[i].endpoint_id@ == endpoint,
        forall|j: int| 0 <= j < i ==> (#[trigger] connections[j]).endpoint_id@ != endpoint,
    ensures
        connection_to(connections, endpoint) == Some(connections[i]),
    decreases i,
{
    if i > 0 {
        assert(connections[0].endpoint_id@ != endpoint);
        let rest = connections.skip(1);
        assert(rest[i - 1] == connections[i]);
        assert forall|j: int| 0 <= j < i - 1 implies (#[trigger] rest[j]).endpoint_id@
            != endpoint by {
            assert(rest[j] == connections[j + 1]);
        }
        law_the_first_connection_to_an_endpoint_counts(rest, endpoint, i - 1);
    }
}

/// There is no connection to an endpoint that no connection of the registry is to.
pub proof fn law_an_unconnected_endpoint_has_no_connection(
    connections: Seq<EndpointConnection>,
    endpoint: EndpointKey,
)
    requires
        forall|j: int|
            0 <= j < connections.len() ==> (#[trigger] connections[j]).endpoint_id@ != endpoint,
    ensures
        connection_to(connections, endpoint) is None,
    decreases connections.len(),
{
    if connections.len() > 0 {
        let rest = connections.skip(1);
        assert(connections[0].endpoint_id@ != endpoint);
        assert forall|j: int| 0 <= j < rest.len() implies (#[trigger] rest[j]).endpoint_id@
            != endpoint by {
            assert(rest[j] == connections[j + 1]);
        }
        law_an_unconnected_endpoint_has_no_connection(rest, endpoint);
    }
}

/// Endpoint identities are equal exactly where both are the local one or both are
/// SSH profiles with the same id.
pub proof fn law_an_identity_is_local_or_its_profile(a: ClientEndpointId, b: ClientEndpointId)
    ensures
        a@ == b@ <==> match (a, b) {
            (ClientEndpointId::Local, ClientEndpointId::Local) => true,
            (ClientEndpointId::Ssh(p), ClientEndpointId::Ssh(q)) => p@ == q@,
            _ => false,
        },
{
}

} // verus!
