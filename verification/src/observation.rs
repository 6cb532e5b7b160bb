//! Fingerprints of what the frontend socket publishes.
//!
//! An [`Observation`] lists every scalar whose change makes a published snapshot
//! stale. It is fed to a hasher field by field, each in a fixed number of
//! writes, so that different observations are different inputs to the hasher.
use std::collections::hash_map::DefaultHasher;
use std::hash::Hasher;

use vstd::bytes::u64_to_le_bytes;
use vstd::prelude::*;

use crate::endpoint::{ClientEndpointId, ClientEndpointStatus, EndpointKey};

verus! {

/// What is observed of one endpoint.
pub struct EndpointObservation {
    pub endpoint: EndpointKey,
    pub label: Seq<char>,
    pub status: ClientEndpointStatus,
    pub snapshot_generation: Option<u64>,
    /// Boot id and revision of the retained snapshot.
    pub snapshot: Option<(Seq<char>, u64)>,
    pub connection_generation: Option<u64>,
}

/// What is observed of one client.
pub struct Observation {
    pub active_endpoint: EndpointKey,
    pub outer_focused: Option<bool>,
    pub frozen: bool,
    pub surface_available: bool,
    pub mode: u64,
    pub overlay_open: bool,
    pub input_pane: Option<Seq<char>>,
    pub agent_projection_revision: u64,
    pub endpoints: Seq<EndpointObservation>,
}

/// The write for a flag.
pub open spec fn flag_write(flag: bool) -> Seq<u8> {
    seq![
        if flag {
            1u8
        } else {
            0u8
        },
    ]
}

/// The write for an optional number's value; zero stands in for none.
pub open spec fn number_write(n: Option<u64>) -> Seq<u8> {
    vstd::bytes::spec_u64_to_le_bytes(
        match n {
            Some(n) => n,
            None => 0,
        },
    )
}

/// The write for an optional text's value; the empty text stands in for none.
pub open spec fn text_write(text: Option<Seq<char>>) -> Seq<u8> {
    vstd::utf8::encode_utf8(
        match text {
            Some(text) => text,
            None => Seq::empty(),
        },
    )
}

/// The byte that ends every text; it occurs in no UTF-8 text.
pub open spec fn text_end() -> Seq<u8> {
    seq![0xffu8]
}

/// The number written for a status.
pub open spec fn status_number(status: ClientEndpointStatus) -> u64 {
    match status {
        ClientEndpointStatus::Connecting => 0,
        ClientEndpointStatus::Online => 1,
        ClientEndpointStatus::Reconnecting => 2,
        ClientEndpointStatus::Attention => 3,
        ClientEndpointStatus::Disabled => 4,
    }
}

impl EndpointObservation {
    /// The writes for one endpoint.
    pub open spec fn writes(self) -> Seq<Seq<u8>> {
        let boot = match self.snapshot {
            Some((boot, _)) => Some(boot),
            None => None,
        };
        let revision = match self.snapshot {
            Some((_, revision)) => Some(revision),
            None => None,
        };
        seq![
            text_write(Some(self.endpoint.storage_text())),
            text_end(),
            text_write(Some(self.label)),
            text_end(),
            number_write(Some(status_number(self.status))),
            flag_write(self.snapshot_generation is Some),
            number_write(self.snapshot_generation),
            flag_write(self.snapshot is Some),
            text_write(boot),
            text_end(),
            number_write(revision),
            flag_write(self.connection_generation is Some),
            number_write(self.connection_generation),
        ]
    }
}

/// The writes for a list of endpoints.
pub open spec fn endpoint_writes(endpoints: Seq<EndpointObservation>) -> Seq<Seq<u8>>
    decreases endpoints.len(),
{
    if endpoints.len() == 0 {
        Seq::empty()
    } else {
        endpoint_writes(endpoints.drop_last()) + endpoints.last().writes()
    }
}

impl Observation {
    /// The writes before those for the endpoints.
    pub open spec fn header_writes(self) -> Seq<Seq<u8>> {
        seq![
            text_write(Some(self.active_endpoint.storage_text())),
            text_end(),
            flag_write(self.outer_focused is Some),
            flag_write(self.outer_focused == Some(true)),
            flag_write(self.frozen),
            flag_write(self.surface_available),
            number_write(Some(self.mode)),
            flag_write(self.overlay_open),
            flag_write(self.input_pane is Some),
            text_write(self.input_pane),
            text_end(),
            number_write(Some(self.agent_projection_revision)),
        ]
    }

    /// Everything written for this observation.
    pub open spec fn writes(self) -> Seq<Seq<u8>> {
        self.header_writes() + endpoint_writes(self.endpoints)
    }

    /// The fingerprint of this observation.
    pub open spec fn fingerprint(self) -> u64 {
        <DefaultHasher as vstd::std_specs::hash::DefaultHasherAdditionalSpecFns>::spec_finish(self.writes())
    }
}

/// Writes a flag.
pub(crate) fn write_flag(hash: &mut DefaultHasher, flag: bool)
    ensures
        final(hash)@ == old(hash)@.push(flag_write(flag)),
{
    let byte: u8 = if flag {
        1
    } else {
        0
    };
    let mut bytes: Vec<u8> = Vec::new();
    bytes.push(byte);
    assert(bytes@ =~= flag_write(flag));
    hash.write(bytes.as_slice());
}

/// Writes a number.
pub(crate) fn write_number(hash: &mut DefaultHasher, n: u64)
    ensures
        final(hash)@ == old(hash)@.push(number_write(Some(n))),
{
    let bytes = u64_to_le_bytes(n);
    hash.write(bytes.as_slice());
}

/// Writes whether there is a number, and the number.
pub(crate) fn write_optional_number(hash: &mut DefaultHasher, n: Option<u64>)
    ensures
        final(hash)@ == old(hash)@ + seq![flag_write(n is Some), number_write(n)],
{
    match n {
        Some(n) => {
            write_flag(hash, true);
            write_number(hash, n);
        },
        None => {
            write_flag(hash, false);
            write_number(hash, 0);
        },
    }
    assert(hash@ =~= old(hash)@ + seq![flag_write(n is Some), number_write(n)]);
}

/// Writes a text and its end.
pub(crate) fn write_text(hash: &mut DefaultHasher, text: &str)
    ensures
        final(hash)@ == old(hash)@ + seq![text_write(Some(text@)), text_end()],
{
    hash.write(text.as_bytes());
    let mut end: Vec<u8> = Vec::new();
    end.push(0xff);
    assert(end@ =~= text_end());
    hash.write(end.as_slice());
    assert(hash@ =~= old(hash)@ + seq![text_write(Some(text@)), text_end()]);
}

/// Writes whether there is a text, and the text.
pub(crate) fn write_optional_text(hash: &mut DefaultHasher, text: Option<&str>)
    ensures
        final(hash)@ == old(hash)@ + seq![
            flag_write(text is Some),
            text_write(
                match text {
                    Some(text) => Some(text@),
                    None => None,
                },
            ),
            text_end(),
        ],
{
    proof {
        reveal_strlit("");
        assert(""@ =~= Seq::<char>::empty());
    }
    match text {
        Some(text) => {
            write_flag(hash, true);
            write_text(hash, text);
        },
        None => {
            write_flag(hash, false);
            write_text(hash, "");
        },
    }
    assert(hash@ =~= old(hash)@ + seq![
        flag_write(text is Some),
        text_write(
            match text {
                Some(text) => Some(text@),
                None => None,
            },
        ),
        text_end(),
    ]);
}

/// Writes an endpoint's identity.
pub(crate) fn write_endpoint(hash: &mut DefaultHasher, endpoint: &ClientEndpointId)
    ensures
        final(hash)@ == old(hash)@ + seq![
            text_write(Some(endpoint@.storage_text())),
            text_end(),
        ],
{
    let key = endpoint.storage_key();
    write_text(hash, key.as_str());
}

/// The number written for a status.
pub(crate) fn number_of_status(status: ClientEndpointStatus) -> (n: u64)
    ensures
        n == status_number(status),
{
    match status {
        ClientEndpointStatus::Connecting => 0,
        ClientEndpointStatus::Online => 1,
        ClientEndpointStatus::Reconnecting => 2,
        ClientEndpointStatus::Attention => 3,
        ClientEndpointStatus::Disabled => 4,
    }
}

proof fn flag_write_injective(a: bool, b: bool)
    ensures
        flag_write(a) == flag_write(b) ==> a == b,
{
    assert(flag_write(a)[0] == (if a {
        1u8
    } else {
        0u8
    }));
    assert(flag_write(b)[0] == (if b {
        1u8
    } else {
        0u8
    }));
}

proof fn number_write_injective(a: Option<u64>, b: Option<u64>)
    ensures
        number_write(a) == number_write(b) && (a is Some <==> b is Some) ==> a == b,
{
    vstd::bytes::lemma_auto_spec_u64_to_from_le_bytes();
}

proof fn text_write_injective(a: Option<Seq<char>>, b: Option<Seq<char>>)
    ensures
        text_write(a) == text_write(b) && (a is Some <==> b is Some) ==> a == b,
{
    if let Some(text) = a {
        vstd::utf8::encode_utf8_decode_utf8(text);
    }
    if let Some(text) = b {
        vstd::utf8::encode_utf8_decode_utf8(text);
    }
}

proof fn storage_text_injective(a: EndpointKey, b: EndpointKey)
    ensures
        a.storage_text() == b.storage_text() ==> a == b,
{
    reveal_strlit("local");
    reveal_strlit("ssh:");
    if a.storage_text() == b.storage_text() {
        assert(a.storage_text()[0] == b.storage_text()[0]);
        if let (EndpointKey::Ssh(p), EndpointKey::Ssh(q)) = (a, b) {
            assert(a.storage_text().skip(4) =~= p);
            assert(b.storage_text().skip(4) =~= q);
        }
    }
}

proof fn endpoint_observation_injective(a: EndpointObservation, b: EndpointObservation)
    ensures
        a.writes() == b.writes() ==> a == b,
{
    if a.writes() == b.writes() {
        let x = a.writes();
        let y = b.writes();
        assert(x[0] == y[0] && x[2] == y[2] && x[4] == y[4] && x[5] == y[5] && x[6] == y[6]
            && x[7] == y[7] && x[8] == y[8] && x[10] == y[10] && x[11] == y[11] && x[12] == y[12]);
        text_write_injective(Some(a.endpoint.storage_text()), Some(b.endpoint.storage_text()));
        storage_text_injective(a.endpoint, b.endpoint);
        text_write_injective(Some(a.label), Some(b.label));
        number_write_injective(Some(status_number(a.status)), Some(status_number(b.status)));
        flag_write_injective(a.snapshot_generation is Some, b.snapshot_generation is Some);
        number_write_injective(a.snapshot_generation, b.snapshot_generation);
        flag_write_injective(a.snapshot is Some, b.snapshot is Some);
        if let (Some((boot_a, rev_a)), Some((boot_b, rev_b))) = (a.snapshot, b.snapshot) {
            text_write_injective(Some(boot_a), Some(boot_b));
            number_write_injective(Some(rev_a), Some(rev_b));
        }
        flag_write_injective(a.connection_generation is Some, b.connection_generation is Some);
        number_write_injective(a.connection_generation, b.connection_generation);
    }
}

proof fn endpoint_writes_injective(a: Seq<EndpointObservation>, b: Seq<EndpointObservation>)
    ensures
        endpoint_writes(a).len() == 13 * a.len(),
        endpoint_writes(a) == endpoint_writes(b) ==> a == b,
    decreases a.len(),
{
    if a.len() > 0 {
        let init = a.drop_last();
        if b.len() > 0 {
            endpoint_writes_injective(init, b.drop_last());
            endpoint_writes_len(a);
            endpoint_writes_len(b);
            endpoint_writes_len(init);
            endpoint_writes_len(b.drop_last());
            if endpoint_writes(a) == endpoint_writes(b) {
                let n = endpoint_writes(init).len() as int;
                let m = endpoint_writes(b.drop_last()).len() as int;
                assert(n == m);
                assert(endpoint_writes(a).take(n) =~= endpoint_writes(init));
                assert(endpoint_writes(b).take(n) =~= endpoint_writes(b.drop_last()));
                assert(endpoint_writes(a).skip(n) =~= a.last().writes());
                assert(endpoint_writes(b).skip(n) =~= b.last().writes());
                endpoint_observation_injective(a.last(), b.last());
                assert(a =~= init.push(a.last()));
                assert(b =~= b.drop_last().push(b.last()));
            }
        } else {
            endpoint_writes_len(a);
        }
    } else {
        endpoint_writes_len(b);
        assert(b.len() == 0 ==> a =~= b);
    }
    endpoint_writes_len(a);
}

proof fn endpoint_writes_len(a: Seq<EndpointObservation>)
    ensures
        endpoint_writes(a).len() == 13 * a.len(),
    decreases a.len(),
{
    if a.len() > 0 {
        endpoint_writes_len(a.drop_last());
    }
}

/// Different observations are different inputs to the hasher: no change of an
/// observed scalar is lost before hashing.
pub proof fn law_observations_are_written_apart(a: Observation, b: Observation)
    ensures
        a.writes() == b.writes() ==> a == b,
{
    if a.writes() == b.writes() {
        assert(a.writes().take(12) =~= a.header_writes());
        assert(b.writes().take(12) =~= b.header_writes());
        assert(a.writes().skip(12) =~= endpoint_writes(a.endpoints));
        assert(b.writes().skip(12) =~= endpoint_writes(b.endpoints));
        endpoint_writes_injective(a.endpoints, b.endpoints);
        let x = a.header_writes();
        let y = b.header_writes();
        assert(x[0] == y[0] && x[2] == y[2] && x[3] == y[3] && x[4] == y[4] && x[5] == y[5]
            && x[6] == y[6] && x[7] == y[7] && x[8] == y[8] && x[9] == y[9] && x[11] == y[11]);
        text_write_injective(
            Some(a.active_endpoint.storage_text()),
            Some(b.active_endpoint.storage_text()),
        );
        storage_text_injective(a.active_endpoint, b.active_endpoint);
        flag_write_injective(a.outer_focused is Some, b.outer_focused is Some);
        flag_write_injective(a.outer_focused == Some(true), b.outer_focused == Some(true));
        assert(a.outer_focused == b.outer_focused) by {
            if let (Some(x), Some(y)) = (a.outer_focused, b.outer_focused) {
                assert((Some(x) == Some(true)) == x && (Some(y) == Some(true)) == y);
            }
        }
        flag_write_injective(a.frozen, b.frozen);
        flag_write_injective(a.surface_available, b.surface_available);
        number_write_injective(Some(a.mode), Some(b.mode));
        flag_write_injective(a.overlay_open, b.overlay_open);
        flag_write_injective(a.input_pane is Some, b.input_pane is Some);
        text_write_injective(a.input_pane, b.input_pane);
        number_write_injective(
            Some(a.agent_projection_revision),
            Some(b.agent_projection_revision),
        );
    }
}

/// The bytes of a list of writes, one write after the other.
pub open spec fn joined(writes: Seq<Seq<u8>>) -> Seq<u8>
    decreases writes.len(),
{
    if writes.len() == 0 {
        Seq::empty()
    } else {
        writes[0] + joined(writes.skip(1))
    }
}

proof fn joined_concat(a: Seq<Seq<u8>>, b: Seq<Seq<u8>>)
    ensures
        joined(a + b) == joined(a) + joined(b),
    decreases a.len(),
{
    if a.len() == 0 {
        assert(a + b =~= b);
        assert(joined(a) + joined(b) =~= joined(b));
    } else {
        joined_concat(a.skip(1), b);
        assert((a + b).skip(1) =~= a.skip(1) + b);
        assert(joined(a + b) =~= joined(a) + joined(b));
    }
}

/// Whether each write has the length that `shape` gives for its place, or, where
/// that is none, is free of the byte that ends a text and followed by it.
spec fn is_shaped(writes: Seq<Seq<u8>>, shape: Seq<Option<nat>>) -> bool {
    &&& writes.len() == shape.len()
    &&& forall|i: int|
        0 <= i < writes.len() ==> match #[trigger] shape[i] {
            Some(length) => writes[i].len() == length,
            None => !writes[i].contains(0xffu8) && i + 1 < writes.len() && writes[i + 1]
                == text_end(),
        }
}

/// Writes of one shape can be told from the bytes they begin.
proof fn shaped_writes_are_read_back(
    a: Seq<Seq<u8>>,
    b: Seq<Seq<u8>>,
    shape: Seq<Option<nat>>,
    after_a: Seq<u8>,
    after_b: Seq<u8>,
)
    requires
        is_shaped(a, shape),
        is_shaped(b, shape),
        joined(a) + after_a == joined(b) + after_b,
    ensures
        a == b,
        after_a == after_b,
    decreases shape.len(),
{
    let left = joined(a) + after_a;
    let right = joined(b) + after_b;
    if shape.len() == 0 {
        assert(a =~= b);
        assert(left =~= after_a);
        assert(right =~= after_b);
    } else {
        let (head_a, head_b) = (a[0], b[0]);
        let (rest_a, rest_b) = (a.skip(1), b.skip(1));
        assert(left =~= head_a + (joined(rest_a) + after_a));
        assert(right =~= head_b + (joined(rest_b) + after_b));
        assert(head_a.len() == head_b.len()) by {
            if shape[0] is None {
                text_ends_at_its_end(a, after_a);
                text_ends_at_its_end(b, after_b);
                if head_a.len() < head_b.len() {
                    assert(head_b.contains(head_b[head_a.len() as int]));
                }
                if head_b.len() < head_a.len() {
                    assert(head_a.contains(head_a[head_b.len() as int]));
                }
            }
        }
        let cut = head_a.len() as int;
        assert(left.take(cut) =~= head_a);
        assert(right.take(cut) =~= head_b);
        assert(left.skip(cut) =~= joined(rest_a) + after_a);
        assert(right.skip(cut) =~= joined(rest_b) + after_b);
        assert forall|i: int| 0 <= i < rest_a.len() implies match #[trigger] shape.skip(1)[i] {
            Some(length) => rest_a[i].len() == length && rest_b[i].len() == length,
            None => !rest_a[i].contains(0xffu8) && !rest_b[i].contains(0xffu8) && i + 1
                < rest_a.len() && rest_a[i + 1] == text_end() && rest_b[i + 1] == text_end(),
        } by {
            assert(shape.skip(1)[i] == shape[i + 1]);
        }
        shaped_writes_are_read_back(rest_a, rest_b, shape.skip(1), after_a, after_b);
        assert(a =~= seq![head_a] + rest_a);
        assert(b =~= seq![head_b] + rest_b);
    }
}

/// The byte right behind a text is the one that ends it.
proof fn text_ends_at_its_end(writes: Seq<Seq<u8>>, after: Seq<u8>)
    requires
        writes.len() > 1,
        writes[1] == text_end(),
    ensures
        (joined(writes) + after).len() > writes[0].len(),
        (joined(writes) + after)[writes[0].len() as int] == 0xffu8,
{
    let rest = writes.skip(1);
    assert(rest[0] == text_end());
    assert(joined(rest)[0] == 0xffu8);
}

/// No UTF-8 text holds the byte that ends a text.
proof fn text_holds_no_end(text: Seq<char>)
    ensures
        !vstd::utf8::encode_utf8(text).contains(0xffu8),
    decreases text.len(),
{
    if text.len() > 0 {
        text_holds_no_end(text.drop_first());
        let scalar = text[0] as u32;
        scalar_holds_no_end(scalar);
        let first = vstd::utf8::encode_scalar(scalar);
        let rest = vstd::utf8::encode_utf8(text.drop_first());
        let bytes = vstd::utf8::encode_utf8(text);
        assert(bytes == first + rest);
        assert forall|i: int| 0 <= i < bytes.len() implies #[trigger] bytes[i] != 0xffu8 by {
            if i < first.len() {
                assert(bytes[i] == first[i]);
            } else {
                assert(bytes[i] == rest[i - first.len()]);
                assert(rest.contains(rest[i - first.len()]));
            }
        }
    }
}

proof fn scalar_holds_no_end(scalar: u32)
    ensures
        forall|i: int|
            0 <= i < vstd::utf8::encode_scalar(scalar).len()
                ==> #[trigger] vstd::utf8::encode_scalar(scalar)[i] != 0xffu8,
{
    assert((scalar & 0x7F) as u8 != 0xffu8) by (bit_vector);
    assert(0xC0u8 | ((scalar >> 6) & 0x1F) as u8 != 0xffu8) by (bit_vector);
    assert(0xE0u8 | ((scalar >> 12) & 0x0F) as u8 != 0xffu8) by (bit_vector);
    assert(0xF0u8 | ((scalar >> 18) & 0x7) as u8 != 0xffu8) by (bit_vector);
    assert(0x80u8 | (scalar & 0x3F) as u8 != 0xffu8) by (bit_vector);
    assert(0x80u8 | ((scalar >> 6) & 0x3F) as u8 != 0xffu8) by (bit_vector);
    assert(0x80u8 | ((scalar >> 12) & 0x3F) as u8 != 0xffu8) by (bit_vector);
}

spec fn header_shape() -> Seq<Option<nat>> {
    seq![
        None,
        Some(1),
        Some(1),
        Some(1),
        Some(1),
        Some(1),
        Some(8),
        Some(1),
        Some(1),
        None,
        Some(1),
        Some(8),
    ]
}

spec fn endpoint_shape() -> Seq<Option<nat>> {
    seq![
        None,
        Some(1),
        None,
        Some(1),
        Some(8),
        Some(1),
        Some(8),
        Some(1),
        None,
        Some(1),
        Some(8),
        Some(1),
        Some(8),
    ]
}

proof fn header_is_shaped(observation: Observation)
    ensures
        is_shaped(observation.header_writes(), header_shape()),
{
    vstd::bytes::lemma_auto_spec_u64_to_from_le_bytes();
    text_holds_no_end(observation.active_endpoint.storage_text());
    if let Some(pane) = observation.input_pane {
        text_holds_no_end(pane);
    }
}

proof fn endpoint_is_shaped(endpoint: EndpointObservation)
    ensures
        is_shaped(endpoint.writes(), endpoint_shape()),
{
    vstd::bytes::lemma_auto_spec_u64_to_from_le_bytes();
    text_holds_no_end(endpoint.endpoint.storage_text());
    text_holds_no_end(endpoint.label);
    if let Some((boot, _)) = endpoint.snapshot {
        text_holds_no_end(boot);
    }
}

proof fn endpoint_writes_from_the_first(endpoints: Seq<EndpointObservation>)
    requires
        endpoints.len() > 0,
    ensures
        endpoint_writes(endpoints) == endpoints[0].writes() + endpoint_writes(endpoints.skip(1)),
    decreases endpoints.len(),
{
    let rest = endpoints.skip(1);
    if endpoints.len() == 1 {
        assert(endpoints.drop_last() =~= Seq::empty());
        assert(endpoint_writes(endpoints.drop_last()) =~= Seq::empty());
        assert(rest =~= Seq::empty());
        assert(endpoint_writes(endpoints) =~= endpoints[0].writes() + endpoint_writes(rest));
    } else {
        endpoint_writes_from_the_first(endpoints.drop_last());
        assert(endpoints.drop_last().skip(1) =~= rest.drop_last());
        assert(rest.last() == endpoints.last());
        assert(endpoint_writes(endpoints) =~= endpoints[0].writes() + endpoint_writes(rest));
    }
}

proof fn joined_endpoints_are_read_back(a: Seq<EndpointObservation>, b: Seq<EndpointObservation>)
    requires
        joined(endpoint_writes(a)) == joined(endpoint_writes(b)),
    ensures
        endpoint_writes(a) == endpoint_writes(b),
    decreases a.len() + b.len(),
{
    if a.len() > 0 {
        endpoint_writes_from_the_first(a);
        joined_concat(a[0].writes(), endpoint_writes(a.skip(1)));
        endpoint_is_shaped(a[0]);
        text_ends_at_its_end(a[0].writes(), Seq::empty());
    }
    if b.len() > 0 {
        endpoint_writes_from_the_first(b);
        joined_concat(b[0].writes(), endpoint_writes(b.skip(1)));
        endpoint_is_shaped(b[0]);
        text_ends_at_its_end(b[0].writes(), Seq::empty());
    }
    if a.len() > 0 && b.len() > 0 {
        shaped_writes_are_read_back(
            a[0].writes(),
            b[0].writes(),
            endpoint_shape(),
            joined(endpoint_writes(a.skip(1))),
            joined(endpoint_writes(b.skip(1))),
        );
        joined_endpoints_are_read_back(a.skip(1), b.skip(1));
    } else {
        assert(joined(endpoint_writes(a)).len() == joined(endpoint_writes(b)).len());
        assert(a.len() == 0 && b.len() == 0);
        assert(endpoint_writes(a) =~= endpoint_writes(b));
    }
}

/// Different observations are different bytes, also where the writes are taken
/// together: no write runs into the next.
pub proof fn law_observations_are_joined_apart(a: Observation, b: Observation)
    ensures
        joined(a.writes()) == joined(b.writes()) ==> a == b,
{
    if joined(a.writes()) == joined(b.writes()) {
        joined_concat(a.header_writes(), endpoint_writes(a.endpoints));
        joined_concat(b.header_writes(), endpoint_writes(b.endpoints));
        header_is_shaped(a);
        header_is_shaped(b);
        shaped_writes_are_read_back(
            a.header_writes(),
            b.header_writes(),
            header_shape(),
            joined(endpoint_writes(a.endpoints)),
            joined(endpoint_writes(b.endpoints)),
        );
        joined_endpoints_are_read_back(a.endpoints, b.endpoints);
        law_observations_are_written_apart(a, b);
    }
}

/// The fingerprint is that of everything written: `DefaultHasher` fed with the
/// header and then with every endpoint, in order.
pub proof fn law_the_fingerprint_covers_everything_written(observation: Observation)
    ensures
        observation.fingerprint()
            == <DefaultHasher as vstd::std_specs::hash::DefaultHasherAdditionalSpecFns>::spec_finish(
        observation.header_writes() + endpoint_writes(observation.endpoints)),
{
}

} // verus!
