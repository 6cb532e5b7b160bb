use herdr_client::endpoint::{
    parse_endpoint, ClientEndpointId, EndpointConnection, EndpointRegistry, ProfileId,
};
use herdr_client::text::{decimal, listed, str_before, str_eq, strip_controls};

const PROFILE: &str = "00ff0123456789abcdef0123456789ab";

#[test]
fn profile_ids_are_32_lower_case_hex_digits() {
    assert_eq!(ProfileId::parse(PROFILE).unwrap().as_str(), PROFILE);
    for text in [
        "",
        "00ff0123456789abcdef0123456789a",
        "00ff0123456789abcdef0123456789abc",
        "00FF0123456789abcdef0123456789ab",
        "00gf0123456789abcdef0123456789ab",
    ] {
        assert!(ProfileId::parse(text).is_err(), "accepted {text}");
    }
}

#[test]
fn endpoints_are_read_back_from_their_storage_key() {
    for endpoint in [
        ClientEndpointId::Local,
        ClientEndpointId::Ssh(ProfileId::parse(PROFILE).unwrap()),
    ] {
        assert_eq!(parse_endpoint(&endpoint.storage_key()), Some(endpoint));
    }
    assert_eq!(ClientEndpointId::Local.storage_key(), "local");
}

#[test]
fn other_texts_name_no_endpoint() {
    for text in ["", "Local", "local ", "ssh:", "ssh:local", PROFILE, "SSH:"] {
        assert_eq!(parse_endpoint(text), None);
    }
}

#[test]
fn a_registry_finds_the_connection_of_an_endpoint() {
    let ssh = ClientEndpointId::Ssh(ProfileId::parse(PROFILE).unwrap());
    let mut registry = EndpointRegistry::empty();
    assert_eq!(*registry.active_id(), ClientEndpointId::Local);
    assert!(!registry.active_surface_available());
    assert!(registry.connection(&ssh).is_none());
    registry.connections.push(EndpointConnection {
        endpoint_id: ssh.clone(),
        generation: 2,
        methods: vec!["tab.focus".into()],
    });
    let connection = registry.connection(&ssh).unwrap();
    assert_eq!(connection.generation, 2);
    assert!(connection.supports_method("tab.focus"));
    assert!(!connection.supports_method("tab.close"));
    assert!(registry.connection(&ClientEndpointId::Local).is_none());
}

#[test]
fn numbers_are_written_in_decimal() {
    assert_eq!(decimal(0), "0");
    assert_eq!(decimal(10), "10");
    assert_eq!(decimal(90_210), "90210");
    assert_eq!(decimal(u64::MAX), "18446744073709551615");
}

#[test]
fn control_characters_are_removed() {
    assert_eq!(strip_controls("\t |\u{1b}\n"), " |");
    assert_eq!(strip_controls("a\u{7f}b\u{9f}c\u{a0}d"), "abc\u{a0}d");
    assert_eq!(strip_controls(" é "), " é ");
    let once = strip_controls("x\u{0}y\u{85}");
    assert_eq!(strip_controls(&once), once);
}

#[test]
fn texts_are_compared_by_their_characters() {
    assert!(str_eq("", ""));
    assert!(str_eq("héllo", "héllo"));
    assert!(!str_eq("hello", "hellp"));
    assert!(!str_eq("hell", "hello"));
    assert!(listed(&["a", "b"], "b"));
    assert!(!listed(&["a", "b"], "c"));
    assert!(!listed(&[], ""));
}

#[test]
fn texts_are_ordered_as_strings_are() {
    let texts = ["", "a", "ab", "b", "B", "é", "z", "\u{ffff}", "\u{10000}", "za"];
    for a in texts {
        for b in texts {
            assert_eq!(str_before(a, b), a < b, "{a:?} and {b:?}");
        }
    }
}
