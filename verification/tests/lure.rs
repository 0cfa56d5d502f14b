use lure::config::{LureConfig, Table};
use lure::keypair::KeyPair;
use lure::lure::{
    check_encryption_response, check_profile, forwarded_address, is_valid_username,
    push_properties_json, same_bytes, session_url, status_json, Admission, GameProfile,
    LoginError, Lure,
};
use lure::packets::Property;
use lure::utils::{is_png_start, read_favicon};
use rand::rngs::OsRng;
use rsa::{PublicKeyParts, RsaPrivateKey};

const ICON: [u8; 45] = [
    137, 80, 78, 71, 13, 10, 26, 10, 0, 0, 0, 13, 73, 72, 68, 82, 0, 0, 0, 64, 0, 0, 0, 64, 8, 6,
    0, 0, 0, 170, 105, 113, 222, 0, 0, 0, 0, 73, 69, 78, 68, 174, 66, 96, 130,
];

const NARROW_ICON: [u8; 45] = [
    137, 80, 78, 71, 13, 10, 26, 10, 0, 0, 0, 13, 73, 72, 68, 82, 0, 0, 0, 32, 0, 0, 0, 64, 8, 6,
    0, 0, 0, 123, 142, 117, 174, 0, 0, 0, 0, 73, 69, 78, 68, 174, 66, 96, 130,
];

fn small_keypair() -> KeyPair {
    KeyPair { private_key: RsaPrivateKey::new(&mut OsRng, 512).unwrap(), public_key: vec![1, 2, 3] }
}

fn proxy_with(hosts: &[(&str, &str)], servers: &[(&str, &str)]) -> Lure {
    let mut config = LureConfig::default();
    config.hosts = Table::new();
    for (host, server) in hosts {
        config.hosts.insert(host.to_string(), server.to_string());
    }
    config.servers = Table::new();
    for (server, address) in servers {
        config.servers.insert(server.to_string(), address.to_string());
    }
    Lure { config, favicon: None, keypair: small_keypair() }
}

#[test]
fn new_proxy_has_a_key_pair() {
    let lure = Lure::new(LureConfig::default()).unwrap();
    assert!(lure.favicon.is_none());
    assert!(!lure.keypair.public_key.is_empty());
    // A DER sequence.
    assert_eq!(lure.keypair.public_key[0], 0x30);
    let other = KeyPair::new().unwrap();
    assert_ne!(other.public_key, lure.keypair.public_key);
}

#[test]
fn key_pair_is_made_of_what_was_generated() {
    assert!(KeyPair::from_generated(None).is_none());
    let key = RsaPrivateKey::new(&mut OsRng, 512).unwrap();
    let pair = KeyPair::from_generated(Some(key.clone())).unwrap();
    assert_eq!(pair.private_key, key);
    assert_eq!(
        pair.public_key,
        rsa_der::public_key_to_der(&key.n().to_bytes_be(), &key.e().to_bytes_be())
    );
}

#[test]
fn proxy_is_made_of_the_key_pair_that_was_made() {
    assert!(Lure::from_keypair(LureConfig::default(), None).is_none());
    let pair = small_keypair();
    let key = pair.private_key.clone();
    let lure = Lure::from_keypair(LureConfig::default(), Some(pair)).unwrap();
    assert_eq!(lure.keypair.private_key, key);
    assert_eq!(lure.keypair.public_key, vec![1, 2, 3]);
    assert!(lure.favicon.is_none());
    assert_eq!(lure.config.listener.max_connections, 8196);
}

#[test]
fn public_key_is_the_der_of_modulus_and_exponent() {
    let pair = KeyPair::new().unwrap();
    let expected = rsa_der::public_key_to_der(
        &pair.private_key.n().to_bytes_be(),
        &pair.private_key.e().to_bytes_be(),
    );
    assert_eq!(pair.public_key, expected);
    assert_eq!(pair.private_key.n().bits(), 1024);
    let modulus = pair.private_key.n().to_bytes_be();
    assert_eq!(modulus.len(), 128);
    assert!(modulus[0] >= 0x80);
}

#[test]
fn host_with_an_entry_is_routed_by_it() {
    let lure = proxy_with(&[("*", "lobby"), ("play.example", "survival")], &[]);
    assert_eq!(lure.get_default_server("play.example".to_string()), Some("survival".to_string()));
}

#[test]
fn unknown_host_is_routed_by_the_fallback() {
    let lure = proxy_with(&[("*", "lobby"), ("play.example", "survival")], &[]);
    assert_eq!(lure.get_default_server("unknown.example".to_string()), Some("lobby".to_string()));
    assert_eq!(lure.get_default_server(String::new()), Some("lobby".to_string()));
}

#[test]
fn unknown_host_without_fallback_is_not_routed() {
    let lure = proxy_with(&[("play.example", "survival")], &[]);
    assert_eq!(lure.get_default_server("unknown.example".to_string()), None);
    let lure = proxy_with(&[], &[]);
    assert_eq!(lure.get_default_server("play.example".to_string()), None);
}

#[test]
fn server_is_looked_up_by_name() {
    let lure = proxy_with(&[], &[("lobby", "127.0.0.1:25565")]);
    assert_eq!(lure.get_server("lobby".to_string()), Some("127.0.0.1:25565".to_string()));
    assert_eq!(lure.get_server("survival".to_string()), None);
}

#[test]
fn favicon_is_a_data_uri_of_the_file() {
    assert_eq!(
        read_favicon(Some(&ICON)),
        Some(
            "data:image/png;base64,iVBORw0KGgoAAAANSUhEUgAAAEAAAABACAYAAACqaXHeAAAAAElFTkSuQmCC"
                .to_string()
        )
    );
}

#[test]
fn favicon_of_another_size_is_left_out() {
    assert_eq!(read_favicon(Some(&NARROW_ICON)), None);
}

#[test]
fn favicon_that_is_missing_or_no_image_is_left_out() {
    assert_eq!(read_favicon(None), None);
    assert_eq!(read_favicon(Some(&[])), None);
    assert_eq!(read_favicon(Some(b"not an image at all")), None);
}

#[test]
fn favicon_that_begins_as_another_format_is_left_out() {
    // The start of a JPEG file whose first segment declares no length.
    assert_eq!(read_favicon(Some(&[0xff, 0xd8, 0xff, 0xe0, 0x00, 0x00])), None);
    assert_eq!(read_favicon(Some(&[0xff, 0xd8, 0xff, 0xe0, 0x00, 0x01, 0x00])), None);
    // The signature of a PNG file alone, and with a header chunk of another
    // length.
    assert_eq!(read_favicon(Some(&ICON[..8])), None);
    assert_eq!(read_favicon(Some(&ICON[..16])), None);
    let mut odd = ICON.to_vec();
    odd[11] = 14;
    assert_eq!(read_favicon(Some(&odd)), None);
    assert!(is_png_start(&ICON));
    assert!(!is_png_start(&ICON[..15]));
    assert!(!is_png_start(&odd));
}

#[test]
fn favicon_that_is_no_png_is_left_out() {
    // A GIF of 64 by 64 pixels.
    let mut gif = b"GIF89a".to_vec();
    gif.extend_from_slice(&[64, 0, 64, 0, 0, 0, 0, 0x3b]);
    assert_eq!(read_favicon(Some(&gif)), None);
}

#[test]
fn proxy_takes_its_icon_at_the_start() {
    let mut lure = proxy_with(&[], &[]);
    lure.config.listener.max_connections = 3;
    let turnstile = lure.start(Some(&ICON));
    assert_eq!(lure.favicon, read_favicon(Some(&ICON)));
    assert_eq!(lure.get_favicon(Some(&ICON)), read_favicon(Some(&ICON)));
    assert_eq!(turnstile.available(), 3);
    let turnstile = lure.start(None);
    assert_eq!(lure.favicon, None);
    assert_eq!(turnstile.available(), 3);
}

#[test]
fn turnstile_admits_no_more_than_its_limit() {
    let mut turnstile = Admission::new(3);
    assert!(!turnstile.is_held());
    assert!(turnstile.try_acquire());
    assert!(turnstile.try_acquire());
    assert!(turnstile.try_acquire());
    assert!(!turnstile.try_acquire());
    assert!(!turnstile.try_acquire());
    assert_eq!(turnstile.available(), 0);
    turnstile.release();
    assert_eq!(turnstile.available(), 1);
    assert!(turnstile.try_acquire());
    assert!(!turnstile.try_acquire());
    assert!(turnstile.is_held());
}

#[test]
fn turnstile_without_room_admits_nobody() {
    let mut turnstile = Admission::new(0);
    assert!(!turnstile.try_acquire());
    assert_eq!(turnstile.available(), 0);
}

#[test]
fn status_document_names_what_is_configured() {
    let json = status_json(763, 4000, "§dAnother \"Lure\" proxy", "").unwrap();
    let value: serde_json::Value = serde_json::from_str(&json).unwrap();
    assert_eq!(value["version"]["name"], "Lure");
    assert_eq!(value["version"]["protocol"], 763);
    assert_eq!(value["players"]["online"], 0);
    assert_eq!(value["players"]["max"], 4000);
    assert_eq!(value["players"]["sample"][0]["name"], "foobar");
    assert_eq!(value["players"]["sample"][0]["id"], "00000000-0000-0000-0000-000000003039");
    assert_eq!(value["description"]["text"], "§dAnother \"Lure\" proxy");
    assert_eq!(value["favicon"], "");
}

#[test]
fn status_document_is_written_exactly() {
    assert_eq!(
        status_json(-1, i32::MIN, "hi", "data:x").unwrap(),
        "{\"description\":{\"text\":\"hi\"},\"favicon\":\"data:x\",\"players\":{\"max\":-2147483648,\
         \"online\":0,\"sample\":[{\"id\":\"00000000-0000-0000-0000-000000003039\",\"name\":\
         \"foobar\"}]},\"version\":{\"name\":\"Lure\",\"protocol\":-1}}"
    );
}

#[test]
fn usernames_are_three_to_sixteen_printable_characters() {
    assert!(is_valid_username("abc"));
    assert!(is_valid_username("alice"));
    assert!(is_valid_username("Sixteen_chars_16"));
    assert!(is_valid_username("!~!"));
    assert!(!is_valid_username(""));
    assert!(!is_valid_username("ab"));
    assert!(!is_valid_username("Seventeen_chars_7"));
    assert!(!is_valid_username("has space"));
    assert!(!is_valid_username("tab\there"));
    assert!(!is_valid_username("änne"));
    assert!(!is_valid_username("nul\0"));
}

#[test]
fn bytes_are_compared() {
    assert!(same_bytes(&[], &[]));
    assert!(same_bytes(&[1, 2], &[1, 2]));
    assert!(!same_bytes(&[1, 2], &[1, 3]));
    assert!(!same_bytes(&[1, 2], &[1]));
}

#[test]
fn encryption_response_is_checked_in_order() {
    let sent = [7u8; 16];
    let secret = (0u8..16).collect::<Vec<u8>>();
    let mut key = [0u8; 16];
    key.copy_from_slice(&secret);
    assert_eq!(
        check_encryption_response(&sent, Some(secret.clone()), Some(sent.to_vec())),
        Ok(key)
    );
    assert_eq!(
        check_encryption_response(&sent, None, Some(sent.to_vec())),
        Err(LoginError::Decrypt)
    );
    assert_eq!(check_encryption_response(&sent, None, None), Err(LoginError::Decrypt));
    assert_eq!(
        check_encryption_response(&sent, Some(secret.clone()), None),
        Err(LoginError::InvalidSession)
    );
    let mut tampered = sent.to_vec();
    tampered[15] ^= 1;
    assert_eq!(
        check_encryption_response(&sent, Some(secret.clone()), Some(tampered)),
        Err(LoginError::TokenMismatch)
    );
    assert_eq!(
        check_encryption_response(&sent, Some(vec![1; 15]), Some(sent[..15].to_vec())),
        Err(LoginError::TokenMismatch)
    );
    assert_eq!(
        check_encryption_response(&sent, Some(vec![1; 15]), Some(sent.to_vec())),
        Err(LoginError::SecretLength)
    );
    assert_eq!(
        check_encryption_response(&sent, Some(vec![1; 17]), Some(sent.to_vec())),
        Err(LoginError::SecretLength)
    );
}

#[test]
fn session_server_is_asked_under_this_address() {
    assert_eq!(
        session_url("alice", "-7c9d", None),
        "https://sessionserver.mojang.com/session/minecraft/hasJoined?username=alice&serverId=-7c9d"
    );
    assert_eq!(
        session_url("alice", "4ed1", Some("203.0.113.9")),
        "https://sessionserver.mojang.com/session/minecraft/hasJoined?username=alice&serverId=4ed1&ip=203.0.113.9"
    );
}

fn profile_of(name: &str) -> GameProfile {
    GameProfile { id: 9, name: name.to_string(), properties: vec![] }
}

#[test]
fn session_server_answer_is_judged() {
    let alice = "alice".to_string();
    assert_eq!(check_profile(200, Some(profile_of("alice")), &alice), Ok(profile_of("alice")));
    assert_eq!(
        check_profile(200, Some(profile_of("Alice")), &alice),
        Err(LoginError::UsernameMismatch)
    );
    assert_eq!(check_profile(200, None, &alice), Err(LoginError::BadProfile));
    assert_eq!(check_profile(204, None, &alice), Err(LoginError::Unverified));
    assert_eq!(check_profile(204, Some(profile_of("alice")), &alice), Err(LoginError::Unverified));
    assert_eq!(check_profile(500, None, &alice), Err(LoginError::SessionServer(500)));
    assert_eq!(
        check_profile(201, Some(profile_of("alice")), &alice),
        Err(LoginError::SessionServer(201))
    );
}

#[test]
fn offline_login_makes_the_identifier_from_the_name() {
    let lure = proxy_with(&[], &[]);
    let info = lure.login_offline("alice".to_string(), "203.0.113.9".to_string());
    assert_eq!(info.username, "alice");
    assert_eq!(info.uuid, 0x2bd806c97f0e00af1a1fc3328fa763a9);
    assert_eq!(info.ip, "203.0.113.9");
    assert!(info.properties.is_empty());
    assert_eq!(info.protocol_version, 0);
    assert_eq!(info.hostname, "");
}

#[test]
fn properties_are_written_as_a_json_array() {
    let mut out = "x".to_string();
    assert!(push_properties_json(&vec![], &mut out));
    assert_eq!(out, "x[]");
    let properties = vec![
        Property {
            name: "textures".to_string(),
            value: "a\"b".to_string(),
            signature: Some("sig".to_string()),
        },
        Property { name: "n".to_string(), value: "v".to_string(), signature: None },
    ];
    let mut out = String::new();
    assert!(push_properties_json(&properties, &mut out));
    assert_eq!(
        out,
        "[{\"name\":\"textures\",\"value\":\"a\\\"b\",\"signature\":\"sig\"},\
         {\"name\":\"n\",\"value\":\"v\",\"signature\":null}]"
    );
    let outside: Vec<valence_protocol::Property> = properties
        .iter()
        .map(|p| valence_protocol::Property {
            name: p.name.clone(),
            value: p.value.clone(),
            signature: p.signature.clone(),
        })
        .collect();
    assert_eq!(out, serde_json::to_string(&outside).unwrap());
}

#[test]
fn forwarded_address_in_bungeecord_mode() {
    let address = forwarded_address(
        &"bungeecord".to_string(),
        "127.0.0.1",
        "203.0.113.9",
        0x2bd806c97f0e00af1a1fc3328fa763a9,
        &vec![],
    );
    assert_eq!(
        address,
        Some("127.0.0.1\0203.0.113.9\02bd806c97f0e00af1a1fc3328fa763a9\0[]".to_string())
    );
}

#[test]
fn forwarded_address_pads_the_identifier() {
    let address =
        forwarded_address(&"bungeecord".to_string(), "10.0.0.1", "10.0.0.2", 0xabc, &vec![]);
    assert_eq!(
        address,
        Some("10.0.0.1\010.0.0.2\000000000000000000000000000000abc\0[]".to_string())
    );
}

#[test]
fn forwarded_address_in_any_other_mode() {
    for mode in ["none", "", "BungeeCord", "velocity"] {
        let address = forwarded_address(&mode.to_string(), "127.0.0.1", "203.0.113.9", 5, &vec![]);
        assert_eq!(address, Some("127.0.0.1".to_string()));
    }
}
