use base64::engine::general_purpose::STANDARD;
use base64::Engine;
use elysium::config::{
    classify_stored_key, key_to_store, nonzero_key, ElysiumConfig, KeypairError, KnownRoom,
    LoadError, Saving, StoredKey,
};
use elysium::keys::{key_from_decoded, key_from_text, key_to_text, KeyError, PublicKey, StaticSecret};
use elysium::status::get_known_rooms;

#[test]
fn test_default_config_keypair_validity() {
    let cfg = ElysiumConfig::default(None);
    let keypair = cfg.get_keypair();
    assert!(keypair.is_ok());

    let pubkey = cfg.get_public_key_base64();
    assert!(pubkey.is_ok());
    let pubkey_str = pubkey.unwrap();
    assert_eq!(STANDARD.decode(pubkey_str).unwrap().len(), 32);
}

#[test]
fn test_invalid_key_detection() {
    let mut cfg = ElysiumConfig::default(None);
    cfg.private_key_base64 = "invalid-base64".to_string();
    assert!(cfg.get_keypair().is_err());

    // Test all zeros
    cfg.private_key_base64 = STANDARD.encode([0u8; 32]);
    assert!(cfg.get_keypair().is_err());
}

#[test]
fn a_new_configuration() {
    let cfg = ElysiumConfig::with_key([7u8; 32], None);
    assert_eq!(cfg.private_key_base64, STANDARD.encode([7u8; 32]));
    assert_eq!(cfg.virtual_subnet, "10.7.0.0/24");
    assert_eq!(cfg.listen_port, 51820);
    assert_eq!(cfg.node_name, "ElysiumNode");
    assert!(cfg.known_rooms.is_empty());
    let named = ElysiumConfig::default(Some("DESKTOP-7".to_string()));
    assert_eq!(named.node_name, "DESKTOP-7");
    // Two keys drawn at random differ.
    let other = ElysiumConfig::default(None);
    assert_ne!(named.private_key_base64, other.private_key_base64);
}

#[test]
fn keys_and_what_is_wrong_with_them() {
    let mut cfg = ElysiumConfig::with_key([7u8; 32], None);
    assert_eq!(cfg.get_keypair().ok().unwrap().bytes, [7u8; 32]);
    cfg.private_key_base64 = "invalid-base64".to_string();
    assert_eq!(cfg.get_keypair().err(), Some(KeypairError::Base64));
    assert_eq!(cfg.get_public_key_base64(), Err(KeypairError::Base64));
    cfg.private_key_base64 = STANDARD.encode([1u8; 31]);
    assert_eq!(cfg.get_keypair().err(), Some(KeypairError::Length(31)));
    cfg.private_key_base64 = STANDARD.encode([0u8; 32]);
    assert_eq!(cfg.get_keypair().err(), Some(KeypairError::AllZero));
    assert_eq!(KeypairError::Base64.message(), "Failed to decode base64 private key");
    assert_eq!(
        KeypairError::Length(31).message(),
        "Invalid private key length: expected 32 bytes, got 31"
    );
    assert_eq!(KeypairError::AllZero.message(), "Invalid private key: all bytes are zero");
    let mut one = [0u8; 32];
    one[31] = 1;
    assert_eq!(nonzero_key(one).ok().unwrap().bytes, one);
    assert_eq!(nonzero_key([0u8; 32]).err(), Some(KeypairError::AllZero));
}

#[test]
fn the_public_key_of_a_private_key() {
    // The keys of RFC 7748, section 6.1.
    let secret: Vec<u8> = vec![
        0x77, 0x07, 0x6d, 0x0a, 0x73, 0x18, 0xa5, 0x7d, 0x3c, 0x16, 0xc1, 0x72, 0x51, 0xb2, 0x66,
        0x45, 0xdf, 0x4c, 0x2f, 0x87, 0xeb, 0xc0, 0x99, 0x2a, 0xb1, 0x77, 0xfb, 0xa5, 0x1d, 0xb9,
        0x2c, 0x2a,
    ];
    let public: Vec<u8> = vec![
        0x85, 0x20, 0xf0, 0x09, 0x89, 0x30, 0xa7, 0x54, 0x74, 0x8b, 0x7d, 0xdc, 0xb4, 0x3e, 0xf7,
        0x5a, 0x0d, 0xbf, 0x3a, 0x0d, 0x26, 0x38, 0x1a, 0xf4, 0xeb, 0xa4, 0xa9, 0x8e, 0xaa, 0x9b,
        0x4e, 0x6a,
    ];
    let mut bytes = [0u8; 32];
    bytes.copy_from_slice(&secret);
    let cfg = ElysiumConfig::with_key(bytes, None);
    assert_eq!(cfg.get_public_key_base64().unwrap(), STANDARD.encode(&public));
    assert_eq!(StaticSecret::from_bytes(bytes).public_key().bytes.to_vec(), public);
}

#[test]
fn keys_as_text() {
    assert_eq!(key_to_text(&[1u8; 32]), "AQEBAQEBAQEBAQEBAQEBAQEBAQEBAQEBAQEBAQEBAQE=");
    assert_eq!(key_from_text("AQEBAQEBAQEBAQEBAQEBAQEBAQEBAQEBAQEBAQEBAQE="), Ok([1u8; 32]));
    assert_eq!(key_from_text("AQEB"), Err(KeyError::Length(3)));
    assert_eq!(key_from_text("AQE"), Err(KeyError::Base64));
    assert_eq!(key_from_text(""), Err(KeyError::Length(0)));
    assert_eq!(key_from_decoded(None), Err(KeyError::Base64));
    assert_eq!(key_from_decoded(Some(vec![3; 32])), Ok([3u8; 32]));
    assert_eq!(key_from_decoded(Some(vec![3; 40])), Err(KeyError::Length(40)));
    let key = PublicKey { bytes: [9u8; 32] };
    assert_eq!(PublicKey::from_text(&key.to_text()).unwrap().bytes, key.bytes);
}

#[test]
fn stored_keys() {
    let stored = key_to_store("secret", Some(vec![1, 2, 3]));
    assert_eq!(stored, "dpapi:AQID");
    match classify_stored_key(&stored) {
        StoredKey::Protected(blob) => assert_eq!(blob, vec![1, 2, 3]),
        _ => panic!("the key is protected"),
    }
    assert_eq!(key_to_store("secret", None), "secret");
    assert!(matches!(classify_stored_key("secret"), StoredKey::Plain));
    assert!(matches!(classify_stored_key("dpapi"), StoredKey::Plain));
    assert!(matches!(classify_stored_key("dpapi:?"), StoredKey::Unreadable));
    match classify_stored_key("dpapi:") {
        StoredKey::Protected(blob) => assert!(blob.is_empty()),
        _ => panic!("an empty blob is a blob"),
    }
}

#[test]
fn loading() {
    let mut cfg = ElysiumConfig::with_key([7u8; 32], None);
    assert_eq!(cfg.check_loaded(), Ok(()));
    assert_eq!(cfg.unprotected(None), Err(LoadError::Unprotect));
    assert_eq!(cfg.check_loaded(), Ok(()));
    assert_eq!(cfg.unprotected(Some(STANDARD.encode([0u8; 32]))), Ok(()));
    assert_eq!(cfg.check_loaded(), Err(LoadError::Corrupted(KeypairError::AllZero)));
    assert_eq!(LoadError::Unprotect.message(), "Failed to decrypt DPAPI private key");
    assert_eq!(
        LoadError::Corrupted(KeypairError::Base64).message(),
        "Corrupted private key in config"
    );
}

#[test]
fn known_rooms() {
    let mut cfg = ElysiumConfig::with_key([7u8; 32], None);
    assert!(get_known_rooms(&cfg).is_empty());
    for name in ["b", "a"] {
        let room = KnownRoom { room_code: name.to_uppercase(), last_joined: 1 };
        cfg.known_rooms.push((name.to_string(), room));
    }
    assert_eq!(get_known_rooms(&cfg), vec!["b", "a"]);
}

#[test]
fn a_new_configuration_is_loaded_again() {
    // The first start, on a machine where nothing is stored yet.
    let first = ElysiumConfig::load_or_create(None, true, None, Some("DESKTOP-7".to_string()));
    assert_eq!(first.saving, Saving::Must);
    let created = first.config.unwrap();
    assert_eq!(created.virtual_subnet, "10.7.0.0/24");
    assert_eq!(created.listen_port, 51820);
    assert_eq!(created.node_name, "DESKTOP-7");
    assert!(created.known_rooms.is_empty());
    let key = created.private_key_base64.clone();

    // The system protects the key, and opens it again at the second start.
    let written = created.clone().save(Some(vec![1, 2, 3]));
    assert_eq!(written.private_key_base64, "dpapi:AQID");
    let second = ElysiumConfig::load_or_create(Some(written), true, Some(key.clone()), None);
    assert_eq!(second.saving, Saving::No);
    let again = second.config.unwrap();
    assert_eq!(again.private_key_base64, key);
    assert_eq!(again.node_name, "DESKTOP-7");
    assert_eq!(again.virtual_subnet, created.virtual_subnet);
    assert_eq!(again.listen_port, created.listen_port);
    assert_eq!(again.get_public_key_base64(), created.get_public_key_base64());

    // The system protects nothing: a key that stands as it is, is loaded as it is.
    let written = created.clone().save(None);
    assert_eq!(written.private_key_base64, key);
    for (protects, saving) in [(false, Saving::No), (true, Saving::Try)] {
        let second = ElysiumConfig::load_or_create(Some(written.clone()), protects, None, None);
        assert_eq!(second.saving, saving);
        assert_eq!(second.config.unwrap().private_key_base64, key);
    }
}

#[test]
fn configurations_that_cannot_be_loaded() {
    let written = ElysiumConfig::with_key([7u8; 32], None).save(Some(vec![1, 2, 3]));
    // The system does not open the key.
    let refused = ElysiumConfig::load_or_create(Some(written.clone()), true, None, None);
    assert_eq!(refused.config.err(), Some(LoadError::Unprotect));
    // What it opens is no key.
    let opened = Some("nothing".to_string());
    let refused = ElysiumConfig::load_or_create(Some(written.clone()), true, opened, None);
    assert_eq!(refused.config.err(), Some(LoadError::Corrupted(KeypairError::Base64)));
    // Where the system protects no keys, a protected one is none.
    let refused = ElysiumConfig::load_or_create(Some(written.clone()), false, None, None);
    assert_eq!(refused.config.err(), Some(LoadError::Corrupted(KeypairError::Base64)));
    assert_eq!(refused.saving, Saving::No);
    // The mark stands before what cannot be read.
    let mut broken = written;
    broken.private_key_base64 = "dpapi:?".to_string();
    let opened = Some(STANDARD.encode([7u8; 32]));
    let refused = ElysiumConfig::load_or_create(Some(broken.clone()), true, opened, None);
    assert_eq!(refused.config.err(), Some(LoadError::Unprotect));
    // A bad key that is not protected is still to be protected.
    broken.private_key_base64 = STANDARD.encode([0u8; 32]);
    let refused = ElysiumConfig::load_or_create(Some(broken), true, None, None);
    assert_eq!(refused.config.err(), Some(LoadError::Corrupted(KeypairError::AllZero)));
    assert_eq!(refused.saving, Saving::Try);
}
