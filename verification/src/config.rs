//! The configuration of a node, and its key.

use crate::keys::{
    base64_bytes, base64_text, decode_base64, encode_base64, in_base64, key_from_text, key_of_text,
    key_to_text, x25519_public, KeyError, StaticSecret,
};
use crate::random::{draw, drawn};
use crate::text::{chars_of, decimal, decimal_text, text_between};
use vstd::prelude::*;

verus! {

/// Known room information stored in the configuration.
#[derive(Debug, Clone)]
pub struct KnownRoom {
    pub room_code: String,
    /// Unix timestamp
    pub last_joined: u64,
}

/// The main application configuration for Elysium.
#[derive(Debug, Clone)]
pub struct ElysiumConfig {
    /// WireGuard static private key, stored as base64 string.
    pub private_key_base64: String,
    /// The virtual subnet for the P2P LAN.
    pub virtual_subnet: String,
    /// The port WireGuard listens on.
    pub listen_port: u16,
    /// The node's human-readable name.
    pub node_name: String,
    /// List of previously joined rooms, each under its name.
    pub known_rooms: Vec<(String, KnownRoom)>,
}

/// No name stands for two rooms.
pub open spec fn names_distinct(rooms: Seq<(String, KnownRoom)>) -> bool {
    forall|i: int, j: int|
        0 <= i < j < rooms.len() ==> (#[trigger] rooms[i]).0@ != (#[trigger] rooms[j]).0@
}

/// Why a configuration holds no usable private key.
#[derive(Debug, Clone, Copy, PartialEq, Eq, Structural)]
pub enum KeypairError {
    /// It is no base64.
    Base64,
    /// It is of this length, and not of thirty-two bytes.
    Length(usize),
    /// All of its bytes are zero.
    AllZero,
}

/// All bytes are zero.
pub open spec fn all_zero(bytes: Seq<u8>) -> bool {
    forall|i: int| 0 <= i < bytes.len() ==> #[trigger] bytes[i] == 0
}

/// The private key that a base64 text holds.
pub open spec fn private_key(text: Seq<char>) -> Result<Seq<u8>, KeypairError> {
    match key_of_text(text) {
        Err(KeyError::Base64) => Err(KeypairError::Base64),
        Err(KeyError::Length(n)) => Err(KeypairError::Length(n)),
        Ok(bytes) => if all_zero(bytes) {
            Err(KeypairError::AllZero)
        } else {
            Ok(bytes)
        },
    }
}

impl KeypairError {
    /// What the error says.
    pub open spec fn text(self) -> Seq<char> {
        match self {
            KeypairError::Base64 => "Failed to decode base64 private key"@,
            KeypairError::Length(n) => "Invalid private key length: expected 32 bytes, got "@
                + decimal(n as nat),
            KeypairError::AllZero => "Invalid private key: all bytes are zero"@,
        }
    }

    /// The error as a message.
    pub fn message(&self) -> (r: String)
        ensures
            r@ == self.text(),
    {
        match self {
            KeypairError::Base64 => "Failed to decode base64 private key".to_owned(),
            KeypairError::Length(n) => {
                let mut r: String = "Invalid private key length: expected 32 bytes, got ".to_owned();
                r.append(decimal_text(*n as u64).as_str());
                r
            },
            KeypairError::AllZero => "Invalid private key: all bytes are zero".to_owned(),
        }
    }
}

/// Takes a key for a private key unless all of it is zero.
pub fn nonzero_key(bytes: [u8; 32]) -> (r: Result<StaticSecret, KeypairError>)
    ensures
        match r {
            Ok(secret) => secret.bytes == bytes && !all_zero(bytes@),
            Err(e) => e is AllZero && all_zero(bytes@),
        },
{
    let mut i: usize = 0;
    while i < 32
        invariant
            i <= 32,
            forall|j: int| 0 <= j < i ==> #[trigger] bytes@[j] == 0,
        decreases 32 - i,
    {
        if bytes[i] != 0 {
            assert(bytes@[i as int] != 0);
            return Ok(StaticSecret::from_bytes(bytes));
        }
        i += 1;
    }
    Err(KeypairError::AllZero)
}

/// The node name where the machine has none.
pub open spec fn default_name(computer_name: Option<String>) -> Seq<char> {
    match computer_name {
        Some(name) => name@,
        None => "ElysiumNode"@,
    }
}

/// The configuration is one of a new node on a machine of this name, with these bytes for a
/// private key.
pub open spec fn fresh_config(
    config: ElysiumConfig,
    key_bytes: Seq<u8>,
    computer_name: Option<String>,
) -> bool {
    &&& config.private_key_base64@ == base64_text(key_bytes)
    &&& private_key(config.private_key_base64@) == if all_zero(key_bytes) {
        Err::<Seq<u8>, KeypairError>(KeypairError::AllZero)
    } else {
        Ok(key_bytes)
    }
    &&& !protected_mark().is_prefix_of(config.private_key_base64@)
    &&& config.virtual_subnet@ == "10.7.0.0/24"@
    &&& config.listen_port == 51820
    &&& config.node_name@ == default_name(computer_name)
    &&& config.known_rooms@.len() == 0
}

/// The configuration is one of a new node on a machine of this name, with a private key that chance
/// drew.
pub open spec fn is_new_config(config: ElysiumConfig, computer_name: Option<String>) -> bool {
    exists|bytes: [u8; 32]| #[trigger]
        drawn(bytes) && fresh_config(config, bytes@, computer_name)
}

/// What is of the base64 alphabet does not bear the mark of a protected key.
proof fn lemma_no_mark(text: Seq<char>)
    requires
        in_base64(text),
    ensures
        !protected_mark().is_prefix_of(text),
{
    reveal_strlit("dpapi:");
    if protected_mark().is_prefix_of(text) {
        assert(text[5] == protected_mark()[5]);
    }
}

impl ElysiumConfig {
    /// Each known room has a name of its own.
    pub open spec fn wf(&self) -> bool {
        names_distinct(self.known_rooms@)
    }

    /// The configuration of a new node whose private key is `key_bytes`.
    pub fn with_key(key_bytes: [u8; 32], computer_name: Option<String>) -> (r: ElysiumConfig)
        ensures
            fresh_config(r, key_bytes@, computer_name),
            r.wf(),
    {
        let node_name: String = match computer_name {
            Some(name) => name,
            None => "ElysiumNode".to_owned(),
        };
        let text: String = key_to_text(&key_bytes);
        proof {
            lemma_no_mark(text@);
        }
        ElysiumConfig {
            private_key_base64: text,
            virtual_subnet: "10.7.0.0/24".to_owned(),
            listen_port: 51820,
            node_name,
            known_rooms: Vec::new(),
        }
    }

    /// The configuration of a new node on a machine of this name, with a private key drawn at
    /// random. The key is usable unless chance drew nothing but zeros.
    pub fn default(computer_name: Option<String>) -> (r: ElysiumConfig)
        ensures
            exists|bytes: Seq<u8>|
                bytes.len() == 32 && #[trigger] fresh_config(r, bytes, computer_name),
            is_new_config(r, computer_name),
            r.wf(),
    {
        // 32 bytes from a cryptographically secure random number generator
        let key_bytes: [u8; 32] = draw::<32>();
        let r: ElysiumConfig = ElysiumConfig::with_key(key_bytes, computer_name);
        assert(drawn(key_bytes) && fresh_config(r, key_bytes@, computer_name));
        r
    }

    /// Get the WireGuard StaticSecret (private key) from the configuration.
    pub fn get_keypair(&self) -> (r: Result<StaticSecret, KeypairError>)
        ensures
            match r {
                Ok(secret) => private_key(self.private_key_base64@) == Ok::<Seq<u8>, KeypairError>(
                    secret.bytes@,
                ),
                Err(e) => private_key(self.private_key_base64@) == Err::<Seq<u8>, KeypairError>(e),
            },
            r is Ok ==> !protected_mark().is_prefix_of(self.private_key_base64@),
    {
        match key_from_text(self.private_key_base64.as_str()) {
            Ok(bytes) => {
                proof {
                    lemma_no_mark(self.private_key_base64@);
                }
                nonzero_key(bytes)
            },
            Err(KeyError::Base64) => Err(KeypairError::Base64),
            Err(KeyError::Length(n)) => Err(KeypairError::Length(n)),
        }
    }

    /// Get the WireGuard public key associated with this configuration, base64 encoded.
    pub fn get_public_key_base64(&self) -> (r: Result<String, KeypairError>)
        ensures
            match r {
                Ok(text) => {
                    let key = private_key(self.private_key_base64@);
                    &&& key is Ok
                    &&& text@ == base64_text(x25519_public(key->Ok_0))
                    &&& key_of_text(text@) == Ok::<Seq<u8>, KeyError>(x25519_public(key->Ok_0))
                },
                Err(e) => private_key(self.private_key_base64@) == Err::<Seq<u8>, KeypairError>(e),
            },
    {
        match self.get_keypair() {
            Ok(secret) => Ok(secret.public_key().to_text()),
            Err(e) => Err(e),
        }
    }
}

/// What marks a private key that the system protects.
pub open spec fn protected_mark() -> Seq<char> {
    "dpapi:"@
}

/// The private key as it is written to disk: protected where the system protects it.
pub open spec fn stored_key(key: Seq<char>, blob: Option<Seq<u8>>) -> Seq<char> {
    match blob {
        Some(blob) => protected_mark() + base64_text(blob),
        None => key,
    }
}

/// What is to be done with a private key that was read from disk.
#[derive(Debug)]
pub enum StoredKey {
    /// It is not protected.
    Plain,
    /// It is protected: this is what the system is to open.
    Protected(Vec<u8>),
    /// It is marked as protected, and nothing can be made of it.
    Unreadable,
}

/// How a private key stands on disk.
pub open spec fn classified(stored: Seq<char>, r: StoredKey) -> bool {
    if protected_mark().is_prefix_of(stored) {
        let rest = stored.skip(protected_mark().len() as int);
        match base64_bytes(rest) {
            Some(blob) => r matches StoredKey::Protected(b) && b@ == blob,
            None => r is Unreadable,
        }
    } else {
        r is Plain
    }
}

/// The private key as it is written to disk, given what the system made of it. It is read back
/// as it was written: a protected key as the same blob, and one that is not protected as such,
/// unless it bears the mark itself.
pub fn key_to_store(key: &str, blob: Option<Vec<u8>>) -> (r: String)
    requires
        blob matches Some(b) ==> (b@.len() + 2) / 3 * 4 <= isize::MAX,
    ensures
        r@ == stored_key(
            key@,
            match blob {
                Some(b) => Some(b@),
                None => None,
            },
        ),
        blob matches Some(b) ==> base64_bytes(r@.skip(protected_mark().len() as int)) == Some(b@),
        blob matches Some(b) ==> forall|c: StoredKey| #[trigger]
            classified(r@, c) ==> (c matches StoredKey::Protected(read) && read@ == b@),
        blob is None && !protected_mark().is_prefix_of(key@) ==> forall|c: StoredKey| #[trigger]
            classified(r@, c) ==> c is Plain,
{
    match blob {
        Some(blob) => {
            let mut r: String = "dpapi:".to_owned();
            let text: String = encode_base64(&blob);
            r.append(text.as_str());
            assert(protected_mark().is_prefix_of(r@));
            assert(r@.skip(protected_mark().len() as int) =~= text@);
            r
        },
        None => key.to_owned(),
    }
}

/// Finds out how a private key stands on disk.
pub fn classify_stored_key(stored: &str) -> (r: StoredKey)
    ensures
        classified(stored@, r),
{
    let chars: Vec<char> = chars_of(stored);
    let mark: Vec<char> = chars_of("dpapi:");
    let mut i: usize = 0;
    if chars.len() < mark.len() {
        return StoredKey::Plain;
    }
    while i < mark.len()
        invariant
            i <= mark@.len() <= chars@.len(),
            mark@ == protected_mark(),
            chars@ == stored@,
            forall|j: int| 0 <= j < i ==> chars@[j] == mark@[j],
        decreases mark@.len() - i,
    {
        if chars[i] != mark[i] {
            return StoredKey::Plain;
        }
        i += 1;
    }
    assert(protected_mark().is_prefix_of(stored@));
    let rest: String = text_between(&chars, mark.len(), chars.len());
    assert(rest@ =~= stored@.skip(protected_mark().len() as int));
    match decode_base64(rest.as_str()) {
        Ok(blob) => StoredKey::Protected(blob),
        Err(_) => StoredKey::Unreadable,
    }
}

/// Why a configuration cannot be loaded.
#[derive(Debug, Clone, Copy, PartialEq, Eq, Structural)]
pub enum LoadError {
    /// The system did not open the protected key.
    Unprotect,
    /// The private key is unusable.
    Corrupted(KeypairError),
}

impl LoadError {
    /// What the error says.
    pub open spec fn text(self) -> Seq<char> {
        match self {
            LoadError::Unprotect => "Failed to decrypt DPAPI private key"@,
            LoadError::Corrupted(_) => "Corrupted private key in config"@,
        }
    }

    /// The error as a message.
    pub fn message(&self) -> (r: String)
        ensures
            r@ == self.text(),
    {
        match self {
            LoadError::Unprotect => "Failed to decrypt DPAPI private key".to_owned(),
            LoadError::Corrupted(_) => "Corrupted private key in config".to_owned(),
        }
    }
}

impl ElysiumConfig {
    /// Takes in what the system made of a protected key: the key, or nothing.
    pub fn unprotected(&mut self, opened: Option<String>) -> (r: Result<(), LoadError>)
        ensures
            match opened {
                Some(key) => r is Ok && *final(self) == (ElysiumConfig {
                    private_key_base64: key,
                    ..*old(self)
                }),
                None => r == Err::<(), LoadError>(LoadError::Unprotect) && *final(self) == *old(
                    self,
                ),
            },
    {
        match opened {
            Some(key) => {
                self.private_key_base64 = key;
                Ok(())
            },
            None => Err(LoadError::Unprotect),
        }
    }

    /// Validate keypair integrity on load
    pub fn check_loaded(&self) -> (r: Result<(), LoadError>)
        ensures
            r == match private_key(self.private_key_base64@) {
                Ok(_) => Ok::<(), LoadError>(()),
                Err(e) => Err(LoadError::Corrupted(e)),
            },
            r is Ok ==> !protected_mark().is_prefix_of(self.private_key_base64@),
    {
        match self.get_keypair() {
            Ok(_) => Ok(()),
            Err(e) => Err(LoadError::Corrupted(e)),
        }
    }
}

/// What is to be written to disk when a configuration was loaded.
#[derive(Debug, Clone, Copy, PartialEq, Eq, Structural)]
pub enum Saving {
    /// Nothing.
    No,
    /// What was read, so that its key is protected from now on. It is no harm if that fails.
    Try,
    /// The configuration, which is a new one.
    Must,
}

/// What loading came to.
pub struct Loaded {
    pub config: Result<ElysiumConfig, LoadError>,
    pub saving: Saving,
}

/// The private key of a configuration that was read from disk, given whether the system protects
/// keys, and what it made of this one if it is protected.
pub open spec fn key_read(stored: Seq<char>, protects: bool, opened: Option<String>) -> Option<
    Seq<char>,
> {
    if protects && protected_mark().is_prefix_of(stored) {
        match (base64_bytes(stored.skip(protected_mark().len() as int)), opened) {
            (Some(_), Some(key)) => Some(key@),
            _ => None,
        }
    } else {
        Some(stored)
    }
}

/// The two configurations differ in nothing but the private key.
pub open spec fn same_but_key(a: ElysiumConfig, b: ElysiumConfig) -> bool {
    &&& a.virtual_subnet == b.virtual_subnet
    &&& a.listen_port == b.listen_port
    &&& a.node_name == b.node_name
    &&& a.known_rooms == b.known_rooms
}

/// What loading a configuration from disk comes to.
pub open spec fn loaded_from(
    stored: ElysiumConfig,
    protects: bool,
    opened: Option<String>,
    r: Loaded,
) -> bool {
    let stored_key = stored.private_key_base64@;
    &&& r.saving == if protects && !protected_mark().is_prefix_of(stored_key) {
        Saving::Try
    } else {
        Saving::No
    }
    &&& match key_read(stored_key, protects, opened) {
        None => r.config == Err::<ElysiumConfig, LoadError>(LoadError::Unprotect),
        Some(key) => match private_key(key) {
            Err(e) => r.config == Err::<ElysiumConfig, LoadError>(LoadError::Corrupted(e)),
            Ok(_) => r.config matches Ok(config) && {
                &&& same_but_key(config, stored)
                &&& config.private_key_base64@ == key
                &&& !protected_mark().is_prefix_of(key)
            },
        },
    }
}

/// The configuration as it is written to disk, given what the system made of its key. What stands
/// behind the mark of a protected key is what the system made.
pub open spec fn written_as(
    config: ElysiumConfig,
    blob: Option<Seq<u8>>,
    written: ElysiumConfig,
) -> bool {
    &&& same_but_key(written, config)
    &&& written.private_key_base64@ == stored_key(config.private_key_base64@, blob)
    &&& blob is Some ==> base64_bytes(
        written.private_key_base64@.skip(protected_mark().len() as int),
    ) == blob
}

impl ElysiumConfig {
    /// Decides what comes of the configuration on disk, or of a new one if it doesn't exist. A new
    /// one has a new key, and one that is there keeps its own.
    pub fn load_or_create(
        stored: Option<ElysiumConfig>,
        protects: bool,
        opened: Option<String>,
        computer_name: Option<String>,
    ) -> (r: Loaded)
        ensures
            match stored {
                Some(stored) => {
                    &&& loaded_from(stored, protects, opened, r)
                    &&& stored.wf() ==> (r.config matches Ok(config) ==> config.wf())
                },
                None => r.saving == Saving::Must && (r.config matches Ok(config) && config.wf()
                    && is_new_config(config, computer_name)
                    && exists|bytes: Seq<u8>|
                    bytes.len() == 32 && #[trigger] fresh_config(config, bytes, computer_name)),
            },
    {
        let mut config: ElysiumConfig = match stored {
            Some(config) => config,
            None => {
                let config: ElysiumConfig = ElysiumConfig::default(computer_name);
                return Loaded { config: Ok(config), saving: Saving::Must };
            },
        };
        let key: StoredKey = if protects {
            classify_stored_key(config.private_key_base64.as_str())
        } else {
            StoredKey::Plain
        };
        let saving: Saving = match key {
            StoredKey::Plain => if protects {
                Saving::Try
            } else {
                Saving::No
            },
            _ => Saving::No,
        };
        let read: Result<(), LoadError> = match key {
            StoredKey::Plain => Ok(()),
            StoredKey::Protected(_) => config.unprotected(opened),
            StoredKey::Unreadable => config.unprotected(None),
        };
        if let Err(e) = read {
            return Loaded { config: Err(e), saving };
        }
        match config.check_loaded() {
            Ok(_) => Loaded { config: Ok(config), saving },
            Err(e) => Loaded { config: Err(e), saving },
        }
    }

    /// The configuration as it is saved to disk, given what the system made of its key: the key
    /// protected, or as it is where the system protects none.
    pub fn save(self, blob: Option<Vec<u8>>) -> (r: ElysiumConfig)
        requires
            blob matches Some(b) ==> (b@.len() + 2) / 3 * 4 <= isize::MAX,
        ensures
            written_as(
                self,
                match blob {
                    Some(b) => Some(b@),
                    None => None,
                },
                r,
            ),
            self.wf() ==> r.wf(),
    {
        let mut r: ElysiumConfig = self;
        r.private_key_base64 = key_to_store(r.private_key_base64.as_str(), blob);
        r
    }
}

/// The identity of a node lasts: a configuration that is in use, new or loaded, is loaded from
/// what was saved of it with the same key and all else the same, and no new one is made. The
/// system, where it protected the key, is to give it back.
pub proof fn law_saved_config_is_loaded(
    config: ElysiumConfig,
    blob: Option<Seq<u8>>,
    written: ElysiumConfig,
    protects: bool,
    opened: Option<String>,
    r: Loaded,
)
    requires
        private_key(config.private_key_base64@) is Ok,
        !protected_mark().is_prefix_of(config.private_key_base64@),
        written_as(config, blob, written),
        blob is Some ==> protects && (opened matches Some(key) && key@
            == config.private_key_base64@),
        loaded_from(written, protects, opened, r),
    ensures
        r.config matches Ok(again) && {
            &&& same_but_key(again, config)
            &&& again.private_key_base64@ == config.private_key_base64@
            &&& private_key(again.private_key_base64@) == private_key(config.private_key_base64@)
        },
        r.saving != Saving::Must,
        blob is Some ==> r.saving == Saving::No,
{
    if let Some(b) = blob {
        let mark = protected_mark();
        assert((mark + base64_text(b)).take(mark.len() as int) =~= mark);
        assert(mark.is_prefix_of(written.private_key_base64@));
    }
}

/// What is loaded from the configuration that the first start of a node made and saved is that
/// configuration, unless chance drew nothing but zeros for its key.
pub proof fn law_new_config_is_loaded_again(
    created: ElysiumConfig,
    key_bytes: Seq<u8>,
    computer_name: Option<String>,
    blob: Option<Seq<u8>>,
    written: ElysiumConfig,
    protects: bool,
    opened: Option<String>,
    r: Loaded,
)
    requires
        fresh_config(created, key_bytes, computer_name),
        !all_zero(key_bytes),
        written_as(created, blob, written),
        blob is Some ==> protects && (opened matches Some(key) && key@
            == created.private_key_base64@),
        loaded_from(written, protects, opened, r),
    ensures
        r.config matches Ok(again) && {
            &&& fresh_config(again, key_bytes, computer_name)
            &&& same_but_key(again, created)
            &&& again.private_key_base64@ == created.private_key_base64@
        },
{
    law_saved_config_is_loaded(created, blob, written, protects, opened, r);
}

/// Which texts hold a private key: base64 of thirty-two bytes that are not all zero. What is wrong
/// with any other text is told.
pub proof fn law_private_keys(text: Seq<char>, i: int)
    ensures
        base64_bytes(text) is None <==> private_key(text) == Err::<Seq<u8>, KeypairError>(
            KeypairError::Base64,
        ),
        base64_bytes(text) matches Some(bytes) ==> {
            &&& bytes.len() == 32 && 0 <= i < 32 && bytes[i] != 0 ==> private_key(text) == Ok::<
                Seq<u8>,
                KeypairError,
            >(bytes)
            &&& bytes.len() == 32 && (forall|j: int| 0 <= j < 32 ==> #[trigger] bytes[j] == 0)
                ==> private_key(text) == Err::<Seq<u8>, KeypairError>(KeypairError::AllZero)
            &&& bytes.len() != 32 ==> private_key(text) == Err::<Seq<u8>, KeypairError>(
                KeypairError::Length(bytes.len() as usize),
            )
            &&& private_key(text) matches Ok(key) ==> key == bytes && bytes.len() == 32
        },
{
    if let Some(bytes) = base64_bytes(text) {
        if bytes.len() == 32 && 0 <= i < 32 && bytes[i] != 0 {
            assert(!all_zero(bytes));
        }
    }
}

/// A new node has the network 10.7.0.0/24 and the port 51820, knows no room, and is named after its
/// machine if that has a name.
pub proof fn law_new_nodes(config: ElysiumConfig, key_bytes: Seq<u8>, computer_name: Option<String>)
    requires
        fresh_config(config, key_bytes, computer_name),
    ensures
        config.private_key_base64@ == base64_text(key_bytes),
        config.virtual_subnet@ == "10.7.0.0/24"@,
        config.listen_port == 51820,
        config.known_rooms@.len() == 0,
        computer_name matches Some(name) ==> config.node_name@ == name@,
        computer_name is None ==> config.node_name@ == "ElysiumNode"@,
{
}

/// A protected key bears the mark "dpapi:" on disk, and behind it what the system made of it; where
/// the system protects none, the key stands there as it is.
pub proof fn law_keys_on_disk(key: Seq<char>, blob: Seq<u8>)
    ensures
        stored_key(key, None) == key,
        stored_key(key, Some(blob)).take(6) == seq!['d', 'p', 'a', 'p', 'i', ':'],
        stored_key(key, Some(blob)).skip(6) == base64_text(blob),
{
    reveal_strlit("dpapi:");
    assert(protected_mark() =~= seq!['d', 'p', 'a', 'p', 'i', ':']);
    let s = stored_key(key, Some(blob));
    assert(s.take(6) =~= protected_mark());
    assert(s.skip(6) =~= base64_text(blob));
}

/// How loading ends, by what stands on disk. A key with the mark, where the system protects keys, is
/// the one that the system opens, and loading fails if it opens none; any other key is taken as it
/// is, and protected from then on where the system does that. Loading fails also for a key that is
/// unusable. All else is kept.
pub proof fn law_what_loading_comes_to(
    stored: ElysiumConfig,
    protects: bool,
    opened: Option<String>,
    r: Loaded,
)
    requires
        loaded_from(stored, protects, opened, r),
    ensures
        ({
            let text = stored.private_key_base64@;
            let marked = text.len() >= 6 && text[0] == 'd' && text[1] == 'p' && text[2] == 'a'
                && text[3] == 'p' && text[4] == 'i' && text[5] == ':';
            &&& protects && marked && (opened is None || base64_bytes(text.skip(6)) is None)
                ==> r.config == Err::<ElysiumConfig, LoadError>(LoadError::Unprotect)
            &&& protects && marked && base64_bytes(text.skip(6)) is Some ==> (opened matches Some(
                key,
            ) ==> match private_key(key@) {
                Ok(_) => r.config matches Ok(c) && c.private_key_base64@ == key@,
                Err(e) => r.config == Err::<ElysiumConfig, LoadError>(LoadError::Corrupted(e)),
            })
            &&& !(protects && marked) ==> match private_key(text) {
                Ok(_) => r.config matches Ok(c) && c.private_key_base64@ == text,
                Err(e) => r.config == Err::<ElysiumConfig, LoadError>(LoadError::Corrupted(e)),
            }
            &&& r.config matches Ok(c) ==> c.virtual_subnet == stored.virtual_subnet
                && c.listen_port == stored.listen_port && c.node_name == stored.node_name
                && c.known_rooms == stored.known_rooms
            &&& r.saving == Saving::Try <==> protects && !marked
            &&& r.saving != Saving::Must
        }),
{
    reveal_strlit("dpapi:");
    let text = stored.private_key_base64@;
    let mark = protected_mark();
    assert(mark =~= seq!['d', 'p', 'a', 'p', 'i', ':']);
    if mark.is_prefix_of(text) {
        assert(text[0] == mark[0] && text[1] == mark[1] && text[2] == mark[2] && text[3] == mark[3]
            && text[4] == mark[4] && text[5] == mark[5]);
    } else if text.len() >= 6 && text[0] == 'd' && text[1] == 'p' && text[2] == 'a' && text[3] == 'p'
        && text[4] == 'i' && text[5] == ':' {
        assert(text.take(6) =~= mark);
    }
}

/// What is written of a configuration is all of it, with the key as it stands on disk.
pub proof fn law_all_is_written(
    config: ElysiumConfig,
    blob: Option<Seq<u8>>,
    written: ElysiumConfig,
    i: int,
    j: int,
)
    requires
        written_as(config, blob, written),
    ensures
        written.virtual_subnet == config.virtual_subnet,
        written.listen_port == config.listen_port,
        written.node_name == config.node_name,
        written.known_rooms == config.known_rooms,
        blob is None ==> written.private_key_base64@ == config.private_key_base64@,
        config.wf() && 0 <= i < j < written.known_rooms@.len() ==> written.known_rooms@[i].0@
            != written.known_rooms@[j].0@,
{
}

} // verus!
