//! Credential storage: what the explicitly insecure fallback keeps where no
//! native keychain is reachable.

use vstd::prelude::*;
use vstd::utf8::{
    decode_utf8, encode_utf8, encode_utf8_decode_utf8, encode_utf8_valid_utf8, valid_utf8,
};

use crate::text::opt;
use crate::text_map::{lemma_place, lookup, TextMap};

verus! {

pub const CREDENTIALS_FILE_NAME: &'static str = "credentials.json";

/// The service of a throwaway key that is never written: asking for it shows
/// whether a native backend answers.
pub const PROBE_SERVICE: &'static str = "cordiale-probe";

pub const PROBE_USERNAME: &'static str = "cordiale-probe";

#[derive(Debug, Clone, PartialEq, Eq)]
pub enum CredentialError {
    /// The native backend (or the fallback's own I/O) reported a failure.
    Backend(String),
    NoConfigDir,
    Io(String),
    Json(String),
}

/// The letters of `cordiale-non-secret-obfuscation-pattern`, the fixed and
/// publicly known pattern that secrets are mixed with.
pub const OBFUSCATION_PATTERN: [u8; 39] = [
    99, 111, 114, 100, 105, 97, 108, 101, 45, 110, 111, 110, 45,
    115, 101, 99, 114, 101, 116, 45, 111, 98, 102, 117, 115, 99,
    97, 116, 105, 111, 110, 45, 112, 97, 116, 116, 101, 114, 110,
];

/// Bytes mixed with the pattern, which repeats: not real security, only no
/// plain readable text.
pub open spec fn mixed(bytes: Seq<u8>) -> Seq<u8> {
    Seq::new(bytes.len(), |i: int| bytes[i] ^ OBFUSCATION_PATTERN[i % 39])
}

/// The key of a secret: service and username with a NUL between them.
pub open spec fn key_of(service: Seq<char>, username: Seq<char>) -> Seq<char> {
    service + seq!['\0'] + username
}

/// The secret in stored bytes; `None` where they were corrupted.
pub open spec fn secret_in(bytes: Seq<u8>) -> Option<Seq<char>> {
    if valid_utf8(mixed(bytes)) {
        Some(decode_utf8(mixed(bytes)))
    } else {
        None
    }
}

/// Mixing twice gives the bytes back.
pub proof fn mixing_is_undone(bytes: Seq<u8>)
    ensures
        mixed(mixed(bytes)) == bytes,
{
    assert forall|i: int| 0 <= i < bytes.len() implies #[trigger] mixed(mixed(bytes))[i]
        == bytes[i] by {
        let byte = bytes[i];
        let letter = OBFUSCATION_PATTERN[i % 39];
        assert((byte ^ letter) ^ letter == byte) by (bit_vector);
    }
    assert(mixed(mixed(bytes)) =~= bytes);
}

/// What is stored of a secret gives the secret back, whatever it is.
pub proof fn secrets_read_back(secret: Seq<char>)
    ensures
        secret_in(mixed(encode_utf8(secret))) == Some(secret),
{
    mixing_is_undone(encode_utf8(secret));
    encode_utf8_valid_utf8(secret);
    encode_utf8_decode_utf8(secret);
}

/// No two profiles share a key, as long as no service has a NUL in its name.
pub proof fn profiles_have_keys_of_their_own(
    service: Seq<char>,
    username: Seq<char>,
    other_service: Seq<char>,
    other_username: Seq<char>,
)
    requires
        !service.contains('\0'),
        !other_service.contains('\0'),
        key_of(service, username) == key_of(other_service, other_username),
    ensures
        service == other_service,
        username == other_username,
{
    let key = key_of(service, username);
    assert(key[service.len() as int] == '\0');
    assert(key[other_service.len() as int] == '\0');
    if service.len() < other_service.len() {
        assert(other_service[service.len() as int] == '\0');
    }
    if other_service.len() < service.len() {
        assert(service[other_service.len() as int] == '\0');
    }
    assert(service =~= key.take(service.len() as int));
    assert(other_service =~= key.take(service.len() as int));
    assert(username =~= key.skip(service.len() as int + 1));
    assert(other_username =~= key.skip(service.len() as int + 1));
}

pub fn credential_key(service: &str, username: &str) -> (key: String)
    ensures
        key@ == key_of(service@, username@),
{
    let mut key = service.to_string();
    key.push('\0');
    key.append(username);
    assert(key@ =~= key_of(service@, username@));
    key
}

fn mix(bytes: &[u8]) -> (result: Vec<u8>)
    ensures
        result@ == mixed(bytes@),
{
    let mut result: Vec<u8> = Vec::new();
    let mut i: usize = 0;
    while i < bytes.len()
        invariant
            i <= bytes@.len(),
            result@ == mixed(bytes@).take(i as int),
        decreases bytes@.len() - i,
    {
        let letter: u8 = OBFUSCATION_PATTERN[i % 39];
        result.push(bytes[i] ^ letter);
        assert(mixed(bytes@).take(i + 1) =~= mixed(bytes@).take(i as int).push(
            mixed(bytes@)[i as int],
        ));
        i += 1;
    }
    assert(mixed(bytes@).take(i as int) =~= mixed(bytes@));
    result
}

pub fn obfuscate(secret: &str) -> (bytes: Vec<u8>)
    ensures
        bytes@ == mixed(encode_utf8(secret@)),
{
    mix(secret.as_bytes())
}

/// `String::from_utf8`: the text that the bytes hold, where they are valid
/// UTF-8 and only there.
#[verifier::external_body]
fn text_from_utf8(bytes: Vec<u8>) -> (text: Option<String>)
    ensures
        match text {
            Some(text) => valid_utf8(bytes@) && text@ == decode_utf8(bytes@),
            None => !valid_utf8(bytes@),
        },
{
    String::from_utf8(bytes).ok()
}

pub fn deobfuscate(bytes: &[u8]) -> (secret: Result<String, CredentialError>)
    ensures
        match secret_in(bytes@) {
            Some(text) => secret matches Ok(secret) && secret@ == text,
            None => secret matches Err(CredentialError::Backend(text)) && text@
                == "corrupted fallback credential"@,
        },
{
    match text_from_utf8(mix(bytes)) {
        Some(secret) => Ok(secret),
        None => Err(CredentialError::Backend("corrupted fallback credential".to_string())),
    }
}

/// The secrets of the fallback, by their keys.
///
/// This is **not** real security: it obfuscates secrets with a fixed,
/// publicly known pattern purely to avoid storing them as plain readable
/// text. Anyone who reads the file and this source can recover every secret.
#[derive(Debug, Clone)]
pub struct CredentialMap {
    pub secrets: TextMap<Vec<u8>>,
}

/// The stored bytes by their keys.
impl View for CredentialMap {
    type V = Map<Seq<char>, Seq<u8>>;

    open spec fn view(&self) -> Map<Seq<char>, Seq<u8>> {
        Map::new(
            |key: Seq<char>| lookup(self.secrets.entries@, key) is Some,
            |key: Seq<char>| lookup(self.secrets.entries@, key)->0@,
        )
    }
}

/// What stored bytes give for a profile: its secret, none, or why it cannot be
/// read.
pub open spec fn reading(
    stored: Map<Seq<char>, Seq<u8>>,
    service: Seq<char>,
    username: Seq<char>,
) -> Result<Option<Seq<char>>, Seq<char>> {
    let key = key_of(service, username);
    if stored.contains_key(key) {
        match secret_in(stored[key]) {
            Some(secret) => Ok(Some(secret)),
            None => Err("corrupted fallback credential"@),
        }
    } else {
        Ok(None)
    }
}

/// A change of what is stored.
pub enum Change {
    Keep { service: Seq<char>, username: Seq<char>, secret: Seq<char> },
    Forget { service: Seq<char>, username: Seq<char> },
}

impl Change {
    /// The service and the username of the profile that is changed.
    pub open spec fn profile(self) -> (Seq<char>, Seq<char>) {
        match self {
            Change::Keep { service, username, .. } => (service, username),
            Change::Forget { service, username } => (service, username),
        }
    }
}

/// What is stored after a change.
pub open spec fn changed(
    stored: Map<Seq<char>, Seq<u8>>,
    change: Change,
) -> Map<Seq<char>, Seq<u8>> {
    match change {
        Change::Keep { service, username, secret } => stored.insert(
            key_of(service, username),
            mixed(encode_utf8(secret)),
        ),
        Change::Forget { service, username } => stored.remove(key_of(service, username)),
    }
}

/// What is stored after several changes, from nothing on.
pub open spec fn stored_after(changes: Seq<Change>) -> Map<Seq<char>, Seq<u8>>
    decreases changes.len(),
{
    if changes.len() == 0 {
        Map::empty()
    } else {
        changed(stored_after(changes.drop_last()), changes.last())
    }
}

/// The secret that the last change for exactly that profile set; none where it
/// deleted the secret, or where there was no such change.
pub open spec fn last_set(
    changes: Seq<Change>,
    service: Seq<char>,
    username: Seq<char>,
) -> Option<Seq<char>>
    decreases changes.len(),
{
    if changes.len() == 0 {
        None
    } else if changes.last().profile() == (service, username) {
        match changes.last() {
            Change::Keep { secret, .. } => Some(secret),
            Change::Forget { .. } => None,
        }
    } else {
        last_set(changes.drop_last(), service, username)
    }
}

/// Whatever was set and deleted before, a profile reads as the secret that was
/// last set for it, or as none once that is deleted; changes for others do not
/// matter. This holds as long as no service has a NUL in its name.
pub proof fn the_last_change_of_a_profile_counts(
    changes: Seq<Change>,
    service: Seq<char>,
    username: Seq<char>,
)
    requires
        !service.contains('\0'),
        forall|i: int|
            0 <= i < changes.len() ==> !(#[trigger] changes[i]).profile().0.contains('\0'),
    ensures
        reading(stored_after(changes), service, username) == Ok::<
            Option<Seq<char>>,
            Seq<char>,
        >(last_set(changes, service, username)),
    decreases changes.len(),
{
    if changes.len() > 0 {
        let front = changes.drop_last();
        let last = changes.last();
        let (other_service, other_username) = last.profile();
        assert forall|i: int| 0 <= i < front.len() implies !(
        #[trigger] front[i]).profile().0.contains('\0') by {
            assert(front[i] == changes[i]);
        }
        the_last_change_of_a_profile_counts(front, service, username);
        assert(!changes[changes.len() - 1].profile().0.contains('\0'));
        if key_of(other_service, other_username) == key_of(service, username) {
            profiles_have_keys_of_their_own(other_service, other_username, service, username);
        }
        if let Change::Keep { secret, .. } = last {
            secrets_read_back(secret);
        }
    }
}

impl CredentialMap {
    pub fn new() -> (map: Self)
        ensures
            map@ == Map::<Seq<char>, Seq<u8>>::empty(),
    {
        let map = CredentialMap { secrets: TextMap::new() };
        assert(map@ =~= Map::empty());
        map
    }

    /// Keeps a secret, in place of an earlier one of the same profile.
    pub fn set_secret(&mut self, service: &str, username: &str, secret: &str)
        ensures
            final(self)@ == changed(
                old(self)@,
                Change::Keep { service: service@, username: username@, secret: secret@ },
            ),
    {
        let key = credential_key(service, username);
        self.secrets.insert(key.as_str(), obfuscate(secret));
        assert(self@ =~= old(self)@.insert(key@, mixed(encode_utf8(secret@))));
    }

    /// The secret of a profile. A missing entry is no error.
    pub fn get_secret(&self, service: &str, username: &str) -> (secret: Result<
        Option<String>,
        CredentialError,
    >)
        ensures
            match secret {
                Ok(secret) => reading(self@, service@, username@) == Ok::<
                    Option<Seq<char>>,
                    Seq<char>,
                >(opt(secret)),
                Err(CredentialError::Backend(text)) => reading(self@, service@, username@)
                    == Err::<Option<Seq<char>>, Seq<char>>(text@),
                Err(_) => false,
            },
    {
        let key = credential_key(service, username);
        proof {
            lemma_place(self.secrets.entries@, key@);
        }
        match self.secrets.get(key.as_str()) {
            Some(bytes) => match deobfuscate(bytes) {
                Ok(secret) => Ok(Some(secret)),
                Err(error) => Err(error),
            },
            None => Ok(None),
        }
    }

    /// Forgets the secret of a profile, if there is one.
    pub fn delete_secret(&mut self, service: &str, username: &str)
        ensures
            final(self)@ == changed(
                old(self)@,
                Change::Forget { service: service@, username: username@ },
            ),
    {
        let key = credential_key(service, username);
        self.secrets.remove(key.as_str());
        assert(self@ =~= old(self)@.remove(key@));
    }
}

/// The pattern is spelled `cordiale-non-secret-obfuscation-pattern`, and every
/// byte of a secret is mixed with the letter at its place, the pattern
/// beginning again where it ends.
pub proof fn the_pattern_is_spelled_out(bytes: Seq<u8>, i: int)
    requires
        0 <= i < bytes.len(),
    ensures
        "cordiale-non-secret-obfuscation-pattern"@.len() == 39,
        OBFUSCATION_PATTERN[i % 39] == "cordiale-non-secret-obfuscation-pattern"@[i % 39] as u32,
        mixed(bytes).len() == bytes.len(),
        mixed(bytes)[i] == bytes[i] ^ OBFUSCATION_PATTERN[i % 39],
{
    reveal_strlit("cordiale-non-secret-obfuscation-pattern");
    let text = "cordiale-non-secret-obfuscation-pattern"@;
    let k = i % 39;
    assert(k == 0 ==> text[0] == 'c' && OBFUSCATION_PATTERN[0] == 99);
    assert(k == 1 ==> text[1] == 'o' && OBFUSCATION_PATTERN[1] == 111);
    assert(k == 2 ==> text[2] == 'r' && OBFUSCATION_PATTERN[2] == 114);
    assert(k == 3 ==> text[3] == 'd' && OBFUSCATION_PATTERN[3] == 100);
    assert(k == 4 ==> text[4] == 'i' && OBFUSCATION_PATTERN[4] == 105);
    assert(k == 5 ==> text[5] == 'a' && OBFUSCATION_PATTERN[5] == 97);
    assert(k == 6 ==> text[6] == 'l' && OBFUSCATION_PATTERN[6] == 108);
    assert(k == 7 ==> text[7] == 'e' && OBFUSCATION_PATTERN[7] == 101);
    assert(k == 8 ==> text[8] == '-' && OBFUSCATION_PATTERN[8] == 45);
    assert(k == 9 ==> text[9] == 'n' && OBFUSCATION_PATTERN[9] == 110);
    assert(k == 10 ==> text[10] == 'o' && OBFUSCATION_PATTERN[10] == 111);
    assert(k == 11 ==> text[11] == 'n' && OBFUSCATION_PATTERN[11] == 110);
    assert(k == 12 ==> text[12] == '-' && OBFUSCATION_PATTERN[12] == 45);
    assert(k == 13 ==> text[13] == 's' && OBFUSCATION_PATTERN[13] == 115);
    assert(k == 14 ==> text[14] == 'e' && OBFUSCATION_PATTERN[14] == 101);
    assert(k == 15 ==> text[15] == 'c' && OBFUSCATION_PATTERN[15] == 99);
    assert(k == 16 ==> text[16] == 'r' && OBFUSCATION_PATTERN[16] == 114);
    assert(k == 17 ==> text[17] == 'e' && OBFUSCATION_PATTERN[17] == 101);
    assert(k == 18 ==> text[18] == 't' && OBFUSCATION_PATTERN[18] == 116);
    assert(k == 19 ==> text[19] == '-' && OBFUSCATION_PATTERN[19] == 45);
    assert(k == 20 ==> text[20] == 'o' && OBFUSCATION_PATTERN[20] == 111);
    assert(k == 21 ==> text[21] == 'b' && OBFUSCATION_PATTERN[21] == 98);
    assert(k == 22 ==> text[22] == 'f' && OBFUSCATION_PATTERN[22] == 102);
    assert(k == 23 ==> text[23] == 'u' && OBFUSCATION_PATTERN[23] == 117);
    assert(k == 24 ==> text[24] == 's' && OBFUSCATION_PATTERN[24] == 115);
    assert(k == 25 ==> text[25] == 'c' && OBFUSCATION_PATTERN[25] == 99);
    assert(k == 26 ==> text[26] == 'a' && OBFUSCATION_PATTERN[26] == 97);
    assert(k == 27 ==> text[27] == 't' && OBFUSCATION_PATTERN[27] == 116);
    assert(k == 28 ==> text[28] == 'i' && OBFUSCATION_PATTERN[28] == 105);
    assert(k == 29 ==> text[29] == 'o' && OBFUSCATION_PATTERN[29] == 111);
    assert(k == 30 ==> text[30] == 'n' && OBFUSCATION_PATTERN[30] == 110);
    assert(k == 31 ==> text[31] == '-' && OBFUSCATION_PATTERN[31] == 45);
    assert(k == 32 ==> text[32] == 'p' && OBFUSCATION_PATTERN[32] == 112);
    assert(k == 33 ==> text[33] == 'a' && OBFUSCATION_PATTERN[33] == 97);
    assert(k == 34 ==> text[34] == 't' && OBFUSCATION_PATTERN[34] == 116);
    assert(k == 35 ==> text[35] == 't' && OBFUSCATION_PATTERN[35] == 116);
    assert(k == 36 ==> text[36] == 'e' && OBFUSCATION_PATTERN[36] == 101);
    assert(k == 37 ==> text[37] == 'r' && OBFUSCATION_PATTERN[37] == 114);
    assert(k == 38 ==> text[38] == 'n' && OBFUSCATION_PATTERN[38] == 110);
}

} // verus!
