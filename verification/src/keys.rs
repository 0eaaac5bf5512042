//! Key-material lifecycle: a 256-bit symmetric key with a stable label,
//! created once and reused.
//!
//! Two providers implement the same contract: a volatile in-process provider
//! that caches the material in a single slot, and a durable provider backed
//! by the operating system's credential store, where the key is kept as the
//! standard base64 text of its 32 raw bytes.
//!
//! Within a process, first-time creation is single-flight by construction:
//! `get_or_create` takes the provider exclusively (`&mut self`), so two
//! racing first-time calls on one provider cannot both generate a key.

use vstd::prelude::*;

use crate::b64::{b64std_decode, b64std_encode, b64std_of};

verus! {

/// Key material used for encryption at rest. The identifier is a stable
/// label for diagnostics and rotation, never the key itself.
#[derive(Debug)]
pub struct KeyMaterial {
    /// Label for diagnostics/rotation (never log key bytes).
    pub id: String,
    /// 256-bit symmetric key.
    pub bytes: Vec<u8>,
}

impl KeyMaterial {
    /// The key holds exactly 32 bytes.
    pub open spec fn wf(&self) -> bool {
        self.bytes@.len() == 32
    }
}

impl Clone for KeyMaterial {
    fn clone(&self) -> (r: Self)
        ensures
            r.id@ == self.id@,
            r.bytes@ == self.bytes@,
    {
        KeyMaterial { id: self.id.clone(), bytes: vstd::slice::slice_to_vec(self.bytes.as_slice()) }
    }
}

/// How obtaining key material can fail.
#[derive(Debug)]
pub enum KeyError {
    /// The OS credential store cannot be reached or refused the operation.
    BackendUnavailable(String),
    /// A stored secret exists but cannot be decoded to 32 key bytes.
    Corrupt(String),
    /// The cryptographically secure random generator failed.
    GenerationFailed(String),
}

/// Provides access to encryption keys (OS credential store in production;
/// memory in tests). Taking the provider exclusively makes first-time
/// creation single-flight within a process.
pub trait KeyProvider: Sized {
    fn get_or_create(&mut self) -> (r: Result<KeyMaterial, KeyError>)
        ensures
            r matches Ok(m) ==> m.wf(),
    ;
}

/// Relies on rand's `OsRng`: `try_fill_bytes` fills the whole buffer from
/// the operating system's entropy source, or reports an error.
#[verifier::external_body]
pub(crate) fn os_random_bytes(n: usize) -> (r: Option<Vec<u8>>)
    ensures
        r matches Some(v) ==> v@.len() == n,
{
    let mut buf = vec![0u8; n];
    match rand::RngCore::try_fill_bytes(&mut rand::rngs::OsRng, &mut buf) {
        Ok(()) => Some(buf),
        Err(_) => None,
    }
}

/// Draw fresh key material from the system's secure random generator.
pub(crate) fn generate_key() -> (r: Result<KeyMaterial, KeyError>)
    ensures
        r matches Ok(m) ==> m.wf() && m.id@ == "default"@,
        r matches Err(e) ==> e matches KeyError::GenerationFailed(_),
{
    match os_random_bytes(32) {
        Some(bytes) => Ok(KeyMaterial { id: "default".to_owned(), bytes }),
        None => Err(KeyError::GenerationFailed("secure random generator unavailable".to_owned())),
    }
}

/// The standard base64 text under which key material is kept in the backend.
pub(crate) fn encode_key(material: &KeyMaterial) -> (r: String)
    ensures
        r@ == b64std_of(material.bytes@),
{
    b64std_encode(material.bytes.as_slice())
}

/// Decode a stored secret back to key material: the secret must be the
/// standard base64 text of exactly 32 bytes, anything else is `Corrupt`.
pub fn decode_key(secret: &str) -> (r: Result<KeyMaterial, KeyError>)
    ensures
        r matches Ok(m) ==> m.wf() && m.id@ == "default"@ && secret@ == b64std_of(m.bytes@),
        (exists|b: Seq<u8>| secret@ == #[trigger] b64std_of(b) && b.len() == 32) ==> r is Ok,
        r matches Err(e) ==> e matches KeyError::Corrupt(_),
{
    let decoded = b64std_decode(secret);
    proof {
        if exists|b: Seq<u8>| secret@ == #[trigger] b64std_of(b) && b.len() == 32 {
            let b = choose|b: Seq<u8>| secret@ == #[trigger] b64std_of(b) && b.len() == 32;
            assert(decoded matches Some(v) && v@ == b);
        }
    }
    match decoded {
        None => Err(KeyError::Corrupt("stored secret is not valid base64".to_owned())),
        Some(bytes) => {
            if bytes.len() == 32 {
                Ok(KeyMaterial { id: "default".to_owned(), bytes })
            } else {
                Err(KeyError::Corrupt("stored secret does not decode to 32 bytes".to_owned()))
            }
        },
    }
}

/// In-memory key provider for tests and ephemeral sessions: a single-slot
/// cache, filled on first use, never touching disk.
#[derive(Debug)]
pub struct InMemoryKeyProvider {
    cached: Option<KeyMaterial>,
}

impl InMemoryKeyProvider {
    /// The slot's content, for contracts.
    pub closed spec fn spec_cached(&self) -> Option<KeyMaterial> {
        self.cached
    }

    /// Whatever the slot holds is well-formed material.
    #[verifier::type_invariant]
    spec fn inv(&self) -> bool {
        self.cached matches Some(m) ==> m.wf()
    }
}

impl Default for InMemoryKeyProvider {
    fn default() -> (r: Self)
        ensures
            r.spec_cached() is None,
    {
        InMemoryKeyProvider { cached: None }
    }
}

impl KeyProvider for InMemoryKeyProvider {
    /// Returns the cached material if the slot is filled — so two successive
    /// calls on one provider yield identical key bytes and the same label —
    /// and otherwise generates, caches and returns fresh material.
    fn get_or_create(&mut self) -> (r: Result<KeyMaterial, KeyError>)
        ensures
            r matches Ok(m) ==> m.wf(),
            old(self).spec_cached() is None ==> (r matches Ok(m) ==> m.id@ == "default"@),
            old(self).spec_cached() matches Some(c)
                ==> (r matches Ok(m) && m.bytes@ == c.bytes@ && m.id@ == c.id@
                    && final(self).spec_cached() == old(self).spec_cached()),
            r matches Ok(m) ==> (final(self).spec_cached() matches Some(c)
                && c.bytes@ == m.bytes@ && c.id@ == m.id@),
            r is Err ==> (r matches Err(e) && e matches KeyError::GenerationFailed(_)
                && old(self).spec_cached() is None
                && final(self).spec_cached() is None),
    {
        proof {
            use_type_invariant(&*self);
        }
        match &self.cached {
            Some(existing) => Ok(existing.clone()),
            None => {
                match generate_key() {
                    Ok(material) => {
                        let copy = material.clone();
                        *self = InMemoryKeyProvider { cached: Some(material) };
                        Ok(copy)
                    },
                    Err(e) => Err(e),
                }
            },
        }
    }
}

/// Declares the credential-store handle of the keyring crate, so that it can
/// pass through signatures; nothing inside it is visible here.
#[verifier::external_type_specification]
#[verifier::external_body]
pub struct ExEntry(keyring::Entry);

/// Relies on keyring's `Entry::new`: builds a handle for the
/// `(service, account)` pair in the platform credential store, failing when
/// the pair is invalid for the platform.
#[verifier::external_body]
fn backend_entry(service: &str, account: &str) -> (r: Result<keyring::Entry, String>)
{
    keyring::Entry::new(service, account).map_err(|e| e.to_string())
}

/// Relies on keyring's `Entry::get_password`: returns the stored secret,
/// `NoEntry` when none is stored (mapped to `Ok(None)`), or another error
/// for backend failures.
#[verifier::external_body]
fn backend_read(entry: &keyring::Entry) -> (r: Result<Option<String>, String>)
{
    match entry.get_password() {
        Ok(secret) => Ok(Some(secret)),
        Err(keyring::Error::NoEntry) => Ok(None),
        Err(e) => Err(e.to_string()),
    }
}

/// Relies on keyring's `Entry::set_password`: stores the secret for the
/// entry, replacing any previous value.
#[verifier::external_body]
fn backend_write(entry: &keyring::Entry, secret: &str) -> (r: Result<(), String>)
{
    entry.set_password(secret).map_err(|e| e.to_string())
}

/// Durable provider backed by the OS credential store.
pub struct KeyringProvider {
    service: String,
    account: String,
}

impl KeyringProvider {
    /// The service half of the pair identifying the stored secret.
    pub closed spec fn spec_service(&self) -> Seq<char> {
        self.service@
    }

    /// The account half of the pair identifying the stored secret.
    pub closed spec fn spec_account(&self) -> Seq<char> {
        self.account@
    }

    pub fn new(service: &str, account: &str) -> (r: Self)
        ensures
            r.spec_service() == service@,
            r.spec_account() == account@,
    {
        KeyringProvider { service: service.to_owned(), account: account.to_owned() }
    }
}

impl KeyProvider for KeyringProvider {
    /// Reads the stored secret and decodes it (a present but undecodable
    /// secret is `Corrupt`, never silently replaced); when no secret is
    /// stored, generates fresh material, writes it back, and returns it.
    /// What the backend holds is outside this crate, so beyond
    /// well-formedness and the stable label nothing more can be promised of
    /// the result.
    fn get_or_create(&mut self) -> (r: Result<KeyMaterial, KeyError>)
        ensures
            r matches Ok(m) ==> m.wf() && m.id@ == "default"@,
    {
        let entry = match backend_entry(self.service.as_str(), self.account.as_str()) {
            Ok(entry) => entry,
            Err(reason) => {
                return Err(KeyError::BackendUnavailable(reason));
            },
        };
        match backend_read(&entry) {
            Err(reason) => Err(KeyError::BackendUnavailable(reason)),
            Ok(Some(secret)) => decode_key(secret.as_str()),
            Ok(None) => {
                let material = match generate_key() {
                    Ok(material) => material,
                    Err(e) => {
                        return Err(e);
                    },
                };
                let encoded = encode_key(&material);
                match backend_write(&entry, encoded.as_str()) {
                    Ok(()) => Ok(material),
                    Err(reason) => Err(KeyError::BackendUnavailable(reason)),
                }
            },
        }
    }
}

} // verus!
