//! The encrypted blob codec: plaintext bytes to a self-describing ciphertext
//! record and back, given key material.
//!
//! A record at rest is one JSON object with two fields, each unpadded
//! URL-safe base64 text: `{"nonce":"…","ciphertext":"…"}`. The nonce is 96
//! bits drawn fresh from the system's secure random generator on every
//! encryption — never derived from content, since nonce reuse under one key
//! is a fatal confidentiality violation. The cipher is AES-256-GCM with its
//! 128-bit authentication tag, so corrupted or truncated records surface as
//! typed errors, never as wrong plaintext and never as a panic.

use vstd::prelude::*;

use vstd::utf8::encode_utf8;

use crate::b64::{b64url_decode, b64url_encode, b64url_of, is_b64url_byte};
use crate::keys::{os_random_bytes, KeyMaterial};
use crate::store::{storage_err, SecureStoreError};

verus! {

/// What AES-256-GCM produces for a key, a nonce and a plaintext: the
/// ciphertext with its authentication tag appended. A function of its
/// arguments alone.
pub uninterp spec fn aead_seal(key: Seq<u8>, nonce: Seq<u8>, plaintext: Seq<u8>) -> Seq<u8>;

/// The largest plaintext the cipher accepts (2^36 bytes).
pub const MAX_PLAINTEXT_LEN: u64 = 0x1000000000;

/// Relies on aes-gcm's `Aes256Gcm`: `encrypt` is deterministic in key, nonce
/// and plaintext, appends the 16-byte tag, and fails only when the plaintext
/// exceeds the cipher's 2^36-byte message bound.
#[verifier::external_body]
fn aead_encrypt(key: &[u8], nonce: &[u8], plaintext: &[u8]) -> (r: Option<Vec<u8>>)
    requires
        key@.len() == 32,
        nonce@.len() == 12,
    ensures
        r matches Some(c) ==> c@ == aead_seal(key@, nonce@, plaintext@)
            && c@.len() == plaintext@.len() + 16,
        plaintext@.len() <= MAX_PLAINTEXT_LEN ==> r is Some,
{
    let cipher = match aes_gcm::KeyInit::new_from_slice(key) {
        Ok(c) => c,
        Err(_) => return None,
    };
    let cipher: aes_gcm::Aes256Gcm = cipher;
    aes_gcm::aead::Aead::encrypt(&cipher, aes_gcm::Nonce::from_slice(nonce), plaintext).ok()
}

/// A decrypt outcome `r` undoes sealing under `(key, nonce)`: whenever the
/// ciphertext is the seal of some plaintext within the cipher's message
/// bound, that plaintext comes back.
pub open spec fn inverts_seal(key: Seq<u8>, nonce: Seq<u8>, ciphertext: Seq<u8>, r: Option<Vec<u8>>) -> bool {
    forall|p: Seq<u8>| p.len() <= MAX_PLAINTEXT_LEN
        && ciphertext == #[trigger] aead_seal(key, nonce, p)
        ==> (r matches Some(v) && v@ == p)
}

/// Relies on `Aes256Gcm`'s `decrypt`: it recomputes the tag over the
/// ciphertext and reverses the keystream only when the tag verifies, so a
/// successful decryption returns exactly the plaintext whose seal the
/// ciphertext is; the plaintext is the ciphertext minus the 16-byte tag,
/// and ciphertexts beyond the cipher's message bound are rejected by
/// length; wrong key, corrupted bytes or a truncated record give an error,
/// never a panic.
#[verifier::external_body]
fn aead_decrypt(key: &[u8], nonce: &[u8], ciphertext: &[u8]) -> (r: Option<Vec<u8>>)
    requires
        key@.len() == 32,
        nonce@.len() == 12,
    ensures
        r matches Some(v) ==> ciphertext@ == aead_seal(key@, nonce@, v@)
            && ciphertext@.len() == v@.len() + 16
            && ciphertext@.len() <= MAX_PLAINTEXT_LEN + 16,
        inverts_seal(key@, nonce@, ciphertext@, r),
{
    let cipher = match aes_gcm::KeyInit::new_from_slice(key) {
        Ok(c) => c,
        Err(_) => return None,
    };
    let cipher: aes_gcm::Aes256Gcm = cipher;
    aes_gcm::aead::Aead::decrypt(&cipher, aes_gcm::Nonce::from_slice(nonce), ciphertext).ok()
}

/// One encrypted value at rest: nonce and authenticated ciphertext, each as
/// unpadded URL-safe base64 text (ASCII bytes). Replaced wholesale on
/// overwrite, never patched in place.
pub struct StoredBlob {
    /// Base64 text of the 96-bit nonce.
    pub nonce: Vec<u8>,
    /// Base64 text of the ciphertext with its 128-bit tag.
    pub ciphertext: Vec<u8>,
}

/// Every byte of `s` is base64 URL-safe alphabet.
pub open spec fn b64url_text(s: Seq<u8>) -> bool {
    forall|i: int| 0 <= i < s.len() ==> is_b64url_byte(#[trigger] s[i])
}

impl StoredBlob {
    /// Both fields hold only base64 alphabet bytes.
    pub open spec fn wf(&self) -> bool {
        b64url_text(self.nonce@) && b64url_text(self.ciphertext@)
    }
}

/// The blob fields `b_nonce`/`b_ct` record plaintext `p` sealed under `key`
/// with the 12-byte nonce `n`; only plaintexts within the cipher's message
/// bound can be sealed.
pub open spec fn blob_seals(key: Seq<u8>, n: Seq<u8>, p: Seq<u8>, b_nonce: Seq<u8>, b_ct: Seq<u8>) -> bool {
    &&& n.len() == 12
    &&& p.len() <= MAX_PLAINTEXT_LEN
    &&& b_nonce == b64url_of(n)
    &&& b_ct == b64url_of(aead_seal(key, n, p))
}

/// Encrypt `value` under `key` with the given fresh nonce. Deterministic in
/// its arguments; always succeeds for plaintexts within the cipher's bound.
pub fn encrypt_blob_with_nonce(key: &KeyMaterial, nonce: &[u8], value: &[u8]) -> (r: Result<StoredBlob, SecureStoreError>)
    requires
        key.wf(),
        nonce@.len() == 12,
        value@.len() <= MAX_PLAINTEXT_LEN,
    ensures
        r matches Ok(b) ==> b.wf()
            && blob_seals(key.bytes@, nonce@, value@, b.nonce@, b.ciphertext@)
            && aead_seal(key.bytes@, nonce@, value@).len() == value@.len() + 16,
        r is Ok,
{
    let sealed = match aead_encrypt(key.bytes.as_slice(), nonce, value) {
        Some(c) => c,
        None => {
            // Dead branch: the bound in `requires` keeps the plaintext
            // within the cipher's message limit, so encryption succeeds.
            proof {
                assert(false);
            }
            return Err(storage_err("encrypt failed"));
        },
    };
    let nonce_text = b64url_encode(nonce);
    let ciphertext_text = b64url_encode(sealed.as_slice());
    Ok(StoredBlob { nonce: nonce_text, ciphertext: ciphertext_text })
}

/// The blob fields record plaintext `p` sealed under `key` with some
/// 12-byte nonce, the ciphertext 16 tag bytes longer than the plaintext.
pub open spec fn blob_records(key: Seq<u8>, p: Seq<u8>, b_nonce: Seq<u8>, b_ct: Seq<u8>) -> bool {
    exists|n: Seq<u8>| #[trigger] blob_seals(key, n, p, b_nonce, b_ct)
        && aead_seal(key, n, p).len() == p.len() + 16
}

/// Encrypt `value` under `key` with a nonce drawn fresh from the system's
/// secure random generator; each call seals with some 12-byte nonce. Fails
/// when the generator fails or the plaintext exceeds the cipher's bound.
pub fn encrypt_blob(key: &KeyMaterial, value: &[u8]) -> (r: Result<StoredBlob, SecureStoreError>)
    requires
        key.wf(),
    ensures
        r matches Ok(b) ==> b.wf()
            && blob_records(key.bytes@, value@, b.nonce@, b.ciphertext@),
        value@.len() > MAX_PLAINTEXT_LEN ==> r is Err,
{
    if value.len() as u64 > MAX_PLAINTEXT_LEN {
        return Err(storage_err("value exceeds the cipher's message bound"));
    }
    match os_random_bytes(12) {
        Some(nonce) => {
            match encrypt_blob_with_nonce(key, nonce.as_slice(), value) {
                Ok(b) => {
                    proof {
                        assert(blob_seals(key.bytes@, nonce@, value@, b.nonce@, b.ciphertext@)
                            && aead_seal(key.bytes@, nonce@, value@).len() == value@.len() + 16);
                        assert(blob_records(key.bytes@, value@, b.nonce@, b.ciphertext@));
                    }
                    Ok(b)
                },
                Err(e) => Err(e),
            }
        },
        None => Err(storage_err("secure random generator unavailable")),
    }
}

/// The blob fields record plaintext `p` sealed under `key` with some
/// 12-byte nonce.
pub open spec fn blob_opens_to(key: Seq<u8>, b_nonce: Seq<u8>, b_ct: Seq<u8>, p: Seq<u8>) -> bool {
    exists|n: Seq<u8>| #[trigger] blob_seals(key, n, p, b_nonce, b_ct)
}

/// Decrypt a blob under `key`: whenever the blob records a seal of some
/// plaintext under this key, exactly that plaintext comes back; everything
/// else — undecodable fields, a wrong-length nonce, a failed tag check —
/// is a typed `Storage` error.
pub fn decrypt_blob(key: &KeyMaterial, blob: &StoredBlob) -> (r: Result<Vec<u8>, SecureStoreError>)
    requires
        key.wf(),
    ensures
        forall|n: Seq<u8>, p: Seq<u8>|
            #[trigger] blob_seals(key.bytes@, n, p, blob.nonce@, blob.ciphertext@)
                ==> (r matches Ok(v) && v@ == p),
        r matches Ok(v) ==> blob_opens_to(key.bytes@, blob.nonce@, blob.ciphertext@, v@),
        r matches Err(e) ==> e matches SecureStoreError::Storage { .. },
{
    let nonce_bytes = match b64url_decode(blob.nonce.as_slice()) {
        Some(n) => n,
        None => {
            return Err(storage_err("nonce decode failed"));
        },
    };
    if nonce_bytes.len() != 12 {
        return Err(storage_err("nonce has the wrong length"));
    }
    let sealed = match b64url_decode(blob.ciphertext.as_slice()) {
        Some(c) => c,
        None => {
            return Err(storage_err("ciphertext decode failed"));
        },
    };
    match aead_decrypt(key.bytes.as_slice(), nonce_bytes.as_slice(), sealed.as_slice()) {
        Some(v) => {
            proof {
                assert(blob_seals(key.bytes@, nonce_bytes@, v@, blob.nonce@, blob.ciphertext@));
                assert(blob_opens_to(key.bytes@, blob.nonce@, blob.ciphertext@, v@));
            }
            Ok(v)
        },
        None => Err(storage_err("decrypt failed")),
    }
}

/// The bytes of `{"nonce":"`.
pub open spec fn frame_prefix() -> Seq<u8> {
    seq![123u8, 34, 110, 111, 110, 99, 101, 34, 58, 34]
}

/// The bytes of `","ciphertext":"`.
pub open spec fn frame_middle() -> Seq<u8> {
    seq![34u8, 44, 34, 99, 105, 112, 104, 101, 114, 116, 101, 120, 116, 34, 58, 34]
}

/// The bytes of `"}`.
pub open spec fn frame_suffix() -> Seq<u8> {
    seq![34u8, 125]
}

/// The compact JSON object `{"nonce":"…","ciphertext":"…"}` holding the two
/// base64 fields.
pub open spec fn spec_frame(nonce_text: Seq<u8>, ct_text: Seq<u8>) -> Seq<u8> {
    frame_prefix() + nonce_text + frame_middle() + ct_text + frame_suffix()
}

/// `bytes` is the frame of the base64 fields `n` and `c`.
pub open spec fn framed(n: Seq<u8>, c: Seq<u8>, bytes: Seq<u8>) -> bool {
    &&& b64url_text(n)
    &&& b64url_text(c)
    &&& bytes == spec_frame(n, c)
}

/// Where each part of a frame sits, byte by byte.
proof fn lemma_frame_shape(n: Seq<u8>, c: Seq<u8>)
    ensures
        spec_frame(n, c).len() == 28 + n.len() + c.len(),
        forall|k: int| 0 <= k < 10 ==> spec_frame(n, c)[k] == frame_prefix()[k],
        forall|k: int| 0 <= k < n.len() ==> spec_frame(n, c)[10 + k] == n[k],
        forall|k: int| 0 <= k < 16
            ==> spec_frame(n, c)[10 + n.len() + k] == frame_middle()[k],
        forall|k: int| 0 <= k < c.len()
            ==> spec_frame(n, c)[26 + n.len() + k] == c[k],
        spec_frame(n, c)[(26 + n.len() + c.len()) as int] == 34,
        spec_frame(n, c)[(27 + n.len() + c.len()) as int] == 125,
{
}

/// In a frame of base64 fields, the field regions hold only alphabet bytes
/// (never a quote), and the quotes close each field exactly where the field
/// ends.
proof fn lemma_framed_fields(n: Seq<u8>, c: Seq<u8>, bytes: Seq<u8>)
    requires
        framed(n, c, bytes),
    ensures
        bytes.len() == 28 + n.len() + c.len(),
        forall|k: int| 0 <= k < 10 ==> bytes[k] == frame_prefix()[k],
        forall|k: int| 10 <= k < 10 + n.len()
            ==> is_b64url_byte(#[trigger] bytes[k]) && bytes[k] != 34,
        bytes[(10 + n.len()) as int] == 34,
        forall|k: int| 0 <= k < 16 ==> bytes[10 + n.len() + k] == frame_middle()[k],
        forall|k: int| 26 + n.len() <= k < 26 + n.len() + c.len()
            ==> is_b64url_byte(#[trigger] bytes[k]) && bytes[k] != 34,
        bytes[(26 + n.len() + c.len()) as int] == 34,
        bytes[(27 + n.len() + c.len()) as int] == 125,
        n == bytes.subrange(10, 10 + n.len() as int),
        c == bytes.subrange(26 + n.len() as int, 26 + n.len() + c.len() as int),
{
    lemma_frame_shape(n, c);
    assert forall|k: int| 10 <= k < 10 + n.len()
        implies is_b64url_byte(#[trigger] bytes[k]) && bytes[k] != 34 by {
        assert(bytes[k] == n[k - 10]);
        assert(is_b64url_byte(n[k - 10]));
    }
    assert forall|k: int| 26 + n.len() <= k < 26 + n.len() + c.len()
        implies is_b64url_byte(#[trigger] bytes[k]) && bytes[k] != 34 by {
        assert(bytes[k] == c[k - 26 - n.len()]);
        assert(is_b64url_byte(c[k - 26 - n.len()]));
    }
    assert(n =~= bytes.subrange(10, 10 + n.len() as int));
    assert(c =~= bytes.subrange(26 + n.len() as int, 26 + n.len() + c.len() as int));
}

/// A frame determines its fields: two framings of the same bytes agree.
proof fn lemma_frame_fields_unique(n1: Seq<u8>, c1: Seq<u8>, n2: Seq<u8>, c2: Seq<u8>, bytes: Seq<u8>)
    requires
        framed(n1, c1, bytes),
        framed(n2, c2, bytes),
    ensures
        n1 == n2,
        c1 == c2,
{
    lemma_framed_fields(n1, c1, bytes);
    lemma_framed_fields(n2, c2, bytes);
    if n1.len() < n2.len() {
        assert(bytes[(10 + n1.len()) as int] == 34);
        assert(is_b64url_byte(bytes[(10 + n1.len()) as int]));
        assert(false);
    }
    if n2.len() < n1.len() {
        assert(bytes[(10 + n2.len()) as int] == 34);
        assert(is_b64url_byte(bytes[(10 + n2.len()) as int]));
        assert(false);
    }
    assert(n1 == n2);
    assert(c1 == c2);
}

/// Append a byte string to a buffer.
pub(crate) fn append_bytes(out: &mut Vec<u8>, s: &[u8])
    ensures
        final(out)@ == old(out)@ + s@,
{
    let mut i: usize = 0;
    while i < s.len()
        invariant
            i <= s@.len(),
            out@ == old(out)@ + s@.take(i as int),
        decreases s@.len() - i,
    {
        out.push(s[i]);
        i = i + 1;
        proof {
            assert(out@ =~= old(out)@ + s@.take(i as int));
        }
    }
    proof {
        assert(old(out)@ + s@.take(s@.len() as int) =~= old(out)@ + s@);
    }
}

/// Serialize a blob to its compact self-describing form.
pub fn frame_blob(blob: &StoredBlob) -> (r: Vec<u8>)
    ensures
        r@ == spec_frame(blob.nonce@, blob.ciphertext@),
        blob.wf() ==> framed(blob.nonce@, blob.ciphertext@, r@),
{
    let mut out: Vec<u8> = Vec::new();
    out.push(123);
    out.push(34);
    out.push(110);
    out.push(111);
    out.push(110);
    out.push(99);
    out.push(101);
    out.push(34);
    out.push(58);
    out.push(34);
    proof {
        assert(out@ =~= frame_prefix());
    }
    append_bytes(&mut out, blob.nonce.as_slice());
    out.push(34);
    out.push(44);
    out.push(34);
    out.push(99);
    out.push(105);
    out.push(112);
    out.push(104);
    out.push(101);
    out.push(114);
    out.push(116);
    out.push(101);
    out.push(120);
    out.push(116);
    out.push(34);
    out.push(58);
    out.push(34);
    proof {
        assert(out@ =~= frame_prefix() + blob.nonce@ + frame_middle());
    }
    append_bytes(&mut out, blob.ciphertext.as_slice());
    out.push(34);
    out.push(125);
    proof {
        assert(out@ =~= spec_frame(blob.nonce@, blob.ciphertext@));
    }
    out
}

/// True of bytes in the URL-safe base64 alphabet.
fn b64url_byte_ok(b: u8) -> (r: bool)
    ensures
        r == is_b64url_byte(b),
{
    (65 <= b && b <= 90) || (97 <= b && b <= 122) || (48 <= b && b <= 57) || b == 45 || b == 95
}

/// Parse a serialized blob. Returns the two fields exactly when the input is
/// the frame of base64 fields; anything else — a missing brace, a stray
/// byte outside the alphabet, trailing content — is rejected.
#[verifier::rlimit(100)]
#[verifier::spinoff_prover]
pub fn parse_blob(bytes: &[u8]) -> (r: Option<StoredBlob>)
    ensures
        r matches Some(b) ==> b.wf() && framed(b.nonce@, b.ciphertext@, bytes@),
        forall|n: Seq<u8>, c: Seq<u8>| #[trigger] framed(n, c, bytes@)
            ==> (r matches Some(b) && b.nonce@ == n && b.ciphertext@ == c),
{
    if bytes.len() < 10 {
        proof {
            assert forall|n: Seq<u8>, c: Seq<u8>| !framed(n, c, bytes@) by {
                if framed(n, c, bytes@) {
                    lemma_framed_fields(n, c, bytes@);
                }
            }
        }
        return None;
    }
    if !(bytes[0] == 123 && bytes[1] == 34 && bytes[2] == 110 && bytes[3] == 111
        && bytes[4] == 110 && bytes[5] == 99 && bytes[6] == 101 && bytes[7] == 34
        && bytes[8] == 58 && bytes[9] == 34)
    {
        proof {
            assert forall|n: Seq<u8>, c: Seq<u8>| !framed(n, c, bytes@) by {
                if framed(n, c, bytes@) {
                    lemma_framed_fields(n, c, bytes@);
                }
            }
        }
        return None;
    }
    let mut i: usize = 10;
    let mut nonce: Vec<u8> = Vec::new();
    while i < bytes.len() && bytes[i] != 34
        invariant
            10 <= i <= bytes@.len(),
            nonce@ == bytes@.subrange(10, i as int),
            b64url_text(nonce@),
            forall|k: int| 10 <= k < i ==> bytes@[k] != 34,
        decreases bytes@.len() - i,
    {
        let b = bytes[i];
        if !b64url_byte_ok(b) {
            proof {
                assert forall|n: Seq<u8>, c: Seq<u8>| !framed(n, c, bytes@) by {
                    if framed(n, c, bytes@) {
                        lemma_framed_fields(n, c, bytes@);
                    }
                }
            }
            return None;
        }
        nonce.push(b);
        i = i + 1;
        proof {
            assert(nonce@ =~= bytes@.subrange(10, i as int));
        }
    }
    if i >= bytes.len() {
        proof {
            assert forall|n: Seq<u8>, c: Seq<u8>| !framed(n, c, bytes@) by {
                if framed(n, c, bytes@) {
                    lemma_framed_fields(n, c, bytes@);
                }
            }
        }
        return None;
    }
    if bytes.len() - i < 16 {
        proof {
            assert forall|n: Seq<u8>, c: Seq<u8>| !framed(n, c, bytes@) by {
                if framed(n, c, bytes@) {
                    lemma_framed_fields(n, c, bytes@);
                    assert(i == 10 + n.len());
                }
            }
        }
        return None;
    }
    if !(bytes[i + 1] == 44 && bytes[i + 2] == 34 && bytes[i + 3] == 99
        && bytes[i + 4] == 105 && bytes[i + 5] == 112 && bytes[i + 6] == 104
        && bytes[i + 7] == 101 && bytes[i + 8] == 114 && bytes[i + 9] == 116
        && bytes[i + 10] == 101 && bytes[i + 11] == 120 && bytes[i + 12] == 116
        && bytes[i + 13] == 34 && bytes[i + 14] == 58 && bytes[i + 15] == 34)
    {
        proof {
            assert forall|n: Seq<u8>, c: Seq<u8>| !framed(n, c, bytes@) by {
                if framed(n, c, bytes@) {
                    lemma_framed_fields(n, c, bytes@);
                    assert(i == 10 + n.len());
                }
            }
        }
        return None;
    }
    let start: usize = i + 16;
    let mut j: usize = start;
    let mut ciphertext: Vec<u8> = Vec::new();
    while j < bytes.len() && bytes[j] != 34
        invariant
            start <= j <= bytes@.len(),
            ciphertext@ == bytes@.subrange(start as int, j as int),
            b64url_text(ciphertext@),
            forall|k: int| start <= k < j ==> bytes@[k] != 34,
            10 <= i < bytes@.len(),
            bytes@[i as int] == 34,
            forall|k: int| 10 <= k < i ==> bytes@[k] != 34,
            start == i + 16,
        decreases bytes@.len() - j,
    {
        let b = bytes[j];
        if !b64url_byte_ok(b) {
            proof {
                assert forall|n: Seq<u8>, c: Seq<u8>| !framed(n, c, bytes@) by {
                    if framed(n, c, bytes@) {
                        lemma_framed_fields(n, c, bytes@);
                        assert(i == 10 + n.len());
                    }
                }
            }
            return None;
        }
        ciphertext.push(b);
        j = j + 1;
        proof {
            assert(ciphertext@ =~= bytes@.subrange(start as int, j as int));
        }
    }
    if j >= bytes.len() {
        proof {
            assert forall|n: Seq<u8>, c: Seq<u8>| !framed(n, c, bytes@) by {
                if framed(n, c, bytes@) {
                    lemma_framed_fields(n, c, bytes@);
                    assert(i == 10 + n.len());
                }
            }
        }
        return None;
    }
    if !(bytes.len() - j == 2 && bytes[j + 1] == 125) {
        proof {
            assert forall|n: Seq<u8>, c: Seq<u8>| !framed(n, c, bytes@) by {
                if framed(n, c, bytes@) {
                    lemma_framed_fields(n, c, bytes@);
                    assert(i == 10 + n.len());
                    assert(j == 26 + n.len() + c.len());
                }
            }
        }
        return None;
    }
    let result = StoredBlob { nonce, ciphertext };
    proof {
        lemma_frame_shape(result.nonce@, result.ciphertext@);
        assert(bytes@ =~= spec_frame(result.nonce@, result.ciphertext@));
        assert(framed(result.nonce@, result.ciphertext@, bytes@));
        assert forall|n: Seq<u8>, c: Seq<u8>| #[trigger] framed(n, c, bytes@)
            implies result.nonce@ == n && result.ciphertext@ == c by {
            lemma_frame_fields_unique(n, c, result.nonce@, result.ciphertext@, bytes@);
        }
    }
    Some(result)
}

/// The filesystem-safe file name for a logical key: the unpadded URL-safe
/// base64 text of the key's UTF-8 bytes, so arbitrary logical keys —
/// including ones holding path separators — cannot escape the store root or
/// collide with control characters, and the mapping stays reversible.
pub fn file_name_for_key(key: &str) -> (r: Vec<u8>)
    ensures
        r@ == b64url_of(encode_utf8(key@)),
        b64url_text(r@),
{
    b64url_encode(key.as_bytes())
}

/// `file` is the serialized record of plaintext `p` sealed under `key` with
/// the 12-byte nonce `n`; only plaintexts within the cipher's message bound
/// can be sealed.
pub open spec fn sealed_record_wf(key: Seq<u8>, n: Seq<u8>, p: Seq<u8>, file: Seq<u8>) -> bool {
    &&& n.len() == 12
    &&& p.len() <= MAX_PLAINTEXT_LEN
    &&& framed(b64url_of(n), b64url_of(aead_seal(key, n, p)), file)
}

/// `file` records `p` sealed under `key` with some 12-byte nonce.
pub open spec fn record_opens_to(key: Seq<u8>, file: Seq<u8>, p: Seq<u8>) -> bool {
    exists|n: Seq<u8>| #[trigger] sealed_record_wf(key, n, p, file)
}

/// `file` records `p` sealed under `key` with some 12-byte nonce, the
/// ciphertext 16 tag bytes longer than the plaintext.
pub open spec fn record_seals(key: Seq<u8>, file: Seq<u8>, p: Seq<u8>) -> bool {
    exists|n: Seq<u8>| #[trigger] sealed_record_wf(key, n, p, file)
        && aead_seal(key, n, p).len() == p.len() + 16
}

/// Encrypt and serialize: the returned bytes are the record of `value`
/// sealed under `key` with a nonce drawn fresh for this call.
pub fn seal_record(key: &KeyMaterial, value: &[u8]) -> (r: Result<Vec<u8>, SecureStoreError>)
    requires
        key.wf(),
    ensures
        r matches Ok(file) ==> record_seals(key.bytes@, file@, value@)
            && record_opens_to(key.bytes@, file@, value@),
        value@.len() > MAX_PLAINTEXT_LEN ==> r is Err,
{
    let blob = match encrypt_blob(key, value) {
        Ok(b) => b,
        Err(e) => {
            return Err(e);
        },
    };
    let file = frame_blob(&blob);
    proof {
        let n = choose|n: Seq<u8>|
            #[trigger] blob_seals(key.bytes@, n, value@, blob.nonce@, blob.ciphertext@)
            && aead_seal(key.bytes@, n, value@).len() == value@.len() + 16;
        assert(sealed_record_wf(key.bytes@, n, value@, file@));
        assert(record_seals(key.bytes@, file@, value@));
        assert(record_opens_to(key.bytes@, file@, value@));
    }
    Ok(file)
}

/// Deserialize and decrypt: whenever `bytes` is the record of some plaintext
/// sealed under `key`, exactly that plaintext comes back; everything else —
/// malformed framing, tampered fields, a wrong key — is a typed `Storage`
/// error.
pub fn open_record(key: &KeyMaterial, bytes: &[u8]) -> (r: Result<Vec<u8>, SecureStoreError>)
    requires
        key.wf(),
    ensures
        forall|n: Seq<u8>, p: Seq<u8>| #[trigger] sealed_record_wf(key.bytes@, n, p, bytes@)
            ==> (r matches Ok(v) && v@ == p),
        r matches Ok(v) ==> record_opens_to(key.bytes@, bytes@, v@),
        r matches Err(e) ==> e matches SecureStoreError::Storage { .. },
{
    let blob = match parse_blob(bytes) {
        Some(b) => b,
        None => {
            proof {
                assert forall|n: Seq<u8>, p: Seq<u8>|
                    !sealed_record_wf(key.bytes@, n, p, bytes@) by {
                    if sealed_record_wf(key.bytes@, n, p, bytes@) {
                        assert(framed(b64url_of(n), b64url_of(aead_seal(key.bytes@, n, p)), bytes@));
                    }
                }
            }
            return Err(storage_err("stored record is not a valid blob"));
        },
    };
    let out = decrypt_blob(key, &blob);
    proof {
        assert forall|n: Seq<u8>, p: Seq<u8>|
            #[trigger] sealed_record_wf(key.bytes@, n, p, bytes@)
                implies (out matches Ok(v) && v@ == p) by {
            assert(framed(b64url_of(n), b64url_of(aead_seal(key.bytes@, n, p)), bytes@));
            assert(blob.nonce@ == b64url_of(n));
            assert(blob.ciphertext@ == b64url_of(aead_seal(key.bytes@, n, p)));
            assert(blob_seals(key.bytes@, n, p, blob.nonce@, blob.ciphertext@));
        }
    }
    match out {
        Ok(v) => {
            proof {
                let n = choose|n: Seq<u8>|
                    #[trigger] blob_seals(key.bytes@, n, v@, blob.nonce@, blob.ciphertext@);
                assert(sealed_record_wf(key.bytes@, n, v@, bytes@));
                assert(record_opens_to(key.bytes@, bytes@, v@));
            }
            Ok(v)
        },
        Err(e) => Err(e),
    }
}

} // verus!
