use vstd::prelude::*;

use block_modes::BlockMode;

use crate::error::VaultError;

verus! {

// ---------------------------------------------------------------------------
// Key derivation
// ---------------------------------------------------------------------------

/// The 48 bytes that PBKDF2-HMAC-SHA256 derives from a password, a salt and
/// a round count (32 key bytes followed by 16 IV bytes).
pub uninterp spec fn pbkdf2_sha256_of(password: Seq<u8>, salt: Seq<u8>, rounds: u32) -> Seq<u8>;

/// Relies on pbkdf2::pbkdf2_hmac with sha2::Sha256: it fills the whole output
/// buffer (48 bytes here) with a value that is a deterministic function of the
/// password, the salt and the round count alone.
#[verifier::external_body]
fn pbkdf2_sha256(password: &[u8], salt: &[u8], rounds: u32) -> (r: Vec<u8>)
    ensures
        r@ == pbkdf2_sha256_of(password@, salt@, rounds),
        r@.len() == 48,
{
    let mut out = [0u8; 48];
    pbkdf2::pbkdf2_hmac::<sha2::Sha256>(password, salt, rounds, &mut out);
    out.to_vec()
}

/// The fixed salt under which every vault password is stretched.  It is a
/// constant of the format: the same password must always derive the same key,
/// which is what makes the stored verification token checkable.
pub open spec fn fixed_salt_spec() -> Seq<u8> {
    seq![
        17u8, 128u8, 16u8, 104u8, 193u8, 198u8, 63u8, 155u8, 239u8, 14u8, 180u8, 237u8, 137u8,
        144u8, 175u8, 49u8, 118u8, 108u8, 13u8, 147u8, 174u8, 122u8, 195u8, 174u8, 176u8, 103u8,
        104u8, 156u8, 151u8, 114u8, 101u8, 106u8,
    ]
}

fn fixed_salt() -> (r: Vec<u8>)
    ensures
        r@ == fixed_salt_spec(),
{
    let r: Vec<u8> = vec![
        17u8, 128u8, 16u8, 104u8, 193u8, 198u8, 63u8, 155u8, 239u8, 14u8, 180u8, 237u8, 137u8,
        144u8, 175u8, 49u8, 118u8, 108u8, 13u8, 147u8, 174u8, 122u8, 195u8, 174u8, 176u8, 103u8,
        104u8, 156u8, 151u8, 114u8, 101u8, 106u8,
    ];
    assert(r@ =~= fixed_salt_spec());
    r
}

/// The 48 derived bytes for a password under the vault's fixed salt and
/// 100 000 rounds.
pub open spec fn derived_of(password: Seq<char>) -> Seq<u8> {
    pbkdf2_sha256_of(vstd::utf8::encode_utf8(password), fixed_salt_spec(), 100000u32)
}

/// The AES-256 key derived from a password: the first 32 derived bytes.
pub open spec fn key_of(password: Seq<char>) -> Seq<u8> {
    derived_of(password).take(32)
}

/// The CBC IV derived from a password: the last 16 derived bytes.
pub open spec fn iv_of(password: Seq<char>) -> Seq<u8> {
    derived_of(password).skip(32)
}

/// Stretches a password into the vault's key and IV.  Deterministic: the same
/// password always yields the same pair, so a stored token encrypted under it
/// can later prove that a supplied password is the same one.
pub fn derive_key_and_iv(password: &str) -> (r: (Vec<u8>, Vec<u8>))
    ensures
        r.0@ == key_of(password@),
        r.1@ == iv_of(password@),
        r.0@.len() == 32,
        r.1@.len() == 16,
{
    let salt = fixed_salt();
    let derived = pbkdf2_sha256(password.as_bytes(), salt.as_slice(), 100000);
    let mut key: Vec<u8> = Vec::new();
    let mut iv: Vec<u8> = Vec::new();
    let mut i: usize = 0;
    while i < 32
        invariant
            derived@ == derived_of(password@),
            derived@.len() == 48,
            i <= 32,
            key@ =~= derived@.take(i as int),
        decreases 32 - i,
    {
        key.push(derived[i]);
        i = i + 1;
    }
    while i < 48
        invariant
            derived@ == derived_of(password@),
            derived@.len() == 48,
            32 <= i <= 48,
            iv@ =~= derived@.subrange(32, i as int),
        decreases 48 - i,
    {
        iv.push(derived[i]);
        i = i + 1;
    }
    assert(key@ =~= key_of(password@));
    assert(iv@ =~= iv_of(password@));
    (key, iv)
}

// ---------------------------------------------------------------------------
// AES-256-CBC with PKCS7 padding
// ---------------------------------------------------------------------------

/// The ciphertext that AES-256-CBC/PKCS7 produces for a key, an IV and a
/// plaintext.  Deterministic: the engine reuses one derived IV for every
/// message, a deliberate trade-off of the on-disk format.
pub uninterp spec fn aes_enc(key: Seq<u8>, iv: Seq<u8>, plain: Seq<u8>) -> Seq<u8>;

/// What AES-256-CBC/PKCS7 decryption yields for a key, an IV and a
/// ciphertext: `None` when the input length or the padding is invalid.
pub uninterp spec fn aes_dec(key: Seq<u8>, iv: Seq<u8>, cipher: Seq<u8>) -> Option<Seq<u8>>;

/// Relies on block_modes' `Cbc<Aes256, Pkcs7>::encrypt_vec`: it pads the
/// plaintext to the next 16-byte boundary (a whole extra block when already
/// aligned) and encrypts it deterministically; `decrypt_vec` under the same
/// key and IV inverts it exactly.
#[verifier::external_body]
fn aes_encrypt(key: &[u8], iv: &[u8], plain: &[u8]) -> (c: Vec<u8>)
    requires
        key@.len() == 32,
        iv@.len() == 16,
    ensures
        c@ == aes_enc(key@, iv@, plain@),
        aes_dec(key@, iv@, c@) == Some(plain@),
        c@.len() == plain@.len() + (16 - plain@.len() as int % 16),
{
    let cipher = block_modes::Cbc::<aes::Aes256, block_modes::block_padding::Pkcs7>::
        new_from_slices(key, iv).unwrap();
    cipher.encrypt_vec(plain)
}

/// Relies on block_modes' `Cbc<Aes256, Pkcs7>::decrypt_vec`: it fails exactly
/// when the ciphertext length is not a multiple of 16 or the decrypted tail
/// is not valid PKCS7 padding, and otherwise returns the unpadded plaintext.
#[verifier::external_body]
fn aes_decrypt(key: &[u8], iv: &[u8], cipher_bytes: &[u8]) -> (r: Result<Vec<u8>, VaultError>)
    requires
        key@.len() == 32,
        iv@.len() == 16,
    ensures
        match r {
            Ok(p) => aes_dec(key@, iv@, cipher_bytes@) == Some(p@),
            Err(e) => aes_dec(key@, iv@, cipher_bytes@) is None && e is Error,
        },
{
    let cipher = block_modes::Cbc::<aes::Aes256, block_modes::block_padding::Pkcs7>::
        new_from_slices(key, iv).unwrap();
    match cipher.decrypt_vec(cipher_bytes) {
        Ok(p) => Ok(p),
        Err(_) => Err(VaultError::Error(
            "Decryption failed. The password may be incorrect or the data is corrupt.".to_string(),
        )),
    }
}

/// Relies on zeroize::Zeroize for `Vec<u8>`: it overwrites every byte held by
/// the vector with zeros and then clears it, in a way the compiler will not
/// optimise away.
#[verifier::external_body]
fn zeroize_bytes(buf: &mut Vec<u8>)
    ensures
        final(buf)@.len() == 0,
{
    zeroize::Zeroize::zeroize(buf);
}

// ---------------------------------------------------------------------------
// The session key manager
// ---------------------------------------------------------------------------

/// The derived key material for one unlocked session.
struct CryptoParams {
    key: Vec<u8>,
    iv: Vec<u8>,
}

/// Holds the single active key/IV pair of a vault session: an explicit
/// object that the caller owns and passes to every operation needing
/// crypto, so "one active key per session" holds without hidden global
/// state.
pub struct KeyManager {
    params: Option<CryptoParams>,
}

impl KeyManager {
    #[verifier::type_invariant]
    spec fn wf(&self) -> bool {
        match self.params {
            Some(p) => p.key@.len() == 32 && p.iv@.len() == 16,
            None => true,
        }
    }

    /// The key and IV of the installed parameters, if any.
    pub closed spec fn active(&self) -> Option<(Seq<u8>, Seq<u8>)> {
        match self.params {
            Some(p) => Some((p.key@, p.iv@)),
            None => None,
        }
    }

    /// True once a password has been installed for this session.
    pub open spec fn is_unlocked(&self) -> bool {
        self.active() is Some
    }

    /// A fresh session with no key installed: encrypt and decrypt fail until
    /// a password is set.
    pub fn new() -> (r: KeyManager)
        ensures
            r.active() is None,
    {
        KeyManager { params: None }
    }
}

/// Whether a session holds exactly the parameters derived from `password`.
pub open spec fn unlocked_with(km: &KeyManager, password: Seq<char>) -> bool {
    km.active() == Some((key_of(password), iv_of(password)))
}

/// Derives key material from `password` and installs it as the session's
/// active parameters, overwriting (and zeroizing) any previous ones.
pub fn set_crypto_params(km: &mut KeyManager, password: &str) -> (r: Result<bool, VaultError>)
    ensures
        unlocked_with(final(km), password@),
        r is Ok && r->Ok_0 == true,
{
    let mut prev: Option<CryptoParams> = None;
    core::mem::swap(&mut km.params, &mut prev);
    match prev {
        Some(mut p) => {
            zeroize_bytes(&mut p.key);
            zeroize_bytes(&mut p.iv);
        },
        None => {},
    }
    let (key, iv) = derive_key_and_iv(password);
    km.params = Some(CryptoParams { key, iv });
    Ok(true)
}

/// A copy of the installed key and IV, or `None` when the session is locked.
pub fn get_crypto_params(km: &KeyManager) -> (r: Option<(Vec<u8>, Vec<u8>)>)
    ensures
        match r {
            Some(kv) => km.active() == Some((kv.0@, kv.1@)),
            None => km.active() is None,
        },
{
    proof {
        use_type_invariant(km);
    }
    match &km.params {
        Some(p) => Some((clone_bytes(&p.key), clone_bytes(&p.iv))),
        None => None,
    }
}

/// Relies on `Vec::clone` for `Vec<u8>`: the clone holds the same bytes.
#[verifier::external_body]
fn clone_bytes(v: &Vec<u8>) -> (r: Vec<u8>)
    ensures
        r@ == v@,
{
    v.clone()
}

/// What `encrypt_data` stores for a plaintext under an unlocked session.
pub open spec fn session_enc(km: &KeyManager, plain: Seq<u8>) -> Seq<u8>
    recommends
        km.is_unlocked(),
{
    match km.active() {
        Some(kv) => aes_enc(kv.0, kv.1, plain),
        None => Seq::empty(),
    }
}

/// What `decrypt_data` recovers from a ciphertext under an unlocked session.
pub open spec fn session_dec(km: &KeyManager, cipher: Seq<u8>) -> Option<Seq<u8>>
    recommends
        km.is_unlocked(),
{
    match km.active() {
        Some(kv) => aes_dec(kv.0, kv.1, cipher),
        None => None,
    }
}

/// Encrypts `data` under the session's active parameters; fails with a
/// distinct "no key" condition when none are installed.
pub fn encrypt_data(km: &KeyManager, data: &[u8]) -> (r: Result<Vec<u8>, VaultError>)
    ensures
        km.is_unlocked() ==> (r matches Ok(c) && c@ == session_enc(km, data@)
            && session_dec(km, c@) == Some(data@)
            && c@.len() == data@.len() + (16 - data@.len() as int % 16)),
        !km.is_unlocked() ==> (r matches Err(e) && e is Error),
{
    proof {
        use_type_invariant(km);
    }
    match &km.params {
        Some(p) => Ok(aes_encrypt(p.key.as_slice(), p.iv.as_slice(), data)),
        None => Err(VaultError::Error("Could not get key (empty or none)".to_string())),
    }
}

/// Decrypts `data` under the session's active parameters; fails with a
/// distinct "no key" condition when none are installed, and with a crypto
/// failure when the ciphertext or its padding is invalid.
pub fn decrypt_data(km: &KeyManager, data: &[u8]) -> (r: Result<Vec<u8>, VaultError>)
    ensures
        km.is_unlocked() ==> (match r {
            Ok(p) => session_dec(km, data@) == Some(p@),
            Err(e) => session_dec(km, data@) is None && e is Error,
        }),
        !km.is_unlocked() ==> (r matches Err(e) && e is Error),
{
    proof {
        use_type_invariant(km);
    }
    match &km.params {
        Some(p) => aes_decrypt(p.key.as_slice(), p.iv.as_slice(), data),
        None => Err(VaultError::Error("Could not get key (empty or none)".to_string())),
    }
}

/// Encrypts `data` under parameters derived on demand from `password`,
/// without touching any session's installed key.
pub fn password_encrypt(password: &str, data: &[u8]) -> (c: Vec<u8>)
    ensures
        c@ == aes_enc(key_of(password@), iv_of(password@), data@),
        aes_dec(key_of(password@), iv_of(password@), c@) == Some(data@),
{
    let (key, iv) = derive_key_and_iv(password);
    aes_encrypt(key.as_slice(), iv.as_slice(), data)
}

// ---------------------------------------------------------------------------
// Standalone decryption under a supplied password
// ---------------------------------------------------------------------------

/// Decrypts with parameters derived on demand from one password, without
/// touching a session's installed key: verifying or restoring an archive
/// never disturbs the currently unlocked vault.
pub struct PasswordDecrypter {
    key: Vec<u8>,
    iv: Vec<u8>,
}

impl PasswordDecrypter {
    #[verifier::type_invariant]
    spec fn wf(&self) -> bool {
        self.key@.len() == 32 && self.iv@.len() == 16
    }

    /// The password this decrypter was derived from, up to key equality.
    pub closed spec fn holds_key_of(&self, password: Seq<char>) -> bool {
        self.key@ == key_of(password) && self.iv@ == iv_of(password)
    }

    pub fn new(password: &str) -> (r: PasswordDecrypter)
        ensures
            r.holds_key_of(password@),
    {
        let (key, iv) = derive_key_and_iv(password);
        PasswordDecrypter { key, iv }
    }

    /// Decrypts `encrypted_data` under this decrypter's derived parameters.
    pub fn decrypt(&self, encrypted_data: &[u8]) -> (r: Result<Vec<u8>, VaultError>)
        ensures
            forall|password: Seq<char>|
                self.holds_key_of(password) ==> (match r {
                    Ok(p) => aes_dec(key_of(password), iv_of(password), encrypted_data@)
                        == Some(p@),
                    Err(e) => aes_dec(key_of(password), iv_of(password), encrypted_data@) is None
                        && e is Error,
                }),
    {
        proof {
            use_type_invariant(self);
        }
        aes_decrypt(self.key.as_slice(), self.iv.as_slice(), encrypted_data)
    }
}

} // verus!
