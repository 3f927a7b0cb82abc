use vstd::prelude::*;

use crate::crypto::{
    aes_dec, aes_enc, encrypt_data, iv_of, key_of, set_crypto_params, unlocked_with, KeyManager,
};
use crate::error::VaultError;
use crate::paths::{join, join_spec};
use crate::vault::Vault;

verus! {

/// The fixed plaintext whose encryption is stored as the verification
/// token: decrypting the token back to this constant proves a password.
pub open spec fn verification_data_spec() -> Seq<u8> {
    vstd::utf8::encode_utf8("vault_password_is_correct"@)
}

/// The verification constant as bytes.
pub fn verification_data() -> (r: Vec<u8>)
    ensures
        r@ == verification_data_spec(),
{
    "vault_password_is_correct".as_bytes_vec()
}

/// The path of the token file at a vault or archive root.
pub open spec fn token_path(dir: Seq<char>) -> Seq<char> {
    join_spec(dir, ".vault-key"@)
}

/// The token bytes that `save_validation_data` stores for a password.
pub open spec fn token_for(password: Seq<char>) -> Seq<u8> {
    aes_enc(key_of(password), iv_of(password), verification_data_spec())
}

/// Whether stored token bytes accept a password: decrypting them under the
/// password's derived parameters yields the verification constant.
pub open spec fn token_accepts(token: Seq<u8>, password: Seq<char>) -> bool {
    aes_dec(key_of(password), iv_of(password), token) == Some(verification_data_spec())
}

/// Whether a token file exists at `dir`: a password has been set there.
pub fn check_validation_data_exists(vault: &Vault, dir: &str) -> (r: bool)
    ensures
        r == vault.file_at(token_path(dir@)) is Some,
{
    let p = join(dir, ".vault-key");
    match vault.file_get(&p) {
        Some(_) => true,
        None => false,
    }
}

/// Derives and installs the key for `password`, encrypts the verification
/// constant under it and stores the result as `dir`'s token file.
pub fn save_validation_data(vault: &mut Vault, km: &mut KeyManager, dir: &str, password: &str)
    -> (r: Result<(), VaultError>)
    ensures
        r is Ok,
        unlocked_with(final(km), password@),
        forall|q: Seq<char>|
            #[trigger] final(vault).file_at(q) == (if q == token_path(dir@) {
                Some(token_for(password@))
            } else {
                old(vault).file_at(q)
            }),
        forall|d: Seq<char>| #[trigger] final(vault).has_dir(d) == old(vault).has_dir(d),
        token_accepts(token_for(password@), password@),
{
    let p = join(dir, ".vault-key");
    set_crypto_params(km, password)?;
    let data = verification_data();
    match encrypt_data(km, data.as_slice()) {
        Ok(token) => {
            vault.file_set(p, token);
            Ok(())
        },
        Err(e) => Err(e),
    }
}

/// Reads `dir`'s token file, installs the key derived from `password`, and
/// reports whether the token decrypts back to the verification constant.
/// A missing token file is an error distinct from a wrong password; a token
/// that fails to decrypt is a wrong password, not an error.
pub fn check_password(vault: &Vault, km: &mut KeyManager, password: &str, dir: &str) -> (r:
    Result<bool, VaultError>)
    ensures
        match r {
            Ok(b) => vault.file_at(token_path(dir@)) is Some && unlocked_with(
                final(km),
                password@,
            ) && b == token_accepts(vault.file_at(token_path(dir@))->0, password@),
            Err(e) => vault.file_at(token_path(dir@)) is None && e is Error && *final(km)
                == *old(km),
        },
{
    let p = join(dir, ".vault-key");
    let token = match vault.file_get(&p) {
        Some(t) => t,
        None => {
            return Err(VaultError::Error("Failed to read vault file".to_string()));
        },
    };
    set_crypto_params(km, password)?;
    match crate::crypto::decrypt_data(km, token.as_slice()) {
        Ok(plain) => {
            let expected = verification_data();
            Ok(compare_bytes(&plain, &expected))
        },
        Err(_) => Ok(false),
    }
}

/// Byte-for-byte equality of two buffers.
pub(crate) fn compare_bytes(a: &Vec<u8>, b: &Vec<u8>) -> (r: bool)
    ensures
        r == (a@ == b@),
{
    let n = a.len();
    if n != b.len() {
        proof {
            if a@ == b@ {
                assert(a@.len() == b@.len());
            }
        }
        return false;
    }
    let mut i: usize = 0;
    while i < n
        invariant
            0 <= i <= n,
            n == a@.len(),
            n == b@.len(),
            forall|j: int| 0 <= j < i ==> a@[j] == b@[j],
        decreases n - i,
    {
        if a[i] != b[i] {
            proof {
                if a@ == b@ {
                    assert(a@[i as int] == b@[i as int]);
                }
            }
            return false;
        }
        i = i + 1;
    }
    proof {
        assert(a@ =~= b@);
    }
    true
}

// ---------------------------------------------------------------------------
// The password API of the vault
// ---------------------------------------------------------------------------

/// Verifies `password` against `dir`'s stored token and, when the token
/// file is present, leaves the derived key installed for the session.
pub fn set_password(vault: &Vault, km: &mut KeyManager, password: &str, dir: &str) -> (r: Result<
    bool,
    VaultError,
>)
    ensures
        match r {
            Ok(b) => vault.file_at(token_path(dir@)) is Some && unlocked_with(
                final(km),
                password@,
            ) && b == token_accepts(vault.file_at(token_path(dir@))->0, password@),
            Err(e) => vault.file_at(token_path(dir@)) is None && e is Error && *final(km)
                == *old(km),
        },
{
    check_password(vault, km, password, dir)
}

/// Sets `password` for the vault at `dir`: installs its key and writes the
/// verification token.
pub fn save_password(vault: &mut Vault, km: &mut KeyManager, password: &str, dir: &str) -> (r:
    Result<(), VaultError>)
    ensures
        r is Ok,
        unlocked_with(final(km), password@),
        forall|q: Seq<char>|
            #[trigger] final(vault).file_at(q) == (if q == token_path(dir@) {
                Some(token_for(password@))
            } else {
                old(vault).file_at(q)
            }),
        forall|d: Seq<char>| #[trigger] final(vault).has_dir(d) == old(vault).has_dir(d),
        token_accepts(token_for(password@), password@),
{
    save_validation_data(vault, km, dir, password)
}

/// Whether a password has been set for the vault at `dir`.
pub fn check_password_exist(vault: &Vault, dir: &str) -> (r: bool)
    ensures
        r == vault.file_at(token_path(dir@)) is Some,
{
    check_validation_data_exists(vault, dir)
}

} // verus!
