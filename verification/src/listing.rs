use vstd::prelude::*;

use crate::crypto::{decrypt_data, session_dec, KeyManager};
use crate::error::VaultError;
use crate::paths::{in_dir, join, join_spec, lex_lt, name_of, str_lex_lt};
use crate::vault::{hash_sidecar, Vault};

verus! {

// ---------------------------------------------------------------------------
// Parsing the decrypted hash entry: "<hash> <int>.<dd>"
// ---------------------------------------------------------------------------

/// The index of the first space byte, or the whole length when none occurs.
pub open spec fn first_space(b: Seq<u8>) -> int
    decreases b.len(),
{
    if b.len() == 0 {
        0
    } else if b[0] == 32u8 {
        0
    } else {
        1 + first_space(b.drop_first())
    }
}

proof fn lemma_first_space_scan(b: Seq<u8>, i: int)
    requires
        0 <= i <= b.len(),
        forall|j: int| 0 <= j < i ==> b[j] != 32u8,
        i < b.len() ==> b[i] == 32u8,
    ensures
        first_space(b) == i,
    decreases b.len(),
{
    if b.len() == 0 {
    } else if i == 0 {
    } else {
        assert(b[0] != 32u8);
        assert forall|j: int| 0 <= j < i - 1 implies b.drop_first()[j] != 32u8 by {
            assert(b.drop_first()[j] == b[j + 1]);
        }
        if i - 1 < b.drop_first().len() {
            assert(b.drop_first()[i - 1] == b[i]);
        }
        lemma_first_space_scan(b.drop_first(), i - 1);
    }
}

/// One or more ASCII decimal digits.
pub open spec fn is_digit_bytes(b: Seq<u8>) -> bool {
    b.len() > 0 && forall|i: int| 0 <= i < b.len() ==> 48 <= #[trigger] b[i] <= 57
}

/// The value of a string of decimal digit bytes.
pub open spec fn dec_val(b: Seq<u8>) -> int
    decreases b.len(),
{
    if b.len() == 0 {
        0
    } else {
        dec_val(b.drop_last()) * 10 + (b.last() - 48)
    }
}

spec fn pow10(n: int) -> int
    decreases n,
{
    if n <= 0 {
        1
    } else {
        10 * pow10(n - 1)
    }
}

proof fn lemma_pow10_mono(a: int, b: int)
    requires
        0 <= a <= b,
    ensures
        pow10(a) <= pow10(b),
        pow10(a) >= 1,
    decreases b,
{
    if b > 0 {
        if a == b {
            lemma_pow10_mono(a - 1, b - 1);
        } else {
            lemma_pow10_mono(a, b - 1);
        }
    }
}

proof fn lemma_dec_val_bound(b: Seq<u8>)
    requires
        forall|i: int| 0 <= i < b.len() ==> 48 <= #[trigger] b[i] <= 57,
    ensures
        0 <= dec_val(b) < pow10(b.len() as int),
    decreases b.len(),
{
    if b.len() > 0 {
        assert forall|i: int| 0 <= i < b.drop_last().len() implies 48 <= #[trigger] b.drop_last()[i]
            <= 57 by {
            assert(b.drop_last()[i] == b[i]);
        }
        lemma_dec_val_bound(b.drop_last());
    }
}

/// A two-decimal ratio text: up to nine integer digits, a dot, two decimal
/// digits.  Longer integer parts are treated as corruption, far beyond any
/// real aspect ratio.  The value is the ratio in hundredths.
pub open spec fn parse_ratio(b: Seq<u8>) -> Option<int> {
    if b.len() >= 4 && b.len() <= 12 && b[b.len() - 3] == 46u8 && is_digit_bytes(
        b.take(b.len() - 3),
    ) && 48 <= b[b.len() - 2] <= 57 && 48 <= b[b.len() - 1] <= 57 {
        Some(
            dec_val(b.take(b.len() - 3)) * 100 + (b[b.len() - 2] - 48) * 10 + (b[b.len() - 1]
                - 48),
        )
    } else {
        None
    }
}

/// A hash entry: the hash bytes before the first space, then a ratio text.
pub open spec fn parse_entry(b: Seq<u8>) -> Option<(Seq<u8>, int)> {
    let i = first_space(b);
    if i < b.len() && parse_ratio(b.skip(i + 1)) is Some {
        Some((b.take(i), parse_ratio(b.skip(i + 1))->0))
    } else {
        None
    }
}

/// Splits a decrypted hash entry into its hash bytes and its ratio in
/// hundredths; `None` on anything malformed.
fn parse_entry_exec(b: &Vec<u8>) -> (r: Option<(Vec<u8>, u64)>)
    ensures
        match r {
            Some(pr) => parse_entry(b@) == Some((pr.0@, pr.1 as int)),
            None => parse_entry(b@) is None,
        },
{
    let n = b.len();
    let mut i: usize = 0;
    while i < n
        invariant
            0 <= i <= n,
            n == b@.len(),
            forall|j: int| 0 <= j < i ==> b@[j] != 32u8,
        ensures
            0 <= i <= n,
            n == b@.len(),
            forall|j: int| 0 <= j < i ==> b@[j] != 32u8,
            i < n ==> b@[i as int] == 32u8,
        decreases n - i,
    {
        if b[i] == 32 {
            break;
        }
        i = i + 1;
    }
    proof {
        lemma_first_space_scan(b@, i as int);
    }
    if i >= n {
        return None;
    }
    let ghost rb = b@.skip(i as int + 1);
    let rlen = n - i - 1;
    if rlen < 4 || rlen > 12 {
        return None;
    }
    proof {
        assert forall|k: int| 0 <= k < rb.len() implies rb[k] == b@[i + 1 + k] by {}
    }
    if b[n - 3] != 46 {
        assert(rb[rb.len() - 3] == b@[n - 3]);
        return None;
    }
    if b[n - 2] < 48 || b[n - 2] > 57 || b[n - 1] < 48 || b[n - 1] > 57 {
        assert(rb[rb.len() - 2] == b@[n - 2]);
        assert(rb[rb.len() - 1] == b@[n - 1]);
        return None;
    }
    let ghost ip = rb.take(rb.len() - 3);
    let mut acc: u64 = 0;
    let mut j: usize = i + 1;
    while j < n - 3
        invariant
            i + 1 <= j <= n - 3,
            n == b@.len(),
            first_space(b@) == i as int,
            n - 3 - i - 1 <= 9,
            n >= i + 5,
            rb == b@.skip(i as int + 1),
            ip == rb.take(rb.len() - 3),
            ip.len() == n - 3 - i - 1,
            forall|k: int| i + 1 <= k < j ==> 48 <= #[trigger] b@[k] <= 57,
            acc == dec_val(ip.take(j - i - 1)),
            acc < pow10(j - i - 1),
        decreases n - j,
    {
        let d = b[j];
        if d < 48 || d > 57 {
            proof {
                assert(ip[j - i - 1] == b@[j as int]);
                assert(!is_digit_bytes(ip));
            }
            return None;
        }
        proof {
            lemma_pow10_mono(j - i - 1, 8);
            assert(pow10(0) == 1);
            assert(pow10(1) == 10);
            assert(pow10(2) == 100);
            assert(pow10(3) == 1000);
            assert(pow10(4) == 10000);
            assert(pow10(5) == 100000);
            assert(pow10(6) == 1000000);
            assert(pow10(7) == 10000000);
            assert(pow10(8) == 100000000);
            assert(ip.take(j - i - 1 + 1).drop_last() =~= ip.take(j - i - 1));
            assert(ip.take(j - i - 1 + 1).last() == b@[j as int]);
        }
        acc = acc * 10 + ((d - 48) as u64);
        j = j + 1;
    }
    proof {
        assert(ip.take(ip.len() as int) =~= ip);
        assert(is_digit_bytes(ip)) by {
            assert forall|k: int| 0 <= k < ip.len() implies 48 <= #[trigger] ip[k] <= 57 by {
                assert(ip[k] == b@[i + 1 + k]);
            }
        }
        assert(rb[rb.len() - 3] == b@[n - 3]);
        assert(rb[rb.len() - 2] == b@[n - 2]);
        assert(rb[rb.len() - 1] == b@[n - 1]);
    }
    proof {
        lemma_pow10_mono(ip.len() as int, 9);
        assert(pow10(0) == 1);
        assert(pow10(1) == 10);
        assert(pow10(2) == 100);
        assert(pow10(3) == 1000);
        assert(pow10(4) == 10000);
        assert(pow10(5) == 100000);
        assert(pow10(6) == 1000000);
        assert(pow10(7) == 10000000);
        assert(pow10(8) == 100000000);
        assert(pow10(9) == 1000000000);
    }
    let d1 = (b[n - 2] - 48) as u64;
    let d0 = (b[n - 1] - 48) as u64;
    let ratio: u64 = acc * 100 + d1 * 10 + d0;
    let mut hash_bytes: Vec<u8> = Vec::new();
    let mut k: usize = 0;
    while k < i
        invariant
            0 <= k <= i,
            i < n,
            n == b@.len(),
            hash_bytes@ =~= b@.take(i as int).take(k as int),
        decreases i - k,
    {
        hash_bytes.push(b[k]);
        k = k + 1;
    }
    proof {
        assert(hash_bytes@ =~= b@.take(i as int));
        assert(parse_ratio(rb) == Some(ratio as int));
    }
    Some((hash_bytes, ratio))
}

/// Relies on String::from_utf8: it succeeds exactly on valid UTF-8 and
/// returns the characters those bytes encode.
#[verifier::external_body]
fn bytes_to_string(b: Vec<u8>) -> (r: Option<String>)
    ensures
        match r {
            Some(s) => vstd::utf8::encode_utf8(s@) == b@,
            None => !vstd::utf8::valid_utf8(b@),
        },
{
    match String::from_utf8(b) {
        Ok(s) => Some(s),
        Err(_) => None,
    }
}

// ---------------------------------------------------------------------------
// Listing the cached entries of an album
// ---------------------------------------------------------------------------

/// Whether `p` is a file directly inside `dir` that has a hash sidecar.
pub open spec fn has_cached_entry(vault: &Vault, dir: Seq<char>, p: Seq<char>) -> bool {
    vault.file_at(p) is Some && in_dir(dir, p) && vault.file_at(hash_sidecar(p)) is Some
}

/// Whether `(hash, ratio)` is exactly what `p`'s sidecar decrypts and
/// parses to under the session key.
pub open spec fn entry_matches(
    vault: &Vault,
    km: &KeyManager,
    p: Seq<char>,
    hash: Seq<char>,
    ratio: u64,
) -> bool {
    match vault.file_at(hash_sidecar(p)) {
        Some(enc) => match session_dec(km, enc) {
            Some(content) => parse_entry(content) == Some(
                (vstd::utf8::encode_utf8(hash), ratio as int),
            ),
            None => false,
        },
        None => false,
    }
}

/// Whether `p`'s present sidecar cannot be decrypted, parsed, or read back
/// as text: the hard-error condition of a listing.
pub open spec fn entry_corrupt(vault: &Vault, km: &KeyManager, p: Seq<char>) -> bool {
    match vault.file_at(hash_sidecar(p)) {
        Some(enc) => match session_dec(km, enc) {
            Some(content) => match parse_entry(content) {
                Some(pr) => !vstd::utf8::valid_utf8(pr.0),
                None => true,
            },
            None => true,
        },
        None => false,
    }
}

/// Reads the hash entry of every cached file directly inside `dir`: each
/// listed name maps to the hash string and two-decimal aspect ratio (in
/// hundredths) that its sidecar decrypts to.  A file without a sidecar is
/// skipped; a sidecar that is present but does not decrypt or parse is a
/// hard error.
#[verifier::rlimit(100)]
pub fn get_images(vault: &Vault, km: &KeyManager, dir: &str) -> (r: Result<
    Vec<(String, (String, u64))>,
    VaultError,
>)
    ensures
        r is Ok ==> forall|a: int|
            #![trigger r->Ok_0@[a]]
            0 <= a < r->Ok_0@.len() ==> has_cached_entry(
                vault,
                dir@,
                join_spec(dir@, r->Ok_0@[a].0@),
            ) && entry_matches(
                vault,
                km,
                join_spec(dir@, r->Ok_0@[a].0@),
                r->Ok_0@[a].1.0@,
                r->Ok_0@[a].1.1,
            ),
        r is Ok ==> forall|p: Seq<char>|
            #[trigger] has_cached_entry(vault, dir@, p) ==> exists|a: int|
                0 <= a < r->Ok_0@.len() && r->Ok_0@[a].0@ == name_of(p),
        r is Ok ==> forall|a: int, b: int|
            0 <= a < b < r->Ok_0@.len() ==> r->Ok_0@[a].0@ != r->Ok_0@[b].0@,
        r is Err ==> r->Err_0 is Error && (exists|p: Seq<char>|
            #[trigger] has_cached_entry(vault, dir@, p) && entry_corrupt(vault, km, p)),
{
    let dir_s = dir.to_owned();
    vault.enumeration_facts();
    let mut entries: Vec<(String, (String, u64))> = Vec::new();
    let n = vault.file_count();
    let mut i: usize = 0;
    while i < n
        invariant
            0 <= i <= n,
            dir_s@ == dir@,
            n == vault.file_list().len(),
            forall|a: int|
                0 <= a < vault.file_list().len() ==> #[trigger] vault.file_at(
                    vault.file_list()[a],
                ) is Some,
            forall|a: int|
                #![trigger entries@[a]]
                0 <= a < entries@.len() ==> has_cached_entry(
                    vault,
                    dir@,
                    join_spec(dir@, entries@[a].0@),
                ) && entry_matches(
                    vault,
                    km,
                    join_spec(dir@, entries@[a].0@),
                    entries@[a].1.0@,
                    entries@[a].1.1,
                ),
            forall|a: int, b: int| 0 <= a < b < entries@.len() ==> entries@[a].0@ != entries@[b].0@,
            forall|j: int|
                0 <= j < i && has_cached_entry(vault, dir@, #[trigger] vault.file_list()[j])
                    ==> exists|a: int|
                    0 <= a < entries@.len() && entries@[a].0@ == name_of(vault.file_list()[j]),
        decreases n - i,
    {
        let p = vault.file_nth_path(i);
        match crate::vault::direct_child_name(&dir_s, p.as_str()) {
            Some(name) => {
                proof {
                    crate::paths::lemma_split_join(vault.file_list()[i as int]);
                }
                let hash_path = join(
                    join(dir_s.as_str(), ".hash").as_str(),
                    name.as_str(),
                );
                proof {
                    assert(hash_path@ == hash_sidecar(vault.file_list()[i as int]));
                }
                match vault.file_get(&hash_path) {
                    Some(enc) => {
                        let content = match decrypt_data(km, enc.as_slice()) {
                            Ok(c) => c,
                            Err(_) => {
                                proof {
                                    assert(has_cached_entry(
                                        vault,
                                        dir@,
                                        vault.file_list()[i as int],
                                    ) && entry_corrupt(vault, km, vault.file_list()[i as int]));
                                }
                                return Err(VaultError::Error(
                                    "Failed to decrypt hash entry".to_string(),
                                ));
                            },
                        };
                        let (hash_bytes, ratio) = match parse_entry_exec(&content) {
                            Some(pr) => pr,
                            None => {
                                proof {
                                    assert(has_cached_entry(
                                        vault,
                                        dir@,
                                        vault.file_list()[i as int],
                                    ) && entry_corrupt(vault, km, vault.file_list()[i as int]));
                                }
                                return Err(VaultError::Error(
                                    "Malformed hash entry".to_string(),
                                ));
                            },
                        };
                        let hash = match bytes_to_string(hash_bytes) {
                            Some(h) => h,
                            None => {
                                proof {
                                    assert(has_cached_entry(
                                        vault,
                                        dir@,
                                        vault.file_list()[i as int],
                                    ) && entry_corrupt(vault, km, vault.file_list()[i as int]));
                                }
                                return Err(VaultError::Error(
                                    "Malformed hash entry".to_string(),
                                ));
                            },
                        };
                        if !contains_first(&entries, &name) {
                            let ghost pre = entries@;
                            entries.push((name, (hash, ratio)));
                            proof {
                                assert forall|a: int|
                                    #![trigger entries@[a]]
                                    0 <= a < entries@.len() implies has_cached_entry(
                                    vault,
                                    dir@,
                                    join_spec(dir@, entries@[a].0@),
                                ) && entry_matches(
                                    vault,
                                    km,
                                    join_spec(dir@, entries@[a].0@),
                                    entries@[a].1.0@,
                                    entries@[a].1.1,
                                ) by {
                                    if a < pre.len() {
                                        assert(entries@[a] == pre[a]);
                                    } else {
                                        assert(join_spec(dir@, entries@[a].0@)
                                            == vault.file_list()[i as int]);
                                    }
                                }
                                assert forall|a: int, b: int|
                                    0 <= a < b < entries@.len() implies entries@[a].0@
                                    != entries@[b].0@ by {
                                    assert(entries@[a] == pre[a]);
                                    if b < entries@.len() - 1 {
                                        assert(entries@[b] == pre[b]);
                                    }
                                }
                                assert forall|j: int|
                                    0 <= j < i + 1 && has_cached_entry(
                                        vault,
                                        dir@,
                                        #[trigger] vault.file_list()[j],
                                    ) implies exists|a: int|
                                    0 <= a < entries@.len() && entries@[a].0@ == name_of(
                                        vault.file_list()[j],
                                    ) by {
                                    if j < i {
                                        let a = choose|a: int|
                                            0 <= a < pre.len() && pre[a].0@ == name_of(
                                                vault.file_list()[j],
                                            );
                                        assert(entries@[a] == pre[a]);
                                        assert(entries@[a].0@ == name_of(vault.file_list()[j]));
                                    } else {
                                        assert(entries@[entries@.len() - 1].0@ == name_of(
                                            vault.file_list()[j],
                                        ));
                                    }
                                }
                            }
                        } else {
                            proof {
                                assert forall|j: int|
                                    0 <= j < i + 1 && has_cached_entry(
                                        vault,
                                        dir@,
                                        #[trigger] vault.file_list()[j],
                                    ) implies exists|a: int|
                                    0 <= a < entries@.len() && entries@[a].0@ == name_of(
                                        vault.file_list()[j],
                                    ) by {
                                    if j == i {
                                        let a = choose|a: int|
                                            0 <= a < entries@.len() && entries@[a].0@ == name@;
                                        assert(entries@[a].0@ == name_of(
                                            vault.file_list()[j],
                                        ));
                                    }
                                }
                            }
                        }
                    },
                    None => {
                        proof {
                            assert(!has_cached_entry(vault, dir@, vault.file_list()[i as int]));
                        }
                    },
                }
            },
            None => {},
        }
        i = i + 1;
    }
    proof {
        assert forall|p: Seq<char>| #[trigger] has_cached_entry(vault, dir@, p) implies exists|
            a: int,
        |
            0 <= a < entries@.len() && entries@[a].0@ == name_of(p) by {
            let j = choose|j: int| 0 <= j < vault.file_list().len() && vault.file_list()[j] == p;
        }
    }
    let ghost gentries = entries@;
    let res: Result<Vec<(String, (String, u64))>, VaultError> = Ok(entries);
    proof {
        assert(res->Ok_0@ == gentries);
        assert forall|p: Seq<char>| #[trigger] has_cached_entry(vault, dir@, p) implies exists|
            a: int,
        |
            0 <= a < res->Ok_0@.len() && res->Ok_0@[a].0@ == name_of(p) by {
            let a = choose|a: int| 0 <= a < gentries.len() && gentries[a].0@ == name_of(p);
            assert(res->Ok_0@[a].0@ == name_of(p));
        }
    }
    res
}

/// Whether some listed entry already carries this name.
fn contains_first(v: &Vec<(String, (String, u64))>, s: &String) -> (r: bool)
    ensures
        r == (exists|a: int| 0 <= a < v@.len() && v@[a].0@ == s@),
{
    let n = v.len();
    let mut i: usize = 0;
    while i < n
        invariant
            0 <= i <= n,
            n == v@.len(),
            forall|a: int| 0 <= a < i ==> v@[a].0@ != s@,
        decreases n - i,
    {
        if v[i].0 == *s {
            assert(v@[i as int].0@ == s@);
            return true;
        }
        i = i + 1;
    }
    false
}

/// The album cover: the cached entry whose filename sorts lexicographically
/// smallest in `dir`, or `None` when the album holds no cached entries.
pub fn get_album_thumb(vault: &Vault, km: &KeyManager, dir: &str) -> (r: Result<
    Option<(String, (String, u64))>,
    VaultError,
>)
    ensures
        match r {
            Ok(cover) => match cover {
                Some(c) => {
                    &&& has_cached_entry(vault, dir@, join_spec(dir@, c.0@))
                    &&& entry_matches(vault, km, join_spec(dir@, c.0@), c.1.0@, c.1.1)
                    &&& forall|p: Seq<char>|
                        #[trigger] has_cached_entry(vault, dir@, p) ==> !lex_lt(name_of(p), c.0@)
                },
                None => forall|p: Seq<char>| !(#[trigger] has_cached_entry(vault, dir@, p)),
            },
            Err(e) => e is Error,
        },
{
    let entries = match get_images(vault, km, dir) {
        Ok(es) => es,
        Err(e) => {
            return Err(e);
        },
    };
    if entries.len() == 0 {
        proof {
            assert forall|p: Seq<char>| !(#[trigger] has_cached_entry(vault, dir@, p)) by {
                if has_cached_entry(vault, dir@, p) {
                    let a = choose|a: int|
                        0 <= a < entries@.len() && entries@[a].0@ == name_of(p);
                }
            }
        }
        return Ok(None);
    }
    let n = entries.len();
    let mut best: usize = 0;
    let mut i: usize = 1;
    proof {
        crate::paths::lemma_lex_total(entries@[0].0@, entries@[0].0@);
    }
    while i < n
        invariant
            0 <= best < i <= n,
            n == entries@.len(),
            forall|a: int| 0 <= a < i ==> !lex_lt(entries@[a].0@, entries@[best as int].0@),
        decreases n - i,
    {
        if str_lex_lt(entries[i].0.as_str(), entries[best].0.as_str()) {
            let ghost old_best = best;
            best = i;
            proof {
                assert forall|a: int| 0 <= a < i + 1 implies !lex_lt(
                    entries@[a].0@,
                    entries@[best as int].0@,
                ) by {
                    crate::paths::lemma_lex_total(entries@[a].0@, entries@[best as int].0@);
                    if lex_lt(entries@[a].0@, entries@[best as int].0@) {
                        crate::paths::lemma_lex_trans(
                            entries@[a].0@,
                            entries@[best as int].0@,
                            entries@[old_best as int].0@,
                        );
                    }
                }
            }
        }
        i = i + 1;
    }
    let cover_name = entries[best].0.clone();
    let cover_hash = entries[best].1.0.clone();
    let cover_ratio = entries[best].1.1;
    proof {
        assert forall|p: Seq<char>| #[trigger] has_cached_entry(vault, dir@, p) implies !lex_lt(
            name_of(p),
            cover_name@,
        ) by {
            let a = choose|a: int| 0 <= a < entries@.len() && entries@[a].0@ == name_of(p);
        }
    }
    Ok(Some((cover_name, (cover_hash, cover_ratio))))
}

} // verus!
