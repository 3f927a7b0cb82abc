use vstd::prelude::*;

use crate::archive::{
    export_content, export_ok, export_pw_ok, exported_file, rel_of, restore_places_entries,
    restore_plain, restored_at, restored_file_entry, zip_parse,
};
use crate::crypto::{session_dec, session_enc, unlocked_with, KeyManager};
use crate::paths::{
    has_slash, join_spec, lemma_join_split, lemma_name_of_join, lemma_split_join, name_of,
    parent_of, under_eq,
};
use crate::vault::Vault;

verus! {

/// A path strictly below a root is the root joined with its relative name.
proof fn lemma_rel_join(root: Seq<char>, p: Seq<char>)
    requires
        under_eq(root, p),
        p != root,
    ensures
        p == join_spec(root, rel_of(root, p)),
{
    assert(p =~= join_spec(root, rel_of(root, p)));
}

/// An exported file's archive entry is one that a restore picks up: it is
/// not the token entry and does not sit in a hidden sidecar directory.
proof fn lemma_exported_entry_restored(vault: &Vault, root: Seq<char>, p: Seq<char>, e: (
    Seq<char>,
    bool,
    Seq<u8>,
))
    requires
        exported_file(vault, root, p),
        e.0 == rel_of(root, p),
        !e.1,
    ensures
        restored_file_entry(e),
{
    reveal_strlit(".hash");
    reveal_strlit(".thumbs");
    reveal_strlit(".vault-key");
    lemma_rel_join(root, p);
    let rel = rel_of(root, p);
    if rel == ".vault-key"@ {
        assert(p == join_spec(root, ".vault-key"@));
    }
    if has_slash(rel) {
        lemma_split_join(rel);
        let pr = parent_of(rel);
        let nr = name_of(rel);
        assert(join_spec(root, join_spec(pr, nr)) =~= join_spec(join_spec(root, pr), nr));
        lemma_join_split(join_spec(root, pr), nr);
        assert(parent_of(p) == join_spec(root, pr));
        if pr.len() > 0 {
            lemma_name_of_join(root, pr);
            assert(name_of(parent_of(rel)) == name_of(parent_of(p)));
        } else {
            assert(name_of(pr).len() == 0) by {
                crate::paths::lemma_name_len_bounds(pr);
            }
        }
    }
}

/// Backup/restore, plaintext archive and no password: every file of the
/// exported subtree reappears below the destination root, stored as its
/// original plaintext re-encrypted under the destination session's key.
/// The second hypothesis is exactly what a successful restore of `bytes`
/// into `dest` guarantees.
pub proof fn lemma_backup_restore_plaintext(
    source: &Vault,
    km: &KeyManager,
    dest_before: &Vault,
    dest: &Vault,
    km2: &KeyManager,
    root: Seq<char>,
    dest_root: Seq<char>,
    bytes: Seq<u8>,
    p: Seq<char>,
)
    requires
        export_ok(source, km, root, false, bytes),
        restore_places_entries(dest, dest_before, km2, dest_root, None, zip_parse(bytes)->0),
        exported_file(source, root, p),
    ensures
        exists|q: Seq<char>|
            #![trigger dest.file_at(q)]
            under_eq(dest_root, q) && dest_before.file_at(q) is None && dest.file_at(q) == Some(
                session_enc(km2, export_content(source, km, p, false)),
            ),
{
    let es = zip_parse(bytes)->0;
    let e = (rel_of(root, p), false, export_content(source, km, p, false));
    assert(crate::archive::es_has(es, crate::archive::file_entry_for(source, km, root, false, p)));
    let k = choose|k: int| 0 <= k < es.len() && es[k] == e;
    lemma_exported_entry_restored(source, root, p, e);
    assert(restored_file_entry(es[k]));
    assert(restore_plain(None, es[k].2) == export_content(source, km, p, false));
    let q = choose|q: Seq<char>|
        #![trigger dest.file_at(q)]
        restored_at(dest, dest_before, km2, dest_root, None, es[k], q);
    assert(under_eq(dest_root, q) && dest_before.file_at(q) is None && dest.file_at(q) == Some(
        session_enc(km2, export_content(source, km, p, false)),
    ));
}

/// Backup/restore, ciphertext archive carrying its own token, restored with
/// the same password the live session is unlocked with: every file of the
/// exported subtree reappears below the destination root, stored as its
/// original plaintext re-encrypted under the destination session's key.
/// The second hypothesis is exactly what a successful restore of `bytes`
/// with that password guarantees.
pub proof fn lemma_backup_restore_same_password(
    source: &Vault,
    km: &KeyManager,
    dest_before: &Vault,
    dest: &Vault,
    km2: &KeyManager,
    root: Seq<char>,
    dest_root: Seq<char>,
    password: Seq<char>,
    bytes: Seq<u8>,
    p: Seq<char>,
    plain: Seq<u8>,
)
    requires
        export_pw_ok(source, km, root, true, password, bytes),
        restore_places_entries(
            dest,
            dest_before,
            km2,
            dest_root,
            Some(password),
            zip_parse(bytes)->0,
        ),
        exported_file(source, root, p),
        unlocked_with(km, password),
        session_dec(km, source.file_at(p)->0) == Some(plain),
    ensures
        exists|q: Seq<char>|
            #![trigger dest.file_at(q)]
            under_eq(dest_root, q) && dest_before.file_at(q) is None && dest.file_at(q) == Some(
                session_enc(km2, plain),
            ),
{
    let es = zip_parse(bytes)->0;
    let e = (rel_of(root, p), false, export_content(source, km, p, true));
    assert(crate::archive::es_has(es, crate::archive::file_entry_for(source, km, root, true, p)));
    let k = choose|k: int| 0 <= k < es.len() && es[k] == e;
    lemma_exported_entry_restored(source, root, p, e);
    assert(restored_file_entry(es[k]));
    assert(restore_plain(Some(password), es[k].2) == plain);
    let q = choose|q: Seq<char>|
        #![trigger dest.file_at(q)]
        restored_at(dest, dest_before, km2, dest_root, Some(password), es[k], q);
    assert(under_eq(dest_root, q) && dest_before.file_at(q) is None && dest.file_at(q) == Some(
        session_enc(km2, plain),
    ));
}

} // verus!
