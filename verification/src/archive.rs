use vstd::prelude::*;

use crate::crypto::{decrypt_data, session_dec, KeyManager, PasswordDecrypter};
use crate::crypto::{aes_dec, iv_of, key_of};
use crate::error::VaultError;
use crate::media::{classify, save_file, sidecar_entry_of, thumb_bytes_of};
use crate::paths::{
    has_slash, is_under, join, join_spec, name_of, parent_of, split_path, under_eq,
};
use crate::token::{token_accepts, verification_data, verification_data_spec};
use crate::vault::Vault;

verus! {

// ---------------------------------------------------------------------------
// The trusted zip layer: in-memory archives
// ---------------------------------------------------------------------------

#[verifier::external_type_specification]
#[verifier::external_body]
#[verifier::reject_recursive_types(T)]
pub struct ExCursor<T>(std::io::Cursor<T>);

/// Holds an in-progress zip writer.  Its inner type cannot be declared to
/// the verifier (its bounds name io traits the verifier does not know), so
/// the holder is opaque and what it has recorded is described only by
/// `writer_entries` and `writer_file_open`.
#[verifier::external_body]
pub struct ArchiveWriter {
    inner: zip::ZipWriter<std::io::Cursor<Vec<u8>>>,
}

#[verifier::external_type_specification]
#[verifier::external_body]
#[verifier::reject_recursive_types(R)]
pub struct ExZipArchive<R>(zip::ZipArchive<R>);

/// What a byte string holds when read as a zip archive: its entries in
/// index order, each a stored name, whether it is a directory, and the
/// decompressed content.  `None` when the bytes are not a fully well-formed
/// archive: one whose central directory parses and whose every entry's data
/// decompresses cleanly.
pub uninterp spec fn zip_parse(bytes: Seq<u8>) -> Option<Seq<(Seq<char>, bool, Seq<u8>)>>;

/// Whether a byte string's zip central directory parses: exactly the inputs
/// the archive reader accepts for opening, whether or not every entry's
/// data is then readable.
pub uninterp spec fn zip_headers_ok(bytes: Seq<u8>) -> bool;

/// The entries recorded so far in an archive being written.
pub uninterp spec fn writer_entries(w: ArchiveWriter) -> Seq<
    (Seq<char>, bool, Seq<u8>),
>;

/// Whether the writer has a file entry begun and still open for content.
pub uninterp spec fn writer_file_open(w: ArchiveWriter) -> bool;

/// The entries of an opened archive, in index order.
pub uninterp spec fn archive_entries(a: zip::ZipArchive<std::io::Cursor<Vec<u8>>>) -> Seq<
    (Seq<char>, bool, Seq<u8>),
>;

/// Whether every entry of an opened archive reads cleanly: stored with a
/// supported compression method, decompressing without error and matching
/// its checksum.
pub uninterp spec fn archive_readable(a: zip::ZipArchive<std::io::Cursor<Vec<u8>>>) -> bool;

/// Relies on zip::ZipWriter::new over an in-memory cursor: a fresh archive
/// holds no entries yet.
#[verifier::external_body]
fn zw_new() -> (w: ArchiveWriter)
    ensures
        writer_entries(w) == Seq::<(Seq<char>, bool, Seq<u8>)>::empty(),
        !writer_file_open(w),
{
    ArchiveWriter { inner: zip::ZipWriter::new(std::io::Cursor::new(Vec::new())) }
}

/// Relies on zip::ZipWriter::start_file with deflate compression in
/// zip64 (large-file) mode: it begins a new, still empty file entry stored
/// under the given name.  The name must not read back as a directory (a
/// trailing slash or backslash marks one) and must fit the format's 16-bit
/// name-length field (at most four encoded bytes per character, so a
/// character bound suffices); writing headers to an in-memory cursor cannot
/// fail.
#[verifier::external_body]
fn zw_start_file(w: &mut ArchiveWriter, name: &str)
    requires
        name@.len() > 0,
        name@[name@.len() - 1] != '/',
        name@[name@.len() - 1] != '\\',
        name@.len() <= 16383,
    ensures
        writer_entries(*final(w)) == writer_entries(*old(w)).push(
            (name@, false, Seq::<u8>::empty()),
        ),
        writer_file_open(*final(w)),
{
    let options = zip::write::FileOptions::default().compression_method(
        zip::CompressionMethod::Deflated,
    ).large_file(true);
    w.inner.start_file(name, options).unwrap();
}

/// Relies on the io::Write impl of zip::ZipWriter: written bytes are
/// appended to the file entry currently begun.  With an entry open, in
/// large-file mode, writing through an in-memory cursor cannot fail.
#[verifier::external_body]
fn zw_write_all(w: &mut ArchiveWriter, data: &[u8])
    requires
        writer_file_open(*old(w)),
        writer_entries(*old(w)).len() > 0,
    ensures
        writer_entries(*final(w)) == writer_entries(*old(w)).update(
            writer_entries(*old(w)).len() - 1,
            (
                writer_entries(*old(w)).last().0,
                false,
                writer_entries(*old(w)).last().2 + data@,
            ),
        ),
        writer_file_open(*final(w)),
{
    std::io::Write::write_all(&mut w.inner, data).unwrap();
}

/// Relies on zip::ZipWriter::add_directory: it records a directory entry
/// whose stored name gains a trailing slash, closing any open file entry.
/// A name already ending in a slash or backslash would be stored bare, so
/// such names are excluded, as are ones overflowing the 16-bit name-length
/// field; writing headers to an in-memory cursor cannot fail.
#[verifier::external_body]
fn zw_add_directory(w: &mut ArchiveWriter, name: &str)
    requires
        name@.len() == 0 || (name@[name@.len() - 1] != '/' && name@[name@.len() - 1] != '\\'),
        name@.len() <= 16383,
    ensures
        writer_entries(*final(w)) == writer_entries(*old(w)).push(
            (name@ + "/"@, true, Seq::<u8>::empty()),
        ),
        !writer_file_open(*final(w)),
{
    let options = zip::write::FileOptions::default();
    w.inner.add_directory(name, options).unwrap();
}

/// Relies on zip::ZipWriter::finish: the finished buffer is a fully
/// well-formed archive that reads back as exactly the entries written;
/// writing the central directory to an in-memory cursor cannot fail.
#[verifier::external_body]
fn zw_finish(w: ArchiveWriter) -> (bytes: Vec<u8>)
    ensures
        zip_parse(bytes@) == Some(writer_entries(w)),
{
    let mut w = w;
    w.inner.finish().unwrap().into_inner()
}

/// Relies on zip::ZipArchive::new over an in-memory cursor: it accepts
/// exactly the byte strings whose central directory parses, and on a fully
/// well-formed archive it exposes the entries with all of them readable.
#[verifier::external_body]
fn za_open(bytes: Vec<u8>) -> (r: Result<zip::ZipArchive<std::io::Cursor<Vec<u8>>>, VaultError>)
    ensures
        r is Ok <==> zip_headers_ok(bytes@),
        r is Err ==> zip_parse(bytes@) is None,
        r matches Ok(a) ==> (zip_parse(bytes@) is Some ==> Some(archive_entries(a)) == zip_parse(
            bytes@,
        ) && archive_readable(a)),
        r matches Err(e) ==> e is Error,
{
    match zip::ZipArchive::new(std::io::Cursor::new(bytes)) {
        Ok(a) => Ok(a),
        Err(e) => Err(VaultError::Error(e.to_string())),
    }
}

/// Relies on zip::ZipArchive::len: the number of entries.
#[verifier::external_body]
fn za_len(a: &zip::ZipArchive<std::io::Cursor<Vec<u8>>>) -> (r: usize)
    ensures
        r == archive_entries(*a).len(),
{
    a.len()
}

/// Relies on zip::ZipArchive::by_index and read_to_end: reading entry `i`
/// yields its stored name, kind and decompressed content, and leaves the
/// archive's entries as they were.  On an archive whose every entry reads
/// cleanly, reading cannot fail.
#[verifier::external_body]
fn za_entry_at(a: &mut zip::ZipArchive<std::io::Cursor<Vec<u8>>>, i: usize) -> (r: Result<
    (String, bool, Vec<u8>),
    VaultError,
>)
    requires
        i < archive_entries(*old(a)).len(),
    ensures
        archive_entries(*final(a)) == archive_entries(*old(a)),
        archive_readable(*final(a)) == archive_readable(*old(a)),
        archive_readable(*old(a)) ==> r is Ok,
        r matches Ok(e) ==> (e.0@, e.1, e.2@) == archive_entries(*old(a))[i as int],
        r matches Err(e) ==> e is Error,
{
    match a.by_index(i) {
        Ok(mut f) => {
            let (name, is_dir) = (f.name().to_string(), f.is_dir());
            let mut data: Vec<u8> = Vec::new();
            match std::io::Read::read_to_end(&mut f, &mut data) {
                Ok(_) => Ok((name, is_dir, data)),
                Err(e) => Err(VaultError::Error(e.to_string())),
            }
        },
        Err(e) => Err(VaultError::Error(e.to_string())),
    }
}

/// Relies on zip::ZipArchive::by_name and read_to_end: a stored name reads
/// one entry carrying it (among duplicates, which one is not pinned); a
/// name no entry carries is told apart from any other failure, and on an
/// archive whose every entry reads cleanly, reading cannot fail.
#[verifier::external_body]
fn za_read_by_name(a: &mut zip::ZipArchive<std::io::Cursor<Vec<u8>>>, name: &str) -> (r: Result<
    Option<Vec<u8>>,
    VaultError,
>)
    ensures
        archive_entries(*final(a)) == archive_entries(*old(a)),
        archive_readable(*final(a)) == archive_readable(*old(a)),
        archive_readable(*old(a)) ==> r is Ok,
        r matches Ok(d) ==> match d {
            Some(bytes) => exists|i: int|
                0 <= i < archive_entries(*old(a)).len() && archive_entries(*old(a))[i].0 == name@
                    && archive_entries(*old(a))[i].2 == bytes@,
            None => forall|i: int|
                0 <= i < archive_entries(*old(a)).len() ==> archive_entries(*old(a))[i].0
                    != name@,
        },
        r matches Err(e) ==> e is Error,
{
    match a.by_name(name) {
        Ok(mut f) => {
            let mut data: Vec<u8> = Vec::new();
            match std::io::Read::read_to_end(&mut f, &mut data) {
                Ok(_) => Ok(Some(data)),
                Err(e) => Err(VaultError::Error(e.to_string())),
            }
        },
        Err(zip::result::ZipError::FileNotFound) => Ok(None),
        Err(e) => Err(VaultError::Error(e.to_string())),
    }
}

// ---------------------------------------------------------------------------
// What an export holds
// ---------------------------------------------------------------------------

/// The archive-relative name of a path below `root`.
pub open spec fn rel_of(root: Seq<char>, p: Seq<char>) -> Seq<char> {
    p.skip(root.len() as int + 1)
}

/// Whether a stored file at `p` belongs in an export of `root`: strictly
/// below the root, not the live verification token, and not inside a hidden
/// sidecar directory.
pub open spec fn exported_file(vault: &Vault, root: Seq<char>, p: Seq<char>) -> bool {
    &&& vault.file_at(p) is Some
    &&& under_eq(root, p)
    &&& p != root
    &&& p != join_spec(root, ".vault-key"@)
    &&& name_of(parent_of(p)) != ".hash"@
    &&& name_of(parent_of(p)) != ".thumbs"@
    &&& name_of(p).len() > 0
    &&& p[p.len() - 1] != '\\'
    &&& rel_of(root, p).len() <= 16383
}

/// Whether a directory at `d` belongs in an export of `root`: strictly
/// below the root and not a hidden sidecar directory itself.
pub open spec fn exported_dir(vault: &Vault, root: Seq<char>, d: Seq<char>) -> bool {
    &&& vault.has_dir(d)
    &&& under_eq(root, d)
    &&& d != root
    &&& name_of(d).len() > 0
    &&& name_of(d) != ".hash"@
    &&& name_of(d) != ".thumbs"@
    &&& d[d.len() - 1] != '\\'
    &&& rel_of(root, d).len() <= 16383
}

/// The bytes an export writes for the file at `p`: the stored ciphertext
/// verbatim when `encryption` is kept, the decrypted plaintext otherwise.
pub open spec fn export_content(
    vault: &Vault,
    km: &KeyManager,
    p: Seq<char>,
    encryption: bool,
) -> Seq<u8> {
    if encryption {
        match vault.file_at(p) {
            Some(c) => c,
            None => Seq::empty(),
        }
    } else {
        match vault.file_at(p) {
            Some(c) => match session_dec(km, c) {
                Some(d) => d,
                None => Seq::empty(),
            },
            None => Seq::empty(),
        }
    }
}

/// The archive-relative name of a path, executable form.
fn rel_name(root: &String, p: &String) -> (r: String)
    requires
        under_eq(root@, p@),
        p@ != root@,
    ensures
        r@ == rel_of(root@, p@),
{
    let rlen = root.as_str().unicode_len();
    let plen = p.as_str().unicode_len();
    proof {
        if p@.len() == root@.len() {
            assert(p@.take(root@.len() as int) =~= p@);
        }
    }
    let r = p.as_str().substring_char(rlen + 1, plen).to_owned();
    proof {
        assert(r@ =~= rel_of(root@, p@));
    }
    r
}

/// A path with a nonempty final name keeps it, and its last character,
/// inside its archive-relative name.
proof fn lemma_rel_keeps_name(root: Seq<char>, p: Seq<char>)
    requires
        under_eq(root, p),
        p != root,
        name_of(p).len() > 0,
    ensures
        rel_of(root, p).len() > 0,
        rel_of(root, p)[rel_of(root, p).len() - 1] == p[p.len() - 1],
        p[p.len() - 1] != '/',
{
    crate::paths::lemma_name_len_bounds(p);
    assert(p[p.len() - 1] != '/');
    if p.len() == root.len() + 1 {
        assert(p[root.len() as int] == '/');
        assert(false);
    }
    assert(rel_of(root, p)[rel_of(root, p).len() - 1] == p[p.len() - 1]);
}

/// The final name component of a path, executable form (the whole path when
/// it holds no slash).
fn last_component(p: &String) -> (r: String)
    ensures
        r@ == name_of(p@),
{
    match split_path(p.as_str()) {
        Some((_, name)) => name,
        None => {
            proof {
                crate::paths::lemma_name_len_bounds(p@);
                assert(name_of(p@) =~= p@);
            }
            p.clone()
        },
    }
}

// ---------------------------------------------------------------------------
// Export
// ---------------------------------------------------------------------------

/// The archive entry an export writes for a directory.
pub open spec fn dir_entry_for(root: Seq<char>, d: Seq<char>) -> (Seq<char>, bool, Seq<u8>) {
    (rel_of(root, d) + "/"@, true, Seq::<u8>::empty())
}

/// The archive entry an export writes for a file.
pub open spec fn file_entry_for(
    vault: &Vault,
    km: &KeyManager,
    root: Seq<char>,
    encryption: bool,
    p: Seq<char>,
) -> (Seq<char>, bool, Seq<u8>) {
    (rel_of(root, p), false, export_content(vault, km, p, encryption))
}

/// Whether an entry list holds `e` somewhere.
pub open spec fn es_has(es: Seq<(Seq<char>, bool, Seq<u8>)>, e: (Seq<char>, bool, Seq<u8>)) -> bool {
    exists|k: int| 0 <= k < es.len() && es[k] == e
}

/// Whether `e` is an entry that an export of `root` may write.
pub open spec fn entry_from(
    vault: &Vault,
    km: &KeyManager,
    root: Seq<char>,
    encryption: bool,
    e: (Seq<char>, bool, Seq<u8>),
) -> bool {
    &&& e.1 ==> exists|d: Seq<char>|
        #[trigger] exported_dir(vault, root, d) && e == dir_entry_for(root, d)
    &&& !e.1 ==> exists|p: Seq<char>|
        #[trigger] exported_file(vault, root, p) && e == file_entry_for(
            vault,
            km,
            root,
            encryption,
            p,
        )
}

proof fn lemma_es_has_push(
    es: Seq<(Seq<char>, bool, Seq<u8>)>,
    e: (Seq<char>, bool, Seq<u8>),
    x: (Seq<char>, bool, Seq<u8>),
)
    ensures
        es_has(es, e) ==> es_has(es.push(x), e),
        es_has(es.push(x), x),
{
    assert(es.push(x)[es.len() as int] == x);
    if es_has(es, e) {
        let k = choose|k: int| 0 <= k < es.len() && es[k] == e;
        assert(es.push(x)[k] == e);
    }
}

/// What a successful export guarantees of the produced archive bytes: they
/// parse, every exported directory and file of the subtree stands in the
/// entries, and every entry comes from one of them with the right content.
pub open spec fn export_ok(
    vault: &Vault,
    km: &KeyManager,
    root: Seq<char>,
    encryption: bool,
    bytes: Seq<u8>,
) -> bool {
    let es = zip_parse(bytes)->0;
    &&& zip_parse(bytes) is Some
    &&& forall|d: Seq<char>|
        #[trigger] exported_dir(vault, root, d) ==> es_has(es, dir_entry_for(root, d))
    &&& forall|p: Seq<char>|
        #[trigger] exported_file(vault, root, p) ==> es_has(
            es,
            file_entry_for(vault, km, root, encryption, p),
        )
    &&& forall|k: int|
        #![trigger es[k]]
        0 <= k < es.len() ==> entry_from(vault, km, root, encryption, es[k])
}

/// Streams the export of the subtree at `root_dir` into `w`, after
/// whatever entries it already holds: every directory below the root except
/// the hidden sidecar directories, then every file except the sidecars and
/// the live verification token.
#[verifier::rlimit(100)]
fn export_entries(
    vault: &Vault,
    km: &KeyManager,
    root_dir: &str,
    encryption: bool,
    w: &mut ArchiveWriter,
) -> (r: Result<(), VaultError>)
    ensures
        r is Ok ==> {
            let base = writer_entries(*old(w));
            let es = writer_entries(*final(w));
            &&& es.len() >= base.len()
            &&& es.take(base.len() as int) == base
            &&& forall|k: int|
                #![trigger es[k]]
                base.len() <= k < es.len() ==> entry_from(vault, km, root_dir@, encryption, es[k])
            &&& forall|d: Seq<char>|
                #[trigger] exported_dir(vault, root_dir@, d) ==> es_has(
                    es,
                    dir_entry_for(root_dir@, d),
                )
            &&& forall|p: Seq<char>|
                #[trigger] exported_file(vault, root_dir@, p) ==> es_has(
                    es,
                    file_entry_for(vault, km, root_dir@, encryption, p),
                )
        },
        r matches Err(e) ==> e is Error && !encryption && (exists|p: Seq<char>|
            #[trigger] exported_file(vault, root_dir@, p) && session_dec(
                km,
                vault.file_at(p)->0,
            ) is None),
{
    let ghost base = writer_entries(*old(w));
    let root_s = root_dir.to_owned();
    vault.enumeration_facts();
    let hash_name = String::from_str(".hash");
    let thumbs_name = String::from_str(".thumbs");
    let nd = vault.dir_count();
    let mut i: usize = 0;
    while i < nd
        invariant
            0 <= i <= nd,
            root_s@ == root_dir@,
            hash_name@ == ".hash"@,
            thumbs_name@ == ".thumbs"@,
            nd == vault.dir_list().len(),
            writer_entries(*w).len() >= base.len(),
            writer_entries(*w).take(base.len() as int) == base,
            forall|a: int|
                0 <= a < vault.dir_list().len() ==> #[trigger] vault.has_dir(vault.dir_list()[a]),
            forall|k: int|
                #![trigger writer_entries(*w)[k]]
                base.len() <= k < writer_entries(*w).len() ==> entry_from(
                    vault,
                    km,
                    root_dir@,
                    encryption,
                    writer_entries(*w)[k],
                ),
            forall|j: int|
                0 <= j < i && exported_dir(vault, root_dir@, #[trigger] vault.dir_list()[j])
                    ==> es_has(writer_entries(*w), dir_entry_for(root_dir@, vault.dir_list()[j])),
        decreases nd - i,
    {
        let d = vault.dir_nth(i);
        let mut included = is_under(root_s.as_str(), d.as_str()) && !(*d == root_s);
        if included {
            let lc = last_component(d);
            let dlen = d.as_str().unicode_len();
            if lc == hash_name || lc == thumbs_name || lc.as_str().unicode_len() == 0 {
                included = false;
            } else if d.as_str().get_char(dlen - 1) == '\\' {
                included = false;
            }
        }
        if included {
            let rel = rel_name(&root_s, d);
            if rel.as_str().unicode_len() > 16383 {
                proof {
                    assert(!exported_dir(vault, root_dir@, vault.dir_list()[i as int]));
                }
                i = i + 1;
                continue;
            }
            let ghost pre = writer_entries(*w);
            proof {
                crate::paths::lemma_name_len_bounds(d@);
                if rel@.len() > 0 {
                    assert(rel@[rel@.len() - 1] == d@[d@.len() - 1]);
                }
            }
            zw_add_directory(w, rel.as_str());
            proof {
                let ghost x = dir_entry_for(root_dir@, vault.dir_list()[i as int]);
                assert(writer_entries(*w) == pre.push(x));
                assert(writer_entries(*w).take(base.len() as int) =~= pre.take(
                    base.len() as int,
                ));
                assert(exported_dir(vault, root_dir@, vault.dir_list()[i as int]));
                assert forall|j: int|
                    0 <= j < i + 1 && exported_dir(
                        vault,
                        root_dir@,
                        #[trigger] vault.dir_list()[j],
                    ) implies es_has(
                    writer_entries(*w),
                    dir_entry_for(root_dir@, vault.dir_list()[j]),
                ) by {
                    lemma_es_has_push(pre, dir_entry_for(root_dir@, vault.dir_list()[j]), x);
                }
                assert forall|k: int|
                    #![trigger writer_entries(*w)[k]]
                    base.len() <= k < writer_entries(*w).len() implies entry_from(
                    vault,
                    km,
                    root_dir@,
                    encryption,
                    writer_entries(*w)[k],
                ) by {
                    if k < pre.len() {
                        assert(writer_entries(*w)[k] == pre[k]);
                    } else {
                        assert(writer_entries(*w)[k] == x);
                    }
                }
            }
        } else {
            proof {
                assert(!exported_dir(vault, root_dir@, vault.dir_list()[i as int]));
            }
        }
        i = i + 1;
    }
    let nf = vault.file_count();
    let mut fi: usize = 0;
    while fi < nf
        invariant
            0 <= fi <= nf,
            root_s@ == root_dir@,
            hash_name@ == ".hash"@,
            thumbs_name@ == ".thumbs"@,
            nf == vault.file_list().len(),
            writer_entries(*w).len() >= base.len(),
            writer_entries(*w).take(base.len() as int) == base,
            forall|a: int|
                0 <= a < vault.file_list().len() ==> #[trigger] vault.file_at(
                    vault.file_list()[a],
                ) is Some,
            forall|d: Seq<char>|
                #[trigger] exported_dir(vault, root_dir@, d) ==> es_has(
                    writer_entries(*w),
                    dir_entry_for(root_dir@, d),
                ),
            forall|k: int|
                #![trigger writer_entries(*w)[k]]
                base.len() <= k < writer_entries(*w).len() ==> entry_from(
                    vault,
                    km,
                    root_dir@,
                    encryption,
                    writer_entries(*w)[k],
                ),
            forall|j: int|
                0 <= j < fi && exported_file(vault, root_dir@, #[trigger] vault.file_list()[j])
                    ==> es_has(
                    writer_entries(*w),
                    file_entry_for(vault, km, root_dir@, encryption, vault.file_list()[j]),
                ),
        decreases nf - fi,
    {
        let p = vault.file_nth_path(fi);
        let mut included = is_under(root_s.as_str(), p.as_str()) && !(*p == root_s);
        if included {
            let token_path = join(root_s.as_str(), ".vault-key");
            let plen = p.as_str().unicode_len();
            if *p == token_path {
                included = false;
            } else if p.as_str().get_char(plen - 1) == '\\' {
                included = false;
            } else {
                match split_path(p.as_str()) {
                    Some((parent, fname)) => {
                        let pn = last_component(&parent);
                        if pn == hash_name || pn == thumbs_name || fname.as_str().unicode_len()
                            == 0 {
                            included = false;
                        }
                    },
                    None => {
                        proof {
                            assert(p@[root_s@.len() as int] == '/');
                            crate::paths::lemma_name_len_bounds(p@);
                        }
                        included = false;
                    },
                }
            }
        }
        if included {
            let rel = rel_name(&root_s, p);
            if rel.as_str().unicode_len() > 16383 {
                proof {
                    assert(!exported_file(vault, root_dir@, vault.file_list()[fi as int]));
                }
                fi = fi + 1;
                continue;
            }
            let stored = vault.file_nth_bytes(fi);
            let content: Vec<u8> = if encryption {
                let c = stored.clone();
                proof {
                    assert(c@ =~= stored@);
                }
                c
            } else {
                match decrypt_data(km, stored.as_slice()) {
                    Ok(c) => c,
                    Err(e) => {
                        proof {
                            assert(exported_file(vault, root_dir@, vault.file_list()[fi as int]));
                        }
                        return Err(e);
                    },
                }
            };
            let ghost pre = writer_entries(*w);
            proof {
                lemma_rel_keeps_name(root_dir@, vault.file_list()[fi as int]);
            }
            zw_start_file(w, rel.as_str());
            zw_write_all(w, content.as_slice());
            proof {
                let ghost x = file_entry_for(
                    vault,
                    km,
                    root_dir@,
                    encryption,
                    vault.file_list()[fi as int],
                );
                assert(exported_file(vault, root_dir@, vault.file_list()[fi as int]));
                assert(writer_entries(*w) =~= pre.push(x));
                assert(writer_entries(*w).take(base.len() as int) =~= pre.take(
                    base.len() as int,
                ));
                assert forall|d: Seq<char>|
                    #[trigger] exported_dir(vault, root_dir@, d) implies es_has(
                    writer_entries(*w),
                    dir_entry_for(root_dir@, d),
                ) by {
                    lemma_es_has_push(pre, dir_entry_for(root_dir@, d), x);
                }
                assert forall|j: int|
                    0 <= j < fi + 1 && exported_file(
                        vault,
                        root_dir@,
                        #[trigger] vault.file_list()[j],
                    ) implies es_has(
                    writer_entries(*w),
                    file_entry_for(vault, km, root_dir@, encryption, vault.file_list()[j]),
                ) by {
                    lemma_es_has_push(
                        pre,
                        file_entry_for(vault, km, root_dir@, encryption, vault.file_list()[j]),
                        x,
                    );
                }
                assert forall|k: int|
                    #![trigger writer_entries(*w)[k]]
                    base.len() <= k < writer_entries(*w).len() implies entry_from(
                    vault,
                    km,
                    root_dir@,
                    encryption,
                    writer_entries(*w)[k],
                ) by {
                    if k < pre.len() {
                        assert(writer_entries(*w)[k] == pre[k]);
                    } else {
                        assert(writer_entries(*w)[k] == x);
                    }
                }
            }
        } else {
            proof {
                assert(!exported_file(vault, root_dir@, vault.file_list()[fi as int]));
            }
        }
        fi = fi + 1;
    }
    proof {
        assert forall|p: Seq<char>| #[trigger] exported_file(vault, root_dir@, p) implies es_has(
            writer_entries(*w),
            file_entry_for(vault, km, root_dir@, encryption, p),
        ) by {
            let j = choose|j: int| 0 <= j < vault.file_list().len() && vault.file_list()[j] == p;
        }
    }
    Ok(())
}

/// Serializes the vault subtree at `root_dir` into a single in-memory zip
/// archive: every directory below the root except the hidden sidecar
/// directories, and every file except the sidecars and the live
/// verification token.  With `encryption` the stored ciphertext is copied
/// verbatim; without it every file is decrypted with the session key and
/// archived as plaintext.
pub fn zip_backup(vault: &Vault, km: &KeyManager, root_dir: &str, encryption: bool) -> (r: Result<
    Vec<u8>,
    VaultError,
>)
    ensures
        encryption ==> r is Ok,
        r matches Ok(bytes) ==> export_ok(vault, km, root_dir@, encryption, bytes@),
        r matches Err(e) ==> e is Error && !encryption && (exists|p: Seq<char>|
            #[trigger] exported_file(vault, root_dir@, p) && session_dec(
                km,
                vault.file_at(p)->0,
            ) is None),
{
    let mut wtr = zw_new();
    match export_entries(vault, km, root_dir, encryption, &mut wtr) {
        Ok(_) => {},
        Err(e) => {
            return Err(e);
        },
    }
    let ghost es = writer_entries(wtr);
    proof {
        assert(es.take(0) =~= Seq::<(Seq<char>, bool, Seq<u8>)>::empty());
    }
    let bytes = zw_finish(wtr);
    proof {
        assert(zip_parse(bytes@) == Some(es));
        assert(export_ok(vault, km, root_dir@, encryption, bytes@));
    }
    Ok(bytes)
}

/// What a successful password-carrying export guarantees: the archive's
/// first entry is its own verification token under the given password, and
/// the rest is exactly the export of the subtree.
pub open spec fn export_pw_ok(
    vault: &Vault,
    km: &KeyManager,
    root: Seq<char>,
    encryption: bool,
    password: Seq<char>,
    bytes: Seq<u8>,
) -> bool {
    let es = zip_parse(bytes)->0;
    &&& zip_parse(bytes) is Some
    &&& es.len() >= 1
    &&& es[0] == (".vault-key"@, false, crate::token::token_for(password))
    &&& crate::token::token_accepts(crate::token::token_for(password), password)
    &&& forall|k: int|
        #![trigger es[k]]
        1 <= k < es.len() ==> entry_from(vault, km, root, encryption, es[k])
    &&& forall|d: Seq<char>|
        #[trigger] exported_dir(vault, root, d) ==> es_has(es, dir_entry_for(root, d))
    &&& forall|p: Seq<char>|
        #[trigger] exported_file(vault, root, p) ==> es_has(
            es,
            file_entry_for(vault, km, root, encryption, p),
        )
}

/// As `zip_backup`, but additionally stores a `.vault-key` token entry at
/// the archive root, encrypted under the given (possibly different)
/// password, so the archive can later be verified on its own.
pub fn export_with_password(
    vault: &Vault,
    km: &KeyManager,
    root_dir: &str,
    encryption: bool,
    password: &str,
) -> (r: Result<Vec<u8>, VaultError>)
    ensures
        encryption ==> r is Ok,
        r matches Ok(bytes) ==> export_pw_ok(
            vault,
            km,
            root_dir@,
            encryption,
            password@,
            bytes@,
        ),
        r matches Err(e) ==> e is Error && !encryption && (exists|p: Seq<char>|
            #[trigger] exported_file(vault, root_dir@, p) && session_dec(
                km,
                vault.file_at(p)->0,
            ) is None),
{
    let mut wtr = zw_new();
    let token = crate::crypto::password_encrypt(
        password,
        crate::token::verification_data().as_slice(),
    );
    proof {
        reveal_strlit(".vault-key");
    }
    zw_start_file(&mut wtr, ".vault-key");
    zw_write_all(&mut wtr, token.as_slice());
    proof {
        assert(writer_entries(wtr) =~= Seq::<(Seq<char>, bool, Seq<u8>)>::empty().push(
            (".vault-key"@, false, token@),
        ));
        assert(token@ == crate::token::token_for(password@));
    }
    match export_entries(vault, km, root_dir, encryption, &mut wtr) {
        Ok(_) => {},
        Err(e) => {
            return Err(e);
        },
    }
    let ghost es = writer_entries(wtr);
    proof {
        assert(es[0] == es.take(1)[0]);
    }
    let bytes = zw_finish(wtr);
    proof {
        assert(zip_parse(bytes@) == Some(es));
        assert(export_pw_ok(vault, km, root_dir@, encryption, password@, bytes@));
    }
    Ok(bytes)
}

// ---------------------------------------------------------------------------
// Verifying and restoring archives
// ---------------------------------------------------------------------------

/// Reads the archive's own `.vault-key` entry and checks the supplied
/// password against it, returning a standalone decrypter on success: the
/// live session's key is never touched.  A missing token or a mismatch is
/// the distinct wrong-password failure.
pub fn verify_and_get_decrypter(
    archive: &mut zip::ZipArchive<std::io::Cursor<Vec<u8>>>,
    password: &str,
) -> (r: Result<PasswordDecrypter, VaultError>)
    ensures
        archive_entries(*final(archive)) == archive_entries(*old(archive)),
        archive_readable(*final(archive)) == archive_readable(*old(archive)),
        archive_readable(*old(archive)) ==> !(r matches Err(e) && e is Error),
        archive_readable(*old(archive)) && (exists|k: int|
            0 <= k < archive_entries(*old(archive)).len()
                && #[trigger] archive_entries(*old(archive))[k].0 == ".vault-key"@) && (forall|
            k: int,
        |
            0 <= k < archive_entries(*old(archive)).len() && #[trigger] archive_entries(
                *old(archive),
            )[k].0 == ".vault-key"@ ==> token_accepts(
                archive_entries(*old(archive))[k].2,
                password@,
            )) ==> r is Ok,
        r matches Ok(d) ==> d.holds_key_of(password@) && (exists|k: int|
            0 <= k < archive_entries(*old(archive)).len() && archive_entries(*old(archive))[k].0
                == ".vault-key"@ && token_accepts(
                archive_entries(*old(archive))[k].2,
                password@,
            )),
        r matches Err(e) ==> e is IncorrectPassword || e is Error,
        r matches Err(e) && e is IncorrectPassword ==> ((forall|k: int|
            0 <= k < archive_entries(*old(archive)).len() ==> archive_entries(*old(archive))[k].0
                != ".vault-key"@) || (exists|k: int|
            0 <= k < archive_entries(*old(archive)).len() && archive_entries(*old(archive))[k].0
                == ".vault-key"@ && !token_accepts(
                archive_entries(*old(archive))[k].2,
                password@,
            ))),
{
    let content = match za_read_by_name(archive, ".vault-key") {
        Ok(Some(c)) => c,
        Ok(None) => {
            return Err(VaultError::IncorrectPassword);
        },
        Err(e) => {
            return Err(e);
        },
    };
    let decrypter = PasswordDecrypter::new(password);
    match decrypter.decrypt(content.as_slice()) {
        Ok(plain) => {
            let expected = verification_data();
            if crate::token::compare_bytes(&plain, &expected) {
                Ok(decrypter)
            } else {
                Err(VaultError::IncorrectPassword)
            }
        },
        Err(_) => Err(VaultError::IncorrectPassword),
    }
}

/// Verification only, without extraction: whether the archive's own token
/// accepts `password`.  A structurally broken archive is an error, a wrong
/// password is plain `false`.
pub fn check_zip_password(archive_bytes: Vec<u8>, password: &str) -> (r: Result<bool, VaultError>)
    ensures
        zip_parse(archive_bytes@) is Some ==> r is Ok,
        !zip_headers_ok(archive_bytes@) ==> r is Err,
        r matches Ok(b) ==> (zip_parse(archive_bytes@) is Some ==> {
            let es = zip_parse(archive_bytes@)->0;
            &&& b ==> exists|k: int|
                0 <= k < es.len() && es[k].0 == ".vault-key"@ && token_accepts(
                    es[k].2,
                    password@,
                )
            &&& !b ==> ((forall|k: int| 0 <= k < es.len() ==> es[k].0 != ".vault-key"@) || (
            exists|k: int|
                0 <= k < es.len() && es[k].0 == ".vault-key"@ && !token_accepts(
                    es[k].2,
                    password@,
                )))
        }),
        r matches Err(e) ==> e is Error,
{
    let ghost ab = archive_bytes@;
    let mut a = match za_open(archive_bytes) {
        Ok(a) => a,
        Err(e) => {
            return Err(e);
        },
    };
    let ghost es = archive_entries(a);
    proof {
        if zip_parse(ab) is Some {
            assert(zip_parse(ab)->0 == es);
            assert(archive_readable(a));
        }
    }
    match verify_and_get_decrypter(&mut a, password) {
        Ok(_) => Ok(true),
        Err(e) => {
            if e.is_incorrect_password() {
                Ok(false)
            } else {
                Err(e)
            }
        },
    }
}

/// Whether the archive carries its own token and that token is not the bare
/// verification constant: such an archive needs a password to be read
/// meaningfully.
pub fn check_zip_encrypted(archive_bytes: Vec<u8>) -> (r: Result<bool, VaultError>)
    ensures
        zip_parse(archive_bytes@) is Some ==> r is Ok,
        !zip_headers_ok(archive_bytes@) ==> r is Err,
        r matches Ok(b) ==> (zip_parse(archive_bytes@) is Some ==> {
            let es = zip_parse(archive_bytes@)->0;
            &&& b ==> exists|k: int|
                0 <= k < es.len() && es[k].0 == ".vault-key"@ && es[k].2
                    != verification_data_spec()
            &&& !b ==> ((forall|k: int| 0 <= k < es.len() ==> es[k].0 != ".vault-key"@) || (
            exists|k: int|
                0 <= k < es.len() && es[k].0 == ".vault-key"@ && es[k].2
                    == verification_data_spec()))
        }),
        r matches Err(e) ==> e is Error,
{
    let ghost ab = archive_bytes@;
    let mut a = match za_open(archive_bytes) {
        Ok(a) => a,
        Err(e) => {
            return Err(e);
        },
    };
    let ghost es = archive_entries(a);
    proof {
        if zip_parse(ab) is Some {
            assert(zip_parse(ab)->0 == es);
            assert(archive_readable(a));
        }
    }
    match za_read_by_name(&mut a, ".vault-key") {
        Ok(Some(content)) => {
            let expected = verification_data();
            Ok(!crate::token::compare_bytes(&content, &expected))
        },
        Ok(None) => Ok(false),
        Err(e) => Err(e),
    }
}

/// Whether a file entry of an archive is restored: not the archive's own
/// token and not inside a hidden sidecar directory.
pub open spec fn restored_file_entry(e: (Seq<char>, bool, Seq<u8>)) -> bool {
    &&& !e.1
    &&& e.0 != ".vault-key"@
    &&& has_slash(e.0) ==> (name_of(parent_of(e.0)) != ".hash"@ && name_of(parent_of(e.0))
        != ".thumbs"@)
}

/// The plaintext a restore recovers from an entry's bytes: decrypted with
/// the supplied password's derived key when one was given, the bytes
/// themselves otherwise.
pub open spec fn restore_plain(password: Option<Seq<char>>, data: Seq<u8>) -> Seq<u8> {
    match password {
        Some(pw) => match aes_dec(key_of(pw), iv_of(pw), data) {
            Some(p) => p,
            None => Seq::empty(),
        },
        None => data,
    }
}

/// The optional password as a character sequence.
pub open spec fn pw_view(password: Option<&str>) -> Option<Seq<char>> {
    match password {
        Some(p) => Some(p@),
        None => None,
    }
}

/// Sidecar paths of a stored media name sit in hidden directories.
proof fn lemma_sidecar_parent_names(dir: Seq<char>, name: Seq<char>)
    requires
        forall|i: int| 0 <= i < name.len() ==> name[i] != '/',
    ensures
        has_slash(crate::vault::hash_sidecar(join_spec(dir, name))),
        has_slash(crate::vault::thumb_sidecar(join_spec(dir, name))),
        name_of(parent_of(crate::vault::hash_sidecar(join_spec(dir, name)))) == ".hash"@,
        name_of(parent_of(crate::vault::thumb_sidecar(join_spec(dir, name)))) == ".thumbs"@,
{
    reveal_strlit(".hash");
    reveal_strlit(".thumbs");
    let jp = join_spec(dir, name);
    crate::paths::lemma_join_split(dir, name);
    assert forall|i: int| 0 <= i < ".hash"@.len() implies ".hash"@[i] != '/' by {}
    assert forall|i: int| 0 <= i < ".thumbs"@.len() implies ".thumbs"@[i] != '/' by {}
    crate::paths::lemma_join_split(join_spec(dir, ".hash"@), name);
    crate::paths::lemma_join_split(join_spec(dir, ".thumbs"@), name);
    crate::paths::lemma_join_split(dir, ".hash"@);
    crate::paths::lemma_join_split(dir, ".thumbs"@);
}

/// The directory a restored file entry lands in: the same album path below
/// the destination root, or the root itself for a top-level entry.
pub open spec fn restore_dir_of(dest_root: Seq<char>, ename: Seq<char>) -> Seq<char> {
    if has_slash(ename) && parent_of(ename).len() > 0 {
        join_spec(dest_root, parent_of(ename))
    } else {
        dest_root
    }
}

/// A stored directory entry's name without its trailing slash.
pub open spec fn dir_entry_name(ename: Seq<char>) -> Seq<char> {
    if ename.len() > 0 && ename[ename.len() - 1] == '/' {
        ename.take(ename.len() - 1)
    } else {
        ename
    }
}

/// Whether a directory entry of an archive is recreated on restore: a
/// directory with a nonempty final name that is not a hidden sidecar
/// directory.
pub open spec fn restored_dir_entry(e: (Seq<char>, bool, Seq<u8>)) -> bool {
    &&& e.1
    &&& name_of(dir_entry_name(e.0)).len() > 0
    &&& name_of(dir_entry_name(e.0)) != ".hash"@
    &&& name_of(dir_entry_name(e.0)) != ".thumbs"@
}

/// Whether `p` is a file that restoring the entry `e` created: a fresh
/// primary file in the entry's album below the destination, holding the
/// entry's plaintext re-encrypted under the live session key, with both
/// sidecars freshly derived by the cache pipeline for media payloads.
pub open spec fn restored_at(
    v: &Vault,
    old_v: &Vault,
    km: &KeyManager,
    dest_root: Seq<char>,
    pw: Option<Seq<char>>,
    e: (Seq<char>, bool, Seq<u8>),
    p: Seq<char>,
) -> bool {
    &&& under_eq(dest_root, p)
    &&& has_slash(p)
    &&& parent_of(p) == restore_dir_of(dest_root, e.0)
    &&& name_of(parent_of(p)) != ".hash"@
    &&& name_of(parent_of(p)) != ".thumbs"@
    &&& old_v.file_at(p) is None
    &&& v.file_at(p) == Some(crate::crypto::session_enc(km, restore_plain(pw, e.2)))
    &&& (!(classify(restore_plain(pw, e.2)) is Other) ==> v.file_at(
        crate::vault::hash_sidecar(p),
    ) == Some(
        crate::crypto::session_enc(km, sidecar_entry_of(restore_plain(pw, e.2), 2, 2)),
    ) && v.file_at(crate::vault::thumb_sidecar(p)) == Some(
        crate::crypto::session_enc(km, thumb_bytes_of(restore_plain(pw, e.2))),
    ))
}

/// What a successful restore guarantees of the destination for every
/// restored file entry of the archive.
pub open spec fn restore_places_entries(
    v: &Vault,
    old_v: &Vault,
    km: &KeyManager,
    dest_root: Seq<char>,
    pw: Option<Seq<char>>,
    es: Seq<(Seq<char>, bool, Seq<u8>)>,
) -> bool {
    forall|k: int|
        #![trigger es[k]]
        0 <= k < es.len() && restored_file_entry(es[k]) ==> exists|p: Seq<char>|
            #![trigger v.file_at(p)]
            restored_at(v, old_v, km, dest_root, pw, es[k], p)
}

/// Two different non-hidden primary paths never collide with each other's
/// sidecar paths, nor their sidecars with one another.
proof fn lemma_disjoint_writes(p: Seq<char>, q: Seq<char>)
    requires
        has_slash(p),
        has_slash(q),
        name_of(parent_of(p)) != ".hash"@,
        name_of(parent_of(p)) != ".thumbs"@,
        name_of(parent_of(q)) != ".hash"@,
        name_of(parent_of(q)) != ".thumbs"@,
        p != q,
    ensures
        p != q,
        p != crate::vault::hash_sidecar(q),
        p != crate::vault::thumb_sidecar(q),
        crate::vault::hash_sidecar(p) != q,
        crate::vault::hash_sidecar(p) != crate::vault::hash_sidecar(q),
        crate::vault::hash_sidecar(p) != crate::vault::thumb_sidecar(q),
        crate::vault::thumb_sidecar(p) != q,
        crate::vault::thumb_sidecar(p) != crate::vault::hash_sidecar(q),
        crate::vault::thumb_sidecar(p) != crate::vault::thumb_sidecar(q),
{
    reveal_strlit(".hash");
    reveal_strlit(".thumbs");
    crate::paths::lemma_split_join(p);
    crate::paths::lemma_split_join(q);
    lemma_sidecar_parent_names(parent_of(p), name_of(p));
    lemma_sidecar_parent_names(parent_of(q), name_of(q));
    assert(crate::vault::hash_sidecar(p) == crate::vault::hash_sidecar(
        join_spec(parent_of(p), name_of(p)),
    ));
    crate::paths::lemma_join_split(join_spec(parent_of(p), ".hash"@), name_of(p));
    crate::paths::lemma_join_split(join_spec(parent_of(q), ".hash"@), name_of(q));
    crate::paths::lemma_join_split(join_spec(parent_of(p), ".thumbs"@), name_of(p));
    crate::paths::lemma_join_split(join_spec(parent_of(q), ".thumbs"@), name_of(q));
    if crate::vault::hash_sidecar(p) == crate::vault::hash_sidecar(q) {
        assert(join_spec(parent_of(p), ".hash"@) == join_spec(parent_of(q), ".hash"@));
        assert(parent_of(p).len() == parent_of(q).len());
        assert forall|ii: int| 0 <= ii < parent_of(p).len() implies parent_of(p)[ii]
            == parent_of(q)[ii] by {
            assert(join_spec(parent_of(p), ".hash"@)[ii] == parent_of(p)[ii]);
            assert(join_spec(parent_of(q), ".hash"@)[ii] == parent_of(q)[ii]);
        }
        assert(parent_of(p) =~= parent_of(q));
        assert(p == q);
    }
    if crate::vault::thumb_sidecar(p) == crate::vault::thumb_sidecar(q) {
        assert(join_spec(parent_of(p), ".thumbs"@) == join_spec(parent_of(q), ".thumbs"@));
        assert(parent_of(p).len() == parent_of(q).len());
        assert forall|ii: int| 0 <= ii < parent_of(p).len() implies parent_of(p)[ii]
            == parent_of(q)[ii] by {
            assert(join_spec(parent_of(p), ".thumbs"@)[ii] == parent_of(p)[ii]);
            assert(join_spec(parent_of(q), ".thumbs"@)[ii] == parent_of(q)[ii]);
        }
        assert(parent_of(p) =~= parent_of(q));
        assert(p == q);
    }
}

/// A file restored earlier survives a later restore step untouched: the
/// later step writes only its own fresh primary path and that path's two
/// sidecars, all disjoint from the earlier file's.
proof fn lemma_restored_at_frame(
    pre: &Vault,
    post: &Vault,
    old_v: &Vault,
    km: &KeyManager,
    dest_root: Seq<char>,
    pw: Option<Seq<char>>,
    e: (Seq<char>, bool, Seq<u8>),
    p: Seq<char>,
    jp: Seq<char>,
)
    requires
        restored_at(pre, old_v, km, dest_root, pw, e, p),
        has_slash(jp),
        name_of(parent_of(jp)) != ".hash"@,
        name_of(parent_of(jp)) != ".thumbs"@,
        pre.file_at(jp) is None,
        forall|q: Seq<char>|
            q != jp && q != crate::vault::hash_sidecar(jp) && q != crate::vault::thumb_sidecar(
                jp,
            ) ==> #[trigger] post.file_at(q) == pre.file_at(q),
    ensures
        restored_at(post, old_v, km, dest_root, pw, e, p),
{
    assert(p != jp);
    lemma_disjoint_writes(p, jp);
    assert(post.file_at(p) == pre.file_at(p));
    assert(post.file_at(crate::vault::hash_sidecar(p)) == pre.file_at(
        crate::vault::hash_sidecar(p),
    ));
    assert(post.file_at(crate::vault::thumb_sidecar(p)) == pre.file_at(
        crate::vault::thumb_sidecar(p),
    ));
}

/// Opens the archive, verifies the supplied password against its own token
/// before touching any payload, then recreates directories and funnels
/// every restored file through `save_file` under `dest_root`: each restored
/// entry lands as a fresh file in its own album below the destination,
/// re-encrypted under the live session key, with its sidecars regenerated
/// by the cache pipeline; the archive's own token and sidecar entries are
/// not copied.  A rejected password aborts before any payload is touched.
/// The destination root must not itself carry a reserved hidden name.
#[verifier::rlimit(100)]
pub fn restore_backup(
    vault: &mut Vault,
    km: &KeyManager,
    archive_bytes: Vec<u8>,
    dest_root: &str,
    password: Option<&str>,
) -> (r: Result<(), VaultError>)
    requires
        name_of(dest_root@) != ".hash"@,
        name_of(dest_root@) != ".thumbs"@,
    ensures
        r is Ok ==> forall|p: Seq<char>|
            (#[trigger] old(vault).file_at(p) is Some && (!has_slash(p) || (name_of(parent_of(p))
                != ".hash"@ && name_of(parent_of(p)) != ".thumbs"@))) ==> final(vault).file_at(p)
                == old(vault).file_at(p),
        r is Ok && zip_parse(archive_bytes@) is Some ==> restore_places_entries(
            final(vault),
            old(vault),
            km,
            dest_root@,
            pw_view(password),
            zip_parse(archive_bytes@)->0,
        ),
        r is Ok && zip_parse(archive_bytes@) is Some ==> forall|k: int|
            #![trigger zip_parse(archive_bytes@)->0[k]]
            0 <= k < zip_parse(archive_bytes@)->0.len() && restored_dir_entry(
                zip_parse(archive_bytes@)->0[k],
            ) ==> final(vault).has_dir(
                join_spec(dest_root@, dir_entry_name(zip_parse(archive_bytes@)->0[k].0)),
            ),
        r is Ok && password is Some && zip_parse(archive_bytes@) is Some ==> exists|k: int|
            0 <= k < zip_parse(archive_bytes@)->0.len()
                && #[trigger] zip_parse(archive_bytes@)->0[k].0 == ".vault-key"@ && token_accepts(
                zip_parse(archive_bytes@)->0[k].2,
                password->0@,
            ),
        r matches Err(e) ==> e is Error || (e is IncorrectPassword && password is Some),
        r matches Err(e) && e is IncorrectPassword ==> *final(vault) == *old(vault),
        password matches Some(pw) && zip_parse(archive_bytes@) is Some && ((forall|k: int|
            0 <= k < zip_parse(archive_bytes@)->0.len()
                ==> #[trigger] zip_parse(archive_bytes@)->0[k].0 != ".vault-key"@) || (forall|
            k: int,
        |
            0 <= k < zip_parse(archive_bytes@)->0.len()
                && #[trigger] zip_parse(archive_bytes@)->0[k].0 == ".vault-key"@
                ==> !token_accepts(zip_parse(archive_bytes@)->0[k].2, pw@))) ==> (r matches Err(e)
            && e is IncorrectPassword),
{
    let ghost ab = archive_bytes@;
    let mut a = match za_open(archive_bytes) {
        Ok(a) => a,
        Err(e) => {
            return Err(e);
        },
    };
    let ghost es = archive_entries(a);
    proof {
        if zip_parse(ab) is Some {
            assert(zip_parse(ab)->0 == es);
            assert(archive_readable(a));
        }
    }
    let decrypter: Option<PasswordDecrypter> = match password {
        Some(pw) => {
            match verify_and_get_decrypter(&mut a, pw) {
                Ok(d) => {
                    proof {
                        if zip_parse(ab) is Some {
                            assert(exists|k: int|
                                0 <= k < zip_parse(ab)->0.len()
                                    && #[trigger] zip_parse(ab)->0[k].0 == ".vault-key"@
                                    && token_accepts(zip_parse(ab)->0[k].2, pw@)) by {
                                let k = choose|k: int|
                                    0 <= k < es.len() && es[k].0 == ".vault-key"@
                                        && token_accepts(es[k].2, pw@);
                            }
                        }
                    }
                    Some(d)
                },
                Err(e) => {
                    return Err(e);
                },
            }
        },
        None => None,
    };
    let hash_name = String::from_str(".hash");
    let thumbs_name = String::from_str(".thumbs");
    let token_name = String::from_str(".vault-key");
    let n = za_len(&a);
    let mut i: usize = 0;
    while i < n
        invariant
            0 <= i <= n,
            n == es.len(),
            ab == archive_bytes@,
            es == archive_entries(a),
            zip_parse(ab) is Some ==> Some(es) == zip_parse(ab),
            hash_name@ == ".hash"@,
            thumbs_name@ == ".thumbs"@,
            token_name@ == ".vault-key"@,
            name_of(dest_root@) != ".hash"@,
            name_of(dest_root@) != ".thumbs"@,
            match password {
                Some(pw) => decrypter matches Some(d) && d.holds_key_of(pw@),
                None => decrypter is None,
            },
            password matches Some(pw) ==> (zip_parse(ab) is Some ==> exists|k: int|
                0 <= k < zip_parse(ab)->0.len() && #[trigger] zip_parse(ab)->0[k].0
                    == ".vault-key"@ && token_accepts(zip_parse(ab)->0[k].2, pw@)),
            forall|p: Seq<char>|
                (#[trigger] old(vault).file_at(p) is Some && (!has_slash(p) || (name_of(
                    parent_of(p),
                ) != ".hash"@ && name_of(parent_of(p)) != ".thumbs"@))) ==> vault.file_at(p)
                    == old(vault).file_at(p),
            forall|k: int|
                #![trigger es[k]]
                0 <= k < i && restored_file_entry(es[k]) ==> exists|p: Seq<char>|
                    #![trigger vault.file_at(p)]
                    restored_at(vault, old(vault), km, dest_root@, pw_view(password), es[k], p),
            forall|k: int|
                #![trigger es[k]]
                0 <= k < i && restored_dir_entry(es[k]) ==> vault.has_dir(
                    join_spec(dest_root@, dir_entry_name(es[k].0)),
                ),
        decreases n - i,
    {
        let entry = match za_entry_at(&mut a, i) {
            Ok(e) => e,
            Err(e) => {
                return Err(e);
            },
        };
        let (ename, is_dir, data) = entry;
        if is_dir {
            proof {
                assert(!restored_file_entry(es[i as int]));
            }
            let elen = ename.as_str().unicode_len();
            let stripped: String = if elen > 0 && ename.as_str().get_char(elen - 1) == '/' {
                ename.as_str().substring_char(0, elen - 1).to_owned()
            } else {
                ename
            };
            proof {
                assert(stripped@ == dir_entry_name(es[i as int].0));
            }
            let lc = last_component(&stripped);
            if !(lc == hash_name) && !(lc == thumbs_name) && lc.as_str().unicode_len() > 0 {
                let ghost pre = *vault;
                let target = join(dest_root, stripped.as_str());
                vault.dir_insert(target);
                proof {
                    assert(vault.has_dir(join_spec(dest_root@, dir_entry_name(es[i as int].0))));
                    assert forall|k: int|
                        #![trigger es[k]]
                        0 <= k < i + 1 && restored_file_entry(es[k]) implies exists|
                        p: Seq<char>,
                    |
                        #![trigger vault.file_at(p)]
                        restored_at(
                            vault,
                            old(vault),
                            km,
                            dest_root@,
                            pw_view(password),
                            es[k],
                            p,
                        ) by {
                        let p = choose|p: Seq<char>|
                            #![trigger pre.file_at(p)]
                            restored_at(
                                &pre,
                                old(vault),
                                km,
                                dest_root@,
                                pw_view(password),
                                es[k],
                                p,
                            );
                        assert(vault.file_at(p) == pre.file_at(p));
                        assert(vault.file_at(crate::vault::hash_sidecar(p)) == pre.file_at(
                            crate::vault::hash_sidecar(p),
                        ));
                        assert(vault.file_at(crate::vault::thumb_sidecar(p)) == pre.file_at(
                            crate::vault::thumb_sidecar(p),
                        ));
                        assert(restored_at(
                            vault,
                            old(vault),
                            km,
                            dest_root@,
                            pw_view(password),
                            es[k],
                            p,
                        ));
                    }
                }
            } else {
                proof {
                    assert(!restored_dir_entry(es[i as int]));
                }
            }
        } else {
            proof {
                assert(!restored_dir_entry(es[i as int]));
            }
            let mut skip = ename == token_name;
            proof {
                if skip {
                    assert(!restored_file_entry(es[i as int]));
                }
            }
            if !skip {
                match split_path(ename.as_str()) {
                    Some((parent, _)) => {
                        let pn = last_component(&parent);
                        if pn == hash_name || pn == thumbs_name {
                            skip = true;
                            proof {
                                assert(!restored_file_entry(es[i as int]));
                            }
                        }
                    },
                    None => {},
                }
            }
            if !skip {
                let plain: Vec<u8> = match &decrypter {
                    Some(d) => {
                        match d.decrypt(data.as_slice()) {
                            Ok(p) => p,
                            Err(e) => {
                                return Err(e);
                            },
                        }
                    },
                    None => data,
                };
                let target_dir: String = match split_path(ename.as_str()) {
                    Some((parent, _)) => {
                        if parent.as_str().unicode_len() > 0 {
                            proof {
                                crate::paths::lemma_name_of_join(dest_root@, parent@);
                                crate::paths::lemma_name_len_bounds(ename@);
                            }
                            join(dest_root, parent.as_str())
                        } else {
                            dest_root.to_owned()
                        }
                    },
                    None => dest_root.to_owned(),
                };
                proof {
                    crate::paths::lemma_under_join(
                        dest_root@,
                        dest_root@,
                        crate::paths::parent_of(ename@),
                    );
                }
                let ghost pre = *vault;
                let name = match save_file(vault, km, plain, target_dir) {
                    Ok(nm) => nm,
                    Err(e) => {
                        return Err(e);
                    },
                };
                proof {
                    let td = restore_dir_of(dest_root@, ename@);
                    assert(td == target_dir@);
                    let jp = join_spec(td, name@);
                    crate::paths::lemma_join_split(td, name@);
                    lemma_sidecar_parent_names(td, name@);
                    crate::vault::lemma_sidecars_distinct(jp);
                    crate::paths::lemma_under_join(dest_root@, td, name@);
                    assert(name_of(td) != ".hash"@ && name_of(td) != ".thumbs"@);
                    assert(pre.file_at(jp) is None);
                    assert(old(vault).file_at(jp) is None) by {
                        if old(vault).file_at(jp) is Some {
                            assert(pre.file_at(jp) == old(vault).file_at(jp));
                        }
                    }
                    let ghost pl = restore_plain(pw_view(password), es[i as int].2);
                    assert(pl == plain@);
                    assert(vault.file_at(jp) == Some(crate::crypto::session_enc(km, pl)));
                    assert(!(classify(pl) is Other) ==> vault.file_at(
                        crate::vault::hash_sidecar(jp),
                    ) == Some(crate::crypto::session_enc(km, sidecar_entry_of(pl, 2, 2)))
                        && vault.file_at(crate::vault::thumb_sidecar(jp)) == Some(
                        crate::crypto::session_enc(km, thumb_bytes_of(pl)),
                    ));
                    assert(restored_at(
                        vault,
                        old(vault),
                        km,
                        dest_root@,
                        pw_view(password),
                        es[i as int],
                        jp,
                    ));
                    assert forall|k: int|
                        #![trigger es[k]]
                        0 <= k < i + 1 && restored_file_entry(es[k]) implies exists|
                        p: Seq<char>,
                    |
                        #![trigger vault.file_at(p)]
                        restored_at(
                            vault,
                            old(vault),
                            km,
                            dest_root@,
                            pw_view(password),
                            es[k],
                            p,
                        ) by {
                        if k < i {
                            let p = choose|p: Seq<char>|
                                #![trigger pre.file_at(p)]
                                restored_at(
                                    &pre,
                                    old(vault),
                                    km,
                                    dest_root@,
                                    pw_view(password),
                                    es[k],
                                    p,
                                );
                            lemma_restored_at_frame(
                                &pre,
                                vault,
                                old(vault),
                                km,
                                dest_root@,
                                pw_view(password),
                                es[k],
                                p,
                                jp,
                            );
                            assert(vault.file_at(p) is Some);
                        } else {
                            assert(vault.file_at(jp) is Some);
                        }
                    }
                }
            }
        }
        i = i + 1;
    }
    Ok(())
}

} // verus!
