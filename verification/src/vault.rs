use vstd::prelude::*;

use crate::crypto::{decrypt_data, session_dec, KeyManager};
use crate::error::VaultError;
use crate::paths::{
    has_slash, in_dir, is_under, join, join_spec, name_of, parent_of, split_path, under_eq,
};
use crate::store::{DirTable, FileTable};

verus! {

/// The hash sidecar path of a primary file path: the same name inside the
/// hidden `.hash` directory beside it.
pub open spec fn hash_sidecar(p: Seq<char>) -> Seq<char> {
    join_spec(join_spec(parent_of(p), ".hash"@), name_of(p))
}

/// The thumbnail sidecar path of a primary file path: the same name inside
/// the hidden `.thumbs` directory beside it.
pub open spec fn thumb_sidecar(p: Seq<char>) -> Seq<char> {
    join_spec(join_spec(parent_of(p), ".thumbs"@), name_of(p))
}

/// A primary path and its two sidecar paths are three different paths: the
/// sidecar paths are longer by the hidden directory component.
pub proof fn lemma_sidecars_distinct(p: Seq<char>)
    requires
        has_slash(p),
    ensures
        hash_sidecar(p) != p,
        thumb_sidecar(p) != p,
        hash_sidecar(p) != thumb_sidecar(p),
{
    crate::paths::lemma_split_join(p);
    reveal_strlit(".hash");
    reveal_strlit(".thumbs");
    assert(p.len() == parent_of(p).len() + 1 + name_of(p).len());
    assert(hash_sidecar(p).len() == p.len() + 6);
    assert(thumb_sidecar(p).len() == p.len() + 8);
}

/// One vault: a tree of directories and stored (encrypted) files, addressed
/// by '/'-separated paths.
pub struct Vault {
    files: FileTable,
    dirs: DirTable,
}

impl Vault {
    /// The stored bytes under a path, if a file is there.
    pub closed spec fn file_at(&self, p: Seq<char>) -> Option<Seq<u8>> {
        self.files.look(p)
    }

    /// Whether a file is stored under a path.
    pub open spec fn has_file(&self, p: Seq<char>) -> bool {
        self.file_at(p) is Some
    }

    /// Whether a directory exists at a path.
    pub closed spec fn has_dir(&self, d: Seq<char>) -> bool {
        self.dirs.has(d)
    }

    /// The stored file paths, in storage order.
    pub closed spec fn file_list(&self) -> Seq<Seq<char>> {
        self.files.key_seq()
    }

    /// The directory paths, in storage order.
    pub closed spec fn dir_list(&self) -> Seq<Seq<char>> {
        self.dirs.dir_seq()
    }

    /// An empty vault: no files, no directories.
    pub fn new() -> (r: Vault)
        ensures
            forall|p: Seq<char>| #[trigger] r.file_at(p) is None,
            forall|d: Seq<char>| !(#[trigger] r.has_dir(d)),
            r.file_list().len() == 0,
            r.dir_list().len() == 0,
    {
        Vault { files: FileTable::new(), dirs: DirTable::new() }
    }

    /// Establishes that a stored path is listed, every listed path is
    /// stored, and listed paths never repeat.
    pub fn enumeration_facts(&self)
        ensures
            forall|p: Seq<char>|
                #[trigger] self.file_at(p) is Some <==> exists|i: int|
                    0 <= i < self.file_list().len() && self.file_list()[i] == p,
            forall|i: int|
                0 <= i < self.file_list().len() ==> #[trigger] self.file_at(self.file_list()[i])
                    is Some,
            forall|i: int, j: int|
                0 <= i < j < self.file_list().len() ==> self.file_list()[i] != self.file_list()[j],
            forall|i: int, j: int|
                0 <= i < j < self.dir_list().len() ==> self.dir_list()[i] != self.dir_list()[j],
            forall|i: int| 0 <= i < self.dir_list().len() ==> #[trigger] self.has_dir(self.dir_list()[i]),
            forall|d: Seq<char>|
                #[trigger] self.has_dir(d) ==> exists|i: int|
                    0 <= i < self.dir_list().len() && self.dir_list()[i] == d,
    {
        self.files.view_facts();
        self.dirs.view_facts();
    }

    /// How many files are stored.
    pub fn file_count(&self) -> (r: usize)
        ensures
            r == self.file_list().len(),
    {
        self.files.len()
    }

    /// The stored path at a position.
    pub fn file_nth_path(&self, i: usize) -> (r: &String)
        requires
            i < self.file_list().len(),
        ensures
            r@ == self.file_list()[i as int],
    {
        self.files.key_at(i)
    }

    /// The stored bytes at a position.
    pub fn file_nth_bytes(&self, i: usize) -> (r: &Vec<u8>)
        requires
            i < self.file_list().len(),
        ensures
            Some(r@) == self.file_at(self.file_list()[i as int]),
    {
        self.files.val_at(i)
    }

    /// How many directories exist.
    pub fn dir_count(&self) -> (r: usize)
        ensures
            r == self.dir_list().len(),
    {
        self.dirs.len()
    }

    /// The directory path at a position.
    pub fn dir_nth(&self, i: usize) -> (r: &String)
        requires
            i < self.dir_list().len(),
        ensures
            r@ == self.dir_list()[i as int],
            self.has_dir(r@),
    {
        self.dirs.dir_at(i)
    }

    /// The stored bytes under a path, or `None` when no file is there.
    pub fn file_get(&self, p: &String) -> (r: Option<&Vec<u8>>)
        ensures
            match r {
                Some(v) => self.file_at(p@) == Some(v@),
                None => self.file_at(p@) is None,
            },
    {
        self.files.get(p)
    }

    /// Whether a directory exists at `d`.
    pub fn dir_exists(&self, d: &String) -> (r: bool)
        ensures
            r == self.has_dir(d@),
    {
        self.dirs.contains(d)
    }

    /// Stores `bytes` under `p`, replacing any file already there.
    pub fn file_set(&mut self, p: String, bytes: Vec<u8>)
        ensures
            forall|q: Seq<char>|
                #[trigger] final(self).file_at(q) == (if q == p@ {
                    Some(bytes@)
                } else {
                    old(self).file_at(q)
                }),
            forall|d: Seq<char>| #[trigger] final(self).has_dir(d) == old(self).has_dir(d),
            final(self).dir_list() == old(self).dir_list(),
    {
        self.files.set(p, bytes);
    }

    /// Removes the file under `p`, handing back its stored bytes.
    pub fn file_remove(&mut self, p: &String) -> (r: Option<Vec<u8>>)
        ensures
            match r {
                Some(v) => old(self).file_at(p@) == Some(v@),
                None => old(self).file_at(p@) is None && *final(self) == *old(self),
            },
            forall|q: Seq<char>|
                #[trigger] final(self).file_at(q) == (if q == p@ {
                    None::<Seq<u8>>
                } else {
                    old(self).file_at(q)
                }),
            forall|d: Seq<char>| #[trigger] final(self).has_dir(d) == old(self).has_dir(d),
            final(self).dir_list() == old(self).dir_list(),
    {
        self.files.remove(p)
    }

    /// Removes the file at a position.
    pub fn file_remove_at(&mut self, i: usize)
        requires
            i < old(self).file_list().len(),
        ensures
            forall|q: Seq<char>|
                #[trigger] final(self).file_at(q) == (if q == old(self).file_list()[i as int] {
                    None::<Seq<u8>>
                } else {
                    old(self).file_at(q)
                }),
            final(self).file_list() == old(self).file_list().remove(i as int),
            forall|d: Seq<char>| #[trigger] final(self).has_dir(d) == old(self).has_dir(d),
            final(self).dir_list() == old(self).dir_list(),
    {
        self.files.remove_at(i);
    }

    /// Removes the directory at a position.
    pub fn dir_remove_at(&mut self, i: usize)
        requires
            i < old(self).dir_list().len(),
        ensures
            forall|q: Seq<char>|
                #[trigger] final(self).has_dir(q) == (old(self).has_dir(q) && q != old(
                    self,
                ).dir_list()[i as int]),
            final(self).dir_list() == old(self).dir_list().remove(i as int),
            forall|p: Seq<char>| #[trigger] final(self).file_at(p) == old(self).file_at(p),
            final(self).file_list() == old(self).file_list(),
    {
        self.dirs.remove_at(i);
    }

    /// Adds a directory at `d`; an already existing directory is left as is.
    pub fn dir_insert(&mut self, d: String)
        ensures
            forall|q: Seq<char>| #[trigger] final(self).has_dir(q) == (q == d@ || old(self).has_dir(q)),
            forall|p: Seq<char>| #[trigger] final(self).file_at(p) == old(self).file_at(p),
            final(self).file_list() == old(self).file_list(),
    {
        self.dirs.insert(d);
    }
}

fn find_file_under(vault: &Vault, dir: &String) -> (r: Option<usize>)
    ensures
        match r {
            Some(i) => i < vault.file_list().len() && under_eq(dir@, vault.file_list()[i as int]),
            None => forall|j: int|
                0 <= j < vault.file_list().len() ==> !under_eq(dir@, vault.file_list()[j]),
        },
{
    let n = vault.file_count();
    let mut i: usize = 0;
    while i < n
        invariant
            0 <= i <= n,
            n == vault.file_list().len(),
            forall|j: int| 0 <= j < i ==> !under_eq(dir@, vault.file_list()[j]),
        decreases n - i,
    {
        if is_under(dir.as_str(), vault.file_nth_path(i).as_str()) {
            return Some(i);
        }
        i = i + 1;
    }
    None
}

fn find_dir_under(vault: &Vault, dir: &String) -> (r: Option<usize>)
    ensures
        match r {
            Some(i) => i < vault.dir_list().len() && under_eq(dir@, vault.dir_list()[i as int]),
            None => forall|j: int|
                0 <= j < vault.dir_list().len() ==> !under_eq(dir@, vault.dir_list()[j]),
        },
{
    let n = vault.dir_count();
    let mut i: usize = 0;
    while i < n
        invariant
            0 <= i <= n,
            n == vault.dir_list().len(),
            forall|j: int| 0 <= j < i ==> !under_eq(dir@, vault.dir_list()[j]),
        decreases n - i,
    {
        if is_under(dir.as_str(), vault.dir_nth(i).as_str()) {
            return Some(i);
        }
        i = i + 1;
    }
    None
}

/// Creates the album directory `dir/album_name`, creating `dir` itself
/// first when it is absent; a directory that already exists is success, not
/// an error.
pub fn create_dir(vault: &mut Vault, dir: String, album_name: String) -> (r: Result<
    (),
    VaultError,
>)
    ensures
        r is Ok,
        forall|q: Seq<char>|
            #[trigger] final(vault).has_dir(q) == (q == dir@ || q == join_spec(dir@, album_name@)
                || old(vault).has_dir(q)),
        forall|p: Seq<char>| #[trigger] final(vault).file_at(p) == old(vault).file_at(p),
{
    let album_path = join(dir.as_str(), album_name.as_str());
    vault.dir_insert(dir);
    vault.dir_insert(album_path);
    Ok(())
}

/// Removes the directory at `dir` with everything beneath it: files and
/// subdirectories, sidecars included.  Fails when no such directory exists.
pub fn delete_dir(vault: &mut Vault, dir: &str) -> (r: Result<(), VaultError>)
    ensures
        r is Ok <==> old(vault).has_dir(dir@),
        r is Ok ==> forall|q: Seq<char>|
            #[trigger] final(vault).has_dir(q) == (old(vault).has_dir(q) && !under_eq(dir@, q)),
        r is Ok ==> forall|p: Seq<char>|
            #[trigger] final(vault).file_at(p) == (if under_eq(dir@, p) {
                None::<Seq<u8>>
            } else {
                old(vault).file_at(p)
            }),
        r matches Err(e) ==> e is Error && *final(vault) == *old(vault),
{
    let dir_s = dir.to_owned();
    if !vault.dir_exists(&dir_s) {
        return Err(VaultError::Error("No such directory".to_string()));
    }
    loop
        invariant
            forall|q: Seq<char>|
                !under_eq(dir_s@, q) ==> #[trigger] vault.has_dir(q) == old(vault).has_dir(q),
            forall|p: Seq<char>| #[trigger] vault.file_at(p) == old(vault).file_at(p),
        ensures
            forall|q: Seq<char>|
                !under_eq(dir_s@, q) ==> #[trigger] vault.has_dir(q) == old(vault).has_dir(q),
            forall|q: Seq<char>| under_eq(dir_s@, q) ==> !(#[trigger] vault.has_dir(q)),
            forall|p: Seq<char>| #[trigger] vault.file_at(p) == old(vault).file_at(p),
        decreases vault.dir_list().len(),
    {
        match find_dir_under(vault, &dir_s) {
            Some(i) => {
                vault.dir_remove_at(i);
            },
            None => {
                proof {
                    assert forall|q: Seq<char>| under_eq(dir_s@, q) implies !(
                    #[trigger] vault.has_dir(q)) by {
                        if vault.has_dir(q) {
                            let j = choose|j: int|
                                0 <= j < vault.dir_list().len() && vault.dir_list()[j] == q;
                        }
                    }
                }
                break;
            },
        }
    }
    loop
        invariant
            forall|q: Seq<char>|
                !under_eq(dir_s@, q) ==> #[trigger] vault.has_dir(q) == old(vault).has_dir(q),
            forall|q: Seq<char>| under_eq(dir_s@, q) ==> !(#[trigger] vault.has_dir(q)),
            forall|p: Seq<char>|
                !under_eq(dir_s@, p) ==> #[trigger] vault.file_at(p) == old(vault).file_at(p),
        ensures
            forall|q: Seq<char>|
                !under_eq(dir_s@, q) ==> #[trigger] vault.has_dir(q) == old(vault).has_dir(q),
            forall|q: Seq<char>| under_eq(dir_s@, q) ==> !(#[trigger] vault.has_dir(q)),
            forall|p: Seq<char>|
                #[trigger] vault.file_at(p) == (if under_eq(dir_s@, p) {
                    None::<Seq<u8>>
                } else {
                    old(vault).file_at(p)
                }),
        decreases vault.file_list().len(),
    {
        match find_file_under(vault, &dir_s) {
            Some(i) => {
                vault.file_remove_at(i);
            },
            None => {
                vault.enumeration_facts();
                proof {
                    assert forall|p: Seq<char>| under_eq(dir_s@, p) implies vault.file_at(p)
                        is None by {
                        if vault.file_at(p) is Some {
                            let j = choose|j: int|
                                0 <= j < vault.file_list().len() && vault.file_list()[j] == p;
                        }
                    }
                }
                break;
            },
        }
    }
    Ok(())
}

fn vec_contains_name(v: &Vec<String>, s: &String) -> (r: bool)
    ensures
        r == (exists|a: int| 0 <= a < v@.len() && v@[a]@ == s@),
{
    let n = v.len();
    let mut i: usize = 0;
    while i < n
        invariant
            0 <= i <= n,
            n == v@.len(),
            forall|a: int| 0 <= a < i ==> v@[a]@ != s@,
        decreases n - i,
    {
        if v[i] == *s {
            assert(v@[i as int]@ == s@);
            return true;
        }
        i = i + 1;
    }
    false
}

/// Extracts the name under which `p` stands directly inside `dir`, if it
/// does.
pub(crate) fn direct_child_name(dir: &String, p: &str) -> (r: Option<String>)
    ensures
        match r {
            Some(n) => in_dir(dir@, p@) && n@ == name_of(p@),
            None => !in_dir(dir@, p@),
        },
{
    match split_path(p) {
        Some((parent, name)) => {
            if parent == *dir && name.as_str().unicode_len() > 0 {
                Some(name)
            } else {
                None
            }
        },
        None => None,
    }
}

/// Collects the names of the direct subdirectories of `dir`, each once.
#[verifier::rlimit(100)]
fn child_names(vault: &Vault, dir: &String) -> (names: Vec<String>)
    ensures
        forall|a: int|
            0 <= a < names@.len() ==> #[trigger] vault.has_dir(join_spec(dir@, names@[a]@)),
        forall|d: Seq<char>|
            #[trigger] vault.has_dir(d) && in_dir(dir@, d) ==> exists|a: int|
                0 <= a < names@.len() && names@[a]@ == name_of(d),
        forall|a: int, b: int| 0 <= a < b < names@.len() ==> names@[a]@ != names@[b]@,
{
    vault.enumeration_facts();
    let mut names: Vec<String> = Vec::new();
    let n = vault.dir_count();
    let mut i: usize = 0;
    while i < n
        invariant
            0 <= i <= n,
            n == vault.dir_list().len(),
            forall|a: int|
                #![trigger names@[a]]
                0 <= a < names@.len() ==> vault.has_dir(join_spec(dir@, names@[a]@)),
            forall|a: int, b: int| 0 <= a < b < names@.len() ==> names@[a]@ != names@[b]@,
            forall|j: int|
                0 <= j < i && in_dir(dir@, #[trigger] vault.dir_list()[j]) ==> exists|a: int|
                    0 <= a < names@.len() && names@[a]@ == name_of(vault.dir_list()[j]),
        decreases n - i,
    {
        let d = vault.dir_nth(i);
        match direct_child_name(dir, d.as_str()) {
            Some(name) => {
                proof {
                    crate::paths::lemma_split_join(vault.dir_list()[i as int]);
                }
                if !vec_contains_name(&names, &name) {
                    let ghost pre_names = names@;
                    names.push(name);
                    proof {
                        assert forall|a: int|
                            #![trigger names@[a]]
                            0 <= a < names@.len() implies vault.has_dir(
                            join_spec(dir@, names@[a]@),
                        ) by {
                            if a < pre_names.len() {
                                assert(names@[a] == pre_names[a]);
                            } else {
                                assert(join_spec(dir@, names@[a]@) == vault.dir_list()[i as int]);
                            }
                        }
                        assert forall|a: int, b: int|
                            0 <= a < b < names@.len() implies names@[a]@ != names@[b]@ by {
                            assert(names@[a] == pre_names[a]);
                            if b < names@.len() - 1 {
                                assert(names@[b] == pre_names[b]);
                            }
                        }
                        assert forall|j: int|
                            0 <= j < i + 1 && in_dir(
                                dir@,
                                #[trigger] vault.dir_list()[j],
                            ) implies exists|a: int|
                            0 <= a < names@.len() && names@[a]@ == name_of(
                                vault.dir_list()[j],
                            ) by {
                            if j < i {
                                let a = choose|a: int|
                                    0 <= a < pre_names.len() && pre_names[a]@ == name_of(
                                        vault.dir_list()[j],
                                    );
                                assert(names@[a] == pre_names[a]);
                                assert(names@[a]@ == name_of(vault.dir_list()[j]));
                            } else {
                                assert(names@[names@.len() - 1]@ == name_of(
                                    vault.dir_list()[j],
                                ));
                            }
                        }
                    }
                } else {
                    proof {
                        assert forall|j: int|
                            0 <= j < i + 1 && in_dir(
                                dir@,
                                #[trigger] vault.dir_list()[j],
                            ) implies exists|a: int|
                            0 <= a < names@.len() && names@[a]@ == name_of(
                                vault.dir_list()[j],
                            ) by {
                            if j == i {
                                let a = choose|a: int|
                                    0 <= a < names@.len() && names@[a]@ == name@;
                                assert(names@[a]@ == name_of(vault.dir_list()[j]));
                            }
                        }
                    }
                }
            },
            None => {},
        }
        i = i + 1;
    }
    proof {
        assert forall|d: Seq<char>|
            #[trigger] vault.has_dir(d) && in_dir(dir@, d) implies exists|a: int|
            0 <= a < names@.len() && names@[a]@ == name_of(d) by {
            let j = choose|j: int| 0 <= j < vault.dir_list().len() && vault.dir_list()[j] == d;
        }
    }
    names
}

/// Lists the names of the direct subdirectories of `dir`.  A missing `dir`
/// is first-run bootstrap: it is created and the listing is empty.
#[verifier::rlimit(100)]
#[verifier::spinoff_prover]
pub fn get_dirs(vault: &mut Vault, dir: &str) -> (r: Result<Vec<String>, VaultError>)
    ensures
        forall|q: Seq<char>| #[trigger] final(vault).has_dir(q) == (q == dir@ || old(vault).has_dir(q)),
        forall|p: Seq<char>| #[trigger] final(vault).file_at(p) == old(vault).file_at(p),
        r is Ok,
        old(vault).has_dir(dir@) ==> forall|i: int|
            0 <= i < r->Ok_0@.len() ==> #[trigger] old(vault).has_dir(
                join_spec(dir@, r->Ok_0@[i]@),
            ),
        old(vault).has_dir(dir@) ==> forall|d: Seq<char>|
            old(vault).has_dir(d) && #[trigger] in_dir(dir@, d) ==> exists|i: int|
                0 <= i < r->Ok_0@.len() && r->Ok_0@[i]@ == name_of(d),
        forall|i: int, j: int| 0 <= i < j < r->Ok_0@.len() ==> r->Ok_0@[i]@ != r->Ok_0@[j]@,
        !old(vault).has_dir(dir@) ==> r->Ok_0@.len() == 0,
{
    let dir_s = dir.to_owned();
    if vault.dir_exists(&dir_s) {
        let names = child_names(vault, &dir_s);
        proof {
            assert forall|i: int| 0 <= i < names@.len() implies #[trigger] old(vault).has_dir(
                join_spec(dir@, names@[i]@),
            ) by {
                assert(vault.has_dir(join_spec(dir_s@, names@[i]@)));
            }
            assert forall|d: Seq<char>|
                old(vault).has_dir(d) && #[trigger] in_dir(dir@, d) implies exists|i: int|
                0 <= i < names@.len() && names@[i]@ == name_of(d) by {
                assert(vault.has_dir(d) && in_dir(dir_s@, d));
                let i = choose|i: int| 0 <= i < names@.len() && names@[i]@ == name_of(d);
            }
        }
        vault.dir_insert(dir_s);
        let ghost gnames = names@;
        let res: Result<Vec<String>, VaultError> = Ok(names);
        proof {
            assert(res->Ok_0@ == gnames);
            assert forall|d: Seq<char>|
                old(vault).has_dir(d) && #[trigger] in_dir(dir@, d) implies exists|i: int|
                0 <= i < res->Ok_0@.len() && res->Ok_0@[i]@ == name_of(d) by {
                let i = choose|i: int| 0 <= i < gnames.len() && gnames[i]@ == name_of(d);
                assert(res->Ok_0@[i]@ == name_of(d));
            }
        }
        res
    } else {
        proof {
            assert(!old(vault).has_dir(dir@));
        }
        vault.dir_insert(dir_s);
        Ok(Vec::new())
    }
}

/// Reads the file at `path` and decrypts it with the session key, returning
/// the whole plaintext.
pub fn get_file(vault: &Vault, km: &KeyManager, path: &str) -> (r: Result<Vec<u8>, VaultError>)
    ensures
        match r {
            Ok(p) => vault.file_at(path@) is Some && km.is_unlocked() && session_dec(
                km,
                vault.file_at(path@)->0,
            ) == Some(p@),
            Err(e) => e is Error && (vault.file_at(path@) is None || !km.is_unlocked()
                || session_dec(km, vault.file_at(path@)->0) is None),
        },
{
    let path_s = path.to_owned();
    match vault.file_get(&path_s) {
        Some(bytes) => decrypt_data(km, bytes.as_slice()),
        None => Err(VaultError::Error("No such file".to_string())),
    }
}

/// Reads and decrypts the thumbnail sidecar of the file at `path`.
pub fn get_file_thumb(vault: &Vault, km: &KeyManager, path: &str) -> (r: Result<
    Vec<u8>,
    VaultError,
>)
    ensures
        match r {
            Ok(p) => has_slash(path@) && vault.file_at(thumb_sidecar(path@)) is Some
                && km.is_unlocked() && session_dec(
                km,
                vault.file_at(thumb_sidecar(path@))->0,
            ) == Some(p@),
            Err(e) => e is Error && (!has_slash(path@) || vault.file_at(thumb_sidecar(path@))
                is None || !km.is_unlocked() || session_dec(
                km,
                vault.file_at(thumb_sidecar(path@))->0,
            ) is None),
        },
{
    match split_path(path) {
        Some((parent, name)) => {
            let thumb_dir = join(parent.as_str(), ".thumbs");
            let thumb_path = join(thumb_dir.as_str(), name.as_str());
            match vault.file_get(&thumb_path) {
                Some(bytes) => decrypt_data(km, bytes.as_slice()),
                None => Err(VaultError::Error("No such file".to_string())),
            }
        },
        None => Err(VaultError::Error("Invalid path".to_string())),
    }
}

/// Removes the file at `path` together with its hash and thumbnail sidecars;
/// a missing sidecar is not an error, a missing primary file is.
pub fn delete_file(vault: &mut Vault, path: &str) -> (r: Result<(), VaultError>)
    ensures
        r is Ok <==> (has_slash(path@) && old(vault).file_at(path@) is Some),
        r is Ok ==> forall|q: Seq<char>|
            #[trigger] final(vault).file_at(q) == (if q == path@ || q == hash_sidecar(path@) || q
                == thumb_sidecar(path@) {
                None::<Seq<u8>>
            } else {
                old(vault).file_at(q)
            }),
        r matches Err(e) ==> e is Error && *final(vault) == *old(vault),
        forall|d: Seq<char>| #[trigger] final(vault).has_dir(d) == old(vault).has_dir(d),
{
    match split_path(path) {
        Some((parent, name)) => {
            let path_s = path.to_owned();
            let hash_path = join(join(parent.as_str(), ".hash").as_str(), name.as_str());
            let thumb_path = join(join(parent.as_str(), ".thumbs").as_str(), name.as_str());
            match vault.file_remove(&path_s) {
                Some(_) => {
                    vault.file_remove(&thumb_path);
                    vault.file_remove(&hash_path);
                    Ok(())
                },
                None => Err(VaultError::Error("No such file".to_string())),
            }
        },
        None => Err(VaultError::Error("Invalid path".to_string())),
    }
}

/// Moves the file at `path` into `dest_dir`, carrying any hash and
/// thumbnail sidecars along and creating the destination sidecar
/// directories on demand.
#[verifier::rlimit(50)]
pub fn move_file(vault: &mut Vault, path: &str, dest_dir: &str) -> (r: Result<(), VaultError>)
    ensures
        r is Ok <==> (has_slash(path@) && old(vault).file_at(path@) is Some),
        r is Ok ==> forall|q: Seq<char>|
            #[trigger] final(vault).file_at(q) == (if q == join_spec(dest_dir@, name_of(path@)) {
                old(vault).file_at(path@)
            } else if q == join_spec(join_spec(dest_dir@, ".hash"@), name_of(path@)) && old(
                vault,
            ).file_at(hash_sidecar(path@)) is Some {
                old(vault).file_at(hash_sidecar(path@))
            } else if q == join_spec(join_spec(dest_dir@, ".thumbs"@), name_of(path@)) && old(
                vault,
            ).file_at(thumb_sidecar(path@)) is Some {
                old(vault).file_at(thumb_sidecar(path@))
            } else if q == path@ || q == hash_sidecar(path@) || q == thumb_sidecar(path@) {
                None::<Seq<u8>>
            } else {
                old(vault).file_at(q)
            }),
        r is Ok ==> forall|d: Seq<char>|
            #[trigger] final(vault).has_dir(d) == ((d == join_spec(dest_dir@, ".hash"@) && old(
                vault,
            ).file_at(hash_sidecar(path@)) is Some) || (d == join_spec(dest_dir@, ".thumbs"@)
                && old(vault).file_at(thumb_sidecar(path@)) is Some) || old(vault).has_dir(d)),
        r matches Err(e) ==> e is Error && *final(vault) == *old(vault),
{
    match split_path(path) {
        Some((parent, name)) => {
            proof {
                lemma_sidecars_distinct(path@);
            }
            let path_s = path.to_owned();
            let hash_path = join(join(parent.as_str(), ".hash").as_str(), name.as_str());
            let thumb_path = join(join(parent.as_str(), ".thumbs").as_str(), name.as_str());
            let new_path = join(dest_dir, name.as_str());
            let new_hash_dir = join(dest_dir, ".hash");
            let new_thumb_dir = join(dest_dir, ".thumbs");
            let new_hash_path = join(new_hash_dir.as_str(), name.as_str());
            let new_thumb_path = join(new_thumb_dir.as_str(), name.as_str());
            match vault.file_remove(&path_s) {
                Some(bytes) => {
                    let moved_hash = vault.file_remove(&hash_path);
                    let moved_thumb = vault.file_remove(&thumb_path);
                    match moved_thumb {
                        Some(tb) => {
                            vault.dir_insert(new_thumb_dir);
                            vault.file_set(new_thumb_path, tb);
                        },
                        None => {},
                    }
                    match moved_hash {
                        Some(hb) => {
                            vault.dir_insert(new_hash_dir);
                            vault.file_set(new_hash_path, hb);
                        },
                        None => {},
                    }
                    vault.file_set(new_path, bytes);
                    Ok(())
                },
                None => Err(VaultError::Error("No such file".to_string())),
            }
        },
        None => Err(VaultError::Error("Invalid path".to_string())),
    }
}

} // verus!
