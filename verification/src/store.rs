use vstd::prelude::*;

verus! {

// ---------------------------------------------------------------------------
// FileTable: the stored files of a vault, keyed by full path
// ---------------------------------------------------------------------------

spec fn look_in(s: Seq<(String, Vec<u8>)>, k: Seq<char>) -> Option<Seq<u8>>
    decreases s.len(),
{
    if s.len() == 0 {
        None
    } else if s.last().0@ == k {
        Some(s.last().1@)
    } else {
        look_in(s.drop_last(), k)
    }
}

spec fn keys_distinct(s: Seq<(String, Vec<u8>)>) -> bool {
    forall|i: int, j: int| 0 <= i < j < s.len() ==> s[i].0@ != s[j].0@
}

proof fn lemma_look_absent(s: Seq<(String, Vec<u8>)>, k: Seq<char>)
    requires
        forall|j: int| 0 <= j < s.len() ==> s[j].0@ != k,
    ensures
        look_in(s, k) is None,
    decreases s.len(),
{
    if s.len() > 0 {
        lemma_look_absent(s.drop_last(), k);
    }
}

proof fn lemma_look_present(s: Seq<(String, Vec<u8>)>, i: int)
    requires
        keys_distinct(s),
        0 <= i < s.len(),
    ensures
        look_in(s, s[i].0@) == Some(s[i].1@),
    decreases s.len(),
{
    if i == s.len() - 1 {
    } else {
        assert(s.last().0@ != s[i].0@);
        assert(s.drop_last()[i] == s[i]);
        lemma_look_present(s.drop_last(), i);
    }
}

proof fn lemma_look_remove(s: Seq<(String, Vec<u8>)>, i: int, k: Seq<char>)
    requires
        keys_distinct(s),
        0 <= i < s.len(),
    ensures
        look_in(s.remove(i), k) == (if k == s[i].0@ {
            None::<Seq<u8>>
        } else {
            look_in(s, k)
        }),
    decreases s.len(),
{
    let n = s.len() - 1;
    if i == n {
        assert(s.remove(i) =~= s.drop_last());
        if k == s[i].0@ {
            assert forall|j: int| 0 <= j < s.drop_last().len() implies s.drop_last()[j].0@ != k by {
                assert(s.drop_last()[j] == s[j]);
            }
            lemma_look_absent(s.drop_last(), k);
        }
    } else {
        assert(s.remove(i).last() == s.last());
        assert(s.remove(i).drop_last() =~= s.drop_last().remove(i));
        assert(s.drop_last()[i] == s[i]);
        if s.last().0@ == k {
            assert(s[i].0@ != k);
        } else {
            lemma_look_remove(s.drop_last(), i, k);
        }
    }
}

/// A finite table of stored files: full path to stored bytes, with every
/// path held at most once.
pub struct FileTable {
    entries: Vec<(String, Vec<u8>)>,
}

impl FileTable {
    #[verifier::type_invariant]
    spec fn wf(&self) -> bool {
        keys_distinct(self.entries@)
    }

    /// The bytes stored under a path, if any.
    pub closed spec fn look(&self, k: Seq<char>) -> Option<Seq<u8>> {
        look_in(self.entries@, k)
    }

    /// Whether a path is present.
    pub open spec fn has(&self, k: Seq<char>) -> bool {
        self.look(k) is Some
    }

    /// The stored paths, in table order.
    pub closed spec fn key_seq(&self) -> Seq<Seq<char>> {
        self.entries@.map_values(|e: (String, Vec<u8>)| e.0@)
    }

    /// Establishes, without running anything, that a present path is one of
    /// the keys, every key is present, and keys never repeat.
    pub fn view_facts(&self)
        ensures
            forall|k: Seq<char>|
                #[trigger] self.look(k) is Some <==> exists|i: int|
                    0 <= i < self.key_seq().len() && self.key_seq()[i] == k,
            forall|i: int|
                0 <= i < self.key_seq().len() ==> #[trigger] self.look(self.key_seq()[i]) is Some,
            forall|i: int, j: int|
                0 <= i < j < self.key_seq().len() ==> self.key_seq()[i] != self.key_seq()[j],
    {
        proof {
            use_type_invariant(self);
            assert forall|k: Seq<char>| #[trigger] self.look(k) is Some implies exists|i: int|
                0 <= i < self.key_seq().len() && self.key_seq()[i] == k by {
                if forall|j: int| 0 <= j < self.entries@.len() ==> self.entries@[j].0@ != k {
                    lemma_look_absent(self.entries@, k);
                } else {
                    let j = choose|j: int|
                        0 <= j < self.entries@.len() && self.entries@[j].0@ == k;
                    assert(self.key_seq()[j] == k);
                }
            }
            assert forall|i: int| 0 <= i < self.key_seq().len() implies #[trigger] self.look(
                self.key_seq()[i],
            ) is Some by {
                lemma_look_present(self.entries@, i);
            }
        }
    }

    /// An empty table.
    pub fn new() -> (r: FileTable)
        ensures
            forall|k: Seq<char>| #[trigger] r.look(k) is None,
            r.key_seq().len() == 0,
    {
        let r = FileTable { entries: Vec::new() };
        proof {
            assert forall|k: Seq<char>| #[trigger] r.look(k) is None by {
                lemma_look_absent(r.entries@, k);
            }
        }
        r
    }

    /// How many files are stored.
    pub fn len(&self) -> (r: usize)
        ensures
            r == self.key_seq().len(),
    {
        self.entries.len()
    }

    /// The path stored at a position.
    pub fn key_at(&self, i: usize) -> (r: &String)
        requires
            i < self.key_seq().len(),
        ensures
            r@ == self.key_seq()[i as int],
    {
        &self.entries[i].0
    }

    /// The bytes stored at a position.
    pub fn val_at(&self, i: usize) -> (r: &Vec<u8>)
        requires
            i < self.key_seq().len(),
        ensures
            Some(r@) == self.look(self.key_seq()[i as int]),
    {
        proof {
            use_type_invariant(self);
            lemma_look_present(self.entries@, i as int);
        }
        &self.entries[i].1
    }

    /// The bytes stored under a path, or `None` when it is absent.
    pub fn get(&self, k: &String) -> (r: Option<&Vec<u8>>)
        ensures
            match r {
                Some(v) => self.look(k@) == Some(v@),
                None => self.look(k@) is None,
            },
    {
        let n = self.entries.len();
        proof {
            assert(self.entries@.take(n as int) =~= self.entries@);
        }
        let mut i: usize = n;
        loop
            invariant
                0 <= i <= n,
                n == self.entries@.len(),
                look_in(self.entries@, k@) == look_in(self.entries@.take(i as int), k@),
            decreases i,
        {
            if i == 0 {
                return None;
            }
            proof {
                assert(self.entries@.take(i as int).last() == self.entries@[i - 1]);
                assert(self.entries@.take(i as int).drop_last() =~= self.entries@.take(
                    i as int - 1,
                ));
            }
            if self.entries[i - 1].0 == *k {
                return Some(&self.entries[i - 1].1);
            }
            i = i - 1;
        }
    }

    /// Stores `v` under `k`, replacing any previous entry for `k` and leaving
    /// every other path unchanged.
    pub fn set(&mut self, k: String, v: Vec<u8>)
        ensures
            forall|q: Seq<char>|
                #[trigger] final(self).look(q) == (if q == k@ {
                    Some(v@)
                } else {
                    old(self).look(q)
                }),
    {
        self.remove(&k);
        proof {
            use_type_invariant(&*self);
        }
        let ghost mid = *self;
        let mut es: Vec<(String, Vec<u8>)> = Vec::new();
        core::mem::swap(&mut self.entries, &mut es);
        es.push((k, v));
        proof {
            assert(es@.drop_last() =~= mid.entries@);
            assert forall|i: int, j: int|
                0 <= i < j < es@.len() implies es@[i].0@ != es@[j].0@ by {
                if j == es@.len() - 1 {
                    assert(mid.entries@[i] == es@[i]);
                    if es@[i].0@ == es@[j].0@ {
                        lemma_look_present(mid.entries@, i);
                        assert(mid.look(es@[i].0@) is None);
                    }
                } else {
                    assert(es@[i] == mid.entries@[i]);
                    assert(es@[j] == mid.entries@[j]);
                }
            }
        }
        core::mem::swap(&mut self.entries, &mut es);
        proof {
            assert(self.entries@.drop_last() =~= mid.entries@);
            assert forall|q: Seq<char>|
                #[trigger] self.look(q) == (if q == k@ {
                    Some(v@)
                } else {
                    old(self).look(q)
                }) by {
                assert(mid.look(q) == (if q == k@ {
                    None::<Seq<u8>>
                } else {
                    old(self).look(q)
                }));
                if q != k@ {
                    assert(self.look(q) == look_in(mid.entries@, q));
                }
            }
        }
    }

    /// Removes the entry under `k` if present, handing back its bytes.
    pub fn remove(&mut self, k: &String) -> (r: Option<Vec<u8>>)
        ensures
            match r {
                Some(v) => old(self).look(k@) == Some(v@),
                None => old(self).look(k@) is None && *final(self) == *old(self),
            },
            forall|q: Seq<char>|
                #[trigger] final(self).look(q) == (if q == k@ {
                    None::<Seq<u8>>
                } else {
                    old(self).look(q)
                }),
    {
        proof {
            use_type_invariant(&*self);
        }
        let n = self.entries.len();
        proof {
            assert(self.entries@.take(n as int) =~= self.entries@);
        }
        let mut i: usize = n;
        loop
            invariant
                0 <= i <= n,
                n == self.entries@.len(),
                *self == *old(self),
                keys_distinct(self.entries@),
                look_in(self.entries@, k@) == look_in(self.entries@.take(i as int), k@),
            decreases i,
        {
            if i == 0 {
                return None;
            }
            proof {
                assert(self.entries@.take(i as int).last() == self.entries@[i - 1]);
                assert(self.entries@.take(i as int).drop_last() =~= self.entries@.take(
                    i as int - 1,
                ));
            }
            if self.entries[i - 1].0 == *k {
                proof {
                    assert forall|q: Seq<char>| true implies look_in(
                        self.entries@.remove(i - 1),
                        q,
                    ) == (if q == k@ {
                        None::<Seq<u8>>
                    } else {
                        look_in(self.entries@, q)
                    }) by {
                        lemma_look_remove(self.entries@, i - 1, q);
                        if q != k@ && q == self.entries@[i - 1].0@ {
                        }
                    }
                }
                let ghost pre = *self;
                let mut es: Vec<(String, Vec<u8>)> = Vec::new();
                core::mem::swap(&mut self.entries, &mut es);
                let removed = es.remove(i - 1);
                proof {
                    assert forall|a: int, b: int|
                        0 <= a < b < es@.len() implies es@[a].0@ != es@[b].0@ by {
                        let a0: int = if a < i - 1 {
                            a
                        } else {
                            a + 1
                        };
                        let b0: int = if b < i - 1 {
                            b
                        } else {
                            b + 1
                        };
                        assert(es@[a] == pre.entries@[a0]);
                        assert(es@[b] == pre.entries@[b0]);
                    }
                }
                core::mem::swap(&mut self.entries, &mut es);
                proof {
                    lemma_look_present(pre.entries@, i - 1);
                }
                return Some(removed.1);
            }
            i = i - 1;
        }
    }

    /// Removes the entry at a position.
    pub fn remove_at(&mut self, i: usize)
        requires
            i < old(self).key_seq().len(),
        ensures
            forall|q: Seq<char>|
                #[trigger] final(self).look(q) == (if q == old(self).key_seq()[i as int] {
                    None::<Seq<u8>>
                } else {
                    old(self).look(q)
                }),
            final(self).key_seq() == old(self).key_seq().remove(i as int),
    {
        proof {
            use_type_invariant(&*self);
            assert forall|q: Seq<char>| true implies look_in(self.entries@.remove(i as int), q)
                == (if q == self.entries@[i as int].0@ {
                None::<Seq<u8>>
            } else {
                look_in(self.entries@, q)
            }) by {
                lemma_look_remove(self.entries@, i as int, q);
            }
            assert(old(self).key_seq()[i as int] == self.entries@[i as int].0@);
        }
        let ghost pre = *self;
        let mut es: Vec<(String, Vec<u8>)> = Vec::new();
        core::mem::swap(&mut self.entries, &mut es);
        es.remove(i);
        proof {
            assert forall|a: int, b: int|
                0 <= a < b < es@.len() implies es@[a].0@ != es@[b].0@ by {
                let a0: int = if a < i {
                    a
                } else {
                    a + 1
                };
                let b0: int = if b < i {
                    b
                } else {
                    b + 1
                };
                assert(es@[a] == pre.entries@[a0]);
                assert(es@[b] == pre.entries@[b0]);
            }
        }
        core::mem::swap(&mut self.entries, &mut es);
        proof {
            assert(self.key_seq() =~= pre.key_seq().remove(i as int));
        }
    }
}

// ---------------------------------------------------------------------------
// DirTable: the directories of a vault
// ---------------------------------------------------------------------------

/// A finite collection of directory paths, each held at most once.
pub struct DirTable {
    names: Vec<String>,
}

impl DirTable {
    #[verifier::type_invariant]
    spec fn wf(&self) -> bool {
        forall|i: int, j: int| 0 <= i < j < self.names@.len() ==> self.names@[i]@ != self.names@[j]@
    }

    /// The directory paths, in table order.
    pub closed spec fn dir_seq(&self) -> Seq<Seq<char>> {
        self.names@.map_values(|n: String| n@)
    }

    /// Whether a directory is present.
    pub open spec fn has(&self, d: Seq<char>) -> bool {
        exists|i: int| 0 <= i < self.dir_seq().len() && self.dir_seq()[i] == d
    }

    /// Establishes that directory paths never repeat.
    pub fn view_facts(&self)
        ensures
            forall|i: int, j: int|
                0 <= i < j < self.dir_seq().len() ==> self.dir_seq()[i] != self.dir_seq()[j],
    {
        proof {
            use_type_invariant(self);
        }
    }

    /// An empty collection.
    pub fn new() -> (r: DirTable)
        ensures
            forall|d: Seq<char>| !(#[trigger] r.has(d)),
            r.dir_seq().len() == 0,
    {
        DirTable { names: Vec::new() }
    }

    /// How many directories are present.
    pub fn len(&self) -> (r: usize)
        ensures
            r == self.dir_seq().len(),
    {
        self.names.len()
    }

    /// The directory path at a position.
    pub fn dir_at(&self, i: usize) -> (r: &String)
        requires
            i < self.dir_seq().len(),
        ensures
            r@ == self.dir_seq()[i as int],
            self.has(r@),
    {
        &self.names[i]
    }

    /// Whether `d` is present.
    pub fn contains(&self, d: &String) -> (r: bool)
        ensures
            r == self.has(d@),
    {
        let n = self.names.len();
        let mut i: usize = 0;
        while i < n
            invariant
                0 <= i <= n,
                n == self.names@.len(),
                forall|j: int| 0 <= j < i ==> self.names@[j]@ != d@,
            decreases n - i,
        {
            if self.names[i] == *d {
                assert(self.dir_seq()[i as int] == d@);
                return true;
            }
            i = i + 1;
        }
        proof {
            if self.has(d@) {
                let j = choose|j: int| 0 <= j < self.dir_seq().len() && self.dir_seq()[j] == d@;
                assert(self.names@[j]@ == d@);
            }
        }
        false
    }

    /// Adds `d` when absent; present directories stay as they are.
    pub fn insert(&mut self, d: String)
        ensures
            forall|q: Seq<char>| #[trigger] final(self).has(q) == (q == d@ || old(self).has(q)),
    {
        proof {
            use_type_invariant(&*self);
        }
        if !self.contains(&d) {
            let ghost pre = *self;
            let mut ns: Vec<String> = Vec::new();
            core::mem::swap(&mut self.names, &mut ns);
            ns.push(d);
            proof {
                assert(ns@.drop_last() =~= pre.names@);
                assert forall|i: int, j: int|
                    0 <= i < j < ns@.len() implies ns@[i]@ != ns@[j]@ by {
                    if j == ns@.len() - 1 {
                        if ns@[i]@ == ns@[j]@ {
                            assert(pre.dir_seq()[i] == pre.names@[i]@);
                            assert(pre.has(ns@[j]@));
                        }
                    } else {
                        assert(ns@[i] == pre.names@[i]);
                        assert(ns@[j] == pre.names@[j]);
                    }
                }
            }
            core::mem::swap(&mut self.names, &mut ns);
            proof {
                assert forall|q: Seq<char>| #[trigger] self.has(q) == (q == self.names@.last()@
                    || pre.has(q)) by {
                    if self.has(q) {
                        let i = choose|i: int|
                            0 <= i < self.dir_seq().len() && self.dir_seq()[i] == q;
                        if i < self.dir_seq().len() - 1 {
                            assert(pre.dir_seq()[i] == q);
                        }
                    }
                    if pre.has(q) {
                        let i = choose|i: int|
                            0 <= i < pre.dir_seq().len() && pre.dir_seq()[i] == q;
                        assert(self.dir_seq()[i] == q);
                    }
                    if q == self.names@.last()@ {
                        assert(self.dir_seq()[self.dir_seq().len() - 1] == q);
                    }
                }
            }
        } else {
            proof {
                assert(self.has(d@));
            }
        }
    }

    /// Removes the directory at a position.
    pub fn remove_at(&mut self, i: usize)
        requires
            i < old(self).dir_seq().len(),
        ensures
            forall|q: Seq<char>|
                #[trigger] final(self).has(q) == (old(self).has(q) && q != old(
                    self,
                ).dir_seq()[i as int]),
            final(self).dir_seq() == old(self).dir_seq().remove(i as int),
    {
        proof {
            use_type_invariant(&*self);
        }
        let ghost pre = *self;
        let mut ns: Vec<String> = Vec::new();
        core::mem::swap(&mut self.names, &mut ns);
        ns.remove(i);
        proof {
            assert forall|a: int, b: int|
                0 <= a < b < ns@.len() implies ns@[a]@ != ns@[b]@ by {
                let a0: int = if a < i {
                    a
                } else {
                    a + 1
                };
                let b0: int = if b < i {
                    b
                } else {
                    b + 1
                };
                assert(ns@[a] == pre.names@[a0]);
                assert(ns@[b] == pre.names@[b0]);
            }
        }
        core::mem::swap(&mut self.names, &mut ns);
        proof {
            assert(self.dir_seq() =~= pre.dir_seq().remove(i as int));
            assert forall|q: Seq<char>| #[trigger] self.has(q) == (pre.has(q) && q
                != pre.dir_seq()[i as int]) by {
                if self.has(q) {
                    let a = choose|a: int| 0 <= a < self.dir_seq().len() && self.dir_seq()[a] == q;
                    let a0: int = if a < i {
                        a
                    } else {
                        a + 1
                    };
                    assert(pre.dir_seq()[a0] == q);
                    if q == pre.dir_seq()[i as int] {
                        assert(pre.names@[a0]@ == pre.names@[i as int]@);
                    }
                }
                if pre.has(q) && q != pre.dir_seq()[i as int] {
                    let a0 = choose|a0: int|
                        0 <= a0 < pre.dir_seq().len() && pre.dir_seq()[a0] == q;
                    let a: int = if a0 < i {
                        a0
                    } else {
                        a0 - 1
                    };
                    assert(self.dir_seq()[a] == q);
                }
            }
        }
    }
}

} // verus!
