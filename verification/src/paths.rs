use vstd::prelude::*;

verus! {

// ---------------------------------------------------------------------------
// The path model: a path is a sequence of characters with '/' separators.
// ---------------------------------------------------------------------------

/// Length of the longest suffix of `p` that holds no '/': the length of the
/// final name component.
pub open spec fn name_len(p: Seq<char>) -> int
    decreases p.len(),
{
    if p.len() == 0 {
        0
    } else if p.last() == '/' {
        0
    } else {
        1 + name_len(p.drop_last())
    }
}

/// Whether `p` holds at least one '/'.
pub open spec fn has_slash(p: Seq<char>) -> bool {
    name_len(p) < p.len()
}

/// The final name component of `p` (everything after the last '/').
pub open spec fn name_of(p: Seq<char>) -> Seq<char> {
    p.skip(p.len() - name_len(p))
}

/// Everything before the last '/' of `p`.
pub open spec fn parent_of(p: Seq<char>) -> Seq<char>
    recommends
        has_slash(p),
{
    p.take(p.len() - name_len(p) - 1)
}

/// `dir` plus a '/' separator plus `name`.
pub open spec fn join_spec(dir: Seq<char>, name: Seq<char>) -> Seq<char> {
    dir + seq!['/'] + name
}

/// Whether `p` names an entry directly inside `dir` (one nonempty name
/// component below it).
pub open spec fn in_dir(dir: Seq<char>, p: Seq<char>) -> bool {
    has_slash(p) && parent_of(p) == dir && name_of(p).len() > 0
}

/// Whether `q` equals `dir` or lies anywhere below it.
pub open spec fn under_eq(dir: Seq<char>, q: Seq<char>) -> bool {
    q == dir || (q.len() > dir.len() && q.take(dir.len() as int) == dir && q[dir.len() as int]
        == '/')
}

pub proof fn lemma_name_len_bounds(p: Seq<char>)
    ensures
        0 <= name_len(p) <= p.len(),
        forall|k: int| p.len() - name_len(p) <= k < p.len() ==> p[k] != '/',
        has_slash(p) ==> p[p.len() - name_len(p) - 1] == '/',
    decreases p.len(),
{
    if p.len() == 0 {
    } else if p.last() == '/' {
    } else {
        lemma_name_len_bounds(p.drop_last());
        assert forall|k: int| p.len() - name_len(p) <= k < p.len() implies p[k] != '/' by {
            if k < p.len() - 1 {
                assert(p.drop_last()[k] == p[k]);
            }
        }
        if has_slash(p) {
            assert(p[p.len() - name_len(p) - 1] == p.drop_last()[p.len() - name_len(p) - 1]);
        }
    }
}

/// If everything from index `i` on is slash-free, and either `i` is 0 or a
/// slash stands just before `i`, then the name component starts at `i`.
proof fn lemma_name_len_from_scan(p: Seq<char>, i: int)
    requires
        0 <= i <= p.len(),
        forall|k: int| i <= k < p.len() ==> p[k] != '/',
        i == 0 || p[i - 1] == '/',
    ensures
        name_len(p) == p.len() - i,
    decreases p.len(),
{
    if p.len() == 0 {
    } else if i == p.len() {
        assert(p.last() == p[p.len() - 1]);
    } else {
        assert(p.last() != '/');
        assert(p.drop_last().len() == p.len() - 1);
        if i == p.len() - 1 {
            if i > 0 {
                lemma_name_len_from_scan(p.drop_last(), i);
            } else {
                lemma_name_len_from_scan(p.drop_last(), 0);
            }
        } else {
            lemma_name_len_from_scan(p.drop_last(), i);
        }
    }
}

/// Splitting a joined path recovers the directory and the name.
pub proof fn lemma_join_split(dir: Seq<char>, name: Seq<char>)
    requires
        forall|k: int| 0 <= k < name.len() ==> name[k] != '/',
    ensures
        has_slash(join_spec(dir, name)),
        name_of(join_spec(dir, name)) == name,
        parent_of(join_spec(dir, name)) == dir,
        name.len() > 0 ==> in_dir(dir, join_spec(dir, name)),
{
    let p = join_spec(dir, name);
    assert(p[dir.len() as int] == '/');
    assert forall|k: int| dir.len() + 1 <= k < p.len() implies p[k] != '/' by {
        assert(p[k] == name[k - dir.len() - 1]);
    }
    lemma_name_len_from_scan(p, dir.len() as int + 1);
    assert(name_of(p) =~= name);
    assert(parent_of(p) =~= dir);
}

/// Anything joined below `b` stays below `a` whenever `b` does.
pub proof fn lemma_under_join(a: Seq<char>, b: Seq<char>, n: Seq<char>)
    requires
        under_eq(a, b),
    ensures
        under_eq(a, join_spec(b, n)),
{
    let q = join_spec(b, n);
    if b == a {
        assert(q.take(a.len() as int) =~= a);
        assert(q[a.len() as int] == '/');
    } else {
        assert(q.take(a.len() as int) =~= b.take(a.len() as int));
        assert(q[a.len() as int] == b[a.len() as int]);
    }
}

/// The name component of a joined path is decided by its right-hand part.
pub proof fn lemma_name_of_join(x: Seq<char>, y: Seq<char>)
    requires
        y.len() > 0,
    ensures
        name_len(join_spec(x, y)) == name_len(y),
        name_of(join_spec(x, y)) == name_of(y),
    decreases y.len(),
{
    let p = join_spec(x, y);
    assert(p.last() == y.last());
    if y.last() == '/' {
        assert(name_len(p) == 0);
        assert(name_len(y) == 0);
    } else if y.len() == 1 {
        assert(p.drop_last() =~= x + seq!['/']);
        assert((x + seq!['/']).last() == '/');
        assert(name_len(x + seq!['/']) == 0);
        assert(name_len(p) == 1);
        assert(y.drop_last().len() == 0);
        assert(name_len(y.drop_last()) == 0);
        assert(name_len(y) == 1);
    } else {
        assert(p.drop_last() =~= join_spec(x, y.drop_last()));
        lemma_name_of_join(x, y.drop_last());
        assert(name_len(p) == 1 + name_len(join_spec(x, y.drop_last())));
        assert(name_len(y) == 1 + name_len(y.drop_last()));
    }
    lemma_name_len_bounds(y);
    assert forall|i: int| 0 <= i < name_of(p).len() implies name_of(p)[i] == name_of(y)[i] by {
        assert(name_of(p)[i] == p[p.len() - name_len(p) + i]);
        assert(p[p.len() - name_len(p) + i] == y[y.len() - name_len(y) + i]);
    }
    assert(name_of(p) =~= name_of(y));
}

/// A path with a slash is the join of its parent and its name.
pub proof fn lemma_split_join(p: Seq<char>)
    requires
        has_slash(p),
    ensures
        p == join_spec(parent_of(p), name_of(p)),
        forall|k: int| 0 <= k < name_of(p).len() ==> name_of(p)[k] != '/',
{
    lemma_name_len_bounds(p);
    assert(p =~= join_spec(parent_of(p), name_of(p)));
    assert forall|k: int| 0 <= k < name_of(p).len() implies name_of(p)[k] != '/' by {
        assert(name_of(p)[k] == p[p.len() - name_len(p) + k]);
    }
}

// ---------------------------------------------------------------------------
// Executable path operations
// ---------------------------------------------------------------------------

/// Joins a directory and a name with a '/' separator.
pub fn join(dir: &str, name: &str) -> (r: String)
    ensures
        r@ == join_spec(dir@, name@),
{
    let mut r = dir.to_owned();
    r.append("/");
    r.append(name);
    proof {
        reveal_strlit("/");
        assert(r@ =~= join_spec(dir@, name@));
    }
    r
}

/// Splits a path at its last '/' into parent and name; `None` when the path
/// holds no '/' at all.
pub fn split_path(p: &str) -> (r: Option<(String, String)>)
    ensures
        match r {
            Some(pn) => has_slash(p@) && pn.0@ == parent_of(p@) && pn.1@ == name_of(p@),
            None => !has_slash(p@),
        },
{
    let len = p.unicode_len();
    let mut i: usize = len;
    loop
        invariant
            0 <= i <= len,
            len == p@.len(),
            forall|k: int| i <= k < len ==> p@[k] != '/',
        decreases i,
    {
        if i == 0 {
            proof {
                lemma_name_len_from_scan(p@, 0);
            }
            return None;
        }
        if p.get_char(i - 1) == '/' {
            proof {
                lemma_name_len_from_scan(p@, i as int);
            }
            let parent = p.substring_char(0, i - 1);
            let name = p.substring_char(i, len);
            proof {
                assert(parent@ =~= parent_of(p@));
                assert(name@ =~= name_of(p@));
            }
            return Some((parent.to_owned(), name.to_owned()));
        }
        i = i - 1;
    }
}

/// Whether `q` equals `dir` or lies below it.
pub fn is_under(dir: &str, q: &str) -> (r: bool)
    ensures
        r == under_eq(dir@, q@),
{
    let dlen = dir.unicode_len();
    let qlen = q.unicode_len();
    if qlen < dlen {
        proof {
            assert(!under_eq(dir@, q@)) by {
                if q@ == dir@ {
                    assert(q@.len() == dir@.len());
                }
            }
        }
        return false;
    }
    let mut i: usize = 0;
    while i < dlen
        invariant
            0 <= i <= dlen,
            dlen == dir@.len(),
            qlen == q@.len(),
            dlen <= qlen,
            forall|k: int| 0 <= k < i ==> q@[k] == dir@[k],
        decreases dlen - i,
    {
        if q.get_char(i) != dir.get_char(i) {
            proof {
                assert(q@.take(dir@.len() as int)[i as int] != dir@[i as int]);
                if q@ == dir@ {
                    assert(q@[i as int] == dir@[i as int]);
                }
            }
            return false;
        }
        i = i + 1;
    }
    if qlen == dlen {
        proof {
            assert(q@ =~= dir@);
        }
        return true;
    }
    let slash = q.get_char(dlen) == '/';
    proof {
        assert(q@.take(dir@.len() as int) =~= dir@);
    }
    slash
}

// ---------------------------------------------------------------------------
// Lexicographic order on names
// ---------------------------------------------------------------------------

/// Strict lexicographic order on character sequences, by code point.
pub open spec fn lex_lt(a: Seq<char>, b: Seq<char>) -> bool
    decreases a.len(),
{
    if b.len() == 0 {
        false
    } else if a.len() == 0 {
        true
    } else if (a[0] as u32) < (b[0] as u32) {
        true
    } else if (a[0] as u32) > (b[0] as u32) {
        false
    } else {
        lex_lt(a.drop_first(), b.drop_first())
    }
}

/// Compares two names in strict lexicographic order.
pub fn str_lex_lt(a: &str, b: &str) -> (r: bool)
    ensures
        r == lex_lt(a@, b@),
    decreases a@.len(),
{
    let alen = a.unicode_len();
    let blen = b.unicode_len();
    if blen == 0 {
        false
    } else if alen == 0 {
        true
    } else {
        let ca = a.get_char(0) as u32;
        let cb = b.get_char(0) as u32;
        if ca < cb {
            true
        } else if ca > cb {
            false
        } else {
            let ra = a.substring_char(1, alen);
            let rb = b.substring_char(1, blen);
            let r = str_lex_lt(ra, rb);
            proof {
                assert(ra@ =~= a@.drop_first());
                assert(rb@ =~= b@.drop_first());
            }
            r
        }
    }
}

/// The order is transitive.
pub proof fn lemma_lex_trans(a: Seq<char>, b: Seq<char>, c: Seq<char>)
    requires
        lex_lt(a, b),
        lex_lt(b, c),
    ensures
        lex_lt(a, c),
    decreases a.len(),
{
    if c.len() == 0 {
        assert(!lex_lt(b, c));
    } else if a.len() == 0 {
    } else {
        assert(b.len() > 0);
        if (a[0] as u32) == (b[0] as u32) && (b[0] as u32) == (c[0] as u32) {
            lemma_lex_trans(a.drop_first(), b.drop_first(), c.drop_first());
        }
    }
}

/// The order is total on distinct sequences: two unequal names compare one
/// way or the other.
pub proof fn lemma_lex_total(a: Seq<char>, b: Seq<char>)
    ensures
        a != b ==> (lex_lt(a, b) <==> !lex_lt(b, a)),
        a == b ==> !lex_lt(a, b),
    decreases a.len(),
{
    if a.len() == 0 || b.len() == 0 {
        if a.len() == 0 && b.len() == 0 {
            assert(a =~= b);
        }
    } else {
        lemma_lex_total(a.drop_first(), b.drop_first());
        if a[0] == b[0] {
            if a.drop_first() == b.drop_first() {
                assert forall|i: int| 0 <= i < a.len() implies a[i] == b[i] by {
                    if i > 0 {
                        assert(a[i] == a.drop_first()[i - 1]);
                        assert(b[i] == b.drop_first()[i - 1]);
                    }
                }
                assert(a =~= b);
            } else {
                assert(a != b) by {
                    if a == b {
                        assert(a.drop_first() =~= b.drop_first());
                    }
                }
            }
        } else {
            assert(a != b);
            assert((a[0] as u32) != (b[0] as u32)) by {
                vstd::utf8::char_u32_cast(a[0], a[0] as u32);
                vstd::utf8::char_u32_cast(b[0], b[0] as u32);
            }
        }
    }
}

} // verus!
