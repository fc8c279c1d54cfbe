//! Destination paths, as byte strings in the POSIX way.
//!
//! A destination path is the destination root joined with a relative path;
//! the backup of a path replaces its final extension with `bak` (or appends
//! `.bak` when it has none); the ancestor directories of a relative path are
//! the join of the root with each proper prefix that ends at a separator.
//! Everything a run writes stays under the destination root, and these
//! functions carry that guarantee in their contracts.

use vstd::prelude::*;
use crate::bytes::push_all;

verus! {

/// The path separator byte, `/`.
pub const SLASH: u8 = 47;

/// The extension separator byte, `.`.
pub const DOT: u8 = 46;

/// The last position of `b` in `s`, or `-1` when `s` does not hold it.
pub open spec fn last_pos(s: Seq<u8>, b: u8) -> int
    decreases s.len(),
{
    if s.len() == 0 {
        -1
    } else if s.last() == b {
        s.len() - 1
    } else {
        last_pos(s.drop_last(), b)
    }
}

proof fn lemma_last_pos_at(s: Seq<u8>, b: u8, k: int)
    requires
        0 <= k < s.len(),
        s[k] == b,
        forall|j: int| k < j < s.len() ==> s[j] != b,
    ensures
        last_pos(s, b) == k,
    decreases s.len(),
{
    if k < s.len() - 1 {
        lemma_last_pos_at(s.drop_last(), b, k);
    }
}

proof fn lemma_last_pos_absent(s: Seq<u8>, b: u8)
    requires
        forall|j: int| 0 <= j < s.len() ==> s[j] != b,
    ensures
        last_pos(s, b) == -1,
    decreases s.len(),
{
    if s.len() > 0 {
        lemma_last_pos_absent(s.drop_last(), b);
    }
}

/// `last_pos` never points below any occurrence.
proof fn lemma_last_pos_ge(s: Seq<u8>, b: u8, k: int)
    requires
        0 <= k < s.len(),
        s[k] == b,
    ensures
        k <= last_pos(s, b) < s.len(),
        s[last_pos(s, b)] == b,
    decreases s.len(),
{
    if s.last() != b {
        lemma_last_pos_ge(s.drop_last(), b, k);
    }
}

/// `last_pos` stays below the length.
proof fn lemma_last_pos_lt(s: Seq<u8>, b: u8)
    ensures
        last_pos(s, b) < s.len(),
    decreases s.len(),
{
    if s.len() > 0 && s.last() != b {
        lemma_last_pos_lt(s.drop_last(), b);
    }
}

/// The last position of `b` in `v`, scanned from the end.
pub fn rfind_byte(v: &Vec<u8>, b: u8) -> (r: Option<usize>)
    ensures
        match r {
            Some(k) => k == last_pos(v@, b) && k < v@.len(),
            None => last_pos(v@, b) == -1,
        },
{
    let mut i: usize = v.len();
    while i > 0
        invariant
            i <= v@.len(),
            forall|j: int| i <= j < v@.len() ==> v@[j] != b,
        decreases i,
    {
        i = i - 1;
        if v[i] == b {
            proof {
                lemma_last_pos_at(v@, b, i as int);
            }
            return Some(i);
        }
    }
    proof {
        lemma_last_pos_absent(v@, b);
    }
    None
}

/// The root joined with a relative path: a single separator stands between
/// them, none is doubled.
pub open spec fn spec_join(root: Seq<u8>, rel: Seq<u8>) -> Seq<u8> {
    if root.len() > 0 && root.last() == SLASH {
        root + rel
    } else {
        root + seq![SLASH] + rel
    }
}

/// Join a relative path under the destination root.  The result always has
/// the root as a prefix: a run writes nowhere else.
pub fn join_under_root(root: &Vec<u8>, rel: &Vec<u8>) -> (r: Vec<u8>)
    ensures
        r@ == spec_join(root@, rel@),
        root@.is_prefix_of(r@),
{
    let mut out: Vec<u8> = Vec::new();
    push_all(&mut out, root);
    let needs_sep = if root.len() == 0 {
        true
    } else {
        root[root.len() - 1] != SLASH
    };
    if needs_sep {
        out.push(SLASH);
    }
    push_all(&mut out, rel);
    proof {
        if root@.len() > 0 && root@.last() == SLASH {
            assert(out@ =~= root@ + rel@);
        } else {
            assert(out@ =~= root@ + seq![SLASH] + rel@);
        }
        assert(root@.is_prefix_of(out@));
    }
    out
}

/// The suffix that marks a backup file.
pub open spec fn bak_suffix() -> Seq<u8> {
    seq![DOT, 98u8, 97u8, 107u8]
}

/// The backup path of a destination path: the final extension replaced by
/// `bak`, or `.bak` appended when the final component has no extension.
pub open spec fn spec_backup_path(p: Seq<u8>) -> Seq<u8> {
    let name_start = last_pos(p, SLASH) + 1;
    let dot = last_pos(p, DOT);
    if dot > name_start {
        p.take(dot) + bak_suffix()
    } else {
        p + bak_suffix()
    }
}

/// Compute the backup path of a destination path.
pub fn backup_path(p: &Vec<u8>) -> (r: Vec<u8>)
    ensures
        r@ == spec_backup_path(p@),
{
    let n = p.len();
    let name_start: usize = match rfind_byte(p, SLASH) {
        Some(k) => k + 1,
        None => 0,
    };
    let mut out: Vec<u8> = Vec::new();
    match rfind_byte(p, DOT) {
        Some(dot) if dot > name_start => {
            let mut i: usize = 0;
            while i < dot
                invariant
                    i <= dot < p@.len(),
                    out@ =~= p@.take(i as int),
                decreases dot - i,
            {
                proof {
                    assert(p@.take(i + 1) =~= p@.take(i as int).push(p@[i as int]));
                }
                out.push(p[i]);
                i = i + 1;
            }
        },
        _ => {
            push_all(&mut out, p);
            proof {
                assert(out@ =~= p@.take(p@.len() as int));
                assert(p@.take(p@.len() as int) =~= p@);
            }
        },
    }
    out.push(DOT);
    out.push(98);
    out.push(97);
    out.push(107);
    proof {
        let name_start_s = last_pos(p@, SLASH) + 1;
        let dot_s = last_pos(p@, DOT);
        if dot_s > name_start_s {
            assert(out@ =~= p@.take(dot_s) + bak_suffix());
        } else {
            assert(out@ =~= p@ + bak_suffix());
        }
    }
    out
}

/// A root is a prefix of anything joined under it.
pub proof fn lemma_join_prefix(root: Seq<u8>, rel: Seq<u8>)
    ensures
        root.is_prefix_of(spec_join(root, rel)),
        spec_join(root, rel).len() > root.len() || rel.len() == 0,
        forall|i: int| 0 <= i < root.len() ==> #[trigger] spec_join(root, rel)[i] == root[i],
{
    let p = spec_join(root, rel);
    assert(p.subrange(0, root.len() as int) =~= root);
}

/// The backup of a joined destination path stays under the root: the backup
/// only rewrites the final path component, which lies past the separator
/// that the join added.
pub proof fn lemma_backup_under_root(root: Seq<u8>, rel: Seq<u8>)
    ensures
        root.is_prefix_of(spec_backup_path(spec_join(root, rel))),
{
    let p = spec_join(root, rel);
    lemma_join_prefix(root, rel);
    if root.len() > 0 && root.last() == SLASH {
        assert((root + rel)[root.len() - 1] == root[root.len() - 1]);
        assert(p[root.len() - 1] == SLASH);
        lemma_last_pos_ge(p, SLASH, root.len() - 1);
    } else {
        assert(p == (root + seq![SLASH]) + rel);
        assert((root + seq![SLASH])[root.len() as int] == seq![SLASH][0]);
        assert(((root + seq![SLASH]) + rel)[root.len() as int] == (root
            + seq![SLASH])[root.len() as int]);
        assert(p[root.len() as int] == SLASH);
        lemma_last_pos_ge(p, SLASH, root.len() as int);
    }
    let name_start = last_pos(p, SLASH) + 1;
    let dot = last_pos(p, DOT);
    lemma_last_pos_lt(p, DOT);
    let b = spec_backup_path(p);
    assert(root.len() <= name_start);
    if dot > name_start {
        assert(root.len() <= dot);
        assert(b == p.take(dot) + bak_suffix());
        assert forall|i: int| 0 <= i < root.len() implies b[i] == root[i] by {
            assert(i < dot <= p.len());
            assert(b[i] == p.take(dot)[i]);
            assert(p.take(dot)[i] == p[i]);
            assert(p[i] == root[i]);
        }
        assert(b.subrange(0, root.len() as int) =~= root);
    } else {
        assert(b == p + bak_suffix());
        assert forall|i: int| 0 <= i < root.len() implies b[i] == root[i] by {
            assert(b[i] == p[i]);
            assert(p[i] == root[i]);
        }
        assert(b.subrange(0, root.len() as int) =~= root);
    }
}

/// The ancestor directories of a relative path under a root, root-to-leaf:
/// one directory for each separator in the relative path, holding what comes
/// before it.
pub open spec fn spec_ancestor_dirs(root: Seq<u8>, rel: Seq<u8>) -> Seq<Seq<u8>>
    decreases rel.len(),
{
    if rel.len() == 0 {
        Seq::empty()
    } else if rel.last() == SLASH {
        spec_ancestor_dirs(root, rel.drop_last()).push(spec_join(root, rel.drop_last()))
    } else {
        spec_ancestor_dirs(root, rel.drop_last())
    }
}

/// Every ancestor directory lies under the root.
pub proof fn lemma_ancestors_under_root(root: Seq<u8>, rel: Seq<u8>)
    ensures
        forall|k: int|
            0 <= k < spec_ancestor_dirs(root, rel).len() ==> root.is_prefix_of(
                #[trigger] spec_ancestor_dirs(root, rel)[k],
            ),
    decreases rel.len(),
{
    if rel.len() > 0 {
        lemma_ancestors_under_root(root, rel.drop_last());
        let whole = spec_ancestor_dirs(root, rel);
        let prior = spec_ancestor_dirs(root, rel.drop_last());
        assert forall|k: int| 0 <= k < whole.len() implies root.is_prefix_of(whole[k]) by {
            if rel.last() == SLASH {
                if k < prior.len() {
                    assert(whole[k] == prior[k]);
                } else {
                    assert(whole[k] == spec_join(root, rel.drop_last()));
                    lemma_join_prefix(root, rel.drop_last());
                }
            } else {
                assert(whole[k] == prior[k]);
            }
        }
    }
}

/// Joining under a root keeps prefixes: a shorter relative path joins to a
/// prefix of what a longer one joins to.
pub proof fn lemma_join_prefix_monotone(root: Seq<u8>, a: Seq<u8>, b: Seq<u8>)
    requires
        a.is_prefix_of(b),
    ensures
        spec_join(root, a).is_prefix_of(spec_join(root, b)),
{
    let ja = spec_join(root, a);
    let jb = spec_join(root, b);
    assert forall|i: int| 0 <= i < ja.len() implies ja[i] == jb[i] by {
        if root.len() > 0 && root.last() == SLASH {
            if i >= root.len() {
                assert(ja[i] == a[i - root.len()]);
                assert(a[i - root.len()] == b[i - root.len()]);
                assert(jb[i] == b[i - root.len()]);
            }
        } else {
            if i > root.len() {
                assert(ja[i] == (root + seq![SLASH] + a)[i]);
                assert(ja[i] == a[i - root.len() - 1]);
                assert(a[i - root.len() - 1] == b[i - root.len() - 1]);
                assert(jb[i] == b[i - root.len() - 1]);
            }
        }
    }
    assert(jb.subrange(0, ja.len() as int) =~= ja);
}

/// The ancestor directories really come root-to-leaf: each one is a prefix
/// of every later one, and every one is a prefix of the joined destination
/// path, so creating them in order proceeds one level at a time from the
/// root down.
pub proof fn lemma_ancestors_root_to_leaf(root: Seq<u8>, rel: Seq<u8>)
    ensures
        forall|i: int, j: int|
            #![trigger spec_ancestor_dirs(root, rel)[i], spec_ancestor_dirs(root, rel)[j]]
            0 <= i <= j < spec_ancestor_dirs(root, rel).len() ==> spec_ancestor_dirs(
                root,
                rel,
            )[i].is_prefix_of(spec_ancestor_dirs(root, rel)[j]),
        forall|i: int|
            0 <= i < spec_ancestor_dirs(root, rel).len() ==> (#[trigger] spec_ancestor_dirs(
                root,
                rel,
            )[i]).is_prefix_of(spec_join(root, rel)),
    decreases rel.len(),
{
    if rel.len() > 0 {
        lemma_ancestors_root_to_leaf(root, rel.drop_last());
        let whole = spec_ancestor_dirs(root, rel);
        let prior = spec_ancestor_dirs(root, rel.drop_last());
        assert(rel.drop_last().is_prefix_of(rel));
        lemma_join_prefix_monotone(root, rel.drop_last(), rel);
        assert forall|i: int|
            0 <= i < whole.len() implies (#[trigger] whole[i]).is_prefix_of(
            spec_join(root, rel),
        ) by {
            if i < prior.len() {
                assert(whole[i] == prior[i]);
                assert(prior[i].is_prefix_of(spec_join(root, rel.drop_last())));
                lemma_prefix_transitive(prior[i], spec_join(root, rel.drop_last()), spec_join(root, rel));
            } else {
                assert(whole[i] == spec_join(root, rel.drop_last()));
            }
        }
        assert forall|i: int, j: int|
            #![trigger whole[i], whole[j]]
            0 <= i <= j < whole.len() implies whole[i].is_prefix_of(whole[j]) by {
            if j < prior.len() {
                assert(whole[i] == prior[i]);
                assert(whole[j] == prior[j]);
            } else if i < prior.len() {
                assert(whole[i] == prior[i]);
                assert(whole[j] == spec_join(root, rel.drop_last()));
                assert(prior[i].is_prefix_of(spec_join(root, rel.drop_last())));
            } else {
                assert(whole[i] == whole[j]);
            }
        }
    }
}

proof fn lemma_prefix_transitive(a: Seq<u8>, b: Seq<u8>, c: Seq<u8>)
    requires
        a.is_prefix_of(b),
        b.is_prefix_of(c),
    ensures
        a.is_prefix_of(c),
{
    assert forall|i: int| 0 <= i < a.len() implies a[i] == c[i] by {
        assert(a[i] == b.subrange(0, a.len() as int)[i]);
        assert(b[i] == c.subrange(0, b.len() as int)[i]);
    }
    assert(c.subrange(0, a.len() as int) =~= a);
}

/// The ancestor directories of a relative path, root-to-leaf.
pub fn ancestor_dirs(root: &Vec<u8>, rel: &Vec<u8>) -> (r: Vec<Vec<u8>>)
    ensures
        r.deep_view() == spec_ancestor_dirs(root@, rel@),
{
    let mut out: Vec<Vec<u8>> = Vec::new();
    let n = rel.len();
    let mut prefix: Vec<u8> = Vec::new();
    for i in 0..n
        invariant
            n == rel@.len(),
            prefix@ =~= rel@.take(i as int),
            out@.len() == spec_ancestor_dirs(root@, rel@.take(i as int)).len(),
            forall|k: int|
                0 <= k < out@.len() ==> #[trigger] out@[k]@ == spec_ancestor_dirs(
                    root@,
                    rel@.take(i as int),
                )[k],
    {
        proof {
            assert(rel@.take(i + 1).drop_last() =~= rel@.take(i as int));
            assert(rel@.take(i + 1).last() == rel@[i as int]);
        }
        if rel[i] == SLASH {
            let dir = join_under_root(root, &prefix);
            out.push(dir);
        }
        prefix.push(rel[i]);
    }
    proof {
        assert(rel@.take(n as int) =~= rel@);
        assert(out.deep_view() =~~= spec_ancestor_dirs(root@, rel@));
    }
    out
}

} // verus!
