//! The file selector: filters the walker's output down to the files to
//! bundle. A path is kept exactly when it ends with the requested extension
//! and does not contain the destination path as a substring; the second
//! test keeps the bundle's own destination file out of its input set.

use vstd::prelude::*;
use crate::text::{ends_with, contains_seq, ends_with_chars, contains_chars};
use crate::walker::views_of;

verus! {

/// The selection predicate: `p` ends with `ext` and does not contain
/// `dest`.
pub open spec fn spec_selected(p: Seq<char>, ext: Seq<char>, dest: Seq<char>) -> bool {
    ends_with(p, ext) && !contains_seq(p, dest)
}

/// The subsequence of `paths`, in order, whose members satisfy
/// [`spec_selected`].
pub open spec fn spec_select(paths: Seq<Seq<char>>, ext: Seq<char>, dest: Seq<char>) -> Seq<
    Seq<char>,
>
    decreases paths.len(),
{
    if paths.len() == 0 {
        Seq::empty()
    } else if spec_selected(paths[0], ext, dest) {
        seq![paths[0]] + spec_select(paths.skip(1), ext, dest)
    } else {
        spec_select(paths.skip(1), ext, dest)
    }
}

/// Resolves the destination path as `{folder}/{name}`.
pub fn resolve_destination(folder: &Vec<char>, name: &Vec<char>) -> (r: Vec<char>)
    ensures
        r@ == folder@ + seq!['/'] + name@,
{
    let mut r = folder.clone();
    proof {
        assert(r@ =~= folder@);
    }
    r.push('/');
    let mut i: usize = 0;
    proof {
        assert(r@ =~= folder@ + seq!['/'] + name@.take(0));
    }
    while i < name.len()
        invariant
            i <= name.len(),
            r@ == folder@ + seq!['/'] + name@.take(i as int),
        decreases name.len() - i,
    {
        let c = name[i];
        proof {
            assert((folder@ + seq!['/'] + name@.take(i as int)).push(c) =~= folder@ + seq!['/']
                + name@.take(i as int + 1));
        }
        r.push(c);
        i += 1;
    }
    proof {
        assert(name@.take(name@.len() as int) =~= name@);
    }
    r
}

/// Selects, in walker order, the discovered paths that end with `ext` and
/// do not contain `dest`: exactly the paths of [`spec_select`].
pub fn select_files(paths: &Vec<Vec<char>>, ext: &Vec<char>, dest: &Vec<char>) -> (r: Vec<
    Vec<char>,
>)
    ensures
        views_of(r@) == spec_select(views_of(paths@), ext@, dest@),
{
    let ghost ps = views_of(paths@);
    let mut r: Vec<Vec<char>> = Vec::new();
    let mut i: usize = 0;
    proof {
        assert(ps.skip(0) =~= ps);
        assert(views_of(r@) + spec_select(ps, ext@, dest@) =~= spec_select(ps, ext@, dest@));
    }
    while i < paths.len()
        invariant
            i <= paths.len(),
            ps == views_of(paths@),
            spec_select(ps, ext@, dest@) == views_of(r@) + spec_select(
                ps.skip(i as int),
                ext@,
                dest@,
            ),
        decreases paths.len() - i,
    {
        proof {
            assert(ps.skip(i as int)[0] == ps[i as int]);
            assert(ps[i as int] == paths@[i as int]@);
            assert(ps.skip(i as int).skip(1) =~= ps.skip(i as int + 1));
        }
        let p = &paths[i];
        if ends_with_chars(p, ext) && !contains_chars(p, dest) {
            let ghost old_r = r@;
            let q = p.clone();
            proof {
                assert(q@ =~= p@);
            }
            r.push(q);
            proof {
                assert(views_of(old_r.push(q)) =~= views_of(old_r) + seq![ps[i as int]]);
                assert(views_of(old_r) + (seq![ps[i as int]] + spec_select(
                    ps.skip(i as int + 1),
                    ext@,
                    dest@,
                )) =~= (views_of(old_r) + seq![ps[i as int]]) + spec_select(
                    ps.skip(i as int + 1),
                    ext@,
                    dest@,
                ));
            }
        }
        i += 1;
    }
    proof {
        assert(ps.skip(ps.len() as int) =~= Seq::<Seq<char>>::empty());
        assert(views_of(r@) + Seq::<Seq<char>>::empty() =~= views_of(r@));
    }
    r
}

proof fn lemma_contains_unfold(s: Seq<Seq<char>>, p: Seq<char>)
    requires
        s.len() > 0,
    ensures
        s.contains(p) <==> (s[0] == p || s.skip(1).contains(p)),
{
    if s.contains(p) {
        let i = choose|i: int| 0 <= i < s.len() && s[i] == p;
        if i > 0 {
            assert(s.skip(1)[i - 1] == p);
        }
    }
    if s.skip(1).contains(p) {
        let i = choose|i: int| 0 <= i < s.skip(1).len() && s.skip(1)[i] == p;
        assert(s[i + 1] == p);
    }
}

/// Law: a path is in the selector's output exactly when it was discovered
/// and satisfies the selection predicate — it ends with the extension and
/// does not contain the destination path.
pub proof fn lemma_select_membership(
    paths: Seq<Seq<char>>,
    ext: Seq<char>,
    dest: Seq<char>,
    p: Seq<char>,
)
    ensures
        spec_select(paths, ext, dest).contains(p) <==> (paths.contains(p) && spec_selected(
            p,
            ext,
            dest,
        )),
    decreases paths.len(),
{
    if paths.len() == 0 {
    } else {
        lemma_select_membership(paths.skip(1), ext, dest, p);
        lemma_contains_unfold(paths, p);
        if spec_selected(paths[0], ext, dest) {
            let sel = seq![paths[0]] + spec_select(paths.skip(1), ext, dest);
            assert(sel.skip(1) =~= spec_select(paths.skip(1), ext, dest));
            lemma_contains_unfold(sel, p);
        }
    }
}

/// Law: the destination path is never a member of the selector's output,
/// even when it was discovered inside the scanned tree and matches the
/// extension filter.
pub proof fn lemma_self_exclusion(paths: Seq<Seq<char>>, ext: Seq<char>, dest: Seq<char>)
    ensures
        !spec_select(paths, ext, dest).contains(dest),
{
    assert(dest.subrange(0, 0 + dest.len() as int) =~= dest);
    assert(contains_seq(dest, dest));
    lemma_select_membership(paths, ext, dest, dest);
}

} // verus!
