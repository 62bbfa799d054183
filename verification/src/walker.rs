//! The tree walker: a model of a directory tree and its depth-first
//! traversal. A tree is built by the caller from the real file system, one
//! entry per regular file or subdirectory, in directory-listing order; the
//! walk then yields every regular-file path reachable by recursive descent,
//! in that order, and no directory.

use vstd::prelude::*;

verus! {

/// One entry of a directory tree: a regular file, carrying its full path,
/// or a directory, carrying its entries in listing order.
pub enum FsEntry {
    File { path: Vec<char> },
    Dir { entries: Vec<FsEntry> },
}

/// The views of a sequence of path vectors.
pub open spec fn views_of(ps: Seq<Vec<char>>) -> Seq<Seq<char>> {
    ps.map_values(|p: Vec<char>| p@)
}

/// All regular-file paths reachable from `e` by recursive descent, depth
/// first, in entry order.
pub open spec fn entry_files(e: FsEntry) -> Seq<Seq<char>>
    decreases e, 0int,
{
    match e {
        FsEntry::File { path } => seq![path@],
        FsEntry::Dir { entries } => forest_files(entries@),
    }
}

/// All regular-file paths reachable from a sequence of sibling entries, in
/// order.
pub open spec fn forest_files(es: Seq<FsEntry>) -> Seq<Seq<char>>
    decreases es, 1int,
{
    if es.len() == 0 {
        Seq::empty()
    } else {
        entry_files(es[0]) + forest_files(es.skip(1))
    }
}

/// A regular file with path `p` is reachable from `e` by recursive
/// descent.
pub open spec fn reaches_file(e: FsEntry, p: Seq<char>) -> bool
    decreases e, 0int,
{
    match e {
        FsEntry::File { path } => path@ == p,
        FsEntry::Dir { entries } => exists|i: int|
            0 <= i < entries@.len() && reaches_file(#[trigger] entries@[i], p),
    }
}

proof fn lemma_forest_reaches(es: Seq<FsEntry>, p: Seq<char>)
    ensures
        forest_files(es).contains(p) <==> exists|i: int|
            0 <= i < es.len() && reaches_file(#[trigger] es[i], p),
    decreases es, 1int,
{
    if es.len() == 0 {
    } else {
        lemma_entry_reaches(es[0], p);
        lemma_forest_reaches(es.skip(1), p);
        let head = entry_files(es[0]);
        let tail = forest_files(es.skip(1));
        if (head + tail).contains(p) {
            let i = choose|i: int| 0 <= i < (head + tail).len() && (head + tail)[i] == p;
            if i < head.len() {
                assert(head[i] == p);
            } else {
                assert(tail[i - head.len()] == p);
                let j = choose|j: int| 0 <= j < es.skip(1).len() && reaches_file(
                    #[trigger] es.skip(1)[j],
                    p,
                );
                assert(es.skip(1)[j] == es[j + 1]);
                assert(reaches_file(es[j + 1], p));
            }
        }
        if exists|i: int| 0 <= i < es.len() && reaches_file(#[trigger] es[i], p) {
            let i = choose|i: int| 0 <= i < es.len() && reaches_file(#[trigger] es[i], p);
            if i == 0 {
                let j = choose|j: int| 0 <= j < head.len() && head[j] == p;
                assert((head + tail)[j] == p);
            } else {
                assert(es.skip(1)[i - 1] == es[i]);
                let j = choose|j: int| 0 <= j < tail.len() && tail[j] == p;
                assert((head + tail)[head.len() + j] == p);
            }
        }
    }
}

/// Law: the traversal is complete — a path appears in [`entry_files`]
/// exactly when a regular file with that path is reachable from `e` by
/// recursive descent. With the order stated by [`walk`], no file is
/// omitted or duplicated and no directory path appears.
pub proof fn lemma_entry_reaches(e: FsEntry, p: Seq<char>)
    ensures
        entry_files(e).contains(p) <==> reaches_file(e, p),
    decreases e, 0int,
{
    match e {
        FsEntry::File { path } => {
            if path@ == p {
                assert(entry_files(e)[0] == p);
            }
        },
        FsEntry::Dir { entries } => {
            lemma_forest_reaches(entries@, p);
        },
    }
}

/// Walks the tree depth-first and returns the full path of every regular
/// file reachable from `e`: exactly the paths of [`entry_files`], in the
/// same order, so no file is omitted or duplicated and no directory path
/// appears.
#[verifier::loop_isolation(false)]
pub fn walk(e: &FsEntry) -> (r: Vec<Vec<char>>)
    ensures
        views_of(r@) == entry_files(*e),
    decreases *e,
{
    match e {
        FsEntry::File { path } => {
            let mut r: Vec<Vec<char>> = Vec::new();
            r.push(path.clone());
            proof {
                assert(r@[0]@ =~= path@);
                assert(views_of(r@) =~= seq![path@]);
            }
            r
        },
        FsEntry::Dir { entries } => {
            let mut r: Vec<Vec<char>> = Vec::new();
            let mut i: usize = 0;
            proof {
                assert(entries@.skip(0) =~= entries@);
                assert(views_of(r@) + forest_files(entries@) =~= forest_files(entries@));
            }
            while i < entries.len()
                invariant
                    i <= entries.len(),
                    forest_files(entries@) == views_of(r@) + forest_files(
                        entries@.skip(i as int),
                    ),
                decreases entries.len() - i,
            {
                proof {
                    assert(entries@.skip(i as int)[0] == entries@[i as int]);
                    assert(entries@.skip(i as int).skip(1) =~= entries@.skip(i as int + 1));
                    assert(decreases_to!(*e => *entries));
                    assert(decreases_to!(*entries => entries@));
                    assert(decreases_to!(entries@ => entries@[i as int]));
                    assert(decreases_to!(*e => entries@[i as int]));
                }
                let mut sub = walk(&entries[i]);
                let ghost old_r = r@;
                let ghost old_sub = sub@;
                r.append(&mut sub);
                proof {
                    assert(views_of(old_r + old_sub) =~= views_of(old_r) + views_of(old_sub));
                    assert(views_of(old_r) + (entry_files(entries@[i as int]) + forest_files(
                        entries@.skip(i as int + 1),
                    )) =~= (views_of(old_r) + entry_files(entries@[i as int])) + forest_files(
                        entries@.skip(i as int + 1),
                    ));
                }
                i += 1;
            }
            proof {
                assert(entries@.skip(entries@.len() as int) =~= Seq::<FsEntry>::empty());
                assert(views_of(r@) + Seq::<Seq<char>>::empty() =~= views_of(r@));
            }
            r
        },
    }
}

} // verus!
