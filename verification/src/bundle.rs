//! The bundle builder: folds the selected files' contents, each minified by
//! the full rule sequence, into one bundle text, in selection order and
//! with no separator between files. The caller reads each selected file
//! into memory first and writes the finished bundle out in one operation,
//! so the destination is never touched before the whole bundle exists.

use vstd::prelude::*;
use crate::rules::{spec_minify, minify};
use crate::selector::{spec_select, resolve_destination, select_files};
use crate::walker::{FsEntry, entry_files, views_of, walk};

verus! {

/// The selection plan of one bundler run: resolves the destination path as
/// `{folder}/{name}` and returns it together with the files to bundle —
/// every regular-file path reachable in `tree` that ends with `ext` and
/// does not contain the destination path, in traversal order.
pub fn plan_bundle(tree: &FsEntry, ext: &Vec<char>, folder: &Vec<char>, name: &Vec<char>) -> (r: (
    Vec<Vec<char>>,
    Vec<char>,
))
    ensures
        r.1@ == folder@ + seq!['/'] + name@,
        views_of(r.0@) == spec_select(entry_files(*tree), ext@, r.1@),
{
    let dest = resolve_destination(folder, name);
    let found = walk(tree);
    let picked = select_files(&found, ext, &dest);
    (picked, dest)
}

/// The concatenation, in order, of the minified form of every member of
/// `contents`.
pub open spec fn spec_bundle(contents: Seq<Seq<char>>) -> Seq<char>
    decreases contents.len(),
{
    if contents.len() == 0 {
        Seq::empty()
    } else {
        spec_minify(contents[0]) + spec_bundle(contents.skip(1))
    }
}

/// Minifies each file's text and concatenates the results in input order:
/// the bundle equals the concatenation of each file's independently
/// minified content.
pub fn build_bundle(contents: &Vec<Vec<char>>) -> (r: Vec<char>)
    ensures
        r@ == spec_bundle(views_of(contents@)),
{
    let ghost cs = views_of(contents@);
    let mut r: Vec<char> = Vec::new();
    let mut i: usize = 0;
    proof {
        assert(cs.skip(0) =~= cs);
        assert(r@ + spec_bundle(cs) =~= spec_bundle(cs));
    }
    while i < contents.len()
        invariant
            i <= contents.len(),
            cs == views_of(contents@),
            spec_bundle(cs) == r@ + spec_bundle(cs.skip(i as int)),
        decreases contents.len() - i,
    {
        proof {
            assert(cs.skip(i as int)[0] == cs[i as int]);
            assert(cs[i as int] == contents@[i as int]@);
            assert(cs.skip(i as int).skip(1) =~= cs.skip(i as int + 1));
        }
        let ghost old_r = r@;
        let mut piece = minify(&contents[i]);
        let ghost piece_view = piece@;
        r.append(&mut piece);
        proof {
            assert(old_r + (piece_view + spec_bundle(cs.skip(i as int + 1))) =~= (old_r
                + piece_view) + spec_bundle(cs.skip(i as int + 1)));
        }
        i += 1;
    }
    proof {
        assert(cs.skip(cs.len() as int) =~= Seq::<Seq<char>>::empty());
        assert(r@ + Seq::<char>::empty() =~= r@);
    }
    r
}

} // verus!
