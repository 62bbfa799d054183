//! Character classes and substring predicates used by the rewrite rules and
//! the file selector.

use vstd::prelude::*;

verus! {

/// A whitespace character: the Unicode `White_Space` set, which is what the
/// rewrite rules treat as collapsible whitespace.
pub open spec fn is_space_char(c: char) -> bool {
    let u = c as u32;
    u == 0x20 || (0x9 <= u && u <= 0xD) || u == 0x85 || u == 0xA0 || u == 0x1680 || (0x2000 <= u
        && u <= 0x200A) || u == 0x2028 || u == 0x2029 || u == 0x202F || u == 0x205F || u == 0x3000
}

/// A punctuation character around which the rules trim whitespace:
/// one of `,` `:` `;` `{` `}` `>`.
pub open spec fn is_punct_char(c: char) -> bool {
    c == ',' || c == ':' || c == ';' || c == '{' || c == '}' || c == '>'
}

/// Runtime test for [`is_space_char`].
pub fn is_space(c: char) -> (r: bool)
    ensures
        r == is_space_char(c),
{
    let u = c as u32;
    u == 0x20 || (0x9 <= u && u <= 0xD) || u == 0x85 || u == 0xA0 || u == 0x1680 || (0x2000 <= u
        && u <= 0x200A) || u == 0x2028 || u == 0x2029 || u == 0x202F || u == 0x205F || u == 0x3000
}

/// Runtime test for [`is_punct_char`].
pub fn is_punct(c: char) -> (r: bool)
    ensures
        r == is_punct_char(c),
{
    c == ',' || c == ':' || c == ';' || c == '{' || c == '}' || c == '>'
}

/// `s` ends with the suffix `suf`.
pub open spec fn ends_with(s: Seq<char>, suf: Seq<char>) -> bool {
    suf.len() <= s.len() && s.subrange(s.len() - suf.len(), s.len() as int) == suf
}

/// `p` occurs in `s` as a contiguous substring.
pub open spec fn contains_seq(s: Seq<char>, p: Seq<char>) -> bool {
    exists|i: int| 0 <= i && i + p.len() <= s.len() && #[trigger] s.subrange(i, i + p.len()) == p
}

/// Runtime suffix test, equivalent to [`ends_with`] on the views.
pub fn ends_with_chars(s: &Vec<char>, suf: &Vec<char>) -> (r: bool)
    ensures
        r == ends_with(s@, suf@),
{
    if suf.len() > s.len() {
        return false;
    }
    let off: usize = s.len() - suf.len();
    let mut i: usize = 0;
    while i < suf.len()
        invariant
            suf.len() <= s.len(),
            off == s.len() - suf.len(),
            i <= suf.len(),
            forall|k: int| 0 <= k < i ==> s@[off + k] == suf@[k],
        decreases suf.len() - i,
    {
        if s[off + i] != suf[i] {
            assert(s@.subrange(s@.len() - suf@.len(), s@.len() as int)[i as int] != suf@[i as int]);
            return false;
        }
        i += 1;
    }
    assert(s@.subrange(s@.len() - suf@.len(), s@.len() as int) =~= suf@);
    true
}

/// Runtime substring test, equivalent to [`contains_seq`] on the views.
pub fn contains_chars(s: &Vec<char>, p: &Vec<char>) -> (r: bool)
    ensures
        r == contains_seq(s@, p@),
{
    if p.len() > s.len() {
        assert(!contains_seq(s@, p@));
        return false;
    }
    if p.len() == 0 {
        assert(s@.subrange(0, 0 + p@.len() as int) =~= p@);
        return true;
    }
    let last: usize = s.len() - p.len();
    let mut i: usize = 0;
    while i <= last
        invariant
            1 <= p.len() <= s.len(),
            last == s.len() - p.len(),
            i <= last + 1,
            forall|k: int| 0 <= k < i ==> #[trigger] s@.subrange(k, k + p@.len()) != p@,
        decreases last + 1 - i,
    {
        let mut j: usize = 0;
        let mut hit: bool = true;
        while j < p.len()
            invariant
                i + p.len() <= s.len(),
                j <= p.len(),
                hit ==> forall|k: int| 0 <= k < j ==> s@[i + k] == p@[k],
                !hit ==> s@.subrange(i as int, i + p@.len()) != p@,
            decreases p.len() - j,
        {
            if s[i + j] != p[j] {
                assert(s@.subrange(i as int, i + p@.len())[j as int] != p@[j as int]);
                hit = false;
                j = p.len();
            } else {
                j += 1;
            }
        }
        if hit {
            assert(s@.subrange(i as int, i + p@.len()) =~= p@);
            return true;
        }
        i += 1;
    }
    assert(forall|k: int|
        0 <= k && k + p@.len() <= s@.len() ==> #[trigger] s@.subrange(k, k + p@.len()) != p@);
    false
}

} // verus!
