//! The rewrite-rule engine: a fixed ordered sequence of six text rules that
//! minifies one file's content. Each rule scans the text once, left to
//! right, rewriting the leftmost match first and never rescanning the text
//! it has already produced.

use vstd::prelude::*;
use crate::text::{is_space_char, is_punct_char, is_space, is_punct};

verus! {

/// Rule 1, worker: collapse every run of whitespace into one space.
/// `in_run` records whether the previous character was part of a
/// whitespace run whose single replacement space has been emitted.
pub open spec fn collapse_ws_from(s: Seq<char>, in_run: bool) -> Seq<char>
    decreases s.len(),
{
    if s.len() == 0 {
        Seq::empty()
    } else if is_space_char(s[0]) {
        if in_run {
            collapse_ws_from(s.skip(1), true)
        } else {
            seq![' '] + collapse_ws_from(s.skip(1), true)
        }
    } else {
        seq![s[0]] + collapse_ws_from(s.skip(1), false)
    }
}

/// Rule 1: every maximal run of one-or-more whitespace characters becomes a
/// single space.
pub open spec fn collapse_ws(s: Seq<char>) -> Seq<char> {
    collapse_ws_from(s, false)
}

/// Rule 2: every occurrence of the three characters `; }` becomes `}`.
pub open spec fn strip_semi_close(s: Seq<char>) -> Seq<char>
    decreases s.len(),
{
    if s.len() == 0 {
        Seq::empty()
    } else if s.len() >= 3 && s[0] == ';' && s[1] == ' ' && s[2] == '}' {
        seq!['}'] + strip_semi_close(s.skip(3))
    } else {
        seq![s[0]] + strip_semi_close(s.skip(1))
    }
}

/// Rule 3: a single whitespace character immediately after one of
/// `,` `:` `;` `{` `}` `>` is deleted.
pub open spec fn trim_after_punct(s: Seq<char>) -> Seq<char>
    decreases s.len(),
{
    if s.len() == 0 {
        Seq::empty()
    } else if s.len() >= 2 && is_punct_char(s[0]) && is_space_char(s[1]) {
        seq![s[0]] + trim_after_punct(s.skip(2))
    } else {
        seq![s[0]] + trim_after_punct(s.skip(1))
    }
}

/// Rule 4: a single whitespace character immediately before one of
/// `,` `:` `;` `{` `}` `>` is deleted.
pub open spec fn trim_before_punct(s: Seq<char>) -> Seq<char>
    decreases s.len(),
{
    if s.len() == 0 {
        Seq::empty()
    } else if s.len() >= 2 && is_space_char(s[0]) && is_punct_char(s[1]) {
        seq![s[1]] + trim_before_punct(s.skip(2))
    } else {
        seq![s[0]] + trim_before_punct(s.skip(1))
    }
}

/// The seven characters `0 0 0 0` begin at position 0 of `s`.
pub open spec fn quad_zero_at_start(s: Seq<char>) -> bool {
    s.len() >= 7 && s[0] == '0' && s[1] == ' ' && s[2] == '0' && s[3] == ' ' && s[4] == '0'
        && s[5] == ' ' && s[6] == '0'
}

/// Rule 5: every occurrence of the seven characters `0 0 0 0` becomes `0`.
pub open spec fn collapse_zero_run(s: Seq<char>) -> Seq<char>
    decreases s.len(),
{
    if s.len() == 0 {
        Seq::empty()
    } else if quad_zero_at_start(s) {
        seq!['0'] + collapse_zero_run(s.skip(7))
    } else {
        seq![s[0]] + collapse_zero_run(s.skip(1))
    }
}

/// Position of the first `*/` at or after `from`; `s.len()` when there is
/// none.
pub open spec fn find_close(s: Seq<char>, from: int) -> int
    decreases s.len() - from,
{
    if from < 0 || from + 2 > s.len() {
        s.len() as int
    } else if s[from] == '*' && s[from + 1] == '/' {
        from
    } else {
        find_close(s, from + 1)
    }
}

/// What [`find_close`] returns: either `s.len()` with no closing `*/` at or
/// after `from`, or the position of the first one.
pub proof fn lemma_find_close(s: Seq<char>, from: int)
    requires
        0 <= from <= s.len(),
    ensures
        ({
            let r = find_close(s, from);
            &&& r == s.len() || (from <= r && r + 2 <= s.len() && s[r] == '*' && s[r + 1] == '/')
            &&& forall|k: int|
                from <= k && k + 2 <= s.len() && k < r ==> !(#[trigger] s[k] == '*' && s[k + 1]
                    == '/')
        }),
    decreases s.len() - from,
{
    if from + 2 > s.len() {
    } else if s[from] == '*' && s[from + 1] == '/' {
    } else {
        lemma_find_close(s, from + 1);
    }
}

/// [`find_close`] on a suffix of `s`, in terms of [`find_close`] on `s`.
pub proof fn lemma_find_close_shift(s: Seq<char>, i: int, from: int)
    requires
        0 <= i <= s.len(),
        0 <= from,
    ensures
        find_close(s.skip(i), from) == (if find_close(s, i + from) == s.len() {
            s.skip(i).len() as int
        } else {
            find_close(s, i + from) - i
        }),
    decreases s.len() - (i + from),
{
    let sk = s.skip(i);
    if from + 2 > sk.len() {
        assert(i + from + 2 > s.len());
    } else if sk[from] == '*' && sk[from + 1] == '/' {
        assert(s[i + from] == '*' && s[i + from + 1] == '/');
    } else {
        lemma_find_close_shift(s, i, from + 1);
    }
}

/// Rule 6: every comment, from a `/*` to the nearest following `*/`, is
/// deleted; a `/*` with no later `*/` stays.
pub open spec fn strip_comments(s: Seq<char>) -> Seq<char>
    decreases s.len(),
    via strip_comments_dec
{
    if s.len() == 0 {
        Seq::empty()
    } else if s.len() >= 4 && s[0] == '/' && s[1] == '*' && find_close(s, 2) < s.len() {
        strip_comments(s.skip(find_close(s, 2) + 2))
    } else {
        seq![s[0]] + strip_comments(s.skip(1))
    }
}

#[via_fn]
proof fn strip_comments_dec(s: Seq<char>) {
    if s.len() >= 4 {
        lemma_find_close(s, 2);
    }
}

/// The full fixed rule sequence, rules 1 through 6 in order: the output of
/// each rule is the input of the next.
pub open spec fn spec_minify(s: Seq<char>) -> Seq<char> {
    strip_comments(
        collapse_zero_run(trim_before_punct(trim_after_punct(strip_semi_close(collapse_ws(s))))),
    )
}

proof fn lemma_push_assoc(a: Seq<char>, c: char, x: Seq<char>)
    ensures
        a + (seq![c] + x) == a.push(c) + x,
{
    assert(a + (seq![c] + x) =~= a.push(c) + x);
}

/// Applies rule 1 to the whole text.
pub fn apply_collapse_ws(v: &Vec<char>) -> (r: Vec<char>)
    ensures
        r@ == collapse_ws(v@),
{
    let mut out: Vec<char> = Vec::new();
    let mut run: bool = false;
    let mut i: usize = 0;
    proof {
        assert(v@.skip(0) =~= v@);
        assert(out@ + collapse_ws_from(v@, false) =~= collapse_ws_from(v@, false));
    }
    while i < v.len()
        invariant
            i <= v.len(),
            collapse_ws(v@) == out@ + collapse_ws_from(v@.skip(i as int), run),
        decreases v.len() - i,
    {
        proof {
            assert(v@.skip(i as int)[0] == v@[i as int]);
            assert(v@.skip(i as int).skip(1) =~= v@.skip(i as int + 1));
        }
        let ghost rest = collapse_ws_from(v@.skip(i as int + 1), true);
        let c = v[i];
        if is_space(c) {
            if !run {
                proof {
                    lemma_push_assoc(out@, ' ', rest);
                }
                out.push(' ');
                run = true;
            }
        } else {
            proof {
                lemma_push_assoc(out@, c, collapse_ws_from(v@.skip(i as int + 1), false));
            }
            out.push(c);
            run = false;
        }
        i += 1;
    }
    proof {
        assert(v@.skip(v@.len() as int) =~= Seq::<char>::empty());
        assert(out@ + Seq::<char>::empty() =~= out@);
    }
    out
}

/// Applies rule 2 to the whole text.
pub fn apply_strip_semi_close(v: &Vec<char>) -> (r: Vec<char>)
    ensures
        r@ == strip_semi_close(v@),
{
    let mut out: Vec<char> = Vec::new();
    let mut i: usize = 0;
    proof {
        assert(v@.skip(0) =~= v@);
        assert(out@ + strip_semi_close(v@) =~= strip_semi_close(v@));
    }
    while i < v.len()
        invariant
            i <= v.len(),
            strip_semi_close(v@) == out@ + strip_semi_close(v@.skip(i as int)),
        decreases v.len() - i,
    {
        proof {
            assert(v@.skip(i as int)[0] == v@[i as int]);
            if i + 2 < v@.len() {
                assert(v@.skip(i as int)[1] == v@[i as int + 1]);
                assert(v@.skip(i as int)[2] == v@[i as int + 2]);
                assert(v@.skip(i as int).skip(3) =~= v@.skip(i as int + 3));
            }
            assert(v@.skip(i as int).skip(1) =~= v@.skip(i as int + 1));
        }
        let c = v[i];
        if v.len() - i > 2 && c == ';' && v[i + 1] == ' ' && v[i + 2] == '}' {
            proof {
                lemma_push_assoc(out@, '}', strip_semi_close(v@.skip(i as int + 3)));
            }
            out.push('}');
            i += 3;
        } else {
            proof {
                lemma_push_assoc(out@, c, strip_semi_close(v@.skip(i as int + 1)));
            }
            out.push(c);
            i += 1;
        }
    }
    proof {
        assert(v@.skip(v@.len() as int) =~= Seq::<char>::empty());
        assert(out@ + Seq::<char>::empty() =~= out@);
    }
    out
}

/// Applies rule 3 to the whole text.
pub fn apply_trim_after_punct(v: &Vec<char>) -> (r: Vec<char>)
    ensures
        r@ == trim_after_punct(v@),
{
    let mut out: Vec<char> = Vec::new();
    let mut i: usize = 0;
    proof {
        assert(v@.skip(0) =~= v@);
        assert(out@ + trim_after_punct(v@) =~= trim_after_punct(v@));
    }
    while i < v.len()
        invariant
            i <= v.len(),
            trim_after_punct(v@) == out@ + trim_after_punct(v@.skip(i as int)),
        decreases v.len() - i,
    {
        proof {
            assert(v@.skip(i as int)[0] == v@[i as int]);
            if i + 1 < v@.len() {
                assert(v@.skip(i as int)[1] == v@[i as int + 1]);
                assert(v@.skip(i as int).skip(2) =~= v@.skip(i as int + 2));
            }
            assert(v@.skip(i as int).skip(1) =~= v@.skip(i as int + 1));
        }
        let c = v[i];
        if v.len() - i > 1 && is_punct(c) && is_space(v[i + 1]) {
            proof {
                lemma_push_assoc(out@, c, trim_after_punct(v@.skip(i as int + 2)));
            }
            out.push(c);
            i += 2;
        } else {
            proof {
                lemma_push_assoc(out@, c, trim_after_punct(v@.skip(i as int + 1)));
            }
            out.push(c);
            i += 1;
        }
    }
    proof {
        assert(v@.skip(v@.len() as int) =~= Seq::<char>::empty());
        assert(out@ + Seq::<char>::empty() =~= out@);
    }
    out
}

/// Applies rule 4 to the whole text.
pub fn apply_trim_before_punct(v: &Vec<char>) -> (r: Vec<char>)
    ensures
        r@ == trim_before_punct(v@),
{
    let mut out: Vec<char> = Vec::new();
    let mut i: usize = 0;
    proof {
        assert(v@.skip(0) =~= v@);
        assert(out@ + trim_before_punct(v@) =~= trim_before_punct(v@));
    }
    while i < v.len()
        invariant
            i <= v.len(),
            trim_before_punct(v@) == out@ + trim_before_punct(v@.skip(i as int)),
        decreases v.len() - i,
    {
        proof {
            assert(v@.skip(i as int)[0] == v@[i as int]);
            if i + 1 < v@.len() {
                assert(v@.skip(i as int)[1] == v@[i as int + 1]);
                assert(v@.skip(i as int).skip(2) =~= v@.skip(i as int + 2));
            }
            assert(v@.skip(i as int).skip(1) =~= v@.skip(i as int + 1));
        }
        let c = v[i];
        if v.len() - i > 1 && is_space(c) && is_punct(v[i + 1]) {
            let p = v[i + 1];
            proof {
                lemma_push_assoc(out@, p, trim_before_punct(v@.skip(i as int + 2)));
            }
            out.push(p);
            i += 2;
        } else {
            proof {
                lemma_push_assoc(out@, c, trim_before_punct(v@.skip(i as int + 1)));
            }
            out.push(c);
            i += 1;
        }
    }
    proof {
        assert(v@.skip(v@.len() as int) =~= Seq::<char>::empty());
        assert(out@ + Seq::<char>::empty() =~= out@);
    }
    out
}

/// Applies rule 5 to the whole text.
pub fn apply_collapse_zero_run(v: &Vec<char>) -> (r: Vec<char>)
    ensures
        r@ == collapse_zero_run(v@),
{
    let mut out: Vec<char> = Vec::new();
    let mut i: usize = 0;
    proof {
        assert(v@.skip(0) =~= v@);
        assert(out@ + collapse_zero_run(v@) =~= collapse_zero_run(v@));
    }
    while i < v.len()
        invariant
            i <= v.len(),
            collapse_zero_run(v@) == out@ + collapse_zero_run(v@.skip(i as int)),
        decreases v.len() - i,
    {
        proof {
            assert(v@.skip(i as int)[0] == v@[i as int]);
            if i + 6 < v@.len() {
                assert(forall|k: int|
                    0 <= k < 7 ==> #[trigger] v@.skip(i as int)[k] == v@[i as int + k]);
                assert(v@.skip(i as int).skip(7) =~= v@.skip(i as int + 7));
            }
            assert(v@.skip(i as int).skip(1) =~= v@.skip(i as int + 1));
        }
        let c = v[i];
        if v.len() - i > 6 && c == '0' && v[i + 1] == ' ' && v[i + 2] == '0' && v[i + 3] == ' '
            && v[i + 4] == '0' && v[i + 5] == ' ' && v[i + 6] == '0' {
            proof {
                assert(quad_zero_at_start(v@.skip(i as int)));
                lemma_push_assoc(out@, '0', collapse_zero_run(v@.skip(i as int + 7)));
            }
            out.push('0');
            i += 7;
        } else {
            proof {
                assert(!quad_zero_at_start(v@.skip(i as int)));
                lemma_push_assoc(out@, c, collapse_zero_run(v@.skip(i as int + 1)));
            }
            out.push(c);
            i += 1;
        }
    }
    proof {
        assert(v@.skip(v@.len() as int) =~= Seq::<char>::empty());
        assert(out@ + Seq::<char>::empty() =~= out@);
    }
    out
}

/// Position of the first `*/` at or after `from`, or `v.len()` when there
/// is none; the runtime counterpart of [`find_close`].
fn find_close_at(v: &Vec<char>, from: usize) -> (r: usize)
    requires
        from <= v@.len(),
    ensures
        r as int == find_close(v@, from as int),
{
    let mut i: usize = from;
    while v.len() - i > 1
        invariant
            from <= i <= v.len(),
            find_close(v@, from as int) == find_close(v@, i as int),
        decreases v.len() - i,
    {
        if v[i] == '*' && v[i + 1] == '/' {
            return i;
        }
        i += 1;
    }
    v.len()
}

/// Applies rule 6 to the whole text.
pub fn apply_strip_comments(v: &Vec<char>) -> (r: Vec<char>)
    ensures
        r@ == strip_comments(v@),
{
    let mut out: Vec<char> = Vec::new();
    let mut i: usize = 0;
    proof {
        assert(v@.skip(0) =~= v@);
        assert(out@ + strip_comments(v@) =~= strip_comments(v@));
    }
    while i < v.len()
        invariant
            i <= v.len(),
            strip_comments(v@) == out@ + strip_comments(v@.skip(i as int)),
        decreases v.len() - i,
    {
        proof {
            assert(v@.skip(i as int)[0] == v@[i as int]);
            if i + 1 < v@.len() {
                assert(v@.skip(i as int)[1] == v@[i as int + 1]);
            }
            assert(v@.skip(i as int).skip(1) =~= v@.skip(i as int + 1));
        }
        let c = v[i];
        let mut plain: bool = true;
        if v.len() - i > 3 && c == '/' && v[i + 1] == '*' {
            let close = find_close_at(v, i + 2);
            proof {
                lemma_find_close_shift(v@, i as int, 2);
                lemma_find_close(v@, i as int + 2);
            }
            if close < v.len() {
                proof {
                    assert(find_close(v@.skip(i as int), 2) == close - i);
                    assert(v@.skip(i as int).skip(close - i + 2) =~= v@.skip(close as int + 2));
                }
                plain = false;
                i = close + 2;
            } else {
                proof {
                    assert(find_close(v@.skip(i as int), 2) == v@.skip(i as int).len() as int);
                }
            }
        }
        if plain {
            proof {
                lemma_push_assoc(out@, c, strip_comments(v@.skip(i as int + 1)));
            }
            out.push(c);
            i += 1;
        }
    }
    proof {
        assert(v@.skip(v@.len() as int) =~= Seq::<char>::empty());
        assert(out@ + Seq::<char>::empty() =~= out@);
    }
    out
}

/// Law: the rule sequence is deterministic — its output is a function of
/// the input text alone, so applying it to the same text always yields the
/// same result.
pub proof fn lemma_minify_deterministic(a: Seq<char>, b: Seq<char>)
    requires
        a == b,
    ensures
        spec_minify(a) == spec_minify(b),
{
}

/// Every whitespace character of `t` is a plain space, and no two
/// whitespace characters stand side by side.
pub open spec fn ws_normal(t: Seq<char>) -> bool {
    (forall|i: int| 0 <= i < t.len() && is_space_char(#[trigger] t[i]) ==> t[i] == ' ') && (forall|
        i: int,
    |
        0 <= i && i + 1 < t.len() ==> !(is_space_char(#[trigger] t[i]) && is_space_char(
            t[i + 1],
        )))
}

/// No whitespace character of `t` follows one of `,` `:` `;` `{` `}` `>`.
pub open spec fn no_space_after_punct(t: Seq<char>) -> bool {
    forall|i: int|
        0 <= i && i + 1 < t.len() ==> !(is_punct_char(#[trigger] t[i]) && is_space_char(t[i + 1]))
}

/// No whitespace character of `t` precedes one of `,` `:` `;` `{` `}` `>`.
pub open spec fn no_space_before_punct(t: Seq<char>) -> bool {
    forall|i: int|
        0 <= i && i + 1 < t.len() ==> !(is_space_char(#[trigger] t[i]) && is_punct_char(t[i + 1]))
}

/// The seven characters `0 0 0 0` occur nowhere in `t`.
pub open spec fn no_quad_zero(t: Seq<char>) -> bool {
    forall|i: int| 0 <= i <= t.len() ==> !quad_zero_at_start(#[trigger] t.skip(i))
}

/// No `/*` of `t` is followed, anywhere later, by a `*/`.
pub open spec fn no_comment(t: Seq<char>) -> bool {
    forall|i: int|
        0 <= i && i + 2 <= t.len() && #[trigger] t[i] == '/' && t[i + 1] == '*' ==> find_close(
            t,
            i + 2,
        ) == t.len()
}

/// `t` is in reduced (minified) form: no rule of the sequence finds
/// anything left to rewrite in it.
pub open spec fn is_minified(t: Seq<char>) -> bool {
    ws_normal(t) && no_space_after_punct(t) && no_space_before_punct(t) && no_quad_zero(t)
        && no_comment(t)
}

proof fn lemma_ws_normal_skip(t: Seq<char>, k: int)
    requires
        ws_normal(t),
        0 <= k <= t.len(),
    ensures
        ws_normal(t.skip(k)),
{
    assert forall|i: int| 0 <= i < t.skip(k).len() && is_space_char(#[trigger] t.skip(k)[i])
        implies t.skip(k)[i] == ' ' by {
        assert(t.skip(k)[i] == t[k + i]);
    }
    assert forall|i: int| 0 <= i && i + 1 < t.skip(k).len() implies !(is_space_char(
        #[trigger] t.skip(k)[i],
    ) && is_space_char(t.skip(k)[i + 1])) by {
        assert(t.skip(k)[i] == t[k + i]);
        assert(t.skip(k)[i + 1] == t[k + i + 1]);
    }
}

proof fn lemma_collapse_ws_from_id(t: Seq<char>, run: bool)
    requires
        ws_normal(t),
        run ==> t.len() == 0 || !is_space_char(t[0]),
    ensures
        collapse_ws_from(t, run) == t,
    decreases t.len(),
{
    if t.len() == 0 {
        assert(collapse_ws_from(t, run) =~= t);
    } else {
        lemma_ws_normal_skip(t, 1);
        if is_space_char(t[0]) {
            assert(t[0] == ' ');
            assert(t.skip(1).len() == 0 || !is_space_char(t.skip(1)[0])) by {
                if t.skip(1).len() > 0 {
                    assert(t.skip(1)[0] == t[1]);
                }
            }
            lemma_collapse_ws_from_id(t.skip(1), true);
            assert(seq![' '] + t.skip(1) =~= t);
        } else {
            lemma_collapse_ws_from_id(t.skip(1), false);
            assert(seq![t[0]] + t.skip(1) =~= t);
        }
    }
}

proof fn lemma_strip_semi_close_id(t: Seq<char>)
    requires
        no_space_after_punct(t),
    ensures
        strip_semi_close(t) == t,
    decreases t.len(),
{
    if t.len() == 0 {
        assert(strip_semi_close(t) =~= t);
    } else {
        assert(!(t.len() >= 3 && t[0] == ';' && t[1] == ' ' && t[2] == '}'));
        assert forall|i: int| 0 <= i && i + 1 < t.skip(1).len() implies !(is_punct_char(
            #[trigger] t.skip(1)[i],
        ) && is_space_char(t.skip(1)[i + 1])) by {
            assert(t.skip(1)[i] == t[i + 1]);
            assert(t.skip(1)[i + 1] == t[i + 2]);
        }
        lemma_strip_semi_close_id(t.skip(1));
        assert(seq![t[0]] + t.skip(1) =~= t);
    }
}

proof fn lemma_trim_after_punct_id(t: Seq<char>)
    requires
        no_space_after_punct(t),
    ensures
        trim_after_punct(t) == t,
    decreases t.len(),
{
    if t.len() == 0 {
        assert(trim_after_punct(t) =~= t);
    } else {
        assert(!(t.len() >= 2 && is_punct_char(t[0]) && is_space_char(t[1])));
        assert forall|i: int| 0 <= i && i + 1 < t.skip(1).len() implies !(is_punct_char(
            #[trigger] t.skip(1)[i],
        ) && is_space_char(t.skip(1)[i + 1])) by {
            assert(t.skip(1)[i] == t[i + 1]);
            assert(t.skip(1)[i + 1] == t[i + 2]);
        }
        lemma_trim_after_punct_id(t.skip(1));
        assert(seq![t[0]] + t.skip(1) =~= t);
    }
}

proof fn lemma_trim_before_punct_id(t: Seq<char>)
    requires
        no_space_before_punct(t),
    ensures
        trim_before_punct(t) == t,
    decreases t.len(),
{
    if t.len() == 0 {
        assert(trim_before_punct(t) =~= t);
    } else {
        assert(!(t.len() >= 2 && is_space_char(t[0]) && is_punct_char(t[1])));
        assert forall|i: int| 0 <= i && i + 1 < t.skip(1).len() implies !(is_space_char(
            #[trigger] t.skip(1)[i],
        ) && is_punct_char(t.skip(1)[i + 1])) by {
            assert(t.skip(1)[i] == t[i + 1]);
            assert(t.skip(1)[i + 1] == t[i + 2]);
        }
        lemma_trim_before_punct_id(t.skip(1));
        assert(seq![t[0]] + t.skip(1) =~= t);
    }
}

proof fn lemma_collapse_zero_run_id(t: Seq<char>)
    requires
        no_quad_zero(t),
    ensures
        collapse_zero_run(t) == t,
    decreases t.len(),
{
    if t.len() == 0 {
        assert(collapse_zero_run(t) =~= t);
    } else {
        assert(t.skip(0) =~= t);
        assert(!quad_zero_at_start(t));
        assert forall|i: int| 0 <= i <= t.skip(1).len() implies !quad_zero_at_start(
            #[trigger] t.skip(1).skip(i),
        ) by {
            assert(t.skip(1).skip(i) =~= t.skip(1 + i));
        }
        lemma_collapse_zero_run_id(t.skip(1));
        assert(seq![t[0]] + t.skip(1) =~= t);
    }
}

proof fn lemma_strip_comments_id(t: Seq<char>)
    requires
        no_comment(t),
    ensures
        strip_comments(t) == t,
    decreases t.len(),
{
    if t.len() == 0 {
        assert(strip_comments(t) =~= t);
    } else {
        if t.len() >= 4 && t[0] == '/' && t[1] == '*' {
            assert(find_close(t, 2) == t.len());
        }
        assert forall|i: int|
            0 <= i && i + 2 <= t.skip(1).len() && #[trigger] t.skip(1)[i] == '/' && t.skip(1)[i
                + 1] == '*' implies find_close(t.skip(1), i + 2) == t.skip(1).len() by {
            assert(t.skip(1)[i] == t[i + 1]);
            assert(t.skip(1)[i + 1] == t[i + 2]);
            assert(find_close(t, i + 3) == t.len());
            lemma_find_close_shift(t, 1, i + 2);
        }
        lemma_strip_comments_id(t.skip(1));
        assert(seq![t[0]] + t.skip(1) =~= t);
    }
}

/// Law: the full rule sequence leaves reduced text unchanged — every rule
/// maps a text in reduced form to itself.
pub proof fn lemma_minify_fixed_point(t: Seq<char>)
    requires
        is_minified(t),
    ensures
        spec_minify(t) == t,
{
    lemma_collapse_ws_from_id(t, false);
    lemma_strip_semi_close_id(t);
    lemma_trim_after_punct_id(t);
    lemma_trim_before_punct_id(t);
    lemma_collapse_zero_run_id(t);
    lemma_strip_comments_id(t);
}

/// Law (idempotence on reduced output): whenever one pass of the rule
/// sequence yields text in reduced form, a second pass over that output
/// returns it unchanged.
pub proof fn lemma_minify_idempotent(s: Seq<char>)
    requires
        is_minified(spec_minify(s)),
    ensures
        spec_minify(spec_minify(s)) == spec_minify(s),
{
    lemma_minify_fixed_point(spec_minify(s));
}

/// Minifies one file's text: applies the six rules in their fixed order,
/// the output of each being the input of the next.
pub fn minify(v: &Vec<char>) -> (r: Vec<char>)
    ensures
        r@ == spec_minify(v@),
{
    let r1 = apply_collapse_ws(v);
    let r2 = apply_strip_semi_close(&r1);
    let r3 = apply_trim_after_punct(&r2);
    let r4 = apply_trim_before_punct(&r3);
    let r5 = apply_collapse_zero_run(&r4);
    apply_strip_comments(&r5)
}

} // verus!
