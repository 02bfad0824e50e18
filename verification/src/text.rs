//! Verified building blocks for scanning and rewriting character text:
//! first-occurrence search, containment, leftmost non-overlapping
//! replacement, splitting on a separator and joining with one.

use vstd::prelude::*;

verus! {

/// `pat` occurs in `t` starting exactly at position `i`.
pub open spec fn match_at(t: Seq<char>, pat: Seq<char>, i: int) -> bool {
    0 <= i && i + pat.len() <= t.len() && t.subrange(i, i + pat.len() as int) == pat
}

/// `pat` occurs somewhere in `t`.
pub open spec fn contains_seq(t: Seq<char>, pat: Seq<char>) -> bool {
    exists|i: int| match_at(t, pat, i)
}

/// The first position at or after `i` where a non-empty `pat` occurs in `t`.
pub open spec fn find_from_spec(t: Seq<char>, pat: Seq<char>, i: int) -> Option<int>
    decreases t.len() - i,
{
    if pat.len() == 0 || i + pat.len() > t.len() {
        None
    } else if match_at(t, pat, i) {
        Some(i)
    } else {
        find_from_spec(t, pat, i + 1)
    }
}

/// The first position where `pat` occurs in `t`, if any.
pub open spec fn find_spec(t: Seq<char>, pat: Seq<char>) -> Option<int> {
    find_from_spec(t, pat, 0)
}

/// What `find_from_spec` returns is the first match at or after `i`.
pub proof fn lemma_find_from_spec(t: Seq<char>, pat: Seq<char>, i: int)
    requires
        0 <= i,
        pat.len() > 0,
    ensures
        match find_from_spec(t, pat, i) {
            None => forall|j: int| i <= j ==> !match_at(t, pat, j),
            Some(k) => i <= k && match_at(t, pat, k) && (forall|j: int|
                i <= j < k ==> !match_at(t, pat, j)),
        },
    decreases t.len() - i,
{
    if pat.len() == 0 || i + pat.len() > t.len() {
        assert forall|j: int| i <= j implies !match_at(t, pat, j) by {
            assert(j + pat.len() >= i + pat.len());
        }
    } else if match_at(t, pat, i) {
    } else {
        lemma_find_from_spec(t, pat, i + 1);
    }
}

/// A non-empty `pat` occurs in `t` exactly when the search finds a position.
pub proof fn lemma_find_spec_contains(t: Seq<char>, pat: Seq<char>)
    requires
        pat.len() > 0,
    ensures
        contains_seq(t, pat) <==> find_spec(t, pat) is Some,
{
    lemma_find_from_spec(t, pat, 0);
    if find_spec(t, pat) is Some {
        let k = find_spec(t, pat)->0;
        assert(match_at(t, pat, k));
    }
}

/// Leftmost non-overlapping replacement of `pat` by `rep` in `t`; the
/// replacement text is not rescanned. Replacing an empty pattern is a no-op.
pub open spec fn replace_all(t: Seq<char>, pat: Seq<char>, rep: Seq<char>) -> Seq<char>
    decreases t.len(),
{
    if pat.len() == 0 {
        t
    } else {
        match find_spec(t, pat) {
            None => t,
            Some(i) => {
                proof {
                    lemma_find_from_spec(t, pat, 0);
                }
                t.subrange(0, i) + rep + replace_all(
                    t.subrange(i + pat.len() as int, t.len() as int),
                    pat,
                    rep,
                )
            },
        }
    }
}

/// The pieces of `t` between non-overlapping occurrences of `sep`, in order.
/// With no occurrence (or an empty separator) the single piece is `t` itself.
pub open spec fn split_on(t: Seq<char>, sep: Seq<char>) -> Seq<Seq<char>>
    decreases t.len(),
{
    if sep.len() == 0 {
        seq![t]
    } else {
        match find_spec(t, sep) {
            None => seq![t],
            Some(i) => {
                proof {
                    lemma_find_from_spec(t, sep, 0);
                }
                seq![t.subrange(0, i)] + split_on(
                    t.subrange(i + sep.len() as int, t.len() as int),
                    sep,
                )
            },
        }
    }
}

/// The pieces of `parts` concatenated with `sep` between neighbours.
pub open spec fn join_with(parts: Seq<Seq<char>>, sep: Seq<char>) -> Seq<char>
    decreases parts.len(),
{
    if parts.len() == 0 {
        Seq::empty()
    } else if parts.len() == 1 {
        parts[0]
    } else {
        parts[0] + sep + join_with(parts.drop_first(), sep)
    }
}

/// Appending one more piece extends a join on the right.
pub proof fn lemma_join_push(parts: Seq<Seq<char>>, sep: Seq<char>, x: Seq<char>)
    ensures
        join_with(parts.push(x), sep) == if parts.len() == 0 {
            x
        } else {
            join_with(parts, sep) + sep + x
        },
    decreases parts.len(),
{
    let pushed = parts.push(x);
    if parts.len() == 0 {
        assert(pushed.len() == 1);
        assert(pushed[0] == x);
    } else if parts.len() == 1 {
        assert(pushed.len() == 2);
        assert(pushed[0] == parts[0]);
        assert(pushed.drop_first() =~= seq![x]);
        assert(join_with(pushed.drop_first(), sep) == x);
    } else {
        assert(pushed.drop_first() =~= parts.drop_first().push(x));
        lemma_join_push(parts.drop_first(), sep, x);
        assert(join_with(parts, sep) == parts[0] + sep + join_with(parts.drop_first(), sep));
        assert(join_with(pushed, sep) == pushed[0] + sep + join_with(pushed.drop_first(), sep));
        assert(pushed[0] == parts[0]);
        assert((parts[0] + sep + (join_with(parts.drop_first(), sep) + sep + x)) =~= ((parts[0]
            + sep + join_with(parts.drop_first(), sep)) + sep + x));
    }
}

/// The views of a sequence of character vectors.
pub open spec fn views(vs: Seq<Vec<char>>) -> Seq<Seq<char>> {
    vs.map_values(|v: Vec<char>| v@)
}

/// Whether `pat` occurs in `t` starting exactly at `i`.
pub fn match_at_exec(t: &Vec<char>, pat: &Vec<char>, i: usize) -> (b: bool)
    ensures
        b == match_at(t@, pat@, i as int),
{
    if pat.len() > t.len() || i > t.len() - pat.len() {
        assert(i + pat@.len() > t@.len());
        return false;
    }
    let tl = t.len();
    let mut j: usize = 0;
    while j < pat.len()
        invariant
            tl == t@.len(),
            pat@.len() <= t@.len(),
            i <= t@.len() - pat@.len(),
            0 <= j <= pat@.len(),
            forall|k: int| 0 <= k < j ==> t@[i + k] == pat@[k],
        decreases pat@.len() - j,
    {
        assert(i + j < tl);
        if t[i + j] != pat[j] {
            assert(t@.subrange(i as int, i + pat@.len() as int)[j as int] != pat@[j as int]);
            return false;
        }
        j += 1;
    }
    assert(t@.subrange(i as int, i + pat@.len() as int) =~= pat@);
    true
}

/// The first position at or after `start` where `pat` occurs in `t`.
pub fn find_from(t: &Vec<char>, pat: &Vec<char>, start: usize) -> (r: Option<usize>)
    requires
        pat@.len() > 0,
    ensures
        match r {
            None => find_from_spec(t@, pat@, start as int) is None,
            Some(k) => find_from_spec(t@, pat@, start as int) == Some(k as int) && k
                + pat@.len() <= t@.len(),
        },
{
    let mut i: usize = start;
    loop
        invariant
            pat@.len() > 0,
            start <= i,
            find_from_spec(t@, pat@, start as int) == find_from_spec(t@, pat@, i as int),
        decreases t@.len() + 1 - i,
    {
        if pat.len() > t.len() || i > t.len() - pat.len() {
            assert(i + pat@.len() > t@.len());
            return None;
        }
        if match_at_exec(t, pat, i) {
            return Some(i);
        }
        assert(find_from_spec(t@, pat@, i as int) == find_from_spec(t@, pat@, i + 1));
        assert(i < t@.len());
        i += 1;
    }
}

/// Whether `pat` occurs anywhere in `t`.
pub fn contains_exec(t: &Vec<char>, pat: &Vec<char>) -> (b: bool)
    requires
        pat@.len() > 0,
    ensures
        b == contains_seq(t@, pat@),
{
    proof {
        lemma_find_spec_contains(t@, pat@);
    }
    match find_from(t, pat, 0) {
        Some(_) => true,
        None => false,
    }
}

/// Appends `src[from..to]` to `dst`.
pub fn push_range(dst: &mut Vec<char>, src: &Vec<char>, from: usize, to: usize)
    requires
        from <= to <= src@.len(),
    ensures
        final(dst)@ == old(dst)@ + src@.subrange(from as int, to as int),
{
    let ghost orig = dst@;
    let mut k: usize = from;
    while k < to
        invariant
            from <= k <= to <= src@.len(),
            dst@ == orig + src@.subrange(from as int, k as int),
        decreases to - k,
    {
        dst.push(src[k]);
        assert(orig + src@.subrange(from as int, k + 1 as int) =~= (orig + src@.subrange(
            from as int,
            k as int,
        )).push(src@[k as int]));
        k += 1;
    }
    assert(dst@ =~= orig + src@.subrange(from as int, to as int));
}

/// Appends the whole of `src` to `dst`.
pub fn push_all(dst: &mut Vec<char>, src: &Vec<char>)
    ensures
        final(dst)@ == old(dst)@ + src@,
{
    push_range(dst, src, 0, src.len());
    assert(src@.subrange(0, src@.len() as int) =~= src@);
}

/// Searching a tail of `t` is searching `t` from that point on.
pub proof fn lemma_find_on_suffix(t: Seq<char>, pat: Seq<char>, c: int)
    requires
        0 <= c <= t.len(),
        pat.len() > 0,
    ensures
        find_spec(t.subrange(c, t.len() as int), pat) == match find_from_spec(t, pat, c) {
            None => None::<int>,
            Some(k) => Some(k - c),
        },
{
    let suf = t.subrange(c, t.len() as int);
    lemma_find_from_spec(t, pat, c);
    lemma_find_from_spec(suf, pat, 0);
    assert forall|j: int| 0 <= j implies match_at(suf, pat, j) == match_at(t, pat, j + c) by {
        if j + pat.len() <= suf.len() {
            assert(suf.subrange(j, j + pat.len() as int) =~= t.subrange(
                j + c,
                j + c + pat.len() as int,
            ));
        }
    }
    match find_from_spec(t, pat, c) {
        None => {
            if find_spec(suf, pat) is Some {
                let k = find_spec(suf, pat)->0;
                assert(match_at(t, pat, k + c));
            }
        },
        Some(k) => {
            assert(match_at(suf, pat, k - c));
            match find_spec(suf, pat) {
                None => {
                    assert(!match_at(suf, pat, k - c));
                },
                Some(m) => {
                    assert(match_at(t, pat, m + c));
                    if m < k - c {
                        assert(!match_at(t, pat, m + c));
                    }
                    if m > k - c {
                        assert(!match_at(suf, pat, k - c));
                    }
                },
            }
        },
    }
}

/// Leftmost non-overlapping replacement of `pat` by `rep` in `t`.
pub fn replace_all_exec(t: &Vec<char>, pat: &Vec<char>, rep: &Vec<char>) -> (r: Vec<char>)
    requires
        pat@.len() > 0,
    ensures
        r@ == replace_all(t@, pat@, rep@),
{
    let mut acc: Vec<char> = Vec::new();
    let mut cursor: usize = 0;
    proof {
        assert(t@.subrange(0, t@.len() as int) =~= t@);
        assert(acc@ + replace_all(t@, pat@, rep@) =~= replace_all(t@, pat@, rep@));
    }
    loop
        invariant
            pat@.len() > 0,
            0 <= cursor <= t@.len(),
            replace_all(t@, pat@, rep@) == acc@ + replace_all(
                t@.subrange(cursor as int, t@.len() as int),
                pat@,
                rep@,
            ),
        decreases t@.len() - cursor,
    {
        let ghost suf = t@.subrange(cursor as int, t@.len() as int);
        proof {
            lemma_find_on_suffix(t@, pat@, cursor as int);
            lemma_find_from_spec(t@, pat@, cursor as int);
        }
        match find_from(t, pat, cursor) {
            None => {
                assert(replace_all(suf, pat@, rep@) == suf);
                push_range(&mut acc, t, cursor, t.len());
                return acc;
            },
            Some(i) => {
                assert(find_spec(suf, pat@) == Some(i - cursor));
                assert(replace_all(suf, pat@, rep@) == suf.subrange(0, i - cursor) + rep@
                    + replace_all(
                    suf.subrange(i - cursor + pat@.len() as int, suf.len() as int),
                    pat@,
                    rep@,
                ));
                assert(suf.subrange(0, i - cursor) =~= t@.subrange(cursor as int, i as int));
                assert(suf.subrange(i - cursor + pat@.len() as int, suf.len() as int)
                    =~= t@.subrange(i + pat@.len() as int, t@.len() as int));
                push_range(&mut acc, t, cursor, i);
                push_all(&mut acc, rep);
                let tl = t.len();
                assert(i + pat@.len() <= tl);
                cursor = i + pat.len();
                assert(replace_all(t@, pat@, rep@) =~= acc@ + replace_all(
                    t@.subrange(cursor as int, t@.len() as int),
                    pat@,
                    rep@,
                ));
            },
        }
    }
}

/// The pieces of `t` between non-overlapping occurrences of `sep`.
pub fn split_on_exec(t: &Vec<char>, sep: &Vec<char>) -> (r: Vec<Vec<char>>)
    requires
        sep@.len() > 0,
    ensures
        views(r@) == split_on(t@, sep@),
{
    let mut acc: Vec<Vec<char>> = Vec::new();
    let mut cursor: usize = 0;
    proof {
        assert(t@.subrange(0, t@.len() as int) =~= t@);
        assert(views(acc@) + split_on(t@, sep@) =~= split_on(t@, sep@));
    }
    loop
        invariant
            sep@.len() > 0,
            0 <= cursor <= t@.len(),
            split_on(t@, sep@) == views(acc@) + split_on(
                t@.subrange(cursor as int, t@.len() as int),
                sep@,
            ),
        decreases t@.len() - cursor,
    {
        let ghost suf = t@.subrange(cursor as int, t@.len() as int);
        proof {
            lemma_find_on_suffix(t@, sep@, cursor as int);
            lemma_find_from_spec(t@, sep@, cursor as int);
        }
        match find_from(t, sep, cursor) {
            None => {
                assert(split_on(suf, sep@) == seq![suf]);
                let mut piece: Vec<char> = Vec::new();
                push_range(&mut piece, t, cursor, t.len());
                acc.push(piece);
                assert(views(acc@) =~= split_on(t@, sep@));
                return acc;
            },
            Some(i) => {
                assert(find_spec(suf, sep@) == Some(i - cursor));
                assert(split_on(suf, sep@) == seq![suf.subrange(0, i - cursor)] + split_on(
                    suf.subrange(i - cursor + sep@.len() as int, suf.len() as int),
                    sep@,
                ));
                assert(suf.subrange(0, i - cursor) =~= t@.subrange(cursor as int, i as int));
                assert(suf.subrange(i - cursor + sep@.len() as int, suf.len() as int)
                    =~= t@.subrange(i + sep@.len() as int, t@.len() as int));
                let mut piece: Vec<char> = Vec::new();
                push_range(&mut piece, t, cursor, i);
                acc.push(piece);
                assert(views(acc@) =~= views(acc@.drop_last()).push(piece@));
                let tl = t.len();
                assert(i + sep@.len() <= tl);
                cursor = i + sep.len();
                assert(split_on(t@, sep@) =~= views(acc@) + split_on(
                    t@.subrange(cursor as int, t@.len() as int),
                    sep@,
                ));
            },
        }
    }
}

/// Joins the pieces with `sep` between neighbours.
pub fn join_with_exec(parts: &Vec<Vec<char>>, sep: &Vec<char>) -> (r: Vec<char>)
    ensures
        r@ == join_with(views(parts@), sep@),
{
    let mut acc: Vec<char> = Vec::new();
    let mut k: usize = 0;
    while k < parts.len()
        invariant
            0 <= k <= parts@.len(),
            acc@ == join_with(views(parts@.subrange(0, k as int)), sep@),
        decreases parts@.len() - k,
    {
        let ghost prefix = views(parts@.subrange(0, k as int));
        if k > 0 {
            push_all(&mut acc, sep);
        }
        push_all(&mut acc, &parts[k]);
        proof {
            lemma_join_push(prefix, sep@, parts@[k as int]@);
            assert(views(parts@.subrange(0, k + 1 as int)) =~= prefix.push(parts@[k as int]@));
            assert(prefix.len() == k);
        }
        k += 1;
    }
    assert(parts@.subrange(0, parts@.len() as int) =~= parts@);
    acc
}

/// Character-vector equality.
pub fn chars_eq(a: &Vec<char>, b: &Vec<char>) -> (r: bool)
    ensures
        r == (a@ == b@),
{
    if a.len() != b.len() {
        assert(a@ != b@);
        return false;
    }
    let mut j: usize = 0;
    while j < a.len()
        invariant
            a@.len() == b@.len(),
            0 <= j <= a@.len(),
            forall|k: int| 0 <= k < j ==> a@[k] == b@[k],
        decreases a@.len() - j,
    {
        if a[j] != b[j] {
            return false;
        }
        j += 1;
    }
    assert(a@ =~= b@);
    true
}

/// The characters of `s`, in order.
pub fn str_to_chars(s: &str) -> (v: Vec<char>)
    ensures
        v@ == s@,
{
    let n = s.unicode_len();
    let mut v: Vec<char> = Vec::new();
    let mut i: usize = 0;
    while i < n
        invariant
            n == s@.len(),
            0 <= i <= n,
            v@ == s@.subrange(0, i as int),
        decreases n - i,
    {
        v.push(s.get_char(i));
        assert(v@ =~= s@.subrange(0, i + 1 as int));
        i += 1;
    }
    assert(s@.subrange(0, s@.len() as int) =~= s@);
    v
}

/// Relies on `String: FromIterator<char>`: collecting characters in order
/// yields the string of exactly those characters.
#[verifier::external_body]
pub(crate) fn chars_to_string(v: &Vec<char>) -> (s: String)
    ensures
        s@ == v@,
{
    v.iter().collect()
}

/// String equality by characters.
pub fn str_eq(a: &str, b: &str) -> (r: bool)
    ensures
        r == (a@ == b@),
{
    let na = a.unicode_len();
    let nb = b.unicode_len();
    if na != nb {
        assert(a@ != b@);
        return false;
    }
    let mut j: usize = 0;
    while j < na
        invariant
            na == a@.len() && na == b@.len(),
            0 <= j <= na,
            forall|k: int| 0 <= k < j ==> a@[k] == b@[k],
        decreases na - j,
    {
        if a.get_char(j) != b.get_char(j) {
            return false;
        }
        j += 1;
    }
    assert(a@ =~= b@);
    true
}

} // verus!
