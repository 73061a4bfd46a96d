//! Character-level text helpers shared by the dictionary and the reply logic:
//! leftmost pattern search, line splitting and their executable counterparts.

use vstd::prelude::*;

verus! {

/// Position of the leftmost occurrence of `pat` in `s` that starts at or after `from`.
pub open spec fn find_from(s: Seq<char>, pat: Seq<char>, from: int) -> Option<int>
    decreases s.len() + 1 - from,
{
    if from < 0 || from + pat.len() > s.len() {
        None
    } else if s.subrange(from, from + pat.len()) == pat {
        Some(from)
    } else {
        find_from(s, pat, from + 1)
    }
}

/// Position of the leftmost occurrence of `pat` in `s`.
pub open spec fn find(s: Seq<char>, pat: Seq<char>) -> Option<int> {
    find_from(s, pat, 0)
}

/// `pat` occurs somewhere in `s` (the empty pattern occurs in every text).
pub open spec fn contains(s: Seq<char>, pat: Seq<char>) -> bool {
    find(s, pat) is Some
}

/// The text before the first occurrence of `pat`, or the whole text when `pat` does not occur.
pub open spec fn before_first(s: Seq<char>, pat: Seq<char>) -> Seq<char> {
    match find(s, pat) {
        Some(p) => s.take(p),
        None => s,
    }
}

/// The second piece when `s` is cut at every occurrence of `pat`: the text
/// after the first occurrence up to the next one (or the end); `None` when
/// `pat` does not occur.
pub open spec fn field_after(s: Seq<char>, pat: Seq<char>) -> Option<Seq<char>> {
    match find(s, pat) {
        None => None,
        Some(p) => Some(before_first(s.subrange(p + pat.len(), s.len() as int), pat)),
    }
}

/// The pieces of `s` between its line breaks, in order; a text with `n`
/// line breaks has `n + 1` pieces (the empty text is one empty line).
pub open spec fn split_lines(s: Seq<char>) -> Seq<Seq<char>>
    decreases s.len(),
{
    if s.len() == 0 {
        seq![Seq::<char>::empty()]
    } else {
        let prev = split_lines(s.drop_last());
        if s.last() == '\n' {
            prev.push(Seq::<char>::empty())
        } else {
            prev.update(prev.len() - 1, prev.last().push(s.last()))
        }
    }
}

/// The text has no line break.
pub open spec fn is_single_line(s: Seq<char>) -> bool {
    forall|i: int| 0 <= i < s.len() ==> s[i] != '\n'
}

/// A found position is a real occurrence, not before the starting point.
pub proof fn lemma_find_from_found(s: Seq<char>, pat: Seq<char>, from: int)
    ensures
        find_from(s, pat, from) matches Some(p) ==> {
            &&& 0 <= from <= p
            &&& p + pat.len() <= s.len()
            &&& s.subrange(p, p + pat.len()) == pat
        },
    decreases s.len() + 1 - from,
{
    if from < 0 || from + pat.len() > s.len() {
    } else if s.subrange(from, from + pat.len()) == pat {
    } else {
        lemma_find_from_found(s, pat, from + 1);
    }
}

/// No occurrence starts between `from` and a found position.
pub proof fn lemma_find_from_leftmost(s: Seq<char>, pat: Seq<char>, from: int, k: int)
    requires
        0 <= from <= k,
        k + pat.len() <= s.len(),
        s.subrange(k, k + pat.len()) == pat,
    ensures
        find_from(s, pat, from) matches Some(p) && p <= k,
    decreases k - from,
{
    if s.subrange(from, from + pat.len()) == pat {
    } else {
        lemma_find_from_leftmost(s, pat, from + 1, k);
    }
}

/// The text before the first occurrence of a pattern does not hold the pattern.
pub proof fn lemma_before_first_is_free(s: Seq<char>, pat: Seq<char>)
    requires
        pat.len() > 0,
    ensures
        find(s, pat) is Some ==> !contains(before_first(s, pat), pat),
{
    lemma_find_from_found(s, pat, 0);
    if let Some(p) = find(s, pat) {
        let t = s.take(p);
        lemma_find_from_found(t, pat, 0);
        if let Some(q) = find(t, pat) {
            assert(s.subrange(q, q + pat.len()) =~= t.subrange(q, q + pat.len()));
            lemma_find_from_leftmost(s, pat, 0, q);
        }
    }
}

/// A text that starts with `pat` has its leftmost occurrence at the start.
pub proof fn lemma_find_at_start(s: Seq<char>, pat: Seq<char>)
    requires
        pat.len() <= s.len(),
        s.subrange(0, pat.len() as int) == pat,
    ensures
        find(s, pat) == Some(0int),
{
}

/// Splitting never yields an empty list of lines.
pub proof fn lemma_split_lines_len(s: Seq<char>)
    ensures
        split_lines(s).len() >= 1,
    decreases s.len(),
{
    if s.len() > 0 {
        lemma_split_lines_len(s.drop_last());
    }
}

/// Adding one character to a text either opens a new empty line (for a
/// line break) or extends the last line.
pub proof fn lemma_split_lines_push(s: Seq<char>, c: char)
    ensures
        c == '\n' ==> split_lines(s.push(c)) == split_lines(s).push(Seq::<char>::empty()),
        c != '\n' ==> split_lines(s.push(c)) == split_lines(s).update(
            split_lines(s).len() - 1,
            split_lines(s).last().push(c),
        ),
{
    assert(s.push(c).drop_last() =~= s);
    lemma_split_lines_len(s);
}

/// Appending a text without line breaks only extends the last line.
pub proof fn lemma_split_lines_append_single_line(s: Seq<char>, t: Seq<char>)
    requires
        is_single_line(t),
    ensures
        split_lines(s + t) == split_lines(s).drop_last().push(split_lines(s).last() + t),
    decreases t.len(),
{
    lemma_split_lines_len(s);
    if t.len() == 0 {
        assert(s + t =~= s);
        assert(split_lines(s).last() + t =~= split_lines(s).last());
        assert(split_lines(s).drop_last().push(split_lines(s).last()) =~= split_lines(s));
    } else {
        let t0 = t.drop_last();
        let c = t.last();
        assert forall|i: int| 0 <= i < t0.len() implies t0[i] != '\n' by {
            assert(t0[i] == t[i]);
        }
        lemma_split_lines_append_single_line(s, t0);
        assert(s + t =~= (s + t0).push(c));
        lemma_split_lines_push(s + t0, c);
        assert(split_lines(s).last() + t =~= (split_lines(s).last() + t0).push(c));
        assert(split_lines(s + t) =~= split_lines(s).drop_last().push(split_lines(s).last() + t));
    }
}

/// Copies the characters of `s` into a vector.
pub fn chars_of(s: &str) -> (r: Vec<char>)
    ensures
        r@ == s@,
{
    let mut v: Vec<char> = Vec::new();
    for c in it: s.chars()
        invariant
            v@ == it.seq().take(it.index()),
    {
        v.push(c);
    }
    v
}

/// Whether `pat` occurs in `s` starting at position `at`.
pub fn matches_at(s: &Vec<char>, at: usize, hi: usize, pat: &Vec<char>) -> (r: bool)
    requires
        at <= hi <= s.len(),
    ensures
        r == (at + pat.len() <= hi && s@.subrange(at as int, at + pat.len()) == pat@),
{
    if pat.len() > hi - at {
        return false;
    }
    let mut j: usize = 0;
    while j < pat.len()
        invariant
            at + pat.len() <= hi <= s.len(),
            0 <= j <= pat.len(),
            forall|k: int| 0 <= k < j ==> s@[at + k] == pat@[k],
        decreases pat.len() - j,
    {
        if s[at + j] != pat[j] {
            assert(s@.subrange(at as int, at + pat.len())[j as int] != pat@[j as int]);
            return false;
        }
        j = j + 1;
    }
    assert(s@.subrange(at as int, at + pat.len()) =~= pat@);
    true
}

/// Leftmost occurrence of `pat` within the slice `s[lo..hi]`, relative to `lo`.
pub fn find_in(s: &Vec<char>, lo: usize, hi: usize, pat: &Vec<char>) -> (r: Option<usize>)
    requires
        lo <= hi <= s.len(),
    ensures
        r matches Some(p) ==> find(s@.subrange(lo as int, hi as int), pat@) == Some(p as int),
        r is None ==> find(s@.subrange(lo as int, hi as int), pat@) is None,
{
    let ghost sub = s@.subrange(lo as int, hi as int);
    if pat.len() > hi - lo {
        return None;
    }
    let last = hi - lo - pat.len();
    let mut i: usize = 0;
    loop
        invariant
            lo <= hi <= s.len(),
            last == hi - lo - pat.len(),
            sub == s@.subrange(lo as int, hi as int),
            0 <= i <= last,
            find_from(sub, pat@, 0) == find_from(sub, pat@, i as int),
        decreases last - i,
    {
        let m = matches_at(s, lo + i, hi, pat);
        assert(sub.subrange(i as int, i + pat.len()) =~= s@.subrange(lo + i, lo + i + pat.len()));
        if m {
            return Some(i);
        }
        if i == last {
            assert(find_from(sub, pat@, i + 1) is None);
            return None;
        }
        i = i + 1;
    }
}

/// Bounds `[b, e)` of `field_after(s[lo..hi], pat)` within `s`.
pub fn field_after_in(s: &Vec<char>, lo: usize, hi: usize, pat: &Vec<char>) -> (r: Option<
    (usize, usize),
>)
    requires
        lo <= hi <= s.len(),
    ensures
        r matches Some((b, e)) ==> lo <= b <= e <= hi && field_after(
            s@.subrange(lo as int, hi as int),
            pat@,
        ) == Some(s@.subrange(b as int, e as int)),
        r is None ==> field_after(s@.subrange(lo as int, hi as int), pat@) is None,
{
    let ghost line = s@.subrange(lo as int, hi as int);
    match find_in(s, lo, hi, pat) {
        None => None,
        Some(p) => {
            proof {
                lemma_find_from_found(line, pat@, 0);
            }
            let rest_lo = lo + p + pat.len();
            let ghost rest = line.subrange(p + pat@.len(), line.len() as int);
            assert(rest =~= s@.subrange(rest_lo as int, hi as int));
            match find_in(s, rest_lo, hi, pat) {
                None => Some((rest_lo, hi)),
                Some(q) => {
                    proof {
                        lemma_find_from_found(rest, pat@, 0);
                    }
                    assert(rest.take(q as int) =~= s@.subrange(rest_lo as int, (rest_lo + q) as int));
                    Some((rest_lo, rest_lo + q))
                },
            }
        },
    }
}

/// Bounds `[0, e)` of `before_first(s[lo..hi], pat)` relative to `lo`.
pub fn before_first_in(s: &Vec<char>, lo: usize, hi: usize, pat: &Vec<char>) -> (r: usize)
    requires
        lo <= hi <= s.len(),
    ensures
        lo + r <= hi,
        before_first(s@.subrange(lo as int, hi as int), pat@) == s@.subrange(lo as int, lo + r),
{
    let ghost line = s@.subrange(lo as int, hi as int);
    match find_in(s, lo, hi, pat) {
        None => {
            hi - lo
        },
        Some(p) => {
            proof {
                lemma_find_from_found(line, pat@, 0);
            }
            assert(line.take(p as int) =~= s@.subrange(lo as int, lo + p));
            p
        },
    }
}

/// Whether the two texts hold the same characters.
pub fn same_text(a: &str, b: &str) -> (r: bool)
    ensures
        r == (a@ == b@),
{
    let x = chars_of(a);
    let y = chars_of(b);
    if x.len() != y.len() {
        return false;
    }
    let mut i: usize = 0;
    while i < x.len()
        invariant
            x@ == a@,
            y@ == b@,
            x.len() == y.len(),
            0 <= i <= x.len(),
            forall|k: int| 0 <= k < i ==> x@[k] == y@[k],
        decreases x.len() - i,
    {
        if x[i] != y[i] {
            assert(x@[i as int] != y@[i as int]);
            return false;
        }
        i = i + 1;
    }
    assert(x@ =~= y@);
    true
}

} // verus!
