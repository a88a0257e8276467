//! Character-level helpers for reading the plain-text output of the
//! device manager and of the windowing system's tools.
use vstd::prelude::*;

verus! {

/// The pieces of `s` between occurrences of `sep`, in order; a string with
/// k separators has k + 1 pieces.
pub open spec fn split_on(s: Seq<char>, sep: char) -> Seq<Seq<char>>
    decreases s.len(),
{
    if s.len() == 0 {
        seq![Seq::<char>::empty()]
    } else {
        let rest = split_on(s.drop_last(), sep);
        if s.last() == sep {
            rest.push(Seq::<char>::empty())
        } else {
            rest.update(rest.len() - 1, rest.last().push(s.last()))
        }
    }
}

/// A line without the carriage return that ends it, if any.
pub open spec fn strip_cr(l: Seq<char>) -> Seq<char> {
    if l.len() > 0 && l.last() == '\r' {
        l.drop_last()
    } else {
        l
    }
}

pub open spec fn strip_all(ls: Seq<Seq<char>>) -> Seq<Seq<char>> {
    ls.map_values(|l: Seq<char>| strip_cr(l))
}

/// The lines of a text: its pieces between newlines, each without a final
/// carriage return. The empty piece after a final newline is a line too;
/// no pattern of this crate matches an empty line.
pub open spec fn lines_of(s: Seq<char>) -> Seq<Seq<char>> {
    strip_all(split_on(s, '\n'))
}

pub open spec fn views_of(v: Seq<String>) -> Seq<Seq<char>> {
    v.map_values(|l: String| l@)
}

/// `pat` stands in `s` from index `i` on.
pub open spec fn occurs_at(s: Seq<char>, pat: Seq<char>, i: int) -> bool {
    0 <= i && i + pat.len() <= s.len() && s.subrange(i, i + pat.len()) == pat
}

/// The first index from `from` on where `pat` stands in `s`.
pub open spec fn find_from(s: Seq<char>, pat: Seq<char>, from: int) -> Option<int>
    decreases s.len() - from,
{
    if from < 0 || from >= s.len() {
        None
    } else if occurs_at(s, pat, from) {
        Some(from)
    } else {
        find_from(s, pat, from + 1)
    }
}

pub open spec fn contains(s: Seq<char>, pat: Seq<char>) -> bool {
    find_from(s, pat, 0) is Some
}

pub open spec fn is_digit(c: char) -> bool {
    '0' <= c && c <= '9'
}

/// The value of a run of decimal digits.
pub open spec fn digits_value(s: Seq<char>) -> nat
    decreases s.len(),
{
    if s.len() == 0 {
        0
    } else {
        digits_value(s.drop_last()) * 10 + ((s.last() as int) - ('0' as int)) as nat
    }
}

/// The end of the run of digits that starts at `from`.
pub open spec fn digit_run_end(s: Seq<char>, from: int) -> int
    decreases s.len() - from,
{
    if 0 <= from < s.len() && is_digit(s[from]) {
        digit_run_end(s, from + 1)
    } else {
        from
    }
}

proof fn lemma_split_on_nonempty(s: Seq<char>, sep: char)
    ensures
        split_on(s, sep).len() >= 1,
    decreases s.len(),
{
    if s.len() > 0 {
        lemma_split_on_nonempty(s.drop_last(), sep);
    }
}

pub proof fn lemma_find_from_spec(s: Seq<char>, pat: Seq<char>, from: int)
    ensures
        find_from(s, pat, from) matches Some(k) ==> from <= k < s.len() && occurs_at(s, pat, k)
            && forall|j: int| from <= j < k ==> !occurs_at(s, pat, j),
        find_from(s, pat, from) is None ==> forall|j: int|
            0 <= from <= j < s.len() ==> !occurs_at(s, pat, j),
    decreases s.len() - from,
{
    if 0 <= from < s.len() && !occurs_at(s, pat, from) {
        lemma_find_from_spec(s, pat, from + 1);
    }
}

/// Whether `pat` stands in `s` from index `i` on; `n` and `m` are their lengths.
pub fn matches_at(s: &str, n: usize, pat: &str, m: usize, i: usize) -> (r: bool)
    requires
        n == s@.len(),
        m == pat@.len(),
    ensures
        r == occurs_at(s@, pat@, i as int),
{
    if i > n || m > n - i {
        return false;
    }
    let mut k: usize = 0;
    while k < m
        invariant
            i + m <= n,
            n == s@.len(),
            m == pat@.len(),
            k <= m,
            forall|t: int| 0 <= t < k ==> s@[i + t] == pat@[t],
        decreases m - k,
    {
        if s.get_char(i + k) != pat.get_char(k) {
            assert(s@.subrange(i as int, i + m)[k as int] != pat@[k as int]);
            return false;
        }
        k = k + 1;
    }
    assert(s@.subrange(i as int, i + m) =~= pat@);
    true
}

/// The first index from `from` on where `pat` stands in `s`.
pub fn find(s: &str, pat: &str, from: usize) -> (r: Option<usize>)
    ensures
        r matches Some(k) ==> find_from(s@, pat@, from as int) == Some(k as int) && k + pat@.len()
            <= s@.len(),
        r is None ==> find_from(s@, pat@, from as int) is None,
{
    let n = s.unicode_len();
    let m = pat.unicode_len();
    let mut i = from;
    while i < n
        invariant
            n == s@.len(),
            m == pat@.len(),
            from <= i,
            find_from(s@, pat@, from as int) == find_from(s@, pat@, i as int),
        decreases n - i,
    {
        if matches_at(s, n, pat, m, i) {
            return Some(i);
        }
        i = i + 1;
    }
    None
}

pub fn contains_str(s: &str, pat: &str) -> (r: bool)
    ensures
        r == contains(s@, pat@),
{
    find(s, pat, 0).is_some()
}

/// The characters of `s` from `from` to `to`, as a `String`.
pub fn slice_owned(s: &str, from: usize, to: usize) -> (r: String)
    requires
        from <= to <= s@.len(),
    ensures
        r@ == s@.subrange(from as int, to as int),
{
    s.substring_char(from, to).to_owned()
}

/// Splits a text into its lines, as `lines_of` states.
pub fn split_lines(text: &str) -> (r: Vec<String>)
    ensures
        views_of(r@) == lines_of(text@),
{
    let n = text.unicode_len();
    let mut r: Vec<String> = Vec::new();
    let ghost mut raw: Seq<Seq<char>> = Seq::empty();
    let mut j: usize = 0;
    let mut i: usize = 0;
    proof {
        assert(text@.subrange(0, 0) =~= Seq::<char>::empty());
        assert(raw + seq![text@.subrange(0, 0)] =~= seq![Seq::<char>::empty()]);
    }
    while i < n
        invariant
            n == text@.len(),
            j <= i <= n,
            raw + seq![text@.subrange(j as int, i as int)] == split_on(
                text@.subrange(0, i as int),
                '\n',
            ),
            views_of(r@) == strip_all(raw),
        decreases n - i,
    {
        let c = text.get_char(i);
        let ghost s1 = text@.subrange(0, i + 1);
        proof {
            assert(s1.drop_last() =~= text@.subrange(0, i as int));
            assert(s1.last() == c);
            lemma_split_on_nonempty(text@.subrange(0, i as int), '\n');
        }
        if c == '\n' {
            let line = line_between(text, j, i);
            proof {
                let seg = text@.subrange(j as int, i as int);
                assert(views_of(r@.push(line)) =~= views_of(r@).push(line@));
                assert(strip_all(raw.push(seg)) =~= strip_all(raw).push(strip_cr(seg)));
                assert(split_on(s1, '\n') == split_on(text@.subrange(0, i as int), '\n').push(
                    Seq::<char>::empty(),
                ));
                raw = raw.push(seg);
                assert(text@.subrange(i + 1, i + 1) =~= Seq::<char>::empty());
                assert(raw + seq![text@.subrange(i + 1, i + 1)] =~= split_on(s1, '\n'));
            }
            r.push(line);
            j = i + 1;
        } else {
            proof {
                let seg = text@.subrange(j as int, i as int);
                let prev = raw + seq![seg];
                assert(prev.last() == seg);
                assert(seg.push(c) =~= text@.subrange(j as int, i + 1));
                assert(prev.update(prev.len() - 1, prev.last().push(c)) =~= raw + seq![
                    text@.subrange(j as int, i + 1),
                ]);
            }
        }
        i = i + 1;
    }
    let last = line_between(text, j, n);
    proof {
        let seg = text@.subrange(j as int, n as int);
        assert(text@.subrange(0, n as int) =~= text@);
        assert(views_of(r@.push(last)) =~= views_of(r@).push(last@));
        assert(strip_all(raw.push(seg)) =~= strip_all(raw).push(strip_cr(seg)));
        assert(raw + seq![seg] =~= raw.push(seg));
    }
    r.push(last);
    r
}

fn line_between(text: &str, j: usize, i: usize) -> (r: String)
    requires
        j <= i <= text@.len(),
    ensures
        r@ == strip_cr(text@.subrange(j as int, i as int)),
{
    if i > j && text.get_char(i - 1) == '\r' {
        let r = slice_owned(text, j, i - 1);
        assert(text@.subrange(j as int, i as int).drop_last() =~= text@.subrange(
            j as int,
            i - 1,
        ));
        r
    } else {
        slice_owned(text, j, i)
    }
}

} // verus!
