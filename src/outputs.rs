//! The display-configuration listing: which video outputs are connected.
use vstd::prelude::*;
use crate::text::{lines_of, matches_at, occurs_at, slice_owned, split_lines, views_of};

verus! {

pub const CONNECTED_MARKER: &'static str = "connected";

/// A character of the Unicode `White_Space` property.
pub open spec fn is_space(c: char) -> bool {
    ('\u{9}' <= c && c <= '\u{d}') || c == ' ' || c == '\u{85}' || c == '\u{a0}' || c == '\u{1680}'
        || ('\u{2000}' <= c && c <= '\u{200a}') || c == '\u{2028}' || c == '\u{2029}' || c == '\u{202f}'
        || c == '\u{205f}' || c == '\u{3000}'
}

/// The connected status stands at `i`, after a white-space character.
pub open spec fn status_at(l: Seq<char>, i: int) -> bool {
    1 <= i && is_space(l[i - 1]) && occurs_at(l, CONNECTED_MARKER@, i)
}

/// The first index from `from` on where the connected status stands.
pub open spec fn status_from(l: Seq<char>, from: int) -> Option<int>
    decreases l.len() - from,
{
    if from < 0 || from >= l.len() {
        None
    } else if status_at(l, from) {
        Some(from)
    } else {
        status_from(l, from + 1)
    }
}

/// The index of the first white-space character from `from` on, or the
/// length of the line where there is none.
pub open spec fn space_from(l: Seq<char>, from: int) -> int
    decreases l.len() - from,
{
    if from < 0 || from >= l.len() {
        l.len() as int
    } else if is_space(l[from]) {
        from
    } else {
        space_from(l, from + 1)
    }
}

/// The output named by a connected line: its first token, up to the first
/// white space. A `disconnected` status does not count.
pub open spec fn output_of_line(l: Seq<char>) -> Option<Seq<char>> {
    if status_from(l, 0) is Some {
        Some(l.subrange(0, space_from(l, 0)))
    } else {
        None
    }
}

pub open spec fn outputs_of_lines(ls: Seq<Seq<char>>) -> Seq<Seq<char>>
    decreases ls.len(),
{
    if ls.len() == 0 {
        Seq::empty()
    } else {
        let rest = outputs_of_lines(ls.drop_last());
        match output_of_line(ls.last()) {
            Some(o) => rest.push(o),
            None => rest,
        }
    }
}

fn is_space_char(c: char) -> (r: bool)
    ensures
        r == is_space(c),
{
    ('\u{9}' <= c && c <= '\u{d}') || c == ' ' || c == '\u{85}' || c == '\u{a0}' || c == '\u{1680}'
        || ('\u{2000}' <= c && c <= '\u{200a}') || c == '\u{2028}' || c == '\u{2029}' || c == '\u{202f}'
        || c == '\u{205f}' || c == '\u{3000}'
}

fn output_in(l: &str) -> (r: Option<String>)
    ensures
        match r {
            Some(o) => output_of_line(l@) == Some(o@),
            None => output_of_line(l@) is None,
        },
{
    let n = l.unicode_len();
    let m = CONNECTED_MARKER.unicode_len();
    let mut i: usize = 0;
    while i < n
        invariant
            n == l@.len(),
            m == CONNECTED_MARKER@.len(),
            i <= n,
            status_from(l@, 0) == status_from(l@, i as int),
        ensures
            i <= n,
            i < n ==> status_from(l@, 0) == Some(i as int),
            i >= n ==> status_from(l@, 0) is None,
        decreases n - i,
    {
        if i >= 1 && is_space_char(l.get_char(i - 1)) && matches_at(l, n, CONNECTED_MARKER, m, i) {
            break;
        }
        i = i + 1;
    }
    if i >= n {
        return None;
    }
    let mut j: usize = 0;
    while j < n && !is_space_char(l.get_char(j))
        invariant
            n == l@.len(),
            j <= n,
            space_from(l@, 0) == space_from(l@, j as int),
        decreases n - j,
    {
        j = j + 1;
    }
    Some(slice_owned(l, 0, j))
}

/// The names of the connected outputs in the display-configuration listing,
/// in order.
pub fn find_connected_video_outputs(listing: &str) -> (r: Vec<String>)
    ensures
        views_of(r@) == outputs_of_lines(lines_of(listing@)),
{
    let lines = split_lines(listing);
    let ghost ls = views_of(lines@);
    let mut r: Vec<String> = Vec::new();
    let mut i: usize = 0;
    assert(ls.subrange(0, 0) =~= Seq::<Seq<char>>::empty());
    assert(views_of(r@) =~= Seq::<Seq<char>>::empty());
    while i < lines.len()
        invariant
            ls == views_of(lines@),
            ls == lines_of(listing@),
            i <= lines.len(),
            views_of(r@) == outputs_of_lines(ls.subrange(0, i as int)),
        decreases lines.len() - i,
    {
        proof {
            assert(ls.subrange(0, i + 1).drop_last() =~= ls.subrange(0, i as int));
            assert(ls[i as int] == lines@[i as int]@);
        }
        match output_in(lines[i].as_str()) {
            Some(o) => {
                proof {
                    assert(views_of(r@.push(o)) =~= views_of(r@).push(o@));
                }
                r.push(o);
            },
            None => {},
        }
        i = i + 1;
    }
    assert(ls.subrange(0, ls.len() as int) =~= ls);
    r
}

} // verus!
