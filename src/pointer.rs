//! The windowing system's pointer devices: reading their ids from the
//! pointer listing, reading the node behind each device from its property
//! listing, and joining resolved nodes to pointer ids.
use vstd::prelude::*;
use crate::config::TouchscreenView;
use crate::error::XFixError;
use crate::node::XFixTouchscreenWithNode;
use crate::text::{
    contains, contains_str, digit_run_end, digits_value, find, find_from, is_digit,
    lines_of, matches_at, occurs_at, slice_owned, split_lines, views_of,
};

verus! {

/// The line that opens the block of pointer devices.
pub const POINTER_MARKER: &'static str = "Virtual core pointer";

/// The line that opens the next block, of keyboard devices.
pub const KEYBOARD_MARKER: &'static str = "Virtual core keyboard";

pub const ID_MARKER: &'static str = "id=";

pub const NODE_MARKER: &'static str = "Device Node";

pub const QUOTE: &'static str = "\"";

/// The first line from `from` on that holds `pat`.
pub open spec fn line_with_from(ls: Seq<Seq<char>>, pat: Seq<char>, from: int) -> Option<int>
    decreases ls.len() - from,
{
    if from < 0 || from >= ls.len() {
        None
    } else if contains(ls[from], pat) {
        Some(from)
    } else {
        line_with_from(ls, pat, from + 1)
    }
}

/// The lines of the pointer marker and of the first keyboard marker after it.
pub open spec fn pointer_block(ls: Seq<Seq<char>>) -> Option<(int, int)> {
    match line_with_from(ls, POINTER_MARKER@, 0) {
        Some(p) => match line_with_from(ls, KEYBOARD_MARKER@, p + 1) {
            Some(k) => Some((p, k)),
            None => None,
        },
        None => None,
    }
}

/// `id=` stands at `i`, followed by a digit.
pub open spec fn id_at(l: Seq<char>, i: int) -> bool {
    occurs_at(l, ID_MARKER@, i) && i + ID_MARKER@.len() < l.len() && is_digit(l[i + ID_MARKER@.len()])
}

/// The last index before `n` where an id stands.
pub open spec fn last_id_before(l: Seq<char>, n: int) -> Option<int>
    decreases n,
{
    if n <= 0 {
        None
    } else if id_at(l, n - 1) {
        Some(n - 1)
    } else {
        last_id_before(l, n - 1)
    }
}

/// The device id of a listing line: the digits after its last `id=`, where
/// they fit in 32 bits.
pub open spec fn id_of_line(l: Seq<char>) -> Option<u32> {
    match last_id_before(l, l.len() as int) {
        Some(i) => {
            let s = i + ID_MARKER@.len();
            let v = digits_value(l.subrange(s, digit_run_end(l, s)));
            if v <= u32::MAX {
                Some(v as u32)
            } else {
                None
            }
        },
        None => None,
    }
}

pub open spec fn ids_of_lines(ls: Seq<Seq<char>>) -> Seq<u32>
    decreases ls.len(),
{
    if ls.len() == 0 {
        Seq::empty()
    } else {
        let rest = ids_of_lines(ls.drop_last());
        match id_of_line(ls.last()) {
            Some(id) => rest.push(id),
            None => rest,
        }
    }
}

/// The ids of the devices listed strictly between the pointer marker and the
/// keyboard marker, or `None` where the listing lacks that block.
pub open spec fn pointer_ids_of(text: Seq<char>) -> Option<Seq<u32>> {
    let ls = lines_of(text);
    match pointer_block(ls) {
        Some((p, k)) => Some(ids_of_lines(ls.subrange(p + 1, k))),
        None => None,
    }
}

/// A quote stands at `q`, and the next quote after it closes a non-empty text.
pub open spec fn quoted_at(l: Seq<char>, q: int) -> bool {
    occurs_at(l, QUOTE@, q) && (find_from(l, QUOTE@, q + 1) matches Some(e) && e > q + 1)
}

/// The last index before `n`, and from `start` on, where a quoted text opens.
pub open spec fn last_quoted_before(l: Seq<char>, start: int, n: int) -> Option<int>
    decreases n - start,
{
    if n <= start {
        None
    } else if quoted_at(l, n - 1) {
        Some(n - 1)
    } else {
        last_quoted_before(l, start, n - 1)
    }
}

/// The path named after the node marker of a line: the last non-empty
/// quoted text that follows the marker.
pub open spec fn node_in_line(l: Seq<char>) -> Option<Seq<char>> {
    match find_from(l, NODE_MARKER@, 0) {
        Some(i) => match last_quoted_before(l, i + NODE_MARKER@.len(), l.len() as int) {
            Some(q) => match find_from(l, QUOTE@, q + 1) {
                Some(e) => Some(l.subrange(q + 1, e)),
                None => None,
            },
            None => None,
        },
        None => None,
    }
}

/// The path of the first line from `from` on that names a device node.
pub open spec fn node_in_lines_from(ls: Seq<Seq<char>>, from: int) -> Option<Seq<char>>
    decreases ls.len() - from,
{
    if from < 0 || from >= ls.len() {
        None
    } else {
        match node_in_line(ls[from]) {
            Some(n) => Some(n),
            None => node_in_lines_from(ls, from + 1),
        }
    }
}

pub open spec fn node_of_props(text: Seq<char>) -> Option<Seq<char>> {
    node_in_lines_from(lines_of(text), 0)
}

pub open spec fn listing_views(v: Seq<(u32, String)>) -> Seq<(u32, Seq<char>)> {
    v.map_values(|p: (u32, String)| (p.0, p.1@))
}

pub open spec fn mapping_views(v: Seq<(String, u32)>) -> Seq<(Seq<char>, u32)> {
    v.map_values(|p: (String, u32)| (p.0@, p.1))
}

/// The `(node, id)` pairs of the devices whose property listing names a node.
pub open spec fn mapping_of_listings(ds: Seq<(u32, Seq<char>)>) -> Seq<(Seq<char>, u32)>
    decreases ds.len(),
{
    if ds.len() == 0 {
        Seq::empty()
    } else {
        let rest = mapping_of_listings(ds.drop_last());
        match node_of_props(ds.last().1) {
            Some(n) => rest.push((n, ds.last().0)),
            None => rest,
        }
    }
}

/// The id of a node; where a node is paired twice the later pair counts.
pub open spec fn id_lookup(m: Seq<(Seq<char>, u32)>, node: Seq<char>) -> Option<u32>
    decreases m.len(),
{
    if m.len() == 0 {
        None
    } else if m.last().0 == node {
        Some(m.last().1)
    } else {
        id_lookup(m.drop_last(), node)
    }
}

fn id_in_line(l: &str) -> (r: Option<u32>)
    ensures
        r == id_of_line(l@),
{
    let n = l.unicode_len();
    let m = ID_MARKER.unicode_len();
    let mut found: Option<usize> = None;
    let mut i: usize = 0;
    while i < n
        invariant
            n == l@.len(),
            m == ID_MARKER@.len(),
            i <= n,
            match found {
                Some(j) => last_id_before(l@, i as int) == Some(j as int),
                None => last_id_before(l@, i as int) is None,
            },
        decreases n - i,
    {
        if matches_at(l, n, ID_MARKER, m, i) && m < n - i && is_digit_char(l.get_char(i + m)) {
            found = Some(i);
        }
        i = i + 1;
    }
    proof {
        lemma_last_id_spec(l@, n as int);
    }
    let s = match found {
        Some(j) => j + m,
        None => return None,
    };
    let mut k: usize = s;
    let mut val: u64 = 0;
    let mut over = false;
    assert(l@.subrange(s as int, s as int) =~= Seq::<char>::empty());
    while k < n && is_digit_char(l.get_char(k))
        invariant
            n == l@.len(),
            s <= k <= n,
            digit_run_end(l@, s as int) == digit_run_end(l@, k as int),
            !over ==> val <= u32::MAX && val as nat == digits_value(l@.subrange(s as int, k as int)),
            over ==> digits_value(l@.subrange(s as int, k as int)) > u32::MAX,
        decreases n - k,
    {
        let c = l.get_char(k);
        proof {
            let t = l@.subrange(s as int, k + 1);
            assert(t.drop_last() =~= l@.subrange(s as int, k as int));
            assert(t.last() == c);
        }
        if !over {
            let d = (c as u32 - '0' as u32) as u64;
            val = val * 10 + d;
            if val > u32::MAX as u64 {
                over = true;
            }
        }
        k = k + 1;
    }
    if over {
        None
    } else {
        Some(val as u32)
    }
}

proof fn lemma_last_id_spec(l: Seq<char>, n: int)
    ensures
        last_id_before(l, n) matches Some(j) ==> 0 <= j < n && id_at(l, j),
    decreases n,
{
    if n > 0 && !id_at(l, n - 1) {
        lemma_last_id_spec(l, n - 1);
    }
}

fn is_digit_char(c: char) -> (r: bool)
    ensures
        r == is_digit(c),
{
    '0' <= c && c <= '9'
}

fn line_with(ls: &Vec<String>, pat: &str, from: usize) -> (r: Option<usize>)
    ensures
        match r {
            Some(k) => line_with_from(views_of(ls@), pat@, from as int) == Some(k as int) && from
                <= k < ls.len(),
            None => line_with_from(views_of(ls@), pat@, from as int) is None,
        },
{
    let ghost vs = views_of(ls@);
    proof {
        lemma_line_with_spec(vs, pat@, from as int);
    }
    let mut i = from;
    while i < ls.len()
        invariant
            vs == views_of(ls@),
            from <= i,
            line_with_from(vs, pat@, from as int) == line_with_from(vs, pat@, i as int),
        decreases ls.len() - i,
    {
        assert(vs[i as int] == ls@[i as int]@);
        if contains_str(ls[i].as_str(), pat) {
            return Some(i);
        }
        i = i + 1;
    }
    None
}

/// The ids of the pointer devices in the short pointer listing, in order;
/// lines without an id are passed over. Fails where the listing has no
/// pointer marker, or no keyboard marker after it.
pub fn pointer_device_ids(listing: &str) -> (r: Result<Vec<u32>, XFixError>)
    ensures
        match pointer_ids_of(listing@) {
            Some(ids) => r matches Ok(v) && v@ == ids,
            None => r == Err::<Vec<u32>, XFixError>(XFixError::DeviceQuery),
        },
{
    let lines = split_lines(listing);
    let ghost ls = views_of(lines@);
    let p = match line_with(&lines, POINTER_MARKER, 0) {
        Some(p) => p,
        None => return Err(XFixError::DeviceQuery),
    };
    let k = match line_with(&lines, KEYBOARD_MARKER, p + 1) {
        Some(k) => k,
        None => return Err(XFixError::DeviceQuery),
    };
    let mut r: Vec<u32> = Vec::new();
    let mut i: usize = p + 1;
    assert(ls.subrange(p + 1, p + 1) =~= Seq::<Seq<char>>::empty());
    while i < k
        invariant
            ls == views_of(lines@),
            p + 1 <= i <= k,
            k < lines.len(),
            r@ == ids_of_lines(ls.subrange(p + 1, i as int)),
        decreases k - i,
    {
        proof {
            assert(ls.subrange(p + 1, i + 1).drop_last() =~= ls.subrange(p + 1, i as int));
            assert(ls[i as int] == lines@[i as int]@);
        }
        match id_in_line(lines[i].as_str()) {
            Some(id) => r.push(id),
            None => {},
        }
        i = i + 1;
    }
    Ok(r)
}

proof fn lemma_line_with_spec(ls: Seq<Seq<char>>, pat: Seq<char>, from: int)
    ensures
        line_with_from(ls, pat, from) matches Some(k) ==> from <= k < ls.len() && k >= 0,
    decreases ls.len() - from,
{
    if 0 <= from < ls.len() && !contains(ls[from], pat) {
        lemma_line_with_spec(ls, pat, from + 1);
    }
}

fn node_in(l: &str) -> (r: Option<String>)
    ensures
        match r {
            Some(n) => node_in_line(l@) == Some(n@),
            None => node_in_line(l@) is None,
        },
{
    proof {
        reveal_strlit("\"");
    }
    let n = l.unicode_len();
    let i = match find(l, NODE_MARKER, 0) {
        Some(i) => i,
        None => return None,
    };
    let start = i + NODE_MARKER.unicode_len();
    let mut found: Option<(usize, usize)> = None;
    let mut k: usize = start;
    while k < n
        invariant
            n == l@.len(),
            QUOTE@.len() == 1,
            start <= n,
            start <= k <= n,
            match found {
                Some((q, e)) => last_quoted_before(l@, start as int, k as int) == Some(q as int)
                    && find_from(l@, QUOTE@, q + 1) == Some(e as int) && q + 1 < e && e < n,
                None => last_quoted_before(l@, start as int, k as int) is None,
            },
        decreases n - k,
    {
        if matches_at(l, n, QUOTE, 1, k) {
            match find(l, QUOTE, k + 1) {
                Some(e) => {
                    if e > k + 1 {
                        found = Some((k, e));
                    }
                },
                None => {},
            }
        }
        k = k + 1;
    }
    match found {
        Some((q, e)) => Some(slice_owned(l, q + 1, e)),
        None => None,
    }
}

/// The device node named in a device's property listing: on the first line
/// that gives one, the last non-empty quoted text after the node marker.
pub fn device_node_of(props: &str) -> (r: Option<String>)
    ensures
        match r {
            Some(n) => node_of_props(props@) == Some(n@),
            None => node_of_props(props@) is None,
        },
{
    let lines = split_lines(props);
    let ghost ls = views_of(lines@);
    let mut i: usize = 0;
    while i < lines.len()
        invariant
            ls == views_of(lines@),
            ls == lines_of(props@),
            i <= lines.len(),
            node_in_lines_from(ls, 0) == node_in_lines_from(ls, i as int),
        decreases lines.len() - i,
    {
        assert(ls[i as int] == lines@[i as int]@);
        match node_in(lines[i].as_str()) {
            Some(n) => return Some(n),
            None => {},
        }
        i = i + 1;
    }
    None
}

/// The `(node, id)` pairs of the devices whose property listing, given as
/// `(id, listing)`, names a device node; the others are left out.
pub fn device_node_mapping(listings: &Vec<(u32, String)>) -> (r: Vec<(String, u32)>)
    ensures
        mapping_views(r@) == mapping_of_listings(listing_views(listings@)),
{
    let ghost ds = listing_views(listings@);
    let mut r: Vec<(String, u32)> = Vec::new();
    let mut i: usize = 0;
    assert(ds.subrange(0, 0) =~= Seq::<(u32, Seq<char>)>::empty());
    assert(mapping_views(r@) =~= Seq::<(Seq<char>, u32)>::empty());
    while i < listings.len()
        invariant
            ds == listing_views(listings@),
            i <= listings.len(),
            mapping_views(r@) == mapping_of_listings(ds.subrange(0, i as int)),
        decreases listings.len() - i,
    {
        proof {
            assert(ds.subrange(0, i + 1).drop_last() =~= ds.subrange(0, i as int));
        }
        let id = listings[i].0;
        match device_node_of(listings[i].1.as_str()) {
            Some(n) => {
                proof {
                    assert(mapping_views(r@.push((n, id))) =~= mapping_views(r@).push((n@, id)));
                }
                r.push((n, id));
            },
            None => {},
        }
        i = i + 1;
    }
    assert(ds.subrange(0, ds.len() as int) =~= ds);
    r
}

/// A resolved node with the pointer id behind it, as plain values.
pub ghost struct ResolvedPointerView {
    pub screen: TouchscreenView,
    pub node: Option<Seq<char>>,
    pub id: Option<u32>,
}

/// The pointer id of a resolved node: found only where the node is known.
pub open spec fn pointer_id_of(m: Seq<(Seq<char>, u32)>, node: Option<Seq<char>>) -> Option<u32> {
    match node {
        Some(n) => id_lookup(m, n),
        None => None,
    }
}

/// A stored touchscreen with its live node and the pointer id behind it.
#[derive(Debug)]
pub struct XFixTouchscreenWithXinputId<'a> {
    screen: XFixTouchscreenWithNode<'a>,
    id: Option<u32>,
}

impl<'a> View for XFixTouchscreenWithXinputId<'a> {
    type V = ResolvedPointerView;

    closed spec fn view(&self) -> ResolvedPointerView {
        ResolvedPointerView { screen: self.screen@.screen, node: self.screen@.node, id: self.id }
    }
}

impl<'a> XFixTouchscreenWithXinputId<'a> {
    pub fn resolved_node(&self) -> (r: &XFixTouchscreenWithNode<'a>)
        ensures
            r@.screen == self@.screen,
            r@.node == self@.node,
    {
        &self.screen
    }

    pub fn id(&self) -> (r: Option<u32>)
        ensures
            r == self@.id,
    {
        self.id
    }
}

fn lookup_id(mapping: &Vec<(String, u32)>, node: &str) -> (r: Option<u32>)
    ensures
        r == id_lookup(mapping_views(mapping@), node@),
{
    let key = node.to_owned();
    let ghost ms = mapping_views(mapping@);
    let mut found: Option<u32> = None;
    let mut i: usize = 0;
    while i < mapping.len()
        invariant
            key@ == node@,
            ms == mapping_views(mapping@),
            i <= mapping.len(),
            found == id_lookup(ms.subrange(0, i as int), key@),
        decreases mapping.len() - i,
    {
        proof {
            assert(ms.subrange(0, i + 1).drop_last() =~= ms.subrange(0, i as int));
        }
        if mapping[i].0 == key {
            found = Some(mapping[i].1);
        }
        i = i + 1;
    }
    assert(ms.subrange(0, ms.len() as int) =~= ms);
    found
}

/// Each resolved node, in order, with the pointer id that the `(node, id)`
/// pairs give its node; `None` where the node is unknown or unpaired.
pub fn find_xinput_id<'a>(screens: Vec<XFixTouchscreenWithNode<'a>>, mapping: &Vec<(String, u32)>) -> (r: Vec<XFixTouchscreenWithXinputId<'a>>)
    ensures
        r.len() == screens.len(),
        forall|i: int| 0 <= i < r.len() ==> (#[trigger] r[i])@ == (ResolvedPointerView {
            screen: screens[i]@.screen,
            node: screens[i]@.node,
            id: pointer_id_of(mapping_views(mapping@), screens[i]@.node),
        }),
{
    let ghost orig = screens@;
    let mut rest = screens;
    let mut r: Vec<XFixTouchscreenWithXinputId<'a>> = Vec::new();
    while rest.len() > 0
        invariant
            r.len() + rest.len() == orig.len(),
            rest@ == orig.subrange(r.len() as int, orig.len() as int),
            forall|i: int| 0 <= i < r.len() ==> (#[trigger] r[i])@ == (ResolvedPointerView {
                screen: orig[i]@.screen,
                node: orig[i]@.node,
                id: pointer_id_of(mapping_views(mapping@), orig[i]@.node),
            }),
        decreases rest.len(),
    {
        let s = rest.remove(0);
        assert(s == orig[r.len() as int]);
        let id = match s.node() {
            Some(n) => lookup_id(mapping, n),
            None => None,
        };
        r.push(XFixTouchscreenWithXinputId { screen: s, id });
        assert(rest@ =~= orig.subrange(r.len() as int, orig.len() as int));
    }
    r
}

/// The bind command of a resolved pointer: its id and its output, where it
/// has both and the output is not empty.
pub open spec fn binding_of(p: ResolvedPointerView) -> Option<(u32, Seq<char>)> {
    match (p.id, p.screen.map_to_output) {
        (Some(id), Some(out)) => if out.len() > 0 {
            Some((id, out))
        } else {
            None
        },
        _ => None,
    }
}

pub open spec fn bindings_of(ps: Seq<ResolvedPointerView>) -> Seq<(u32, Seq<char>)>
    decreases ps.len(),
{
    if ps.len() == 0 {
        Seq::empty()
    } else {
        let rest = bindings_of(ps.drop_last());
        match binding_of(ps.last()) {
            Some(b) => rest.push(b),
            None => rest,
        }
    }
}

pub open spec fn pointer_views(v: Seq<XFixTouchscreenWithXinputId>) -> Seq<ResolvedPointerView> {
    v.map_values(|p: XFixTouchscreenWithXinputId| p@)
}

pub open spec fn command_views(v: Seq<(u32, String)>) -> Seq<(u32, Seq<char>)> {
    v.map_values(|c: (u32, String)| (c.0, c.1@))
}

/// The bind commands, `(pointer id, output)`, for the resolved pointers that
/// have both an id and a non-empty output, in order; the others are skipped.
pub fn assign_screens_to_outputs(screens: &Vec<XFixTouchscreenWithXinputId<'_>>) -> (r: Vec<(u32, String)>)
    ensures
        command_views(r@) == bindings_of(pointer_views(screens@)),
{
    let ghost ps = pointer_views(screens@);
    let mut r: Vec<(u32, String)> = Vec::new();
    let mut i: usize = 0;
    assert(ps.subrange(0, 0) =~= Seq::<ResolvedPointerView>::empty());
    assert(command_views(r@) =~= Seq::<(u32, Seq<char>)>::empty());
    while i < screens.len()
        invariant
            ps == pointer_views(screens@),
            i <= screens.len(),
            command_views(r@) == bindings_of(ps.subrange(0, i as int)),
        decreases screens.len() - i,
    {
        proof {
            assert(ps.subrange(0, i + 1).drop_last() =~= ps.subrange(0, i as int));
            assert(ps[i as int] == screens@[i as int]@);
        }
        let s = &screens[i];
        let ts = s.resolved_node().screen();
        match (s.id(), &ts.map_to_output) {
            (Some(id), Some(out)) => {
                if out.as_str().unicode_len() > 0 {
                    let c = (id, out.clone());
                    proof {
                        assert(command_views(r@.push(c)) =~= command_views(r@).push((c.0, c.1@)));
                    }
                    r.push(c);
                }
            },
            _ => {},
        }
        i = i + 1;
    }
    assert(ps.subrange(0, ps.len() as int) =~= ps);
    r
}

} // verus!
