//! Live input event nodes, the device manager's property dump, and the
//! matching of stored identities to nodes.
use vstd::prelude::*;
use crate::config::{TouchscreenView, XFixTouchscreen};
use crate::error::XFixError;
use crate::text::{find, find_from, lines_of, split_lines, slice_owned, views_of, lemma_find_from_spec};

verus! {

pub const MODEL_KEY: &'static str = "ID_MODEL";

pub const VENDOR_KEY: &'static str = "ID_VENDOR";

pub const ID_PATH_KEY: &'static str = "ID_PATH";

/// The property that marks a pointer-class device, with the value `1`.
pub const POINTER_KEY: &'static str = "ID_INPUT_MOUSE";

pub type PropertyView = (Seq<char>, Seq<char>);

/// A node as plain sequences: its path and its properties in the order reported.
pub ghost struct NodeView {
    pub path: Seq<char>,
    pub properties: Seq<PropertyView>,
}

/// An input event node with the key/value properties that the device
/// manager reports for it.
#[derive(Debug, Clone)]
pub struct XFixEventNode {
    path: String,
    properties: Vec<(String, String)>,
}

pub open spec fn pair_views(v: Seq<(String, String)>) -> Seq<PropertyView> {
    v.map_values(|p: (String, String)| (p.0@, p.1@))
}

/// The value of `key`; where the key is reported twice the later value counts.
pub open spec fn prop_lookup(ps: Seq<PropertyView>, key: Seq<char>) -> Option<Seq<char>>
    decreases ps.len(),
{
    if ps.len() == 0 {
        None
    } else if ps.last().0 == key {
        Some(ps.last().1)
    } else {
        prop_lookup(ps.drop_last(), key)
    }
}

/// A `KEY=VALUE` line: the key ends at the first `=`.
pub open spec fn property_of_line(l: Seq<char>) -> Option<PropertyView> {
    match find_from(l, "="@, 0) {
        Some(k) => Some((l.subrange(0, k), l.subrange(k + 1, l.len() as int))),
        None => None,
    }
}

/// The properties of the lines that hold a `=`, in order.
pub open spec fn properties_of_lines(ls: Seq<Seq<char>>) -> Seq<PropertyView>
    decreases ls.len(),
{
    if ls.len() == 0 {
        Seq::empty()
    } else {
        let rest = properties_of_lines(ls.drop_last());
        match property_of_line(ls.last()) {
            Some(p) => rest.push(p),
            None => rest,
        }
    }
}

pub open spec fn properties_of_text(text: Seq<char>) -> Seq<PropertyView> {
    properties_of_lines(lines_of(text))
}

pub open spec fn is_pointer_class(ps: Seq<PropertyView>) -> bool {
    prop_lookup(ps, POINTER_KEY@) == Some("1"@)
}

/// The nodes of the pointer-class devices among `(path, property dump)` pairs,
/// in order.
pub open spec fn nodes_of_dumps(ds: Seq<(Seq<char>, Seq<char>)>) -> Seq<NodeView>
    decreases ds.len(),
{
    if ds.len() == 0 {
        Seq::empty()
    } else {
        let rest = nodes_of_dumps(ds.drop_last());
        let props = properties_of_text(ds.last().1);
        if is_pointer_class(props) {
            rest.push(NodeView { path: ds.last().0, properties: props })
        } else {
            rest
        }
    }
}

pub open spec fn node_views(v: Seq<XFixEventNode>) -> Seq<NodeView> {
    v.map_values(|n: XFixEventNode| n@)
}

/// The node reports this vendor and this bus path.
pub open spec fn node_matches(n: NodeView, vendor: Seq<char>, id_path: Seq<char>) -> bool {
    prop_lookup(n.properties, VENDOR_KEY@) == Some(vendor) && prop_lookup(n.properties, ID_PATH_KEY@)
        == Some(id_path)
}

/// The first index from `from` on of a node that matches the identity.
pub open spec fn match_index_from(nodes: Seq<NodeView>, vendor: Seq<char>, id_path: Seq<char>, from: int) -> Option<int>
    decreases nodes.len() - from,
{
    if from < 0 || from >= nodes.len() {
        None
    } else if node_matches(nodes[from], vendor, id_path) {
        Some(from)
    } else {
        match_index_from(nodes, vendor, id_path, from + 1)
    }
}

/// The path of the first node that matches the identity.
pub open spec fn resolved_path(nodes: Seq<NodeView>, vendor: Seq<char>, id_path: Seq<char>) -> Option<Seq<char>> {
    match match_index_from(nodes, vendor, id_path, 0) {
        Some(k) => Some(nodes[k].path),
        None => None,
    }
}

pub open spec fn describe_spec(n: NodeView) -> Seq<char> {
    let head = match prop_lookup(n.properties, VENDOR_KEY@) {
        Some(v) => v + " - "@,
        None => Seq::empty(),
    };
    let tail = match prop_lookup(n.properties, MODEL_KEY@) {
        Some(m) => m + " ("@ + n.path + ")"@,
        None => n.path,
    };
    head + tail
}

impl View for XFixEventNode {
    type V = NodeView;

    closed spec fn view(&self) -> NodeView {
        NodeView { path: self.path@, properties: pair_views(self.properties@) }
    }
}

impl XFixEventNode {
    /// A node that reports a model, a vendor and a bus path.
    pub fn new(path: String, model_name: String, vendor: String, id_path: String) -> (r: XFixEventNode)
        ensures
            r@ == (NodeView {
                path: path@,
                properties: seq![(MODEL_KEY@, model_name@), (VENDOR_KEY@, vendor@), (ID_PATH_KEY@, id_path@)],
            }),
    {
        let mut properties: Vec<(String, String)> = Vec::new();
        properties.push((MODEL_KEY.to_owned(), model_name));
        properties.push((VENDOR_KEY.to_owned(), vendor));
        properties.push((ID_PATH_KEY.to_owned(), id_path));
        let r = XFixEventNode { path, properties };
        assert(r@.properties =~= seq![(MODEL_KEY@, model_name@), (VENDOR_KEY@, vendor@), (ID_PATH_KEY@, id_path@)]);
        r
    }

    /// A node with the properties parsed from its dump.
    pub fn from_properties(path: String, properties: Vec<(String, String)>) -> (r: XFixEventNode)
        ensures
            r@ == (NodeView { path: path@, properties: pair_views(properties@) }),
    {
        XFixEventNode { path, properties }
    }

    pub fn event_path(&self) -> (r: &str)
        ensures
            r@ == self@.path,
    {
        self.path.as_str()
    }

    fn property(&self, key: &str) -> (r: Option<&String>)
        ensures
            match r {
                Some(v) => prop_lookup(self@.properties, key@) == Some(v@),
                None => prop_lookup(self@.properties, key@) is None,
            },
    {
        lookup_property(&self.properties, key)
    }

    pub fn vendor(&self) -> (r: Option<&str>)
        ensures
            match r {
                Some(v) => prop_lookup(self@.properties, VENDOR_KEY@) == Some(v@),
                None => prop_lookup(self@.properties, VENDOR_KEY@) is None,
            },
    {
        match self.property(VENDOR_KEY) {
            Some(v) => Some(v.as_str()),
            None => None,
        }
    }

    pub fn model(&self) -> (r: Option<&str>)
        ensures
            match r {
                Some(v) => prop_lookup(self@.properties, MODEL_KEY@) == Some(v@),
                None => prop_lookup(self@.properties, MODEL_KEY@) is None,
            },
    {
        match self.property(MODEL_KEY) {
            Some(v) => Some(v.as_str()),
            None => None,
        }
    }

    pub fn id_path(&self) -> (r: Option<&str>)
        ensures
            match r {
                Some(v) => prop_lookup(self@.properties, ID_PATH_KEY@) == Some(v@),
                None => prop_lookup(self@.properties, ID_PATH_KEY@) is None,
            },
    {
        match self.property(ID_PATH_KEY) {
            Some(v) => Some(v.as_str()),
            None => None,
        }
    }

    /// The stored record for this node's identity, bound to `mapping`.
    pub fn to_touchscreen(&self, mapping: Option<String>) -> (r: Result<XFixTouchscreen, XFixError>)
        ensures
            prop_lookup(self@.properties, VENDOR_KEY@) is None ==> r == Err::<XFixTouchscreen, XFixError>(
                XFixError::VendorNotFound,
            ),
            prop_lookup(self@.properties, VENDOR_KEY@) is Some && prop_lookup(
                self@.properties,
                ID_PATH_KEY@,
            ) is None ==> r == Err::<XFixTouchscreen, XFixError>(XFixError::IdPathNotFound),
            prop_lookup(self@.properties, VENDOR_KEY@) is Some && prop_lookup(
                self@.properties,
                ID_PATH_KEY@,
            ) is Some ==> r is Ok,
            match r {
                Ok(t) => prop_lookup(self@.properties, VENDOR_KEY@) == Some(t@.vendor) && prop_lookup(
                    self@.properties,
                    ID_PATH_KEY@,
                ) == Some(t@.id_path) && t@.map_to_output == crate::config::opt_view(mapping),
                Err(_) => true,
            },
    {
        let vendor = match self.property(VENDOR_KEY) {
            Some(v) => v.clone(),
            None => return Err(XFixError::VendorNotFound),
        };
        let id_path = match self.property(ID_PATH_KEY) {
            Some(p) => p.clone(),
            None => return Err(XFixError::IdPathNotFound),
        };
        Ok(XFixTouchscreen { vendor, id_path, map_to_output: mapping })
    }

    /// `vendor - model (path)`, leaving out what the node does not report.
    pub fn describe(&self) -> (r: String)
        ensures
            r@ == describe_spec(self@),
    {
        let mut s = String::new();
        if let Some(v) = self.property(VENDOR_KEY) {
            s.append(v.as_str());
            s.append(" - ");
        }
        if let Some(m) = self.property(MODEL_KEY) {
            s.append(m.as_str());
            s.append(" (");
            s.append(self.path.as_str());
            s.append(")");
        } else {
            s.append(self.path.as_str());
        }
        assert(s@ =~= describe_spec(self@));
        s
    }

    fn matches_identity(&self, vendor: &String, id_path: &String) -> (r: bool)
        ensures
            r == node_matches(self@, vendor@, id_path@),
    {
        let v = match self.property(VENDOR_KEY) {
            Some(v) => *v == *vendor,
            None => false,
        };
        let p = match self.property(ID_PATH_KEY) {
            Some(p) => *p == *id_path,
            None => false,
        };
        v && p
    }
}

fn property_of(line: &String) -> (r: Option<(String, String)>)
    ensures
        match r {
            Some(p) => property_of_line(line@) == Some((p.0@, p.1@)),
            None => property_of_line(line@) is None,
        },
{
    let l = line.as_str();
    match find(l, "=", 0) {
        Some(k) => {
            proof {
                reveal_strlit("=");
                lemma_find_from_spec(l@, "="@, 0);
            }
            let n = l.unicode_len();
            Some((slice_owned(l, 0, k), slice_owned(l, k + 1, n)))
        },
        None => None,
    }
}

/// The `KEY=VALUE` properties of a device manager dump, in order; lines
/// without `=` are passed over.
pub fn parse_properties(text: &str) -> (r: Vec<(String, String)>)
    ensures
        pair_views(r@) == properties_of_text(text@),
{
    let lines = split_lines(text);
    let ghost ls = views_of(lines@);
    let mut r: Vec<(String, String)> = Vec::new();
    let mut i: usize = 0;
    assert(ls.subrange(0, 0) =~= Seq::<Seq<char>>::empty());
    assert(pair_views(r@) =~= Seq::<PropertyView>::empty());
    while i < lines.len()
        invariant
            ls == views_of(lines@),
            ls == lines_of(text@),
            i <= lines.len(),
            pair_views(r@) == properties_of_lines(ls.subrange(0, i as int)),
        decreases lines.len() - i,
    {
        proof {
            assert(ls.subrange(0, i + 1).drop_last() =~= ls.subrange(0, i as int));
            assert(ls[i as int] == lines@[i as int]@);
        }
        match property_of(&lines[i]) {
            Some(p) => {
                proof {
                    assert(pair_views(r@.push(p)) =~= pair_views(r@).push((p.0@, p.1@)));
                }
                r.push(p);
            },
            None => {},
        }
        i = i + 1;
    }
    assert(ls.subrange(0, ls.len() as int) =~= ls);
    r
}

/// The value of `key` among `props`; the later of two counts.
fn lookup_property<'a>(props: &'a Vec<(String, String)>, key: &str) -> (r: Option<&'a String>)
    ensures
        match r {
            Some(v) => prop_lookup(pair_views(props@), key@) == Some(v@),
            None => prop_lookup(pair_views(props@), key@) is None,
        },
{
    let k = key.to_owned();
    let ghost ps = pair_views(props@);
    let mut found: Option<usize> = None;
    let mut i: usize = 0;
    while i < props.len()
        invariant
            k@ == key@,
            ps == pair_views(props@),
            i <= props.len(),
            match found {
                Some(j) => j < i && prop_lookup(ps.subrange(0, i as int), k@) == Some(ps[j as int].1),
                None => prop_lookup(ps.subrange(0, i as int), k@) is None,
            },
        decreases props.len() - i,
    {
        proof {
            assert(ps.subrange(0, i + 1).drop_last() =~= ps.subrange(0, i as int));
        }
        if props[i].0 == k {
            found = Some(i);
        }
        i = i + 1;
    }
    assert(ps.subrange(0, ps.len() as int) =~= ps);
    match found {
        Some(j) => Some(&props[j].1),
        None => None,
    }
}

fn is_pointer_device(props: &Vec<(String, String)>) -> (r: bool)
    ensures
        r == is_pointer_class(pair_views(props@)),
{
    let one = "1".to_owned();
    match lookup_property(props, POINTER_KEY) {
        Some(v) => *v == one,
        None => false,
    }
}

/// The event nodes of the pointer-class devices among `(path, property
/// dump)` pairs, in the order given; every other device is left out.
pub fn find_all_touchscreens_nodes(dumps: &Vec<(String, String)>) -> (r: Vec<XFixEventNode>)
    ensures
        node_views(r@) == nodes_of_dumps(pair_views(dumps@)),
{
    let ghost ds = pair_views(dumps@);
    let mut r: Vec<XFixEventNode> = Vec::new();
    let mut i: usize = 0;
    assert(ds.subrange(0, 0) =~= Seq::<(Seq<char>, Seq<char>)>::empty());
    assert(node_views(r@) =~= Seq::<NodeView>::empty());
    while i < dumps.len()
        invariant
            ds == pair_views(dumps@),
            i <= dumps.len(),
            node_views(r@) == nodes_of_dumps(ds.subrange(0, i as int)),
        decreases dumps.len() - i,
    {
        proof {
            assert(ds.subrange(0, i + 1).drop_last() =~= ds.subrange(0, i as int));
        }
        let props = parse_properties(dumps[i].1.as_str());
        if is_pointer_device(&props) {
            let node = XFixEventNode { path: dumps[i].0.clone(), properties: props };
            proof {
                assert(node_views(r@.push(node)) =~= node_views(r@).push(node@));
            }
            r.push(node);
        }
        i = i + 1;
    }
    assert(ds.subrange(0, ds.len() as int) =~= ds);
    r
}

/// What a stored identity resolved to, as plain sequences.
pub ghost struct ResolvedNodeView {
    pub screen: TouchscreenView,
    pub node: Option<Seq<char>>,
}

/// A stored touchscreen with the path of the live node that matches it.
#[derive(Debug)]
pub struct XFixTouchscreenWithNode<'a> {
    screen: &'a XFixTouchscreen,
    node: Option<String>,
}

impl<'a> View for XFixTouchscreenWithNode<'a> {
    type V = ResolvedNodeView;

    closed spec fn view(&self) -> ResolvedNodeView {
        ResolvedNodeView { screen: self.screen@, node: crate::config::opt_view(self.node) }
    }
}

impl<'a> XFixTouchscreenWithNode<'a> {
    pub fn screen(&self) -> (r: &'a XFixTouchscreen)
        ensures
            r@ == self@.screen,
    {
        self.screen
    }

    pub fn node(&self) -> (r: Option<&str>)
        ensures
            match r {
                Some(p) => self@.node == Some(p@),
                None => self@.node is None,
            },
    {
        match &self.node {
            Some(p) => Some(p.as_str()),
            None => None,
        }
    }
}

fn resolve_node(nodes: &Vec<XFixEventNode>, vendor: &String, id_path: &String) -> (r: Option<String>)
    ensures
        crate::config::opt_view(r) == resolved_path(node_views(nodes@), vendor@, id_path@),
{
    let ghost ns = node_views(nodes@);
    let mut i: usize = 0;
    while i < nodes.len()
        invariant
            ns == node_views(nodes@),
            i <= nodes.len(),
            match_index_from(ns, vendor@, id_path@, 0) == match_index_from(ns, vendor@, id_path@, i as int),
        decreases nodes.len() - i,
    {
        if nodes[i].matches_identity(vendor, id_path) {
            return Some(nodes[i].path.clone());
        }
        i = i + 1;
    }
    None
}

/// Each stored touchscreen, in order, with the path of the first live node
/// that reports its vendor and bus path.
pub fn find_touchscreen_nodes<'a>(screens: &'a Vec<XFixTouchscreen>, nodes: &Vec<XFixEventNode>) -> (r: Vec<XFixTouchscreenWithNode<'a>>)
    ensures
        r.len() == screens.len(),
        forall|i: int| 0 <= i < r.len() ==> (#[trigger] r[i])@ == (ResolvedNodeView {
            screen: screens[i]@,
            node: resolved_path(node_views(nodes@), screens[i]@.vendor, screens[i]@.id_path),
        }),
{
    let mut r: Vec<XFixTouchscreenWithNode<'a>> = Vec::new();
    let mut i: usize = 0;
    while i < screens.len()
        invariant
            i <= screens.len(),
            r.len() == i,
            forall|j: int| 0 <= j < i ==> (#[trigger] r[j])@ == (ResolvedNodeView {
                screen: screens[j]@,
                node: resolved_path(node_views(nodes@), screens[j]@.vendor, screens[j]@.id_path),
            }),
        decreases screens.len() - i,
    {
        let s = &screens[i];
        let node = resolve_node(nodes, &s.vendor, &s.id_path);
        r.push(XFixTouchscreenWithNode { screen: s, node });
        i = i + 1;
    }
    r
}

} // verus!
