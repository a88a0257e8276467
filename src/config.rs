//! The identity store: known touchscreens and the output each is bound to.
use vstd::prelude::*;

verus! {

/// What a stored record holds, as plain sequences.
pub ghost struct TouchscreenView {
    pub vendor: Seq<char>,
    pub id_path: Seq<char>,
    pub map_to_output: Option<Seq<char>>,
}

/// A touchscreen known by its vendor and physical bus path, with the video
/// output it should be bound to.
#[derive(Debug, Clone)]
pub struct XFixTouchscreen {
    pub vendor: String,
    pub id_path: String,
    pub map_to_output: Option<String>,
}

pub open spec fn opt_view(o: Option<String>) -> Option<Seq<char>> {
    match o {
        Some(s) => Some(s@),
        None => None,
    }
}

impl View for XFixTouchscreen {
    type V = TouchscreenView;

    open spec fn view(&self) -> TouchscreenView {
        TouchscreenView {
            vendor: self.vendor@,
            id_path: self.id_path@,
            map_to_output: opt_view(self.map_to_output),
        }
    }
}

/// Two records name the same touchscreen: vendor and bus path agree; the
/// output binding plays no part.
pub open spec fn same_identity(a: TouchscreenView, b: TouchscreenView) -> bool {
    a.vendor == b.vendor && a.id_path == b.id_path
}

impl PartialEq for XFixTouchscreen {
    fn eq(&self, other: &XFixTouchscreen) -> (r: bool) {
        self.vendor == other.vendor && self.id_path == other.id_path
    }
}

impl vstd::std_specs::cmp::PartialEqSpecImpl for XFixTouchscreen {
    open spec fn obeys_eq_spec() -> bool {
        true
    }

    open spec fn eq_spec(&self, other: &XFixTouchscreen) -> bool {
        same_identity(self@, other@)
    }
}

impl Eq for XFixTouchscreen {
}

impl XFixTouchscreen {
    /// A copy of the record, field for field.
    pub fn duplicate(&self) -> (r: XFixTouchscreen)
        ensures
            r@ == self@,
    {
        let map_to_output = match &self.map_to_output {
            Some(m) => Some(m.clone()),
            None => None,
        };
        XFixTouchscreen { vendor: self.vendor.clone(), id_path: self.id_path.clone(), map_to_output }
    }
}

pub open spec fn record_views(v: Seq<XFixTouchscreen>) -> Seq<TouchscreenView> {
    v.map_values(|t: XFixTouchscreen| t@)
}

/// The first index from `from` on of a record with the given identity.
pub open spec fn identity_index_from(
    recs: Seq<TouchscreenView>,
    vendor: Seq<char>,
    id_path: Seq<char>,
    from: int,
) -> Option<int>
    decreases recs.len() - from,
{
    if from < 0 || from >= recs.len() {
        None
    } else if recs[from].vendor == vendor && recs[from].id_path == id_path {
        Some(from)
    } else {
        identity_index_from(recs, vendor, id_path, from + 1)
    }
}

pub open spec fn identity_index(recs: Seq<TouchscreenView>, vendor: Seq<char>, id_path: Seq<char>) -> Option<int> {
    identity_index_from(recs, vendor, id_path, 0)
}

/// The output that the records bind the identity to, if any.
pub open spec fn mapping_in(recs: Seq<TouchscreenView>, vendor: Seq<char>, id_path: Seq<char>) -> Option<Seq<char>> {
    match identity_index(recs, vendor, id_path) {
        Some(i) => recs[i].map_to_output,
        None => None,
    }
}

/// The records after `t` was stored: the record with its identity, if any,
/// is taken out and `t` goes last.
pub open spec fn with_record(recs: Seq<TouchscreenView>, t: TouchscreenView) -> Seq<TouchscreenView> {
    match identity_index(recs, t.vendor, t.id_path) {
        Some(i) => recs.remove(i).push(t),
        None => recs.push(t),
    }
}

/// No two records share an identity.
pub open spec fn unique_identities(recs: Seq<TouchscreenView>) -> bool {
    forall|i: int, j: int| 0 <= i < j < recs.len() ==> !same_identity(#[trigger] recs[i], #[trigger] recs[j])
}

/// The whole persisted state: the set of known touchscreens.
#[derive(Debug, Clone)]
pub struct XFixConfig {
    pub touchscreens: Vec<XFixTouchscreen>,
}

impl XFixConfig {
    pub open spec fn records(&self) -> Seq<TouchscreenView> {
        record_views(self.touchscreens@)
    }

    pub open spec fn wf(&self) -> bool {
        unique_identities(self.records())
    }

    /// An empty store.
    pub fn new() -> (r: XFixConfig)
        ensures
            r.records() == Seq::<TouchscreenView>::empty(),
            r.wf(),
    {
        let r = XFixConfig { touchscreens: Vec::new() };
        assert(r.records() =~= Seq::<TouchscreenView>::empty());
        r
    }

    /// Whether no two records share an identity.
    pub fn has_unique_identities(&self) -> (r: bool)
        ensures
            r == self.wf(),
    {
        let n = self.touchscreens.len();
        let mut j: usize = 0;
        while j < n
            invariant
                n == self.touchscreens.len(),
                j <= n,
                forall|a: int, b: int|
                    0 <= a < b < j ==> !same_identity(#[trigger] self.records()[a], #[trigger] self.records()[b]),
            decreases n - j,
        {
            let mut i: usize = 0;
            while i < j
                invariant
                    n == self.touchscreens.len(),
                    i <= j < n,
                    forall|a: int, b: int|
                        0 <= a < b < j ==> !same_identity(#[trigger] self.records()[a], #[trigger] self.records()[b]),
                    forall|a: int| 0 <= a < i ==> !same_identity(#[trigger] self.records()[a], self.records()[j as int]),
                decreases j - i,
            {
                let x = &self.touchscreens[i];
                let y = &self.touchscreens[j];
                assert(self.records()[i as int] == x@ && self.records()[j as int] == y@);
                if x.vendor == y.vendor && x.id_path == y.id_path {
                    assert(!unique_identities(self.records()));
                    return false;
                }
                i = i + 1;
            }
            j = j + 1;
        }
        true
    }

    /// The output stored for the touchscreen with this vendor and bus path.
    pub fn get_mapping(&self, vendor: &str, id_path: &str) -> (r: Option<&String>)
        ensures
            match r {
                Some(m) => mapping_in(self.records(), vendor@, id_path@) == Some(m@),
                None => mapping_in(self.records(), vendor@, id_path@) is None,
            },
    {
        let v = vendor.to_owned();
        let p = id_path.to_owned();
        let mut i: usize = 0;
        while i < self.touchscreens.len()
            invariant
                v@ == vendor@,
                p@ == id_path@,
                i <= self.touchscreens.len(),
                identity_index(self.records(), v@, p@) == identity_index_from(
                    self.records(),
                    v@,
                    p@,
                    i as int,
                ),
            decreases self.touchscreens.len() - i,
        {
            let ts = &self.touchscreens[i];
            assert(self.records()[i as int] == ts@);
            if ts.vendor == v && ts.id_path == p {
                return match &ts.map_to_output {
                    Some(m) => Some(m),
                    None => None,
                };
            }
            i = i + 1;
        }
        None
    }

    /// Stores `screen`, replacing the record with the same identity if there
    /// is one.
    pub fn add_touchscreen(&mut self, screen: XFixTouchscreen)
        requires
            old(self).wf(),
        ensures
            final(self).records() == with_record(old(self).records(), screen@),
            final(self).wf(),
    {
        let ghost recs = self.records();
        let mut i: usize = 0;
        while i < self.touchscreens.len()
            invariant
                self.records() == recs,
                i <= self.touchscreens.len(),
                identity_index(recs, screen@.vendor, screen@.id_path) == identity_index_from(
                    recs,
                    screen@.vendor,
                    screen@.id_path,
                    i as int,
                ),
            ensures
                self.records() == recs,
                i < self.touchscreens.len() ==> identity_index(
                    recs,
                    screen@.vendor,
                    screen@.id_path,
                ) == Some(i as int),
                i >= self.touchscreens.len() ==> identity_index(
                    recs,
                    screen@.vendor,
                    screen@.id_path,
                ) is None,
            decreases self.touchscreens.len() - i,
        {
            assert(recs[i as int] == self.touchscreens[i as int]@);
            if self.touchscreens[i].vendor == screen.vendor && self.touchscreens[i].id_path
                == screen.id_path {
                break;
            }
            i = i + 1;
        }
        if i < self.touchscreens.len() {
            self.touchscreens.remove(i);
            assert(self.records() =~= recs.remove(i as int));
        }
        self.touchscreens.push(screen);
        assert(self.records() =~= with_record(recs, screen@));
        proof {
            lemma_with_record_unique(recs, screen@);
        }
    }
}

pub proof fn lemma_identity_index_spec(recs: Seq<TouchscreenView>, vendor: Seq<char>, id_path: Seq<char>, from: int)
    requires
        0 <= from,
    ensures
        identity_index_from(recs, vendor, id_path, from) matches Some(k) ==> from <= k < recs.len()
            && recs[k].vendor == vendor && recs[k].id_path == id_path,
        identity_index_from(recs, vendor, id_path, from) is None ==> forall|j: int|
            from <= j < recs.len() ==> !(recs[j].vendor == vendor && recs[j].id_path == id_path),
    decreases recs.len() - from,
{
    if from < recs.len() && !(recs[from].vendor == vendor && recs[from].id_path == id_path) {
        lemma_identity_index_spec(recs, vendor, id_path, from + 1);
    }
}

/// Among records of unique identities, the record that has an identity is
/// the one that lookup finds.
pub proof fn lemma_identity_index_unique(recs: Seq<TouchscreenView>, vendor: Seq<char>, id_path: Seq<char>, k: int)
    requires
        unique_identities(recs),
        0 <= k < recs.len(),
        recs[k].vendor == vendor,
        recs[k].id_path == id_path,
    ensures
        identity_index(recs, vendor, id_path) == Some(k),
{
    lemma_identity_index_spec(recs, vendor, id_path, 0);
    let found = identity_index(recs, vendor, id_path);
    if let Some(k0) = found {
        if k0 < k {
            assert(same_identity(recs[k0], recs[k]));
        } else if k < k0 {
            assert(same_identity(recs[k], recs[k0]));
        }
    }
}

proof fn lemma_with_record_unique(recs: Seq<TouchscreenView>, t: TouchscreenView)
    requires
        unique_identities(recs),
    ensures
        unique_identities(with_record(recs, t)),
{
    lemma_identity_index_spec(recs, t.vendor, t.id_path, 0);
    let new = with_record(recs, t);
    match identity_index(recs, t.vendor, t.id_path) {
        Some(i) => {
            let rest = recs.remove(i);
            assert forall|a: int, b: int| 0 <= a < b < new.len() implies !same_identity(
                #[trigger] new[a],
                #[trigger] new[b],
            ) by {
                let ia = if a < i { a } else { a + 1 };
                assert(new[a] == recs[ia]);
                if b == new.len() - 1 {
                    assert(new[b] == t);
                    if same_identity(recs[ia], t) {
                        if ia < i {
                            assert(same_identity(recs[ia], recs[i]));
                        } else {
                            assert(same_identity(recs[i], recs[ia]));
                        }
                    }
                } else {
                    let ib = if b < i { b } else { b + 1 };
                    assert(new[b] == recs[ib]);
                    assert(ia < ib);
                }
            }
        },
        None => {
            assert forall|a: int, b: int| 0 <= a < b < new.len() implies !same_identity(
                #[trigger] new[a],
                #[trigger] new[b],
            ) by {
                assert(new[a] == recs[a]);
                if b < recs.len() {
                    assert(new[b] == recs[b]);
                }
            }
        },
    }
}

/// Storing a record never duplicates an identity: afterwards exactly the
/// new record carries it, the number of records grows only when the identity
/// was new, and every other identity keeps its output.
pub proof fn lemma_add_replaces(recs: Seq<TouchscreenView>, t: TouchscreenView)
    requires
        unique_identities(recs),
    ensures
        unique_identities(with_record(recs, t)),
        forall|j: int|
            0 <= j < with_record(recs, t).len() && same_identity(#[trigger] with_record(recs, t)[j], t)
                ==> with_record(recs, t)[j] == t,
        with_record(recs, t).len() == if identity_index(recs, t.vendor, t.id_path) is Some {
            recs.len()
        } else {
            recs.len() + 1
        },
        mapping_in(with_record(recs, t), t.vendor, t.id_path) == t.map_to_output,
        forall|v: Seq<char>, p: Seq<char>|
            !(v == t.vendor && p == t.id_path) ==> #[trigger] mapping_in(with_record(recs, t), v, p)
                == mapping_in(recs, v, p),
{
    lemma_with_record_unique(recs, t);
    let new = with_record(recs, t);
    lemma_identity_index_spec(recs, t.vendor, t.id_path, 0);
    assert(new[new.len() - 1] == t);
    lemma_identity_index_unique(new, t.vendor, t.id_path, new.len() - 1);
    assert forall|j: int| 0 <= j < new.len() && same_identity(#[trigger] new[j], t) implies new[j]
        == t by {
        if j < new.len() - 1 {
            assert(same_identity(new[j], new[new.len() - 1]));
        }
    }
    assert forall|v: Seq<char>, p: Seq<char>| !(v == t.vendor && p == t.id_path) implies #[trigger] mapping_in(
        new,
        v,
        p,
    ) == mapping_in(recs, v, p) by {
        lemma_identity_index_spec(recs, v, p, 0);
        lemma_identity_index_spec(new, v, p, 0);
        match identity_index(recs, v, p) {
            Some(k) => {
                let i = identity_index(recs, t.vendor, t.id_path);
                let k2 = match i {
                    Some(i) => if k < i { k } else { k - 1 },
                    None => k,
                };
                assert(new[k2] == recs[k]);
                lemma_identity_index_unique(new, v, p, k2);
            },
            None => {
                if let Some(k2) = identity_index(new, v, p) {
                    let i = identity_index(recs, t.vendor, t.id_path);
                    let k = match i {
                        Some(i) => if k2 < i { k2 } else { k2 + 1 },
                        None => k2,
                    };
                    assert(new[k2] == recs[k]);
                }
            },
        }
    }
}

/// Storing the same record twice leaves the store as storing it once.
pub proof fn lemma_add_idempotent(recs: Seq<TouchscreenView>, t: TouchscreenView)
    requires
        unique_identities(recs),
    ensures
        with_record(with_record(recs, t), t) == with_record(recs, t),
{
    lemma_with_record_unique(recs, t);
    let once = with_record(recs, t);
    assert(once[once.len() - 1] == t);
    lemma_identity_index_unique(once, t.vendor, t.id_path, once.len() - 1);
    assert(once.remove(once.len() - 1).push(t) =~= once);
}

} // verus!
