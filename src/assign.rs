//! The whole resolution pipeline, from the store to the bind commands, the
//! bind step of the mapping workflow, and the laws that hold of them.
use vstd::prelude::*;
use crate::config::{TouchscreenView, XFixConfig, with_record};
use crate::error::XFixError;
use crate::node::{
    NodeView, XFixEventNode, describe_spec, find_touchscreen_nodes, is_pointer_class, match_index_from,
    node_matches, node_views, nodes_of_dumps, prop_lookup, properties_of_text, resolved_path, ID_PATH_KEY,
    POINTER_KEY, VENDOR_KEY,
};
use crate::pointer::{
    ResolvedPointerView, assign_screens_to_outputs, binding_of, bindings_of, command_views, find_xinput_id,
    mapping_views, pointer_id_of, pointer_views,
};

verus! {

/// What a stored record resolves to against the live nodes and the
/// `(node, pointer id)` pairs.
pub open spec fn resolve_one(t: TouchscreenView, nodes: Seq<NodeView>, m: Seq<(Seq<char>, u32)>) -> ResolvedPointerView {
    let n = resolved_path(nodes, t.vendor, t.id_path);
    ResolvedPointerView { screen: t, node: n, id: pointer_id_of(m, n) }
}

pub open spec fn resolve_all(recs: Seq<TouchscreenView>, nodes: Seq<NodeView>, m: Seq<(Seq<char>, u32)>) -> Seq<ResolvedPointerView> {
    recs.map_values(|t: TouchscreenView| resolve_one(t, nodes, m))
}

/// The bind commands that the store calls for, given the live nodes and the
/// `(node, pointer id)` pairs. The store is only read, and the commands are
/// a function of these three values alone: running it again on the same
/// devices gives the same commands.
pub fn resolve_bindings(config: &XFixConfig, nodes: &Vec<XFixEventNode>, mapping: &Vec<(String, u32)>) -> (r: Vec<(u32, String)>)
    ensures
        command_views(r@) == bindings_of(
            resolve_all(config.records(), node_views(nodes@), mapping_views(mapping@)),
        ),
{
    let with_nodes = find_touchscreen_nodes(&config.touchscreens, nodes);
    let with_ids = find_xinput_id(with_nodes, mapping);
    let r = assign_screens_to_outputs(&with_ids);
    assert(pointer_views(with_ids@) =~= resolve_all(
        config.records(),
        node_views(nodes@),
        mapping_views(mapping@),
    ));
    r
}

/// The text offered for a live node when choosing a touchscreen: its
/// description, and the output it is stored with, if any.
pub open spec fn label_spec(recs: Seq<TouchscreenView>, n: NodeView) -> Seq<char> {
    let mapped = match (prop_lookup(n.properties, VENDOR_KEY@), prop_lookup(n.properties, ID_PATH_KEY@)) {
        (Some(v), Some(p)) => crate::config::mapping_in(recs, v, p),
        _ => None,
    };
    match mapped {
        Some(o) => describe_spec(n) + " (-> "@ + o + ")"@,
        None => describe_spec(n),
    }
}

pub fn screen_label(config: &XFixConfig, node: &XFixEventNode) -> (r: String)
    ensures
        r@ == label_spec(config.records(), node@),
{
    let mut s = node.describe();
    let mapped = match (node.vendor(), node.id_path()) {
        (Some(v), Some(p)) => config.get_mapping(v, p),
        _ => None,
    };
    if let Some(o) = mapped {
        s.append(" (-> ");
        s.append(o.as_str());
        s.append(")");
    }
    s
}

/// The record that binding `n` to `output` stores, where `n` reports a
/// vendor and a bus path.
pub open spec fn binding_record(n: NodeView, output: Seq<char>) -> Option<TouchscreenView> {
    match (prop_lookup(n.properties, VENDOR_KEY@), prop_lookup(n.properties, ID_PATH_KEY@)) {
        (Some(v), Some(p)) => Some(TouchscreenView { vendor: v, id_path: p, map_to_output: Some(output) }),
        _ => None,
    }
}

/// The bind step of the mapping workflow: stores the chosen node's identity
/// bound to the chosen output. Fails, and leaves the store as it was, where
/// a choice is out of range or the node lacks a vendor or a bus path.
pub fn map_touchscreen(
    config: &mut XFixConfig,
    nodes: &Vec<XFixEventNode>,
    screen: usize,
    outputs: &Vec<String>,
    output: usize,
) -> (r: Result<(), XFixError>)
    requires
        old(config).wf(),
    ensures
        final(config).wf(),
        screen >= nodes.len() || output >= outputs.len() ==> r == Err::<(), XFixError>(
            XFixError::NoSuchChoice,
        ),
        screen < nodes.len() && output < outputs.len() && prop_lookup(
            nodes[screen as int]@.properties,
            VENDOR_KEY@,
        ) is None ==> r == Err::<(), XFixError>(XFixError::VendorNotFound),
        screen < nodes.len() && output < outputs.len() && prop_lookup(
            nodes[screen as int]@.properties,
            VENDOR_KEY@,
        ) is Some && prop_lookup(nodes[screen as int]@.properties, ID_PATH_KEY@) is None ==> r == Err::<
            (),
            XFixError,
        >(XFixError::IdPathNotFound),
        screen < nodes.len() && output < outputs.len() && binding_record(
            nodes[screen as int]@,
            outputs[output as int]@,
        ) is Some ==> r is Ok,
        r is Err ==> final(config).records() == old(config).records(),
        r is Ok ==> screen < nodes.len() && output < outputs.len() && (binding_record(
            nodes[screen as int]@,
            outputs[output as int]@,
        ) matches Some(t) && final(config).records() == with_record(old(config).records(), t)),
{
    if screen >= nodes.len() || output >= outputs.len() {
        return Err(XFixError::NoSuchChoice);
    }
    let touchscreen = match nodes[screen].to_touchscreen(Some(outputs[output].clone())) {
        Ok(t) => t,
        Err(e) => return Err(e),
    };
    config.add_touchscreen(touchscreen);
    Ok(())
}

/// A node is chosen only where it reports exactly the stored vendor and bus
/// path, and no earlier node does.
pub proof fn lemma_match_is_exact(nodes: Seq<NodeView>, vendor: Seq<char>, id_path: Seq<char>, from: int)
    requires
        0 <= from,
    ensures
        match_index_from(nodes, vendor, id_path, from) matches Some(k) ==> from <= k < nodes.len()
            && node_matches(nodes[k], vendor, id_path) && forall|j: int|
            from <= j < k ==> !node_matches(#[trigger] nodes[j], vendor, id_path),
        match_index_from(nodes, vendor, id_path, from) is None ==> forall|j: int|
            from <= j < nodes.len() ==> !node_matches(#[trigger] nodes[j], vendor, id_path),
    decreases nodes.len() - from,
{
    if from < nodes.len() && !node_matches(nodes[from], vendor, id_path) {
        lemma_match_is_exact(nodes, vendor, id_path, from + 1);
    }
}

/// A node whose bus path differs from the stored one is never chosen, even
/// where its vendor agrees.
pub proof fn lemma_other_path_never_chosen(nodes: Seq<NodeView>, vendor: Seq<char>, id_path: Seq<char>, k: int)
    requires
        0 <= k < nodes.len(),
        prop_lookup(nodes[k].properties, ID_PATH_KEY@) != Some(id_path),
    ensures
        match_index_from(nodes, vendor, id_path, 0) != Some(k),
{
    lemma_match_is_exact(nodes, vendor, id_path, 0);
}

/// Every candidate node comes from a pointer-class device.
pub proof fn lemma_candidates_are_pointers(ds: Seq<(Seq<char>, Seq<char>)>)
    ensures
        forall|k: int| 0 <= k < nodes_of_dumps(ds).len() ==> is_pointer_class(
            #[trigger] nodes_of_dumps(ds)[k].properties,
        ),
    decreases ds.len(),
{
    if ds.len() > 0 {
        let prev = nodes_of_dumps(ds.drop_last());
        lemma_candidates_are_pointers(ds.drop_last());
        assert forall|k: int| 0 <= k < nodes_of_dumps(ds).len() implies is_pointer_class(
            #[trigger] nodes_of_dumps(ds)[k].properties,
        ) by {
            if k < prev.len() {
                assert(nodes_of_dumps(ds)[k] == prev[k]);
            }
        }
    }
}

/// A device whose pointer-class property is absent or `0` is not pointer
/// class, and so never a candidate node.
pub proof fn lemma_absent_or_zero_excluded(ds: Seq<(Seq<char>, Seq<char>)>, i: int)
    requires
        0 <= i < ds.len(),
        prop_lookup(properties_of_text(ds[i].1), POINTER_KEY@) is None || prop_lookup(
            properties_of_text(ds[i].1),
            POINTER_KEY@,
        ) == Some("0"@),
    ensures
        !is_pointer_class(properties_of_text(ds[i].1)),
        nodes_of_dumps(ds) == nodes_of_dumps(ds.remove(i)),
    decreases ds.len(),
{
    reveal_strlit("0");
    reveal_strlit("1");
    assert("0"@[0] != "1"@[0]);
    if i == ds.len() - 1 {
        assert(ds.remove(i) =~= ds.drop_last());
    } else {
        assert(ds.remove(i).drop_last() =~= ds.drop_last().remove(i));
        assert(ds.drop_last()[i] == ds[i]);
        lemma_absent_or_zero_excluded(ds.drop_last(), i);
        assert(ds.remove(i).last() == ds.last());
    }
}

proof fn lemma_bindings_skip(ps: Seq<ResolvedPointerView>, i: int)
    requires
        0 <= i < ps.len(),
        binding_of(ps[i]) is None,
    ensures
        bindings_of(ps) == bindings_of(ps.remove(i)),
    decreases ps.len(),
{
    if i == ps.len() - 1 {
        assert(ps.remove(i) =~= ps.drop_last());
    } else {
        assert(ps.remove(i).drop_last() =~= ps.drop_last().remove(i));
        assert(ps.drop_last()[i] == ps[i]);
        lemma_bindings_skip(ps.drop_last(), i);
        assert(ps.remove(i).last() == ps.last());
    }
}

/// A stored identity that no live node matches resolves to no pointer id,
/// and the bind commands are those of the store without it.
pub proof fn lemma_unmatched_is_skipped(
    recs: Seq<TouchscreenView>,
    nodes: Seq<NodeView>,
    m: Seq<(Seq<char>, u32)>,
    i: int,
)
    requires
        0 <= i < recs.len(),
        resolved_path(nodes, recs[i].vendor, recs[i].id_path) is None,
    ensures
        resolve_all(recs, nodes, m)[i].id is None,
        bindings_of(resolve_all(recs, nodes, m)) == bindings_of(resolve_all(recs.remove(i), nodes, m)),
{
    let ps = resolve_all(recs, nodes, m);
    assert(ps.remove(i) =~= resolve_all(recs.remove(i), nodes, m));
    lemma_bindings_skip(ps, i);
}

} // verus!
