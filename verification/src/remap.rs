//! Identity remapping for copies of a topology.
//!
//! Forking and importing a topology copy every entity under a fresh id and
//! rewrite every reference between entities (a volume's node, a placement's
//! dataset and volume, a link's two nodes, a sync regime's dataset and two
//! volumes) to the fresh id of the entity it pointed at. Template export
//! blanks all ids so that an import generates them anew.
//!
//! Only the identity fields take part; the remaining fields of each entity
//! are carried over by the caller, index by index.

use vstd::prelude::*;
use crate::text::str_eq;
use crate::fresh::{spare_uuid, text_in};

verus! {

// ---------------------------------------------------------------------------
// Fresh ids
// ---------------------------------------------------------------------------

/// Lowercase hexadecimal digit.
pub open spec fn is_lower_hex(c: char) -> bool {
    ('0' <= c && c <= '9') || ('a' <= c && c <= 'f')
}

/// The hyphenated text form of a version-4 UUID:
/// `xxxxxxxx-xxxx-4xxx-yxxx-xxxxxxxxxxxx` in lowercase hexadecimal, with
/// the variant digit `y` one of 8, 9, a, b.
pub open spec fn is_uuid_v4_text(s: Seq<char>) -> bool {
    &&& s.len() == 36
    &&& forall|i: int|
        0 <= i < 36 ==> if i == 8 || i == 13 || i == 18 || i == 23 {
            s[i] == '-'
        } else {
            #[trigger] is_lower_hex(s[i])
        }
    &&& s[14] == '4'
    &&& (s[19] == '8' || s[19] == '9' || s[19] == 'a' || s[19] == 'b')
}

/// Calls `uuid::Uuid::new_v4()` and formats it with `to_string()`. The
/// value is random; the contract states only the text form that the
/// crate's `Display` impl (hyphenated lowercase hex) and the bits that
/// `new_v4` fixes (version 4, RFC 4122 variant) give every outcome.
/// Nothing is said about uniqueness.
#[verifier::external_body]
pub(crate) fn new_uuid() -> (r: String)
    ensures
        is_uuid_v4_text(r@),
{
    uuid::Uuid::new_v4().to_string()
}

// ---------------------------------------------------------------------------
// Lookup by last occurrence
// ---------------------------------------------------------------------------

/// The texts of a sequence of strings.
pub open spec fn texts(v: Seq<String>) -> Seq<Seq<char>> {
    v.map_values(|s: String| s@)
}

/// Index of the last occurrence of `k` in `keys`, or -1 when absent. A
/// table filled in order and queried by key returns the value stored with
/// the last equal key; this is the index of that entry.
pub open spec fn last_index_of(keys: Seq<Seq<char>>, k: Seq<char>) -> int
    decreases keys.len(),
{
    if keys.len() == 0 {
        -1
    } else if keys.last() == k {
        keys.len() - 1
    } else {
        last_index_of(keys.drop_last(), k)
    }
}

/// `last_index_of` finds the last occurrence, or -1 exactly when absent.
pub proof fn lemma_last_index_of(keys: Seq<Seq<char>>, k: Seq<char>)
    ensures
        -1 <= last_index_of(keys, k) < keys.len(),
        last_index_of(keys, k) >= 0 ==> keys[last_index_of(keys, k)] == k,
        forall|j: int| last_index_of(keys, k) < j < keys.len() ==> keys[j] != k,
        last_index_of(keys, k) < 0 <==> !keys.contains(k),
    decreases keys.len(),
{
    if keys.len() > 0 {
        lemma_last_index_of(keys.drop_last(), k);
        if keys.last() != k {
            assert forall|j: int| last_index_of(keys, k) < j < keys.len() implies keys[j] != k by {
                if j < keys.len() - 1 {
                    assert(keys.drop_last()[j] == keys[j]);
                }
            }
            if !keys.drop_last().contains(k) {
                assert forall|j: int| 0 <= j < keys.len() implies keys[j] != k by {
                    if j < keys.len() - 1 {
                        assert(keys.drop_last()[j] == keys[j]);
                    }
                }
            } else {
                let j = choose|j: int| 0 <= j < keys.drop_last().len() && keys.drop_last()[j] == k;
                assert(keys[j] == k);
            }
        } else {
            assert(keys[keys.len() - 1] == k);
        }
    }
}

/// The value paired with the last occurrence of `key` among `old`.
pub open spec fn resolved(old: Seq<String>, new: Seq<String>, key: Seq<char>) -> Option<String> {
    let i = last_index_of(texts(old), key);
    if i >= 0 {
        Some(new[i])
    } else {
        None
    }
}

/// Look `key` up among `old` and return the `new` value at the last match.
pub fn resolve_in(old: &Vec<String>, new: &Vec<String>, key: &String) -> (r: Option<String>)
    requires
        old.len() == new.len(),
    ensures
        r == resolved(old@, new@, key@),
{
    let ghost ks = texts(old@);
    assert(ks.take(old.len() as int) =~= ks);
    let mut i: usize = old.len();
    while i > 0
        invariant
            i <= old.len(),
            old.len() == new.len(),
            ks == texts(old@),
            last_index_of(ks, key@) == last_index_of(ks.take(i as int), key@),
        decreases i,
    {
        let ghost pre = ks.take(i as int);
        assert(pre.drop_last() =~= ks.take(i - 1));
        assert(pre.last() == old@[i - 1]@);
        if str_eq(old[i - 1].as_str(), key.as_str()) {
            assert(old@[i - 1]@ == key@);
            let v = new[i - 1].clone();
            return Some(v);
        }
        i = i - 1;
    }
    assert(ks.take(0) =~= Seq::<Seq<char>>::empty());
    None
}

} // verus!

verus! {

// ---------------------------------------------------------------------------
// The identity part of a topology
// ---------------------------------------------------------------------------

/// Identity of a node.
#[derive(Debug, Clone)]
pub struct NodeRef {
    pub id: String,
    pub name: String,
}

/// Identity of a volume and the node it sits on.
#[derive(Debug, Clone)]
pub struct VolumeRef {
    pub id: String,
    pub node_id: String,
    pub name: String,
}

/// Identity of a dataset.
#[derive(Debug, Clone)]
pub struct DatasetRef {
    pub id: String,
    pub name: String,
}

/// Identity of a placement and the dataset and volume it joins.
#[derive(Debug, Clone)]
pub struct PlacementRef {
    pub id: String,
    pub dataset_id: String,
    pub volume_id: String,
}

/// Identity of a link and the two nodes it joins.
#[derive(Debug, Clone)]
pub struct LinkRef {
    pub id: String,
    pub source_node_id: String,
    pub target_node_id: String,
}

/// Identity of a sync regime, its dataset and its two volumes.
#[derive(Debug, Clone)]
pub struct SyncRef {
    pub id: String,
    pub dataset_id: String,
    pub source_volume_id: String,
    pub target_volume_id: String,
}

/// The identity fields of a topology and all its entities.
#[derive(Debug, Clone)]
pub struct RefGraph {
    pub topology_id: String,
    /// The topology this one was forked from.
    pub parent_id: Option<String>,
    /// The topology's lifecycle tag.
    pub tag: Option<String>,
    pub nodes: Vec<NodeRef>,
    pub volumes: Vec<VolumeRef>,
    pub datasets: Vec<DatasetRef>,
    pub placements: Vec<PlacementRef>,
    pub links: Vec<LinkRef>,
    pub syncs: Vec<SyncRef>,
}

/// Which reference could not be rewritten.
#[derive(Debug, Clone, Copy, PartialEq, Eq, Structural)]
pub enum RefRole {
    VolumeNode,
    PlacementDataset,
    PlacementVolume,
    LinkSource,
    LinkTarget,
    SyncDataset,
    SyncSourceVolume,
    SyncTargetVolume,
}

/// Errors of remapping.
#[derive(Debug, Clone, PartialEq, Eq)]
pub enum RemapError {
    /// A reference names no entity of the copied topology.
    MissingReference { role: RefRole, id: String },
    /// An imported id has no new id, neither by itself nor by its
    /// name-based fallback key.
    CannotRemap { id: String, fallback: String },
}

pub open spec fn node_ids(g: RefGraph) -> Seq<String> {
    g.nodes@.map_values(|n: NodeRef| n.id)
}

pub open spec fn volume_ids(g: RefGraph) -> Seq<String> {
    g.volumes@.map_values(|v: VolumeRef| v.id)
}

pub open spec fn dataset_ids(g: RefGraph) -> Seq<String> {
    g.datasets@.map_values(|d: DatasetRef| d.id)
}

/// `id` names a node / volume / dataset of `g` (by text).
pub open spec fn has_node(g: RefGraph, id: Seq<char>) -> bool {
    last_index_of(texts(node_ids(g)), id) >= 0
}

pub open spec fn has_volume(g: RefGraph, id: Seq<char>) -> bool {
    last_index_of(texts(volume_ids(g)), id) >= 0
}

pub open spec fn has_dataset(g: RefGraph, id: Seq<char>) -> bool {
    last_index_of(texts(dataset_ids(g)), id) >= 0
}

/// Every reference of `g` names an entity of `g`.
pub open spec fn refs_resolve(g: RefGraph) -> bool {
    &&& forall|i: int| 0 <= i < g.volumes@.len() ==> has_node(g, #[trigger] g.volumes@[i].node_id@)
    &&& forall|i: int|
        0 <= i < g.placements@.len() ==> has_dataset(g, #[trigger] g.placements@[i].dataset_id@)
            && has_volume(g, g.placements@[i].volume_id@)
    &&& forall|i: int|
        0 <= i < g.links@.len() ==> has_node(g, #[trigger] g.links@[i].source_node_id@) && has_node(
            g,
            g.links@[i].target_node_id@,
        )
    &&& forall|i: int|
        0 <= i < g.syncs@.len() ==> has_dataset(g, #[trigger] g.syncs@[i].dataset_id@) && has_volume(
            g,
            g.syncs@[i].source_volume_id@,
        ) && has_volume(g, g.syncs@[i].target_volume_id@)
}

/// `id` is a reference of `g` in the given role that names no entity.
pub open spec fn unresolved_ref(g: RefGraph, role: RefRole, id: Seq<char>) -> bool {
    match role {
        RefRole::VolumeNode => exists|i: int|
            0 <= i < g.volumes@.len() && #[trigger] g.volumes@[i].node_id@ == id && !has_node(g, id),
        RefRole::PlacementDataset => exists|i: int|
            0 <= i < g.placements@.len() && #[trigger] g.placements@[i].dataset_id@ == id
                && !has_dataset(g, id),
        RefRole::PlacementVolume => exists|i: int|
            0 <= i < g.placements@.len() && #[trigger] g.placements@[i].volume_id@ == id
                && !has_volume(g, id),
        RefRole::LinkSource => exists|i: int|
            0 <= i < g.links@.len() && #[trigger] g.links@[i].source_node_id@ == id && !has_node(g, id),
        RefRole::LinkTarget => exists|i: int|
            0 <= i < g.links@.len() && #[trigger] g.links@[i].target_node_id@ == id && !has_node(g, id),
        RefRole::SyncDataset => exists|i: int|
            0 <= i < g.syncs@.len() && #[trigger] g.syncs@[i].dataset_id@ == id && !has_dataset(g, id),
        RefRole::SyncSourceVolume => exists|i: int|
            0 <= i < g.syncs@.len() && #[trigger] g.syncs@[i].source_volume_id@ == id
                && !has_volume(g, id),
        RefRole::SyncTargetVolume => exists|i: int|
            0 <= i < g.syncs@.len() && #[trigger] g.syncs@[i].target_volume_id@ == id
                && !has_volume(g, id),
    }
}

/// `out` is a copy of `src`: same entities in the same order with the same
/// names, and every reference rewritten to the new id of the entity it
/// named in `src` (the last one of that id, as a table keyed by id holds).
pub open spec fn is_remapped_copy(src: RefGraph, out: RefGraph) -> bool {
    &&& out.nodes@.len() == src.nodes@.len()
    &&& out.volumes@.len() == src.volumes@.len()
    &&& out.datasets@.len() == src.datasets@.len()
    &&& out.placements@.len() == src.placements@.len()
    &&& out.links@.len() == src.links@.len()
    &&& out.syncs@.len() == src.syncs@.len()
    &&& forall|i: int| 0 <= i < src.nodes@.len() ==> #[trigger] out.nodes@[i].name == src.nodes@[i].name
    &&& forall|i: int|
        0 <= i < src.volumes@.len() ==> #[trigger] out.volumes@[i].name == src.volumes@[i].name
            && resolved(node_ids(src), node_ids(out), src.volumes@[i].node_id@) == Some(
            out.volumes@[i].node_id,
        )
    &&& forall|i: int|
        0 <= i < src.datasets@.len() ==> #[trigger] out.datasets@[i].name == src.datasets@[i].name
    &&& forall|i: int|
        0 <= i < src.placements@.len() ==> resolved(
            dataset_ids(src),
            dataset_ids(out),
            #[trigger] src.placements@[i].dataset_id@,
        ) == Some(out.placements@[i].dataset_id) && resolved(
            volume_ids(src),
            volume_ids(out),
            src.placements@[i].volume_id@,
        ) == Some(out.placements@[i].volume_id)
    &&& forall|i: int|
        0 <= i < src.links@.len() ==> resolved(
            node_ids(src),
            node_ids(out),
            #[trigger] src.links@[i].source_node_id@,
        ) == Some(out.links@[i].source_node_id) && resolved(
            node_ids(src),
            node_ids(out),
            src.links@[i].target_node_id@,
        ) == Some(out.links@[i].target_node_id)
    &&& forall|i: int|
        0 <= i < src.syncs@.len() ==> resolved(
            dataset_ids(src),
            dataset_ids(out),
            #[trigger] src.syncs@[i].dataset_id@,
        ) == Some(out.syncs@[i].dataset_id) && resolved(
            volume_ids(src),
            volume_ids(out),
            src.syncs@[i].source_volume_id@,
        ) == Some(out.syncs@[i].source_volume_id) && resolved(
            volume_ids(src),
            volume_ids(out),
            src.syncs@[i].target_volume_id@,
        ) == Some(out.syncs@[i].target_volume_id)
}

fn node_id_list(v: &Vec<NodeRef>) -> (r: Vec<String>)
    ensures
        r@ == v@.map_values(|n: NodeRef| n.id),
{
    let mut r: Vec<String> = Vec::new();
    let mut i: usize = 0;
    while i < v.len()
        invariant
            i <= v.len(),
            r@ =~= v@.take(i as int).map_values(|n: NodeRef| n.id),
        decreases v.len() - i,
    {
        r.push(v[i].id.clone());
        i = i + 1;
        assert(r@ =~= v@.take(i as int).map_values(|n: NodeRef| n.id));
    }
    assert(v@.take(v.len() as int) =~= v@);
    r
}

fn volume_id_list(v: &Vec<VolumeRef>) -> (r: Vec<String>)
    ensures
        r@ == v@.map_values(|x: VolumeRef| x.id),
{
    let mut r: Vec<String> = Vec::new();
    let mut i: usize = 0;
    while i < v.len()
        invariant
            i <= v.len(),
            r@ =~= v@.take(i as int).map_values(|x: VolumeRef| x.id),
        decreases v.len() - i,
    {
        r.push(v[i].id.clone());
        i = i + 1;
        assert(r@ =~= v@.take(i as int).map_values(|x: VolumeRef| x.id));
    }
    assert(v@.take(v.len() as int) =~= v@);
    r
}

fn dataset_id_list(v: &Vec<DatasetRef>) -> (r: Vec<String>)
    ensures
        r@ == v@.map_values(|x: DatasetRef| x.id),
{
    let mut r: Vec<String> = Vec::new();
    let mut i: usize = 0;
    while i < v.len()
        invariant
            i <= v.len(),
            r@ =~= v@.take(i as int).map_values(|x: DatasetRef| x.id),
        decreases v.len() - i,
    {
        r.push(v[i].id.clone());
        i = i + 1;
        assert(r@ =~= v@.take(i as int).map_values(|x: DatasetRef| x.id));
    }
    assert(v@.take(v.len() as int) =~= v@);
    r
}

/// Copy nodes under the given new ids, keeping names and order.
fn fresh_nodes(v: &Vec<NodeRef>, ids: &Vec<String>) -> (r: Vec<NodeRef>)
    requires
        ids@.len() == v@.len(),
    ensures
        r@.len() == v@.len(),
        forall|i: int| 0 <= i < v@.len() ==> #[trigger] r@[i].name == v@[i].name && r@[i].id == ids@[i],
{
    let mut r: Vec<NodeRef> = Vec::new();
    let mut i: usize = 0;
    while i < v.len()
        invariant
            i <= v.len(),
            ids@.len() == v@.len(),
            r@.len() == i,
            forall|j: int| 0 <= j < i ==> #[trigger] r@[j].name == v@[j].name && r@[j].id == ids@[j],
        decreases v.len() - i,
    {
        r.push(NodeRef { id: ids[i].clone(), name: v[i].name.clone() });
        i = i + 1;
    }
    r
}

/// Copy datasets under the given new ids, keeping names and order.
fn fresh_datasets(v: &Vec<DatasetRef>, ids: &Vec<String>) -> (r: Vec<DatasetRef>)
    requires
        ids@.len() == v@.len(),
    ensures
        r@.len() == v@.len(),
        forall|i: int| 0 <= i < v@.len() ==> #[trigger] r@[i].name == v@[i].name && r@[i].id == ids@[i],
{
    let mut r: Vec<DatasetRef> = Vec::new();
    let mut i: usize = 0;
    while i < v.len()
        invariant
            i <= v.len(),
            ids@.len() == v@.len(),
            r@.len() == i,
            forall|j: int| 0 <= j < i ==> #[trigger] r@[j].name == v@[j].name && r@[j].id == ids@[j],
        decreases v.len() - i,
    {
        r.push(DatasetRef { id: ids[i].clone(), name: v[i].name.clone() });
        i = i + 1;
    }
    r
}

} // verus!

verus! {

/// The new ids given for a copy of `src`: one for each entity, kind by
/// kind, in order.
pub open spec fn ids_fit_graph(
    src: RefGraph,
    nodes: Seq<String>,
    volumes: Seq<String>,
    datasets: Seq<String>,
    placements: Seq<String>,
    links: Seq<String>,
    syncs: Seq<String>,
) -> bool {
    &&& nodes.len() == src.nodes@.len()
    &&& volumes.len() == src.volumes@.len()
    &&& datasets.len() == src.datasets@.len()
    &&& placements.len() == src.placements@.len()
    &&& links.len() == src.links@.len()
    &&& syncs.len() == src.syncs@.len()
}

/// The ids of `out`'s entities are the given ones, kind by kind, in order.
pub open spec fn has_ids(
    out: RefGraph,
    nodes: Seq<String>,
    volumes: Seq<String>,
    datasets: Seq<String>,
    placements: Seq<String>,
    links: Seq<String>,
    syncs: Seq<String>,
) -> bool {
    &&& forall|i: int| 0 <= i < nodes.len() ==> #[trigger] out.nodes@[i].id == nodes[i]
    &&& forall|i: int| 0 <= i < volumes.len() ==> #[trigger] out.volumes@[i].id == volumes[i]
    &&& forall|i: int| 0 <= i < datasets.len() ==> #[trigger] out.datasets@[i].id == datasets[i]
    &&& forall|i: int| 0 <= i < placements.len() ==> #[trigger] out.placements@[i].id == placements[i]
    &&& forall|i: int| 0 <= i < links.len() ==> #[trigger] out.links@[i].id == links[i]
    &&& forall|i: int| 0 <= i < syncs.len() ==> #[trigger] out.syncs@[i].id == syncs[i]
}

/// Copy a topology's identities for a fork under the given new ids: the
/// topology gets `topology_id`, the `i`-th node, volume, dataset,
/// placement, link and sync regime the `i`-th id of its kind, and every
/// reference is rewritten to the new id of the entity it named. The copy
/// records `src` as the topology it was forked from and carries no tag.
/// Fails on the first reference (in the order volumes, placements, links,
/// sync regimes) that names no entity of the source.
pub fn fork_remap_with(
    src: &RefGraph,
    topology_id: String,
    new_nodes: &Vec<String>,
    new_volumes: &Vec<String>,
    new_datasets: &Vec<String>,
    new_placements: &Vec<String>,
    new_links: &Vec<String>,
    new_syncs: &Vec<String>,
) -> (r: Result<RefGraph, RemapError>)
    requires
        ids_fit_graph(*src, new_nodes@, new_volumes@, new_datasets@, new_placements@, new_links@, new_syncs@),
    ensures
        r is Ok <==> refs_resolve(*src),
        r matches Ok(out) ==> is_remapped_copy(*src, out) && out.topology_id == topology_id && out.parent_id == Some(
            src.topology_id,
        ) && out.tag is None && has_ids(
            out,
            new_nodes@,
            new_volumes@,
            new_datasets@,
            new_placements@,
            new_links@,
            new_syncs@,
        ),
        r matches Err(e) ==> e matches RemapError::MissingReference { role, id } && unresolved_ref(
            *src,
            role,
            id@,
        ),
{
    let nodes = fresh_nodes(&src.nodes, new_nodes);
    let datasets = fresh_datasets(&src.datasets, new_datasets);
    let old_n = node_id_list(&src.nodes);
    let new_n = node_id_list(&nodes);
    let old_d = dataset_id_list(&src.datasets);
    let new_d = dataset_id_list(&datasets);

    // Volumes: rewrite the node reference.
    let mut volumes: Vec<VolumeRef> = Vec::new();
    let mut i: usize = 0;
    while i < src.volumes.len()
        invariant
            i <= src.volumes@.len(),
            volumes@.len() == i,
            new_volumes@.len() == src.volumes@.len(),
            forall|j: int| 0 <= j < i ==> #[trigger] volumes@[j].id == new_volumes@[j],
            old_n@ == node_ids(*src),
            new_n@ == nodes@.map_values(|n: NodeRef| n.id),
            old_n@.len() == new_n@.len(),
            forall|j: int|
                0 <= j < i ==> #[trigger] volumes@[j].name == src.volumes@[j].name && resolved(
                    old_n@,
                    new_n@,
                    src.volumes@[j].node_id@,
                ) == Some(volumes@[j].node_id),
        decreases src.volumes.len() - i,
    {
        let vid = new_volumes[i].clone();
        match resolve_in(&old_n, &new_n, &src.volumes[i].node_id) {
            Some(nid) => {
                volumes.push(VolumeRef { id: vid, node_id: nid, name: src.volumes[i].name.clone() });
            },
            None => {
                return Err(
                    RemapError::MissingReference {
                        role: RefRole::VolumeNode,
                        id: src.volumes[i].node_id.clone(),
                    },
                );
            },
        }
        i = i + 1;
    }
    let old_v = volume_id_list(&src.volumes);
    let new_v = volume_id_list(&volumes);

    // Placements: rewrite dataset and volume.
    let mut placements: Vec<PlacementRef> = Vec::new();
    let mut i: usize = 0;
    while i < src.placements.len()
        invariant
            i <= src.placements@.len(),
            placements@.len() == i,
            new_placements@.len() == src.placements@.len(),
            forall|j: int| 0 <= j < i ==> #[trigger] placements@[j].id == new_placements@[j],
            old_d@ == dataset_ids(*src),
            new_d@ == datasets@.map_values(|n: DatasetRef| n.id),
            old_d@.len() == new_d@.len(),
            old_v@ == volume_ids(*src),
            new_v@ == volumes@.map_values(|n: VolumeRef| n.id),
            old_v@.len() == new_v@.len(),
            forall|j: int|
                0 <= j < i ==> resolved(old_d@, new_d@, #[trigger] src.placements@[j].dataset_id@)
                    == Some(placements@[j].dataset_id) && resolved(
                    old_v@,
                    new_v@,
                    src.placements@[j].volume_id@,
                ) == Some(placements@[j].volume_id),
        decreases src.placements.len() - i,
    {
        let pid = new_placements[i].clone();
        let d = match resolve_in(&old_d, &new_d, &src.placements[i].dataset_id) {
            Some(x) => x,
            None => {
                return Err(
                    RemapError::MissingReference {
                        role: RefRole::PlacementDataset,
                        id: src.placements[i].dataset_id.clone(),
                    },
                );
            },
        };
        let v = match resolve_in(&old_v, &new_v, &src.placements[i].volume_id) {
            Some(x) => x,
            None => {
                return Err(
                    RemapError::MissingReference {
                        role: RefRole::PlacementVolume,
                        id: src.placements[i].volume_id.clone(),
                    },
                );
            },
        };
        placements.push(PlacementRef { id: pid, dataset_id: d, volume_id: v });
        i = i + 1;
    }

    // Links: rewrite both nodes.
    let mut links: Vec<LinkRef> = Vec::new();
    let mut i: usize = 0;
    while i < src.links.len()
        invariant
            i <= src.links@.len(),
            links@.len() == i,
            new_links@.len() == src.links@.len(),
            forall|j: int| 0 <= j < i ==> #[trigger] links@[j].id == new_links@[j],
            old_n@ == node_ids(*src),
            new_n@ == nodes@.map_values(|n: NodeRef| n.id),
            old_n@.len() == new_n@.len(),
            forall|j: int|
                0 <= j < i ==> resolved(old_n@, new_n@, #[trigger] src.links@[j].source_node_id@)
                    == Some(links@[j].source_node_id) && resolved(
                    old_n@,
                    new_n@,
                    src.links@[j].target_node_id@,
                ) == Some(links@[j].target_node_id),
        decreases src.links.len() - i,
    {
        let lid = new_links[i].clone();
        let s = match resolve_in(&old_n, &new_n, &src.links[i].source_node_id) {
            Some(x) => x,
            None => {
                return Err(
                    RemapError::MissingReference {
                        role: RefRole::LinkSource,
                        id: src.links[i].source_node_id.clone(),
                    },
                );
            },
        };
        let t = match resolve_in(&old_n, &new_n, &src.links[i].target_node_id) {
            Some(x) => x,
            None => {
                return Err(
                    RemapError::MissingReference {
                        role: RefRole::LinkTarget,
                        id: src.links[i].target_node_id.clone(),
                    },
                );
            },
        };
        links.push(LinkRef { id: lid, source_node_id: s, target_node_id: t });
        i = i + 1;
    }

    // Sync regimes: rewrite dataset and both volumes.
    let mut syncs: Vec<SyncRef> = Vec::new();
    let mut i: usize = 0;
    while i < src.syncs.len()
        invariant
            i <= src.syncs@.len(),
            syncs@.len() == i,
            new_syncs@.len() == src.syncs@.len(),
            forall|j: int| 0 <= j < i ==> #[trigger] syncs@[j].id == new_syncs@[j],
            old_d@ == dataset_ids(*src),
            new_d@ == datasets@.map_values(|n: DatasetRef| n.id),
            old_d@.len() == new_d@.len(),
            old_v@ == volume_ids(*src),
            new_v@ == volumes@.map_values(|n: VolumeRef| n.id),
            old_v@.len() == new_v@.len(),
            forall|j: int|
                0 <= j < i ==> resolved(old_d@, new_d@, #[trigger] src.syncs@[j].dataset_id@) == Some(
                    syncs@[j].dataset_id,
                ) && resolved(old_v@, new_v@, src.syncs@[j].source_volume_id@) == Some(
                    syncs@[j].source_volume_id,
                ) && resolved(old_v@, new_v@, src.syncs@[j].target_volume_id@) == Some(
                    syncs@[j].target_volume_id,
                ),
        decreases src.syncs.len() - i,
    {
        let sid = new_syncs[i].clone();
        let d = match resolve_in(&old_d, &new_d, &src.syncs[i].dataset_id) {
            Some(x) => x,
            None => {
                return Err(
                    RemapError::MissingReference {
                        role: RefRole::SyncDataset,
                        id: src.syncs[i].dataset_id.clone(),
                    },
                );
            },
        };
        let s = match resolve_in(&old_v, &new_v, &src.syncs[i].source_volume_id) {
            Some(x) => x,
            None => {
                return Err(
                    RemapError::MissingReference {
                        role: RefRole::SyncSourceVolume,
                        id: src.syncs[i].source_volume_id.clone(),
                    },
                );
            },
        };
        let t = match resolve_in(&old_v, &new_v, &src.syncs[i].target_volume_id) {
            Some(x) => x,
            None => {
                return Err(
                    RemapError::MissingReference {
                        role: RefRole::SyncTargetVolume,
                        id: src.syncs[i].target_volume_id.clone(),
                    },
                );
            },
        };
        syncs.push(SyncRef { id: sid, dataset_id: d, source_volume_id: s, target_volume_id: t });
        i = i + 1;
    }
    let parent_id = Some(src.topology_id.clone());
    let out = RefGraph { topology_id, parent_id, tag: None, nodes, volumes, datasets, placements, links, syncs };
    proof {
        assert forall|j: int| 0 <= j < new_nodes@.len() implies #[trigger] out.nodes@[j].id == new_nodes@[j] by {
            assert(out.nodes@[j].name == src.nodes@[j].name);
        }
        assert forall|j: int| 0 <= j < new_datasets@.len() implies #[trigger] out.datasets@[j].id == new_datasets@[j] by {
            assert(out.datasets@[j].name == src.datasets@[j].name);
        }
        assert(node_ids(out) == new_n@);
        assert(volume_ids(out) == new_v@);
        assert(dataset_ids(out) == new_d@);
        assert forall|j: int| 0 <= j < src.volumes@.len() implies has_node(*src, #[trigger] src.volumes@[j].node_id@) by {
            assert(out.volumes@[j].name == src.volumes@[j].name);
            assert(resolved(old_n@, new_n@, src.volumes@[j].node_id@) is Some);
        }
        assert forall|j: int| 0 <= j < src.placements@.len() implies has_dataset(*src, #[trigger] src.placements@[j].dataset_id@)
            && has_volume(*src, src.placements@[j].volume_id@) by {
            assert(resolved(old_d@, new_d@, src.placements@[j].dataset_id@) is Some);
            assert(resolved(old_v@, new_v@, src.placements@[j].volume_id@) is Some);
        }
        assert forall|j: int| 0 <= j < src.links@.len() implies has_node(*src, #[trigger] src.links@[j].source_node_id@)
            && has_node(*src, src.links@[j].target_node_id@) by {
            assert(resolved(old_n@, new_n@, src.links@[j].source_node_id@) is Some);
            assert(resolved(old_n@, new_n@, src.links@[j].target_node_id@) is Some);
        }
        assert forall|j: int| 0 <= j < src.syncs@.len() implies has_dataset(*src, #[trigger] src.syncs@[j].dataset_id@)
            && has_volume(*src, src.syncs@[j].source_volume_id@) && has_volume(*src, src.syncs@[j].target_volume_id@) by {
            assert(resolved(old_d@, new_d@, src.syncs@[j].dataset_id@) is Some);
            assert(resolved(old_v@, new_v@, src.syncs@[j].source_volume_id@) is Some);
            assert(resolved(old_v@, new_v@, src.syncs@[j].target_volume_id@) is Some);
        }
    }
    Ok(out)
}

} // verus!

verus! {

/// Every id of `v` has the text form of a version-4 UUID.
pub open spec fn all_uuid_v4(v: Seq<String>) -> bool {
    forall|i: int| 0 <= i < v.len() ==> is_uuid_v4_text(#[trigger] v[i]@)
}

/// Every entry of `t` from index `from` on is a version-4 UUID text.
pub open spec fn uuid_from(t: Seq<Seq<char>>, from: int) -> bool {
    forall|j: int| from <= j < t.len() ==> is_uuid_v4_text(#[trigger] t[j])
}

/// No entry of `t` from index `from` on equals an entry before it.
pub open spec fn fresh_from(t: Seq<Seq<char>>, from: int) -> bool {
    forall|i: int, j: int| 0 <= i < j < t.len() && from <= j ==> #[trigger] t[i] != #[trigger] t[j]
}

/// A freshly drawn version-4 UUID that is none of `taken` (a spare one in
/// the unlikely case that the draw is already taken).
fn fresh_uuid(taken: &Vec<String>) -> (r: String)
    ensures
        is_uuid_v4_text(r@),
        !texts(taken@).contains(r@),
{
    let u = new_uuid();
    if text_in(taken, &u) {
        spare_uuid(taken)
    } else {
        u
    }
}

/// Draw `n` fresh version-4 UUIDs, each one none of `taken` nor of those
/// drawn before it, and add them to `taken`.
fn draw_ids(n: usize, taken: &mut Vec<String>, Ghost(from): Ghost<int>) -> (r: Vec<String>)
    requires
        0 <= from <= old(taken)@.len(),
        fresh_from(texts(old(taken)@), from),
        uuid_from(texts(old(taken)@), from),
    ensures
        r@.len() == n,
        all_uuid_v4(r@),
        final(taken)@ == old(taken)@ + r@,
        fresh_from(texts(final(taken)@), from),
        uuid_from(texts(final(taken)@), from),
{
    let ghost t0 = taken@;
    let mut r: Vec<String> = Vec::new();
    let mut i: usize = 0;
    while i < n
        invariant
            i <= n,
            r@.len() == i,
            all_uuid_v4(r@),
            taken@ == t0 + r@,
            0 <= from <= t0.len(),
            fresh_from(texts(taken@), from),
            uuid_from(texts(taken@), from),
        decreases n - i,
    {
        let u = fresh_uuid(taken);
        let ghost before = texts(taken@);
        taken.push(u.clone());
        r.push(u);
        proof {
            let t = texts(taken@);
            assert(t =~= before.push(u@));
            assert forall|a: int, b: int| 0 <= a < b < t.len() && from <= b implies #[trigger] t[a] != #[trigger] t[b] by {
                if b == before.len() {
                    assert(t[a] == before[a]);
                    assert(t[b] == u@);
                } else {
                    assert(t[a] == before[a] && t[b] == before[b]);
                }
            }
            assert forall|j: int| from <= j < t.len() implies is_uuid_v4_text(#[trigger] t[j]) by {
                if j < before.len() {
                    assert(t[j] == before[j]);
                }
            }
            assert(taken@ =~= t0 + r@);
        }
        i = i + 1;
    }
    r
}

/// Append the texts of `src` to `dst`.
fn append_all(dst: &mut Vec<String>, src: &Vec<String>)
    ensures
        final(dst)@ == old(dst)@ + src@,
{
    let ghost d0 = dst@;
    let mut i: usize = 0;
    while i < src.len()
        invariant
            i <= src@.len(),
            dst@ == d0 + src@.subrange(0, i as int),
        decreases src.len() - i,
    {
        dst.push(src[i].clone());
        assert(src@.subrange(0, i + 1) =~= src@.subrange(0, i as int).push(src@[i as int]));
        i = i + 1;
    }
    assert(src@.subrange(0, src@.len() as int) =~= src@);
}

fn placement_id_list(v: &Vec<PlacementRef>) -> (r: Vec<String>)
    ensures
        r@ == placement_ids_of(v@),
{
    let mut r: Vec<String> = Vec::new();
    let mut i: usize = 0;
    while i < v.len()
        invariant
            i <= v.len(),
            r@ =~= placement_ids_of(v@.take(i as int)),
        decreases v.len() - i,
    {
        r.push(v[i].id.clone());
        i = i + 1;
        assert(r@ =~= placement_ids_of(v@.take(i as int)));
    }
    assert(v@.take(v.len() as int) =~= v@);
    r
}

fn link_id_list(v: &Vec<LinkRef>) -> (r: Vec<String>)
    ensures
        r@ == link_ids_of(v@),
{
    let mut r: Vec<String> = Vec::new();
    let mut i: usize = 0;
    while i < v.len()
        invariant
            i <= v.len(),
            r@ =~= link_ids_of(v@.take(i as int)),
        decreases v.len() - i,
    {
        r.push(v[i].id.clone());
        i = i + 1;
        assert(r@ =~= link_ids_of(v@.take(i as int)));
    }
    assert(v@.take(v.len() as int) =~= v@);
    r
}

fn sync_id_list(v: &Vec<SyncRef>) -> (r: Vec<String>)
    ensures
        r@ == sync_ids_of(v@),
{
    let mut r: Vec<String> = Vec::new();
    let mut i: usize = 0;
    while i < v.len()
        invariant
            i <= v.len(),
            r@ =~= sync_ids_of(v@.take(i as int)),
        decreases v.len() - i,
    {
        r.push(v[i].id.clone());
        i = i + 1;
        assert(r@ =~= sync_ids_of(v@.take(i as int)));
    }
    assert(v@.take(v.len() as int) =~= v@);
    r
}

pub open spec fn placement_ids_of(v: Seq<PlacementRef>) -> Seq<String> {
    v.map_values(|x: PlacementRef| x.id)
}

pub open spec fn link_ids_of(v: Seq<LinkRef>) -> Seq<String> {
    v.map_values(|x: LinkRef| x.id)
}

pub open spec fn sync_ids_of(v: Seq<SyncRef>) -> Seq<String> {
    v.map_values(|x: SyncRef| x.id)
}

/// Every id of `g`, in the order of `all_ids`.
fn graph_id_list(g: &RefGraph) -> (r: Vec<String>)
    ensures
        texts(r@) == all_ids(*g),
{
    let mut r: Vec<String> = Vec::new();
    r.push(g.topology_id.clone());
    append_all(&mut r, &node_id_list(&g.nodes));
    append_all(&mut r, &volume_id_list(&g.volumes));
    append_all(&mut r, &dataset_id_list(&g.datasets));
    append_all(&mut r, &placement_id_list(&g.placements));
    append_all(&mut r, &link_id_list(&g.links));
    append_all(&mut r, &sync_id_list(&g.syncs));
    proof {
        assert(placement_ids_of(g.placements@) == placement_ids(*g));
        assert(link_ids_of(g.links@) == link_ids(*g));
        assert(sync_ids_of(g.syncs@) == sync_ids(*g));
        assert(texts(r@) =~= all_ids(*g));
    }
    r
}

/// Copy a topology's identities for a fork: the topology, every node,
/// volume, dataset, placement, link and sync regime get a freshly drawn
/// version-4 UUID, every reference is rewritten to the new id of the
/// entity it named, the copy records `src` as the topology it was forked
/// from and carries no tag (see `fork_remap_with`, to which the drawn ids
/// are handed). Fails on the first reference (in the order volumes,
/// placements, links, sync regimes) that names no entity of the source.
pub fn fork_remap(src: &RefGraph) -> (r: Result<RefGraph, RemapError>)
    ensures
        r is Ok <==> refs_resolve(*src),
        r matches Ok(out) ==> is_remapped_copy(*src, out) && out.parent_id == Some(src.topology_id) && out.tag is None
            && is_uuid_v4_text(out.topology_id@) && all_uuid_v4(
            node_ids(out),
        ) && all_uuid_v4(volume_ids(out)) && all_uuid_v4(dataset_ids(out)) && all_uuid_v4(
            out.placements@.map_values(|p: PlacementRef| p.id),
        ) && all_uuid_v4(out.links@.map_values(|l: LinkRef| l.id)) && all_uuid_v4(
            out.syncs@.map_values(|x: SyncRef| x.id),
        ),
        r matches Ok(out) ==> ids_distinct(out) && kinds_distinct(out) && forall|k: int|
            0 <= k < all_ids(out).len() ==> !all_ids(*src).contains(#[trigger] all_ids(out)[k]),
        r matches Err(e) ==> e matches RemapError::MissingReference { role, id } && unresolved_ref(
            *src,
            role,
            id@,
        ),
{
    let mut taken = graph_id_list(src);
    let ghost base = taken@.len() as int;
    let topology_id = fresh_uuid(&taken);
    let ghost t0 = texts(taken@);
    taken.push(topology_id.clone());
    proof {
        let t = texts(taken@);
        assert(t =~= t0.push(topology_id@));
        assert forall|a: int, b: int| 0 <= a < b < t.len() && base <= b implies #[trigger] t[a] != #[trigger] t[b] by {
            assert(t[a] == t0[a]);
        }
    }
    let n = draw_ids(src.nodes.len(), &mut taken, Ghost(base));
    let v = draw_ids(src.volumes.len(), &mut taken, Ghost(base));
    let d = draw_ids(src.datasets.len(), &mut taken, Ghost(base));
    let p = draw_ids(src.placements.len(), &mut taken, Ghost(base));
    let l = draw_ids(src.links.len(), &mut taken, Ghost(base));
    let y = draw_ids(src.syncs.len(), &mut taken, Ghost(base));
    let ghost drawn = seq![topology_id@] + texts(n@) + texts(v@) + texts(d@) + texts(p@) + texts(l@) + texts(y@);
    proof {
        assert(texts(taken@) =~= all_ids(*src) + drawn);
    }
    let r = fork_remap_with(src, topology_id, &n, &v, &d, &p, &l, &y);
    proof {
        if r is Ok {
            let out = r->Ok_0;
            assert(node_ids(out) =~= n@);
            assert(volume_ids(out) =~= v@);
            assert(dataset_ids(out) =~= d@);
            assert(out.placements@.map_values(|q: PlacementRef| q.id) =~= p@);
            assert(out.links@.map_values(|q: LinkRef| q.id) =~= l@);
            assert(out.syncs@.map_values(|q: SyncRef| q.id) =~= y@);
            assert(all_ids(out) =~= drawn);
            lemma_fresh_copy_ids(all_ids(*src), out, texts(taken@));
            lemma_kinds_distinct(out);
        }
    }
    r
}

} // verus!

verus! {

/// A value found by `resolved` is one of the new ids.
proof fn lemma_resolved_is_member(old: Seq<String>, new: Seq<String>, key: Seq<char>)
    requires
        old.len() == new.len(),
        resolved(old, new, key) is Some,
    ensures
        last_index_of(texts(new), resolved(old, new, key)->0@) >= 0,
{
    lemma_last_index_of(texts(old), key);
    let i = last_index_of(texts(old), key);
    let x = new[i];
    assert(texts(new)[i] == x@);
    assert(texts(new).contains(x@));
    lemma_last_index_of(texts(new), x@);
}

/// A remapped copy has no dangling references: every volume's node, every
/// placement's dataset and volume, every link's nodes and every sync
/// regime's dataset and volumes name entities of the copy itself.
pub proof fn lemma_remapped_copy_refs_resolve(src: RefGraph, out: RefGraph)
    requires
        is_remapped_copy(src, out),
    ensures
        refs_resolve(out),
{
    assert(node_ids(src).len() == node_ids(out).len());
    assert(volume_ids(src).len() == volume_ids(out).len());
    assert(dataset_ids(src).len() == dataset_ids(out).len());
    assert forall|i: int| 0 <= i < out.volumes@.len() implies has_node(out, #[trigger] out.volumes@[i].node_id@) by {
        assert(src.volumes@[i].name == out.volumes@[i].name);
        lemma_resolved_is_member(node_ids(src), node_ids(out), src.volumes@[i].node_id@);
    }
    assert forall|i: int| 0 <= i < out.placements@.len() implies has_dataset(out, #[trigger] out.placements@[i].dataset_id@)
        && has_volume(out, out.placements@[i].volume_id@) by {
        let k = src.placements@[i].dataset_id@;
        lemma_resolved_is_member(dataset_ids(src), dataset_ids(out), k);
        lemma_resolved_is_member(volume_ids(src), volume_ids(out), src.placements@[i].volume_id@);
    }
    assert forall|i: int| 0 <= i < out.links@.len() implies has_node(out, #[trigger] out.links@[i].source_node_id@)
        && has_node(out, out.links@[i].target_node_id@) by {
        let k = src.links@[i].source_node_id@;
        lemma_resolved_is_member(node_ids(src), node_ids(out), k);
        lemma_resolved_is_member(node_ids(src), node_ids(out), src.links@[i].target_node_id@);
    }
    assert forall|i: int| 0 <= i < out.syncs@.len() implies has_dataset(out, #[trigger] out.syncs@[i].dataset_id@)
        && has_volume(out, out.syncs@[i].source_volume_id@) && has_volume(out, out.syncs@[i].target_volume_id@) by {
        let k = src.syncs@[i].dataset_id@;
        lemma_resolved_is_member(dataset_ids(src), dataset_ids(out), k);
        lemma_resolved_is_member(volume_ids(src), volume_ids(out), src.syncs@[i].source_volume_id@);
        lemma_resolved_is_member(volume_ids(src), volume_ids(out), src.syncs@[i].target_volume_id@);
    }
}

} // verus!

verus! {

// ---------------------------------------------------------------------------
// Import: one id table with name-based fallback keys
// ---------------------------------------------------------------------------

/// A table of (key, new id) entries, read by the last entry of a key.
pub open spec fn table_view(m: Seq<(String, String)>) -> Seq<(Seq<char>, String)> {
    m.map_values(|p: (String, String)| (p.0@, p.1))
}

/// The value of the last entry with key `key`, if any.
pub open spec fn table_lookup(m: Seq<(Seq<char>, String)>, key: Seq<char>) -> Option<String>
    decreases m.len(),
{
    if m.len() == 0 {
        None
    } else if m.last().0 == key {
        Some(m.last().1)
    } else {
        table_lookup(m.drop_last(), key)
    }
}

/// The new id of an imported id: by the id itself when it is non-empty and
/// in the table, else by the fallback key.
pub open spec fn remap_id(m: Seq<(Seq<char>, String)>, old: Seq<char>, fallback: Seq<char>) -> Option<String> {
    if old.len() > 0 && table_lookup(m, old) is Some {
        table_lookup(m, old)
    } else {
        table_lookup(m, fallback)
    }
}

/// The entry for a non-empty id; empty ids get none.
pub open spec fn id_entry(id: Seq<char>, v: String) -> Seq<(Seq<char>, String)> {
    if id.len() > 0 {
        seq![(id, v)]
    } else {
        seq![]
    }
}

/// Entries of the first `n` entities that also get a name key
/// (`prefix` followed by the name).
pub open spec fn named_entries(
    ids: Seq<String>,
    names: Seq<String>,
    prefix: Seq<char>,
    f: Seq<String>,
    n: int,
) -> Seq<(Seq<char>, String)>
    decreases n,
{
    if n <= 0 {
        seq![]
    } else {
        named_entries(ids, names, prefix, f, n - 1) + id_entry(ids[n - 1]@, f[n - 1]) + seq![
            (prefix + names[n - 1]@, f[n - 1]),
        ]
    }
}

/// Entries of the first `n` entities keyed by id only.
pub open spec fn plain_entries(ids: Seq<String>, f: Seq<String>, n: int) -> Seq<(Seq<char>, String)>
    decreases n,
{
    if n <= 0 {
        seq![]
    } else {
        plain_entries(ids, f, n - 1) + id_entry(ids[n - 1]@, f[n - 1])
    }
}

proof fn lemma_named_entries_prefix(
    ids: Seq<String>,
    names: Seq<String>,
    prefix: Seq<char>,
    f1: Seq<String>,
    f2: Seq<String>,
    n: int,
)
    requires
        forall|k: int| 0 <= k < n ==> f1[k] == f2[k],
    ensures
        named_entries(ids, names, prefix, f1, n) == named_entries(ids, names, prefix, f2, n),
    decreases n,
{
    if n > 0 {
        lemma_named_entries_prefix(ids, names, prefix, f1, f2, n - 1);
    }
}

proof fn lemma_plain_entries_prefix(ids: Seq<String>, f1: Seq<String>, f2: Seq<String>, n: int)
    requires
        forall|k: int| 0 <= k < n ==> f1[k] == f2[k],
    ensures
        plain_entries(ids, f1, n) == plain_entries(ids, f2, n),
    decreases n,
{
    if n > 0 {
        lemma_plain_entries_prefix(ids, f1, f2, n - 1);
    }
}

/// The fresh ids an import draws, group by group.
pub struct ImportIds {
    pub topology: String,
    pub nodes: Seq<String>,
    pub volumes: Seq<String>,
    pub datasets: Seq<String>,
    pub placements: Seq<String>,
    pub links: Seq<String>,
    pub syncs: Seq<String>,
}

/// The ids an import is given: those its table maps to (`topology` and one
/// per entity, kind by kind), and the ids under which its placements, links
/// and sync regimes are stored (drawn apart from the table's).
#[derive(Debug, Clone)]
pub struct ImportDraw {
    pub topology: String,
    pub nodes: Vec<String>,
    pub volumes: Vec<String>,
    pub datasets: Vec<String>,
    pub placements: Vec<String>,
    pub links: Vec<String>,
    pub syncs: Vec<String>,
    pub stored_placements: Vec<String>,
    pub stored_links: Vec<String>,
    pub stored_syncs: Vec<String>,
}

/// The table ids of a draw.
pub open spec fn draw_table_ids(d: ImportDraw) -> ImportIds {
    ImportIds {
        topology: d.topology,
        nodes: d.nodes@,
        volumes: d.volumes@,
        datasets: d.datasets@,
        placements: d.placements@,
        links: d.links@,
        syncs: d.syncs@,
    }
}

/// A draw has one id of each list per entity of `g`.
pub open spec fn draw_fits(g: RefGraph, d: ImportDraw) -> bool {
    &&& d.nodes@.len() == g.nodes@.len()
    &&& d.volumes@.len() == g.volumes@.len()
    &&& d.datasets@.len() == g.datasets@.len()
    &&& d.placements@.len() == g.placements@.len()
    &&& d.links@.len() == g.links@.len()
    &&& d.syncs@.len() == g.syncs@.len()
    &&& d.stored_placements@.len() == g.placements@.len()
    &&& d.stored_links@.len() == g.links@.len()
    &&& d.stored_syncs@.len() == g.syncs@.len()
}

/// The placements, links and sync regimes of `out` are stored under the
/// draw's stored ids.
pub open spec fn stored_ids(out: RefGraph, d: ImportDraw) -> bool {
    &&& forall|i: int| 0 <= i < d.stored_placements@.len() ==> #[trigger] out.placements@[i].id == d.stored_placements@[i]
    &&& forall|i: int| 0 <= i < d.stored_links@.len() ==> #[trigger] out.links@[i].id == d.stored_links@[i]
    &&& forall|i: int| 0 <= i < d.stored_syncs@.len() ==> #[trigger] out.syncs@[i].id == d.stored_syncs@[i]
}

pub open spec fn node_names(g: RefGraph) -> Seq<String> {
    g.nodes@.map_values(|n: NodeRef| n.name)
}

pub open spec fn volume_names(g: RefGraph) -> Seq<String> {
    g.volumes@.map_values(|n: VolumeRef| n.name)
}

pub open spec fn dataset_names(g: RefGraph) -> Seq<String> {
    g.datasets@.map_values(|n: DatasetRef| n.name)
}

pub open spec fn placement_ids(g: RefGraph) -> Seq<String> {
    g.placements@.map_values(|n: PlacementRef| n.id)
}

pub open spec fn link_ids(g: RefGraph) -> Seq<String> {
    g.links@.map_values(|n: LinkRef| n.id)
}

pub open spec fn sync_ids(g: RefGraph) -> Seq<String> {
    g.syncs@.map_values(|n: SyncRef| n.id)
}

/// The id table an import builds: the topology id, then for nodes,
/// volumes and datasets their id and their `node:`/`volume:`/`dataset:`
/// name key, then the ids of placements, links and sync regimes; each
/// mapped to the fresh id drawn for that entity. Empty ids get no entry.
pub open spec fn import_table(g: RefGraph, ids: ImportIds) -> Seq<(Seq<char>, String)> {
    id_entry(g.topology_id@, ids.topology) + named_entries(
        node_ids(g),
        node_names(g),
        "node:"@,
        ids.nodes,
        g.nodes@.len() as int,
    ) + named_entries(volume_ids(g), volume_names(g), "volume:"@, ids.volumes, g.volumes@.len() as int)
        + named_entries(dataset_ids(g), dataset_names(g), "dataset:"@, ids.datasets, g.datasets@.len() as int)
        + plain_entries(placement_ids(g), ids.placements, g.placements@.len() as int) + plain_entries(
        link_ids(g),
        ids.links,
        g.links@.len() as int,
    ) + plain_entries(sync_ids(g), ids.syncs, g.syncs@.len() as int)
}

/// The name key of the only entity of a kind: `prefix` followed by its
/// name when there is exactly one, else the empty key (which no entry has).
pub open spec fn sole_key(prefix: Seq<char>, names: Seq<String>) -> Seq<char> {
    if names.len() == 1 {
        prefix + names[0]@
    } else {
        Seq::<char>::empty()
    }
}

/// The fallback key of a reference holding `r`: a blank reference (template
/// exports blank them) falls back on `sole`, the name key of the only
/// entity it can have pointed at; any other reference on the empty key.
pub open spec fn ref_fallback(r: Seq<char>, sole: Seq<char>) -> Seq<char> {
    if r.len() == 0 {
        sole
    } else {
        Seq::<char>::empty()
    }
}

/// The fallback key of a reference to a node of `g`.
pub open spec fn node_fallback(g: RefGraph, r: Seq<char>) -> Seq<char> {
    ref_fallback(r, sole_key("node:"@, node_names(g)))
}

/// The fallback key of a reference to a volume of `g`.
pub open spec fn volume_fallback(g: RefGraph, r: Seq<char>) -> Seq<char> {
    ref_fallback(r, sole_key("volume:"@, volume_names(g)))
}

/// The fallback key of a reference to a dataset of `g`.
pub open spec fn dataset_fallback(g: RefGraph, r: Seq<char>) -> Seq<char> {
    ref_fallback(r, sole_key("dataset:"@, dataset_names(g)))
}

/// Every id and reference of `g` has a new id under table `m`.
pub open spec fn import_resolves(g: RefGraph, m: Seq<(Seq<char>, String)>) -> bool {
    &&& forall|i: int|
        0 <= i < g.nodes@.len() ==> remap_id(m, #[trigger] g.nodes@[i].id@, "node:"@ + g.nodes@[i].name@) is Some
    &&& forall|i: int|
        0 <= i < g.volumes@.len() ==> remap_id(m, #[trigger] g.volumes@[i].id@, "volume:"@ + g.volumes@[i].name@) is Some
            && remap_id(m, g.volumes@[i].node_id@, node_fallback(g, g.volumes@[i].node_id@)) is Some
    &&& forall|i: int|
        0 <= i < g.datasets@.len() ==> remap_id(
            m,
            #[trigger] g.datasets@[i].id@,
            "dataset:"@ + g.datasets@[i].name@,
        ) is Some
    &&& forall|i: int|
        0 <= i < g.placements@.len() ==> remap_id(m, #[trigger] g.placements@[i].dataset_id@, dataset_fallback(g, g.placements@[i].dataset_id@)) is Some
            && remap_id(m, g.placements@[i].volume_id@, volume_fallback(g, g.placements@[i].volume_id@)) is Some
    &&& forall|i: int|
        0 <= i < g.links@.len() ==> remap_id(m, #[trigger] g.links@[i].source_node_id@, node_fallback(g, g.links@[i].source_node_id@)) is Some
            && remap_id(m, g.links@[i].target_node_id@, node_fallback(g, g.links@[i].target_node_id@)) is Some
    &&& forall|i: int|
        0 <= i < g.syncs@.len() ==> remap_id(m, #[trigger] g.syncs@[i].dataset_id@, dataset_fallback(g, g.syncs@[i].dataset_id@)) is Some
            && remap_id(m, g.syncs@[i].source_volume_id@, volume_fallback(g, g.syncs@[i].source_volume_id@)) is Some
            && remap_id(m, g.syncs@[i].target_volume_id@, volume_fallback(g, g.syncs@[i].target_volume_id@)) is Some
}

/// `id` (with its fallback key) is an id or reference of `g` that has no
/// new id under table `m`.
pub open spec fn import_unresolved(g: RefGraph, m: Seq<(Seq<char>, String)>, id: Seq<char>, fallback: Seq<char>) -> bool {
    &&& remap_id(m, id, fallback) is None
    &&& {
        ||| exists|i: int|
            0 <= i < g.nodes@.len() && #[trigger] g.nodes@[i].id@ == id && fallback == "node:"@
                + g.nodes@[i].name@
        ||| exists|i: int|
            0 <= i < g.volumes@.len() && #[trigger] g.volumes@[i].id@ == id && fallback == "volume:"@
                + g.volumes@[i].name@
        ||| exists|i: int|
            0 <= i < g.datasets@.len() && #[trigger] g.datasets@[i].id@ == id && fallback == "dataset:"@
                + g.datasets@[i].name@
        ||| exists|i: int|
            0 <= i < g.volumes@.len() && #[trigger] g.volumes@[i].node_id@ == id && fallback == node_fallback(g, id)
        ||| exists|i: int|
            0 <= i < g.placements@.len() && ((#[trigger] g.placements@[i].dataset_id@ == id && fallback
                == dataset_fallback(g, id)) || (g.placements@[i].volume_id@ == id && fallback == volume_fallback(g, id)))
        ||| exists|i: int|
            0 <= i < g.links@.len() && (#[trigger] g.links@[i].source_node_id@ == id
                || g.links@[i].target_node_id@ == id) && fallback == node_fallback(g, id)
        ||| exists|i: int|
            0 <= i < g.syncs@.len() && ((#[trigger] g.syncs@[i].dataset_id@ == id && fallback == dataset_fallback(g, id))
                || ((g.syncs@[i].source_volume_id@ == id || g.syncs@[i].target_volume_id@ == id) && fallback
                == volume_fallback(g, id)))
    }
}

/// `out` is the import of `g` under table `m`: same entities in the same
/// order with the same names; nodes, volumes and datasets take the new id
/// of their id (or of their name key), and every reference takes the new id
/// of the id it holds.
pub open spec fn is_imported_copy(g: RefGraph, m: Seq<(Seq<char>, String)>, out: RefGraph) -> bool {
    &&& out.nodes@.len() == g.nodes@.len()
    &&& out.volumes@.len() == g.volumes@.len()
    &&& out.datasets@.len() == g.datasets@.len()
    &&& out.placements@.len() == g.placements@.len()
    &&& out.links@.len() == g.links@.len()
    &&& out.syncs@.len() == g.syncs@.len()
    &&& forall|i: int|
        0 <= i < g.nodes@.len() ==> #[trigger] out.nodes@[i].name == g.nodes@[i].name && remap_id(
            m,
            g.nodes@[i].id@,
            "node:"@ + g.nodes@[i].name@,
        ) == Some(out.nodes@[i].id)
    &&& forall|i: int|
        0 <= i < g.volumes@.len() ==> #[trigger] out.volumes@[i].name == g.volumes@[i].name && remap_id(
            m,
            g.volumes@[i].id@,
            "volume:"@ + g.volumes@[i].name@,
        ) == Some(out.volumes@[i].id) && remap_id(m, g.volumes@[i].node_id@, node_fallback(g, g.volumes@[i].node_id@)) == Some(
            out.volumes@[i].node_id,
        )
    &&& forall|i: int|
        0 <= i < g.datasets@.len() ==> #[trigger] out.datasets@[i].name == g.datasets@[i].name && remap_id(
            m,
            g.datasets@[i].id@,
            "dataset:"@ + g.datasets@[i].name@,
        ) == Some(out.datasets@[i].id)
    &&& forall|i: int|
        0 <= i < g.placements@.len() ==> remap_id(m, #[trigger] g.placements@[i].dataset_id@, dataset_fallback(g, g.placements@[i].dataset_id@)) == Some(
            out.placements@[i].dataset_id,
        ) && remap_id(m, g.placements@[i].volume_id@, volume_fallback(g, g.placements@[i].volume_id@)) == Some(out.placements@[i].volume_id)
    &&& forall|i: int|
        0 <= i < g.links@.len() ==> remap_id(m, #[trigger] g.links@[i].source_node_id@, node_fallback(g, g.links@[i].source_node_id@)) == Some(
            out.links@[i].source_node_id,
        ) && remap_id(m, g.links@[i].target_node_id@, node_fallback(g, g.links@[i].target_node_id@)) == Some(out.links@[i].target_node_id)
    &&& forall|i: int|
        0 <= i < g.syncs@.len() ==> remap_id(m, #[trigger] g.syncs@[i].dataset_id@, dataset_fallback(g, g.syncs@[i].dataset_id@)) == Some(
            out.syncs@[i].dataset_id,
        ) && remap_id(m, g.syncs@[i].source_volume_id@, volume_fallback(g, g.syncs@[i].source_volume_id@)) == Some(out.syncs@[i].source_volume_id)
            && remap_id(m, g.syncs@[i].target_volume_id@, volume_fallback(g, g.syncs@[i].target_volume_id@)) == Some(out.syncs@[i].target_volume_id)
}

/// Look a key up in an id table.
pub fn table_get(m: &Vec<(String, String)>, key: &str) -> (r: Option<String>)
    ensures
        r == table_lookup(table_view(m@), key@),
{
    let ghost t = table_view(m@);
    assert(t.take(m.len() as int) =~= t);
    let mut i: usize = m.len();
    while i > 0
        invariant
            i <= m.len(),
            t == table_view(m@),
            table_lookup(t, key@) == table_lookup(t.take(i as int), key@),
        decreases i,
    {
        let ghost pre = t.take(i as int);
        assert(pre.drop_last() =~= t.take(i - 1));
        assert(pre.last() == (m@[i - 1].0@, m@[i - 1].1));
        if str_eq(m[i - 1].0.as_str(), key) {
            let v = m[i - 1].1.clone();
            return Some(v);
        }
        i = i - 1;
    }
    assert(t.take(0) =~= Seq::<(Seq<char>, String)>::empty());
    None
}

/// The new id of an imported id, as `remap_id` describes.
pub fn remap_lookup(m: &Vec<(String, String)>, old: &str, fallback: &str) -> (r: Option<String>)
    ensures
        r == remap_id(table_view(m@), old@, fallback@),
{
    if !old.is_empty() {
        match table_get(m, old) {
            Some(v) => {
                return Some(v);
            },
            None => {},
        }
    }
    table_get(m, fallback)
}

/// The fallback key of a reference holding `r`, as `ref_fallback` gives it.
fn fallback_for(r: &String, sole: &String) -> (f: String)
    ensures
        f@ == ref_fallback(r@, sole@),
{
    if r.as_str().is_empty() {
        sole.clone()
    } else {
        String::new()
    }
}

/// `prefix` followed by `name`.
fn keyed(prefix: &str, name: &String) -> (r: String)
    ensures
        r@ == prefix@ + name@,
{
    let mut k = String::from_str(prefix);
    k.append(name.as_str());
    k
}

} // verus!

verus! {

/// What an import returns, given the fresh ids it drew.
pub open spec fn import_outcome(g: RefGraph, ids: ImportIds, r: Result<RefGraph, RemapError>) -> bool {
    let m = import_table(g, ids);
    &&& (r is Ok <==> import_resolves(g, m))
    &&& (r matches Ok(out) ==> is_imported_copy(g, m, out) && out.topology_id == ids.topology && out.parent_id
        is None && out.tag is None)
    &&& (r matches Err(e) ==> e matches RemapError::CannotRemap { id, fallback } && import_unresolved(
        g,
        m,
        id@,
        fallback@,
    ))
}

/// Remap the identities of an imported topology under the ids of `draw`.
/// A table maps each non-empty imported id, and each
/// `node:`/`volume:`/`dataset:` name key, to the draw's id for that entity
/// (the topology's id to `draw.topology`). Nodes, volumes and datasets
/// then take the new id of their id, or of their name key when their id is
/// empty (template exports blank all ids); references take the new id of
/// the id they hold, and a blank reference that of the only entity of its
/// kind, where there is exactly one. Placements, links and sync regimes are stored under
/// the draw's stored ids. Fails on the first id (in the order nodes,
/// volumes, datasets, placements, links, sync regimes) that has no new id.
pub fn import_remap_with(g: &RefGraph, draw: &ImportDraw) -> (r: Result<RefGraph, RemapError>)
    requires
        draw_fits(*g, *draw),
    ensures
        import_outcome(*g, draw_table_ids(*draw), r),
        r matches Ok(out) ==> stored_ids(out, *draw),
{
    let mut m: Vec<(String, String)> = Vec::new();
    let topo_new = draw.topology.clone();
    if !g.topology_id.as_str().is_empty() {
        m.push((g.topology_id.clone(), topo_new.clone()));
    }
    let ghost t0 = id_entry(g.topology_id@, topo_new);
    assert(table_view(m@) =~= t0);

    // Node entries.
    let ghost mut fnodes: Seq<String> = Seq::empty();
    let mut i: usize = 0;
    while i < g.nodes.len()
        invariant
            i <= g.nodes@.len(),
            fnodes.len() == i,
            draw_fits(*g, *draw),
            forall|j: int| 0 <= j < i ==> #[trigger] fnodes[j] == draw.nodes@[j],
            table_view(m@) == t0 + named_entries(node_ids(*g), node_names(*g), "node:"@, fnodes, i as int),
        decreases g.nodes.len() - i,
    {
        let nid = draw.nodes[i].clone();
        let ghost before = table_view(m@);
        let ghost f2 = fnodes.push(nid);
        proof {
            lemma_named_entries_prefix(node_ids(*g), node_names(*g), "node:"@, fnodes, f2, i as int);
        }
        if !g.nodes[i].id.as_str().is_empty() {
            m.push((g.nodes[i].id.clone(), nid.clone()));
        }
        let key = keyed("node:", &g.nodes[i].name);
        m.push((key, nid));
        proof {
            fnodes = f2;
            assert(node_ids(*g)[i as int] == g.nodes@[i as int].id);
            assert(node_names(*g)[i as int] == g.nodes@[i as int].name);
            assert(table_view(m@) =~= before + id_entry(g.nodes@[i as int].id@, f2[i as int]) + seq![
                ("node:"@ + g.nodes@[i as int].name@, f2[i as int]),
            ]);
        }
        i = i + 1;
    }
    let ghost t1 = table_view(m@);

    // Volume entries.
    let ghost mut fvols: Seq<String> = Seq::empty();
    let mut i: usize = 0;
    while i < g.volumes.len()
        invariant
            i <= g.volumes@.len(),
            fvols.len() == i,
            draw_fits(*g, *draw),
            forall|j: int| 0 <= j < i ==> #[trigger] fvols[j] == draw.volumes@[j],
            table_view(m@) == t1 + named_entries(volume_ids(*g), volume_names(*g), "volume:"@, fvols, i as int),
        decreases g.volumes.len() - i,
    {
        let vid = draw.volumes[i].clone();
        let ghost before = table_view(m@);
        let ghost f2 = fvols.push(vid);
        proof {
            lemma_named_entries_prefix(volume_ids(*g), volume_names(*g), "volume:"@, fvols, f2, i as int);
        }
        if !g.volumes[i].id.as_str().is_empty() {
            m.push((g.volumes[i].id.clone(), vid.clone()));
        }
        let key = keyed("volume:", &g.volumes[i].name);
        m.push((key, vid));
        proof {
            fvols = f2;
            assert(volume_ids(*g)[i as int] == g.volumes@[i as int].id);
            assert(volume_names(*g)[i as int] == g.volumes@[i as int].name);
            assert(table_view(m@) =~= before + id_entry(g.volumes@[i as int].id@, f2[i as int]) + seq![
                ("volume:"@ + g.volumes@[i as int].name@, f2[i as int]),
            ]);
        }
        i = i + 1;
    }
    let ghost t2 = table_view(m@);

    // Dataset entries.
    let ghost mut fds: Seq<String> = Seq::empty();
    let mut i: usize = 0;
    while i < g.datasets.len()
        invariant
            i <= g.datasets@.len(),
            fds.len() == i,
            draw_fits(*g, *draw),
            forall|j: int| 0 <= j < i ==> #[trigger] fds[j] == draw.datasets@[j],
            table_view(m@) == t2 + named_entries(dataset_ids(*g), dataset_names(*g), "dataset:"@, fds, i as int),
        decreases g.datasets.len() - i,
    {
        let did = draw.datasets[i].clone();
        let ghost before = table_view(m@);
        let ghost f2 = fds.push(did);
        proof {
            lemma_named_entries_prefix(dataset_ids(*g), dataset_names(*g), "dataset:"@, fds, f2, i as int);
        }
        if !g.datasets[i].id.as_str().is_empty() {
            m.push((g.datasets[i].id.clone(), did.clone()));
        }
        let key = keyed("dataset:", &g.datasets[i].name);
        m.push((key, did));
        proof {
            fds = f2;
            assert(dataset_ids(*g)[i as int] == g.datasets@[i as int].id);
            assert(dataset_names(*g)[i as int] == g.datasets@[i as int].name);
            assert(table_view(m@) =~= before + id_entry(g.datasets@[i as int].id@, f2[i as int]) + seq![
                ("dataset:"@ + g.datasets@[i as int].name@, f2[i as int]),
            ]);
        }
        i = i + 1;
    }
    let ghost t3 = table_view(m@);

    // Placement, link and sync regime entries (keyed by id only).
    let ghost mut fpl: Seq<String> = Seq::empty();
    let mut i: usize = 0;
    while i < g.placements.len()
        invariant
            i <= g.placements@.len(),
            fpl.len() == i,
            draw_fits(*g, *draw),
            forall|j: int| 0 <= j < i ==> #[trigger] fpl[j] == draw.placements@[j],
            table_view(m@) == t3 + plain_entries(placement_ids(*g), fpl, i as int),
        decreases g.placements.len() - i,
    {
        let pid = draw.placements[i].clone();
        let ghost before = table_view(m@);
        let ghost f2 = fpl.push(pid);
        proof {
            lemma_plain_entries_prefix(placement_ids(*g), fpl, f2, i as int);
        }
        if !g.placements[i].id.as_str().is_empty() {
            m.push((g.placements[i].id.clone(), pid));
        }
        proof {
            fpl = f2;
            assert(placement_ids(*g)[i as int] == g.placements@[i as int].id);
            assert(table_view(m@) =~= before + id_entry(g.placements@[i as int].id@, f2[i as int]));
        }
        i = i + 1;
    }
    let ghost t4 = table_view(m@);

    let ghost mut flk: Seq<String> = Seq::empty();
    let mut i: usize = 0;
    while i < g.links.len()
        invariant
            i <= g.links@.len(),
            flk.len() == i,
            draw_fits(*g, *draw),
            forall|j: int| 0 <= j < i ==> #[trigger] flk[j] == draw.links@[j],
            table_view(m@) == t4 + plain_entries(link_ids(*g), flk, i as int),
        decreases g.links.len() - i,
    {
        let lid = draw.links[i].clone();
        let ghost before = table_view(m@);
        let ghost f2 = flk.push(lid);
        proof {
            lemma_plain_entries_prefix(link_ids(*g), flk, f2, i as int);
        }
        if !g.links[i].id.as_str().is_empty() {
            m.push((g.links[i].id.clone(), lid));
        }
        proof {
            flk = f2;
            assert(link_ids(*g)[i as int] == g.links@[i as int].id);
            assert(table_view(m@) =~= before + id_entry(g.links@[i as int].id@, f2[i as int]));
        }
        i = i + 1;
    }
    let ghost t5 = table_view(m@);

    let ghost mut fsy: Seq<String> = Seq::empty();
    let mut i: usize = 0;
    while i < g.syncs.len()
        invariant
            i <= g.syncs@.len(),
            fsy.len() == i,
            draw_fits(*g, *draw),
            forall|j: int| 0 <= j < i ==> #[trigger] fsy[j] == draw.syncs@[j],
            table_view(m@) == t5 + plain_entries(sync_ids(*g), fsy, i as int),
        decreases g.syncs.len() - i,
    {
        let sid = draw.syncs[i].clone();
        let ghost before = table_view(m@);
        let ghost f2 = fsy.push(sid);
        proof {
            lemma_plain_entries_prefix(sync_ids(*g), fsy, f2, i as int);
        }
        if !g.syncs[i].id.as_str().is_empty() {
            m.push((g.syncs[i].id.clone(), sid));
        }
        proof {
            fsy = f2;
            assert(sync_ids(*g)[i as int] == g.syncs@[i as int].id);
            assert(table_view(m@) =~= before + id_entry(g.syncs@[i as int].id@, f2[i as int]));
        }
        i = i + 1;
    }

    let ghost ids = ImportIds {
        topology: topo_new,
        nodes: fnodes,
        volumes: fvols,
        datasets: fds,
        placements: fpl,
        links: flk,
        syncs: fsy,
    };
    assert(fnodes =~= draw.nodes@);
    assert(fvols =~= draw.volumes@);
    assert(fds =~= draw.datasets@);
    assert(fpl =~= draw.placements@);
    assert(flk =~= draw.links@);
    assert(fsy =~= draw.syncs@);
    assert(ids == draw_table_ids(*draw));
    let ghost tm = import_table(*g, ids);
    assert(table_view(m@) == tm);
    let r = import_insert(g, &m, topo_new, &draw.stored_placements, &draw.stored_links, &draw.stored_syncs, Ghost(tm));
    assert(import_outcome(*g, ids, r));
    r
}

/// Every table id of an import draw has the text form of a version-4 UUID.
pub open spec fn ids_are_uuids(ids: ImportIds) -> bool {
    &&& is_uuid_v4_text(ids.topology@)
    &&& all_uuid_v4(ids.nodes)
    &&& all_uuid_v4(ids.volumes)
    &&& all_uuid_v4(ids.datasets)
    &&& all_uuid_v4(ids.placements)
    &&& all_uuid_v4(ids.links)
    &&& all_uuid_v4(ids.syncs)
}

/// Remap the identities of an imported topology under freshly drawn
/// version-4 UUIDs: the result is what `import_remap_with` gives for the
/// ids drawn, and the stored ids of placements, links and sync regimes are
/// drawn UUIDs too. Every id drawn differs from the others and from the
/// imported ids, so an imported topology whose ids are distinct, or a
/// template whose names are distinct within each kind, gives a copy whose
/// ids are distinct, and new.
pub fn import_remap(g: &RefGraph) -> (r: Result<RefGraph, RemapError>)
    ensures
        exists|ids: ImportIds| ids_are_uuids(ids) && import_outcome(*g, ids, r),
        r matches Ok(out) ==> all_uuid_v4(out.placements@.map_values(|p: PlacementRef| p.id)) && all_uuid_v4(
            out.links@.map_values(|l: LinkRef| l.id),
        ) && all_uuid_v4(out.syncs@.map_values(|x: SyncRef| x.id)),
        r matches Ok(out) ==> (ids_distinct(*g) || (blank_ids(*g) && names_distinct(*g)) ==> ids_distinct(out)
            && kinds_distinct(out) && forall|k: int|
            0 <= k < all_ids(out).len() ==> !all_ids(*g).contains(#[trigger] all_ids(out)[k])),
        r matches Ok(out) ==> (forall|i: int, j: int|
            0 <= i < out.placements@.len() && 0 <= j < out.placements@.len() && i != j ==> #[trigger] out.placements@[i].id@
                != #[trigger] out.placements@[j].id@) && (forall|i: int, j: int|
            0 <= i < out.links@.len() && 0 <= j < out.links@.len() && i != j ==> #[trigger] out.links@[i].id@
                != #[trigger] out.links@[j].id@) && (forall|i: int, j: int|
            0 <= i < out.syncs@.len() && 0 <= j < out.syncs@.len() && i != j ==> #[trigger] out.syncs@[i].id@
                != #[trigger] out.syncs@[j].id@),
{
    let mut taken = graph_id_list(g);
    let ghost base = taken@.len() as int;
    let topology = fresh_uuid(&taken);
    let ghost t0 = texts(taken@);
    taken.push(topology.clone());
    proof {
        let t = texts(taken@);
        assert(t =~= t0.push(topology@));
        assert forall|a: int, b: int| 0 <= a < b < t.len() && base <= b implies #[trigger] t[a] != #[trigger] t[b] by {
            assert(t[a] == t0[a]);
        }
    }
    let nodes = draw_ids(g.nodes.len(), &mut taken, Ghost(base));
    let volumes = draw_ids(g.volumes.len(), &mut taken, Ghost(base));
    let datasets = draw_ids(g.datasets.len(), &mut taken, Ghost(base));
    let stored_placements = draw_ids(g.placements.len(), &mut taken, Ghost(base));
    let stored_links = draw_ids(g.links.len(), &mut taken, Ghost(base));
    let stored_syncs = draw_ids(g.syncs.len(), &mut taken, Ghost(base));
    let placements = draw_ids(g.placements.len(), &mut taken, Ghost(base));
    let links = draw_ids(g.links.len(), &mut taken, Ghost(base));
    let syncs = draw_ids(g.syncs.len(), &mut taken, Ghost(base));
    let ghost drawn = seq![topology@] + texts(nodes@) + texts(volumes@) + texts(datasets@) + texts(stored_placements@)
        + texts(stored_links@) + texts(stored_syncs@);
    let ghost rest = texts(placements@) + texts(links@) + texts(syncs@);
    let ghost tk = texts(taken@);
    proof {
        assert(tk =~= all_ids(*g) + drawn + rest);
    }
    let draw = ImportDraw {
        topology,
        nodes,
        volumes,
        datasets,
        placements,
        links,
        syncs,
        stored_placements,
        stored_links,
        stored_syncs,
    };
    let r = import_remap_with(g, &draw);
    proof {
        assert(ids_are_uuids(draw_table_ids(draw)));
        if r is Ok {
            let out = r->Ok_0;
            assert(out.placements@.map_values(|p: PlacementRef| p.id) =~= draw.stored_placements@);
            assert(out.links@.map_values(|l: LinkRef| l.id) =~= draw.stored_links@);
            assert(out.syncs@.map_values(|x: SyncRef| x.id) =~= draw.stored_syncs@);
            let op = base + 1 + draw.nodes@.len() + draw.volumes@.len() + draw.datasets@.len();
            let ol = op + draw.stored_placements@.len();
            let os = ol + draw.stored_links@.len();
            assert forall|i: int| 0 <= i < out.placements@.len() implies tk[op + i] == (#[trigger] out.placements@[i]).id@ by {
                assert(out.placements@[i].id == draw.stored_placements@[i]);
            }
            assert forall|i: int| 0 <= i < out.links@.len() implies tk[ol + i] == (#[trigger] out.links@[i]).id@ by {
                assert(out.links@[i].id == draw.stored_links@[i]);
            }
            assert forall|i: int| 0 <= i < out.syncs@.len() implies tk[os + i] == (#[trigger] out.syncs@[i]).id@ by {
                assert(out.syncs@[i].id == draw.stored_syncs@[i]);
            }
            assert forall|i: int, j: int| 0 <= i < out.placements@.len() && 0 <= j < out.placements@.len() && i != j implies #[trigger] out.placements@[i].id@
                != #[trigger] out.placements@[j].id@ by {
                if i < j {
                    assert(tk[op + i] != tk[op + j]);
                } else {
                    assert(tk[op + j] != tk[op + i]);
                }
            }
            assert forall|i: int, j: int| 0 <= i < out.links@.len() && 0 <= j < out.links@.len() && i != j implies #[trigger] out.links@[i].id@
                != #[trigger] out.links@[j].id@ by {
                if i < j {
                    assert(tk[ol + i] != tk[ol + j]);
                } else {
                    assert(tk[ol + j] != tk[ol + i]);
                }
            }
            assert forall|i: int, j: int| 0 <= i < out.syncs@.len() && 0 <= j < out.syncs@.len() && i != j implies #[trigger] out.syncs@[i].id@
                != #[trigger] out.syncs@[j].id@ by {
                if i < j {
                    assert(tk[os + i] != tk[os + j]);
                } else {
                    assert(tk[os + j] != tk[os + i]);
                }
            }
            if ids_distinct(*g) || (blank_ids(*g) && names_distinct(*g)) {
                let ids = draw_table_ids(draw);
                if ids_distinct(*g) {
                    lemma_imported_copy_ids(*g, ids, out);
                } else {
                    lemma_template_copy_ids(*g, ids, out);
                }
                assert(node_ids(out) =~= draw.nodes@);
                assert(volume_ids(out) =~= draw.volumes@);
                assert(dataset_ids(out) =~= draw.datasets@);
                assert(all_ids(out) =~= drawn);
                let m = base + drawn.len();
                let t2 = tk.subrange(0, m);
                assert(t2 =~= all_ids(*g) + all_ids(out));
                assert forall|a: int, b: int| 0 <= a < b < t2.len() && base <= b implies #[trigger] t2[a] != #[trigger] t2[b] by {
                    assert(t2[a] == tk[a] && t2[b] == tk[b]);
                }
                assert forall|j: int| base <= j < t2.len() implies is_uuid_v4_text(#[trigger] t2[j]) by {
                    assert(t2[j] == tk[j]);
                }
                lemma_fresh_copy_ids(all_ids(*g), out, t2);
                lemma_kinds_distinct(out);
            }
        }
    }
    r
}

/// Every id of `g` is blank, as in a template export.
pub open spec fn blank_ids(g: RefGraph) -> bool {
    forall|i: int| 0 <= i < all_ids(g).len() ==> (#[trigger] all_ids(g)[i]).len() == 0
}

/// Within each of nodes, volumes and datasets, the names of `g` differ.
pub open spec fn names_distinct(g: RefGraph) -> bool {
    &&& forall|i: int, j: int| 0 <= i < g.nodes@.len() && 0 <= j < g.nodes@.len() && i != j ==> #[trigger] g.nodes@[i].name@ != #[trigger] g.nodes@[j].name@
    &&& forall|i: int, j: int| 0 <= i < g.volumes@.len() && 0 <= j < g.volumes@.len() && i != j ==> #[trigger] g.volumes@[i].name@ != #[trigger] g.volumes@[j].name@
    &&& forall|i: int, j: int| 0 <= i < g.datasets@.len() && 0 <= j < g.datasets@.len() && i != j ==> #[trigger] g.datasets@[i].name@ != #[trigger] g.datasets@[j].name@
}

/// With blank ids and distinct names, the name key of the `j`-th entity
/// maps to the `j`-th new id.
proof fn lemma_named_lookup_by_name(ids: Seq<String>, names: Seq<String>, prefix: Seq<char>, f: Seq<String>, n: int, j: int)
    requires
        0 <= j < n <= ids.len(),
        n <= names.len(),
        forall|i: int| 0 <= i < n ==> (#[trigger] ids[i])@.len() == 0,
        forall|i: int| 0 <= i < n && i != j ==> (#[trigger] names[i])@ != names[j]@,
    ensures
        table_lookup(named_entries(ids, names, prefix, f, n), prefix + names[j]@) == Some(f[j]),
    decreases n,
{
    reveal_with_fuel(table_lookup, 2);
    let k = prefix + names[j]@;
    let pre = named_entries(ids, names, prefix, f, n - 1);
    let e = id_entry(ids[n - 1]@, f[n - 1]);
    let last = seq![(prefix + names[n - 1]@, f[n - 1])];
    assert(named_entries(ids, names, prefix, f, n) == pre + e + last);
    assert(e =~= Seq::<(Seq<char>, String)>::empty());
    assert(pre + e =~= pre);
    lemma_table_lookup_append(pre, last, k);
    if j < n - 1 {
        let a = prefix + names[n - 1]@;
        if a == k {
            assert(names[n - 1]@ =~= a.subrange(prefix.len() as int, a.len() as int));
            assert(names[j]@ =~= k.subrange(prefix.len() as int, k.len() as int));
        }
        assert(table_lookup(last, k) is None) by {
            assert(last.drop_last() =~= Seq::<(Seq<char>, String)>::empty());
        }
        lemma_named_lookup_by_name(ids, names, prefix, f, n - 1, j);
    }
}

/// With blank ids and distinct names, the copy's nodes, volumes and
/// datasets carry the ids drawn for them.
proof fn lemma_template_copy_ids(g: RefGraph, ids: ImportIds, out: RefGraph)
    requires
        blank_ids(g),
        names_distinct(g),
        ids_fit(g, ids),
        is_imported_copy(g, import_table(g, ids), out),
    ensures
        forall|j: int| 0 <= j < g.nodes@.len() ==> (#[trigger] out.nodes@[j]).id == ids.nodes[j],
        forall|j: int| 0 <= j < g.volumes@.len() ==> (#[trigger] out.volumes@[j]).id == ids.volumes[j],
        forall|j: int| 0 <= j < g.datasets@.len() ==> (#[trigger] out.datasets@[j]).id == ids.datasets[j],
{
    reveal_strlit("node:");
    reveal_strlit("volume:");
    reveal_strlit("dataset:");
    lemma_all_ids_index(g);
    let a = all_ids(g);
    let ov = 1 + g.nodes@.len();
    let od = ov + g.volumes@.len();
    let op = od + g.datasets@.len();
    let ol = op + g.placements@.len();
    let os = ol + g.links@.len();
    let m = import_table(g, ids);
    let t0 = id_entry(g.topology_id@, ids.topology);
    let nn = named_entries(node_ids(g), node_names(g), "node:"@, ids.nodes, g.nodes@.len() as int);
    let vv = named_entries(volume_ids(g), volume_names(g), "volume:"@, ids.volumes, g.volumes@.len() as int);
    let dd = named_entries(dataset_ids(g), dataset_names(g), "dataset:"@, ids.datasets, g.datasets@.len() as int);
    let pp = plain_entries(placement_ids(g), ids.placements, g.placements@.len() as int);
    let ll = plain_entries(link_ids(g), ids.links, g.links@.len() as int);
    let ss = plain_entries(sync_ids(g), ids.syncs, g.syncs@.len() as int);
    assert(m == t0 + nn + vv + dd + pp + ll + ss);
    assert(a[0].len() == 0);
    assert(t0 =~= Seq::<(Seq<char>, String)>::empty());
    assert forall|i: int| 0 <= i < g.nodes@.len() implies (#[trigger] node_ids(g)[i])@.len() == 0 by {
        assert(a[1 + i] == g.nodes@[i].id@);
    }
    assert forall|i: int| 0 <= i < g.volumes@.len() implies (#[trigger] volume_ids(g)[i])@.len() == 0 by {
        assert(a[ov + i] == g.volumes@[i].id@);
    }
    assert forall|i: int| 0 <= i < g.datasets@.len() implies (#[trigger] dataset_ids(g)[i])@.len() == 0 by {
        assert(a[od + i] == g.datasets@[i].id@);
    }
    assert forall|i: int| 0 <= i < g.placements@.len() implies (#[trigger] placement_ids(g)[i])@.len() == 0 by {
        assert(a[op + i] == g.placements@[i].id@);
    }
    assert forall|i: int| 0 <= i < g.links@.len() implies (#[trigger] link_ids(g)[i])@.len() == 0 by {
        assert(a[ol + i] == g.links@[i].id@);
    }
    assert forall|i: int| 0 <= i < g.syncs@.len() implies (#[trigger] sync_ids(g)[i])@.len() == 0 by {
        assert(a[os + i] == g.syncs@[i].id@);
    }
    assert forall|j: int| 0 <= j < g.nodes@.len() implies (#[trigger] out.nodes@[j]).id == ids.nodes[j] by {
        let k = "node:"@ + g.nodes@[j].name@;
        assert(node_names(g)[j] == g.nodes@[j].name);
        assert forall|i: int| 0 <= i < g.nodes@.len() && i != j implies (#[trigger] node_names(g)[i])@ != node_names(g)[j]@ by {
            assert(node_names(g)[i] == g.nodes@[i].name);
        }
        lemma_named_lookup_by_name(node_ids(g), node_names(g), "node:"@, ids.nodes, g.nodes@.len() as int, j);
        assert forall|i: int| 0 <= i < g.volumes@.len() implies "volume:"@ + (#[trigger] volume_names(g)[i])@ != k by {
            assert(("volume:"@ + volume_names(g)[i]@)[0] != k[0]);
        }
        assert forall|i: int| 0 <= i < g.datasets@.len() implies "dataset:"@ + (#[trigger] dataset_names(g)[i])@ != k by {
            assert(("dataset:"@ + dataset_names(g)[i]@)[0] != k[0]);
        }
        lemma_named_lookup(volume_ids(g), volume_names(g), "volume:"@, ids.volumes, g.volumes@.len() as int, k);
        lemma_named_lookup(dataset_ids(g), dataset_names(g), "dataset:"@, ids.datasets, g.datasets@.len() as int, k);
        lemma_plain_lookup(placement_ids(g), ids.placements, g.placements@.len() as int, k);
        lemma_plain_lookup(link_ids(g), ids.links, g.links@.len() as int, k);
        lemma_plain_lookup(sync_ids(g), ids.syncs, g.syncs@.len() as int, k);
        lemma_table_lookup_append(t0 + nn + vv + dd + pp + ll, ss, k);
        lemma_table_lookup_append(t0 + nn + vv + dd + pp, ll, k);
        lemma_table_lookup_append(t0 + nn + vv + dd, pp, k);
        lemma_table_lookup_append(t0 + nn + vv, dd, k);
        lemma_table_lookup_append(t0 + nn, vv, k);
        assert(t0 + nn =~= nn);
        assert(out.nodes@[j].name == g.nodes@[j].name);
    }
    assert forall|j: int| 0 <= j < g.volumes@.len() implies (#[trigger] out.volumes@[j]).id == ids.volumes[j] by {
        let k = "volume:"@ + g.volumes@[j].name@;
        assert(volume_names(g)[j] == g.volumes@[j].name);
        assert forall|i: int| 0 <= i < g.volumes@.len() && i != j implies (#[trigger] volume_names(g)[i])@ != volume_names(g)[j]@ by {
            assert(volume_names(g)[i] == g.volumes@[i].name);
        }
        lemma_named_lookup_by_name(volume_ids(g), volume_names(g), "volume:"@, ids.volumes, g.volumes@.len() as int, j);
        assert forall|i: int| 0 <= i < g.datasets@.len() implies "dataset:"@ + (#[trigger] dataset_names(g)[i])@ != k by {
            assert(("dataset:"@ + dataset_names(g)[i]@)[0] != k[0]);
        }
        lemma_named_lookup(dataset_ids(g), dataset_names(g), "dataset:"@, ids.datasets, g.datasets@.len() as int, k);
        lemma_plain_lookup(placement_ids(g), ids.placements, g.placements@.len() as int, k);
        lemma_plain_lookup(link_ids(g), ids.links, g.links@.len() as int, k);
        lemma_plain_lookup(sync_ids(g), ids.syncs, g.syncs@.len() as int, k);
        lemma_table_lookup_append(t0 + nn + vv + dd + pp + ll, ss, k);
        lemma_table_lookup_append(t0 + nn + vv + dd + pp, ll, k);
        lemma_table_lookup_append(t0 + nn + vv + dd, pp, k);
        lemma_table_lookup_append(t0 + nn + vv, dd, k);
        lemma_table_lookup_append(t0 + nn, vv, k);
        assert(out.volumes@[j].name == g.volumes@[j].name);
    }
    assert forall|j: int| 0 <= j < g.datasets@.len() implies (#[trigger] out.datasets@[j]).id == ids.datasets[j] by {
        let k = "dataset:"@ + g.datasets@[j].name@;
        assert(dataset_names(g)[j] == g.datasets@[j].name);
        assert forall|i: int| 0 <= i < g.datasets@.len() && i != j implies (#[trigger] dataset_names(g)[i])@ != dataset_names(g)[j]@ by {
            assert(dataset_names(g)[i] == g.datasets@[i].name);
        }
        lemma_named_lookup_by_name(dataset_ids(g), dataset_names(g), "dataset:"@, ids.datasets, g.datasets@.len() as int, j);
        lemma_plain_lookup(placement_ids(g), ids.placements, g.placements@.len() as int, k);
        lemma_plain_lookup(link_ids(g), ids.links, g.links@.len() as int, k);
        lemma_plain_lookup(sync_ids(g), ids.syncs, g.syncs@.len() as int, k);
        lemma_table_lookup_append(t0 + nn + vv + dd + pp + ll, ss, k);
        lemma_table_lookup_append(t0 + nn + vv + dd + pp, ll, k);
        lemma_table_lookup_append(t0 + nn + vv + dd, pp, k);
        lemma_table_lookup_append(t0 + nn + vv, dd, k);
        assert(out.datasets@[j].name == g.datasets@[j].name);
    }
}

/// With distinct ids, the copy's nodes, volumes and datasets carry the
/// ids drawn for them.
proof fn lemma_imported_copy_ids(g: RefGraph, ids: ImportIds, out: RefGraph)
    requires
        ids_distinct(g),
        ids_fit(g, ids),
        is_imported_copy(g, import_table(g, ids), out),
    ensures
        forall|j: int| 0 <= j < g.nodes@.len() ==> (#[trigger] out.nodes@[j]).id == ids.nodes[j],
        forall|j: int| 0 <= j < g.volumes@.len() ==> (#[trigger] out.volumes@[j]).id == ids.volumes[j],
        forall|j: int| 0 <= j < g.datasets@.len() ==> (#[trigger] out.datasets@[j]).id == ids.datasets[j],
{
    lemma_all_ids_index(g);
    let ov = 1 + g.nodes@.len();
    let od = ov + g.volumes@.len();
    assert forall|j: int| 0 <= j < g.nodes@.len() implies (#[trigger] out.nodes@[j]).id == ids.nodes[j] by {
        lemma_import_table_lookup(g, ids, 1 + j);
        assert(out.nodes@[j].name == g.nodes@[j].name);
        assert(all_ids(g)[1 + j] == g.nodes@[j].id@);
        assert(all_ids(g)[1 + j].len() > 0);
    }
    assert forall|j: int| 0 <= j < g.volumes@.len() implies (#[trigger] out.volumes@[j]).id == ids.volumes[j] by {
        lemma_import_table_lookup(g, ids, ov + j);
        assert(out.volumes@[j].name == g.volumes@[j].name);
        assert(all_ids(g)[ov + j] == g.volumes@[j].id@);
        assert(all_ids(g)[ov + j].len() > 0);
    }
    assert forall|j: int| 0 <= j < g.datasets@.len() implies (#[trigger] out.datasets@[j]).id == ids.datasets[j] by {
        lemma_import_table_lookup(g, ids, od + j);
        assert(out.datasets@[j].name == g.datasets@[j].name);
        assert(all_ids(g)[od + j] == g.datasets@[j].id@);
        assert(all_ids(g)[od + j].len() > 0);
    }
}

/// The insert phase of an import: rewrite every id and reference through
/// the table `m`, failing on the first one without a new id.
fn import_insert(
    g: &RefGraph,
    m: &Vec<(String, String)>,
    topology_id: String,
    stored_placements: &Vec<String>,
    stored_links: &Vec<String>,
    stored_syncs: &Vec<String>,
    Ghost(tm): Ghost<Seq<(Seq<char>, String)>>,
) -> (r: Result<RefGraph, RemapError>)
    requires
        table_view(m@) == tm,
        stored_placements@.len() == g.placements@.len(),
        stored_links@.len() == g.links@.len(),
        stored_syncs@.len() == g.syncs@.len(),
    ensures
        r matches Ok(out) ==> (forall|i: int| 0 <= i < g.placements@.len() ==> #[trigger] out.placements@[i].id
            == stored_placements@[i]) && (forall|i: int| 0 <= i < g.links@.len() ==> #[trigger] out.links@[i].id
            == stored_links@[i]) && (forall|i: int| 0 <= i < g.syncs@.len() ==> #[trigger] out.syncs@[i].id
            == stored_syncs@[i]),
        r is Ok <==> import_resolves(*g, tm),
        r matches Ok(out) ==> is_imported_copy(*g, tm, out) && out.topology_id == topology_id && out.parent_id is None
            && out.tag is None,
        r matches Err(e) ==> e matches RemapError::CannotRemap { id, fallback } && import_unresolved(
            *g,
            tm,
            id@,
            fallback@,
        ),
{
    let node_sole = if g.nodes.len() == 1 {
        keyed("node:", &g.nodes[0].name)
    } else {
        String::new()
    };
    let volume_sole = if g.volumes.len() == 1 {
        keyed("volume:", &g.volumes[0].name)
    } else {
        String::new()
    };
    let dataset_sole = if g.datasets.len() == 1 {
        keyed("dataset:", &g.datasets[0].name)
    } else {
        String::new()
    };
    proof {
        if g.nodes@.len() == 1 {
            assert(node_names(*g)[0] == g.nodes@[0].name);
        }
        if g.volumes@.len() == 1 {
            assert(volume_names(*g)[0] == g.volumes@[0].name);
        }
        if g.datasets@.len() == 1 {
            assert(dataset_names(*g)[0] == g.datasets@[0].name);
        }
    }
    let mut nodes: Vec<NodeRef> = Vec::new();
    let mut i: usize = 0;
    while i < g.nodes.len()
        invariant
            i <= g.nodes@.len(),
            nodes@.len() == i,
            table_view(m@) == tm,
            node_sole@ == sole_key("node:"@, node_names(*g)),
            volume_sole@ == sole_key("volume:"@, volume_names(*g)),
            dataset_sole@ == sole_key("dataset:"@, dataset_names(*g)),
            forall|j: int|
                0 <= j < i ==> #[trigger] nodes@[j].name == g.nodes@[j].name && remap_id(
                    tm,
                    g.nodes@[j].id@,
                    "node:"@ + g.nodes@[j].name@,
                ) == Some(nodes@[j].id),
        decreases g.nodes.len() - i,
    {
        let key = keyed("node:", &g.nodes[i].name);
        match remap_lookup(m, g.nodes[i].id.as_str(), key.as_str()) {
            Some(id) => {
                nodes.push(NodeRef { id, name: g.nodes[i].name.clone() });
            },
            None => {
                return Err(RemapError::CannotRemap { id: g.nodes[i].id.clone(), fallback: key });
            },
        }
        i = i + 1;
    }
    let mut volumes: Vec<VolumeRef> = Vec::new();
    let mut i: usize = 0;
    while i < g.volumes.len()
        invariant
            i <= g.volumes@.len(),
            volumes@.len() == i,
            table_view(m@) == tm,
            node_sole@ == sole_key("node:"@, node_names(*g)),
            volume_sole@ == sole_key("volume:"@, volume_names(*g)),
            dataset_sole@ == sole_key("dataset:"@, dataset_names(*g)),
            forall|j: int|
                0 <= j < i ==> #[trigger] volumes@[j].name == g.volumes@[j].name && remap_id(
                    tm,
                    g.volumes@[j].id@,
                    "volume:"@ + g.volumes@[j].name@,
                ) == Some(volumes@[j].id) && remap_id(tm, g.volumes@[j].node_id@, node_fallback(*g, g.volumes@[j].node_id@)) == Some(
                    volumes@[j].node_id,
                ),
        decreases g.volumes.len() - i,
    {
        let key = keyed("volume:", &g.volumes[i].name);
        let id = match remap_lookup(m, g.volumes[i].id.as_str(), key.as_str()) {
            Some(x) => x,
            None => {
                return Err(RemapError::CannotRemap { id: g.volumes[i].id.clone(), fallback: key });
            },
        };
        let fb = fallback_for(&g.volumes[i].node_id, &node_sole);
        let node_id = match remap_lookup(m, g.volumes[i].node_id.as_str(), fb.as_str()) {
            Some(x) => x,
            None => {
                return Err(
                    RemapError::CannotRemap {
                        id: g.volumes[i].node_id.clone(),
                        fallback: fb,
                    },
                );
            },
        };
        volumes.push(VolumeRef { id, node_id, name: g.volumes[i].name.clone() });
        i = i + 1;
    }
    let mut datasets: Vec<DatasetRef> = Vec::new();
    let mut i: usize = 0;
    while i < g.datasets.len()
        invariant
            i <= g.datasets@.len(),
            datasets@.len() == i,
            table_view(m@) == tm,
            node_sole@ == sole_key("node:"@, node_names(*g)),
            volume_sole@ == sole_key("volume:"@, volume_names(*g)),
            dataset_sole@ == sole_key("dataset:"@, dataset_names(*g)),
            forall|j: int|
                0 <= j < i ==> #[trigger] datasets@[j].name == g.datasets@[j].name && remap_id(
                    tm,
                    g.datasets@[j].id@,
                    "dataset:"@ + g.datasets@[j].name@,
                ) == Some(datasets@[j].id),
        decreases g.datasets.len() - i,
    {
        let key = keyed("dataset:", &g.datasets[i].name);
        match remap_lookup(m, g.datasets[i].id.as_str(), key.as_str()) {
            Some(id) => {
                datasets.push(DatasetRef { id, name: g.datasets[i].name.clone() });
            },
            None => {
                return Err(RemapError::CannotRemap { id: g.datasets[i].id.clone(), fallback: key });
            },
        }
        i = i + 1;
    }
    let mut placements: Vec<PlacementRef> = Vec::new();
    let mut i: usize = 0;
    while i < g.placements.len()
        invariant
            i <= g.placements@.len(),
            placements@.len() == i,
            stored_placements@.len() == g.placements@.len(),
            forall|j: int| 0 <= j < i ==> #[trigger] placements@[j].id == stored_placements@[j],
            table_view(m@) == tm,
            node_sole@ == sole_key("node:"@, node_names(*g)),
            volume_sole@ == sole_key("volume:"@, volume_names(*g)),
            dataset_sole@ == sole_key("dataset:"@, dataset_names(*g)),
            forall|j: int|
                0 <= j < i ==> remap_id(tm, #[trigger] g.placements@[j].dataset_id@, dataset_fallback(*g, g.placements@[j].dataset_id@)) == Some(
                    placements@[j].dataset_id,
                ) && remap_id(tm, g.placements@[j].volume_id@, volume_fallback(*g, g.placements@[j].volume_id@)) == Some(placements@[j].volume_id),
        decreases g.placements.len() - i,
    {
        let pid = stored_placements[i].clone();
        let fb = fallback_for(&g.placements[i].dataset_id, &dataset_sole);
        let d = match remap_lookup(m, g.placements[i].dataset_id.as_str(), fb.as_str()) {
            Some(x) => x,
            None => {
                return Err(
                    RemapError::CannotRemap {
                        id: g.placements[i].dataset_id.clone(),
                        fallback: fb,
                    },
                );
            },
        };
        let fb = fallback_for(&g.placements[i].volume_id, &volume_sole);
        let v = match remap_lookup(m, g.placements[i].volume_id.as_str(), fb.as_str()) {
            Some(x) => x,
            None => {
                return Err(
                    RemapError::CannotRemap {
                        id: g.placements[i].volume_id.clone(),
                        fallback: fb,
                    },
                );
            },
        };
        placements.push(PlacementRef { id: pid, dataset_id: d, volume_id: v });
        i = i + 1;
    }
    let mut links: Vec<LinkRef> = Vec::new();
    let mut i: usize = 0;
    while i < g.links.len()
        invariant
            i <= g.links@.len(),
            links@.len() == i,
            stored_links@.len() == g.links@.len(),
            forall|j: int| 0 <= j < i ==> #[trigger] links@[j].id == stored_links@[j],
            table_view(m@) == tm,
            node_sole@ == sole_key("node:"@, node_names(*g)),
            volume_sole@ == sole_key("volume:"@, volume_names(*g)),
            dataset_sole@ == sole_key("dataset:"@, dataset_names(*g)),
            forall|j: int|
                0 <= j < i ==> remap_id(tm, #[trigger] g.links@[j].source_node_id@, node_fallback(*g, g.links@[j].source_node_id@)) == Some(
                    links@[j].source_node_id,
                ) && remap_id(tm, g.links@[j].target_node_id@, node_fallback(*g, g.links@[j].target_node_id@)) == Some(links@[j].target_node_id),
        decreases g.links.len() - i,
    {
        let lid = stored_links[i].clone();
        let fb = fallback_for(&g.links[i].source_node_id, &node_sole);
        let s = match remap_lookup(m, g.links[i].source_node_id.as_str(), fb.as_str()) {
            Some(x) => x,
            None => {
                return Err(
                    RemapError::CannotRemap {
                        id: g.links[i].source_node_id.clone(),
                        fallback: fb,
                    },
                );
            },
        };
        let fb = fallback_for(&g.links[i].target_node_id, &node_sole);
        let t = match remap_lookup(m, g.links[i].target_node_id.as_str(), fb.as_str()) {
            Some(x) => x,
            None => {
                return Err(
                    RemapError::CannotRemap {
                        id: g.links[i].target_node_id.clone(),
                        fallback: fb,
                    },
                );
            },
        };
        links.push(LinkRef { id: lid, source_node_id: s, target_node_id: t });
        i = i + 1;
    }
    let mut syncs: Vec<SyncRef> = Vec::new();
    let mut i: usize = 0;
    while i < g.syncs.len()
        invariant
            i <= g.syncs@.len(),
            syncs@.len() == i,
            stored_syncs@.len() == g.syncs@.len(),
            forall|j: int| 0 <= j < i ==> #[trigger] syncs@[j].id == stored_syncs@[j],
            table_view(m@) == tm,
            node_sole@ == sole_key("node:"@, node_names(*g)),
            volume_sole@ == sole_key("volume:"@, volume_names(*g)),
            dataset_sole@ == sole_key("dataset:"@, dataset_names(*g)),
            forall|j: int|
                0 <= j < i ==> remap_id(tm, #[trigger] g.syncs@[j].dataset_id@, dataset_fallback(*g, g.syncs@[j].dataset_id@)) == Some(
                    syncs@[j].dataset_id,
                ) && remap_id(tm, g.syncs@[j].source_volume_id@, volume_fallback(*g, g.syncs@[j].source_volume_id@)) == Some(
                    syncs@[j].source_volume_id,
                ) && remap_id(tm, g.syncs@[j].target_volume_id@, volume_fallback(*g, g.syncs@[j].target_volume_id@)) == Some(
                    syncs@[j].target_volume_id,
                ),
        decreases g.syncs.len() - i,
    {
        let sid = stored_syncs[i].clone();
        let fb = fallback_for(&g.syncs[i].dataset_id, &dataset_sole);
        let d = match remap_lookup(m, g.syncs[i].dataset_id.as_str(), fb.as_str()) {
            Some(x) => x,
            None => {
                return Err(
                    RemapError::CannotRemap { id: g.syncs[i].dataset_id.clone(), fallback: fb },
                );
            },
        };
        let fb = fallback_for(&g.syncs[i].source_volume_id, &volume_sole);
        let s = match remap_lookup(m, g.syncs[i].source_volume_id.as_str(), fb.as_str()) {
            Some(x) => x,
            None => {
                return Err(
                    RemapError::CannotRemap {
                        id: g.syncs[i].source_volume_id.clone(),
                        fallback: fb,
                    },
                );
            },
        };
        let fb = fallback_for(&g.syncs[i].target_volume_id, &volume_sole);
        let t = match remap_lookup(m, g.syncs[i].target_volume_id.as_str(), fb.as_str()) {
            Some(x) => x,
            None => {
                return Err(
                    RemapError::CannotRemap {
                        id: g.syncs[i].target_volume_id.clone(),
                        fallback: fb,
                    },
                );
            },
        };
        syncs.push(SyncRef { id: sid, dataset_id: d, source_volume_id: s, target_volume_id: t });
        i = i + 1;
    }
    let out = RefGraph { topology_id, parent_id: None, tag: None, nodes, volumes, datasets, placements, links, syncs };
    proof {
        assert forall|j: int| 0 <= j < g.volumes@.len() implies remap_id(tm, #[trigger] g.volumes@[j].id@, "volume:"@ + g.volumes@[j].name@) is Some
            && remap_id(tm, g.volumes@[j].node_id@, node_fallback(*g, g.volumes@[j].node_id@)) is Some by {
            assert(out.volumes@[j].name == g.volumes@[j].name);
        }
        assert forall|j: int| 0 <= j < g.nodes@.len() implies remap_id(tm, #[trigger] g.nodes@[j].id@, "node:"@ + g.nodes@[j].name@) is Some by {
            assert(out.nodes@[j].name == g.nodes@[j].name);
        }
        assert forall|j: int| 0 <= j < g.datasets@.len() implies remap_id(tm, #[trigger] g.datasets@[j].id@, "dataset:"@ + g.datasets@[j].name@) is Some by {
            assert(out.datasets@[j].name == g.datasets@[j].name);
        }
    }
    Ok(out)
}

} // verus!

verus! {

// ---------------------------------------------------------------------------
// Template exports
// ---------------------------------------------------------------------------

/// `out` is `g` with every id and reference blanked; names stay.
pub open spec fn is_stripped(g: RefGraph, out: RefGraph) -> bool {
    &&& out.topology_id@ == Seq::<char>::empty()
    &&& out.parent_id is None
    &&& out.tag is None
    &&& out.nodes@.len() == g.nodes@.len()
    &&& out.volumes@.len() == g.volumes@.len()
    &&& out.datasets@.len() == g.datasets@.len()
    &&& out.placements@.len() == g.placements@.len()
    &&& out.links@.len() == g.links@.len()
    &&& out.syncs@.len() == g.syncs@.len()
    &&& forall|i: int|
        0 <= i < g.nodes@.len() ==> (#[trigger] out.nodes@[i]).name == g.nodes@[i].name && out.nodes@[i].id@
            == Seq::<char>::empty()
    &&& forall|i: int|
        0 <= i < g.volumes@.len() ==> (#[trigger] out.volumes@[i]).name == g.volumes@[i].name
            && out.volumes@[i].id@ == Seq::<char>::empty() && out.volumes@[i].node_id@ == Seq::<char>::empty()
    &&& forall|i: int|
        0 <= i < g.datasets@.len() ==> (#[trigger] out.datasets@[i]).name == g.datasets@[i].name
            && out.datasets@[i].id@ == Seq::<char>::empty()
    &&& forall|i: int|
        0 <= i < g.placements@.len() ==> (#[trigger] out.placements@[i]).id@ == Seq::<char>::empty()
            && out.placements@[i].dataset_id@ == Seq::<char>::empty() && out.placements@[i].volume_id@
            == Seq::<char>::empty()
    &&& forall|i: int|
        0 <= i < g.links@.len() ==> (#[trigger] out.links@[i]).id@ == Seq::<char>::empty()
            && out.links@[i].source_node_id@ == Seq::<char>::empty() && out.links@[i].target_node_id@
            == Seq::<char>::empty()
    &&& forall|i: int|
        0 <= i < g.syncs@.len() ==> (#[trigger] out.syncs@[i]).id@ == Seq::<char>::empty()
            && out.syncs@[i].dataset_id@ == Seq::<char>::empty() && out.syncs@[i].source_volume_id@
            == Seq::<char>::empty() && out.syncs@[i].target_volume_id@ == Seq::<char>::empty()
}

fn strip_nodes(v: &mut Vec<NodeRef>)
    ensures
        final(v)@.len() == old(v)@.len(),
        forall|j: int|
            0 <= j < old(v)@.len() ==> (#[trigger] final(v)@[j]).name == old(v)@[j].name && final(v)@[j].id@
                == Seq::<char>::empty(),
{
    let ghost orig = v@;
    let mut i: usize = 0;
    while i < v.len()
        invariant
            v@.len() == orig.len(),
            i <= v@.len(),
            forall|j: int| 0 <= j < i ==> (#[trigger] v@[j]).name == orig[j].name && v@[j].id@ == Seq::<char>::empty(),
            forall|j: int| i <= j < v@.len() ==> (#[trigger] v@[j]) == orig[j],
        decreases v.len() - i,
    {
        let name = v[i].name.clone();
        v.set(i, NodeRef { id: String::new(), name });
        i = i + 1;
    }
}

fn strip_volumes(v: &mut Vec<VolumeRef>)
    ensures
        final(v)@.len() == old(v)@.len(),
        forall|j: int|
            0 <= j < old(v)@.len() ==> (#[trigger] final(v)@[j]).name == old(v)@[j].name && final(v)@[j].id@
                == Seq::<char>::empty() && final(v)@[j].node_id@ == Seq::<char>::empty(),
{
    let ghost orig = v@;
    let mut i: usize = 0;
    while i < v.len()
        invariant
            v@.len() == orig.len(),
            i <= v@.len(),
            forall|j: int|
                0 <= j < i ==> (#[trigger] v@[j]).name == orig[j].name && v@[j].id@ == Seq::<char>::empty()
                    && v@[j].node_id@ == Seq::<char>::empty(),
            forall|j: int| i <= j < v@.len() ==> (#[trigger] v@[j]) == orig[j],
        decreases v.len() - i,
    {
        let name = v[i].name.clone();
        v.set(i, VolumeRef { id: String::new(), node_id: String::new(), name });
        i = i + 1;
    }
}

fn strip_datasets(v: &mut Vec<DatasetRef>)
    ensures
        final(v)@.len() == old(v)@.len(),
        forall|j: int|
            0 <= j < old(v)@.len() ==> (#[trigger] final(v)@[j]).name == old(v)@[j].name && final(v)@[j].id@
                == Seq::<char>::empty(),
{
    let ghost orig = v@;
    let mut i: usize = 0;
    while i < v.len()
        invariant
            v@.len() == orig.len(),
            i <= v@.len(),
            forall|j: int| 0 <= j < i ==> (#[trigger] v@[j]).name == orig[j].name && v@[j].id@ == Seq::<char>::empty(),
            forall|j: int| i <= j < v@.len() ==> (#[trigger] v@[j]) == orig[j],
        decreases v.len() - i,
    {
        let name = v[i].name.clone();
        v.set(i, DatasetRef { id: String::new(), name });
        i = i + 1;
    }
}

fn strip_placements(v: &mut Vec<PlacementRef>)
    ensures
        final(v)@.len() == old(v)@.len(),
        forall|j: int|
            0 <= j < old(v)@.len() ==> (#[trigger] final(v)@[j]).id@ == Seq::<char>::empty()
                && final(v)@[j].dataset_id@ == Seq::<char>::empty() && final(v)@[j].volume_id@ == Seq::<char>::empty(),
{
    let ghost n = v@.len();
    let mut i: usize = 0;
    while i < v.len()
        invariant
            v@.len() == n,
            i <= v@.len(),
            forall|j: int|
                0 <= j < i ==> (#[trigger] v@[j]).id@ == Seq::<char>::empty() && v@[j].dataset_id@
                    == Seq::<char>::empty() && v@[j].volume_id@ == Seq::<char>::empty(),
        decreases v.len() - i,
    {
        v.set(i, PlacementRef { id: String::new(), dataset_id: String::new(), volume_id: String::new() });
        i = i + 1;
    }
}

fn strip_links(v: &mut Vec<LinkRef>)
    ensures
        final(v)@.len() == old(v)@.len(),
        forall|j: int|
            0 <= j < old(v)@.len() ==> (#[trigger] final(v)@[j]).id@ == Seq::<char>::empty()
                && final(v)@[j].source_node_id@ == Seq::<char>::empty() && final(v)@[j].target_node_id@
                == Seq::<char>::empty(),
{
    let ghost n = v@.len();
    let mut i: usize = 0;
    while i < v.len()
        invariant
            v@.len() == n,
            i <= v@.len(),
            forall|j: int|
                0 <= j < i ==> (#[trigger] v@[j]).id@ == Seq::<char>::empty() && v@[j].source_node_id@
                    == Seq::<char>::empty() && v@[j].target_node_id@ == Seq::<char>::empty(),
        decreases v.len() - i,
    {
        v.set(i, LinkRef { id: String::new(), source_node_id: String::new(), target_node_id: String::new() });
        i = i + 1;
    }
}

fn strip_syncs(v: &mut Vec<SyncRef>)
    ensures
        final(v)@.len() == old(v)@.len(),
        forall|j: int|
            0 <= j < old(v)@.len() ==> (#[trigger] final(v)@[j]).id@ == Seq::<char>::empty()
                && final(v)@[j].dataset_id@ == Seq::<char>::empty() && final(v)@[j].source_volume_id@
                == Seq::<char>::empty() && final(v)@[j].target_volume_id@ == Seq::<char>::empty(),
{
    let ghost n = v@.len();
    let mut i: usize = 0;
    while i < v.len()
        invariant
            v@.len() == n,
            i <= v@.len(),
            forall|j: int|
                0 <= j < i ==> (#[trigger] v@[j]).id@ == Seq::<char>::empty() && v@[j].dataset_id@
                    == Seq::<char>::empty() && v@[j].source_volume_id@ == Seq::<char>::empty()
                    && v@[j].target_volume_id@ == Seq::<char>::empty(),
        decreases v.len() - i,
    {
        v.set(
            i,
            SyncRef {
                id: String::new(),
                dataset_id: String::new(),
                source_volume_id: String::new(),
                target_volume_id: String::new(),
            },
        );
        i = i + 1;
    }
}

/// Blank every id and reference, for a template export that an import
/// fills with fresh ids.
pub fn strip_ids(g: &mut RefGraph)
    ensures
        is_stripped(*old(g), *final(g)),
{
    g.topology_id = String::new();
    g.parent_id = None;
    g.tag = None;
    strip_nodes(&mut g.nodes);
    strip_volumes(&mut g.volumes);
    strip_datasets(&mut g.datasets);
    strip_placements(&mut g.placements);
    strip_links(&mut g.links);
    strip_syncs(&mut g.syncs);
}

/// `a` and `b` hold the same topology: the same parent and tag, the same
/// entities in the same order, with the same names and the same ids and
/// references as text.
pub open spec fn same_graph(a: RefGraph, b: RefGraph) -> bool {
    &&& a.topology_id@ == b.topology_id@
    &&& a.parent_id == b.parent_id
    &&& a.tag == b.tag
    &&& a.nodes@.len() == b.nodes@.len()
    &&& a.volumes@.len() == b.volumes@.len()
    &&& a.datasets@.len() == b.datasets@.len()
    &&& a.placements@.len() == b.placements@.len()
    &&& a.links@.len() == b.links@.len()
    &&& a.syncs@.len() == b.syncs@.len()
    &&& forall|i: int| 0 <= i < a.nodes@.len() ==> (#[trigger] a.nodes@[i]).name == b.nodes@[i].name
        && a.nodes@[i].id@ == b.nodes@[i].id@
    &&& forall|i: int| 0 <= i < a.volumes@.len() ==> (#[trigger] a.volumes@[i]).name == b.volumes@[i].name
        && a.volumes@[i].id@ == b.volumes@[i].id@ && a.volumes@[i].node_id@ == b.volumes@[i].node_id@
    &&& forall|i: int| 0 <= i < a.datasets@.len() ==> (#[trigger] a.datasets@[i]).name == b.datasets@[i].name
        && a.datasets@[i].id@ == b.datasets@[i].id@
    &&& forall|i: int| 0 <= i < a.placements@.len() ==> (#[trigger] a.placements@[i]).id@ == b.placements@[i].id@
        && a.placements@[i].dataset_id@ == b.placements@[i].dataset_id@ && a.placements@[i].volume_id@
        == b.placements@[i].volume_id@
    &&& forall|i: int| 0 <= i < a.links@.len() ==> (#[trigger] a.links@[i]).id@ == b.links@[i].id@
        && a.links@[i].source_node_id@ == b.links@[i].source_node_id@ && a.links@[i].target_node_id@
        == b.links@[i].target_node_id@
    &&& forall|i: int| 0 <= i < a.syncs@.len() ==> (#[trigger] a.syncs@[i]).id@ == b.syncs@[i].id@
        && a.syncs@[i].dataset_id@ == b.syncs@[i].dataset_id@ && a.syncs@[i].source_volume_id@
        == b.syncs@[i].source_volume_id@ && a.syncs@[i].target_volume_id@ == b.syncs@[i].target_volume_id@
}

/// Stripping a stripped topology changes nothing: a second `strip_ids`
/// leaves the same topology, still stripped of the original's ids.
pub proof fn lemma_strip_twice(g: RefGraph, a: RefGraph, b: RefGraph)
    requires
        is_stripped(g, a),
        is_stripped(a, b),
    ensures
        same_graph(a, b),
        is_stripped(g, b),
{
    assert forall|i: int| 0 <= i < a.nodes@.len() implies (#[trigger] a.nodes@[i]).name == b.nodes@[i].name
        && a.nodes@[i].id@ == b.nodes@[i].id@ by {
        assert(b.nodes@[i].name == a.nodes@[i].name);
    }
    assert forall|i: int| 0 <= i < a.volumes@.len() implies (#[trigger] a.volumes@[i]).name == b.volumes@[i].name
        && a.volumes@[i].id@ == b.volumes@[i].id@ && a.volumes@[i].node_id@ == b.volumes@[i].node_id@ by {
        assert(b.volumes@[i].name == a.volumes@[i].name);
    }
    assert forall|i: int| 0 <= i < a.datasets@.len() implies (#[trigger] a.datasets@[i]).name == b.datasets@[i].name
        && a.datasets@[i].id@ == b.datasets@[i].id@ by {
        assert(b.datasets@[i].name == a.datasets@[i].name);
    }
    assert forall|i: int| 0 <= i < a.placements@.len() implies (#[trigger] a.placements@[i]).id@ == b.placements@[i].id@
        && a.placements@[i].dataset_id@ == b.placements@[i].dataset_id@ && a.placements@[i].volume_id@
        == b.placements@[i].volume_id@ by {
        assert(b.placements@[i].id@ == Seq::<char>::empty());
    }
    assert forall|i: int| 0 <= i < a.links@.len() implies (#[trigger] a.links@[i]).id@ == b.links@[i].id@
        && a.links@[i].source_node_id@ == b.links@[i].source_node_id@ && a.links@[i].target_node_id@
        == b.links@[i].target_node_id@ by {
        assert(b.links@[i].id@ == Seq::<char>::empty());
    }
    assert forall|i: int| 0 <= i < a.syncs@.len() implies (#[trigger] a.syncs@[i]).id@ == b.syncs@[i].id@
        && a.syncs@[i].dataset_id@ == b.syncs@[i].dataset_id@ && a.syncs@[i].source_volume_id@
        == b.syncs@[i].source_volume_id@ && a.syncs@[i].target_volume_id@ == b.syncs@[i].target_volume_id@ by {
        assert(b.syncs@[i].id@ == Seq::<char>::empty());
    }
    assert forall|i: int| 0 <= i < g.nodes@.len() implies (#[trigger] b.nodes@[i]).name == g.nodes@[i].name by {
        assert(a.nodes@[i].name == g.nodes@[i].name);
    }
    assert forall|i: int| 0 <= i < g.volumes@.len() implies (#[trigger] b.volumes@[i]).name == g.volumes@[i].name by {
        assert(a.volumes@[i].name == g.volumes@[i].name);
    }
    assert forall|i: int| 0 <= i < g.datasets@.len() implies (#[trigger] b.datasets@[i]).name == g.datasets@[i].name by {
        assert(a.datasets@[i].name == g.datasets@[i].name);
    }
}

// ---------------------------------------------------------------------------
// Lookups in an import's id table
// ---------------------------------------------------------------------------

/// A lookup in a concatenation finds the later part first.
pub proof fn lemma_table_lookup_append(a: Seq<(Seq<char>, String)>, b: Seq<(Seq<char>, String)>, k: Seq<char>)
    ensures
        table_lookup(a + b, k) == if table_lookup(b, k) is Some {
            table_lookup(b, k)
        } else {
            table_lookup(a, k)
        },
    decreases b.len(),
{
    if b.len() == 0 {
        assert(a + b =~= a);
    } else {
        assert((a + b).drop_last() =~= a + b.drop_last());
        assert((a + b).last() == b.last());
        lemma_table_lookup_append(a, b.drop_last(), k);
    }
}

/// A key none of whose entities carries it is not in their entries; a key
/// carried by exactly one of them (as its non-empty id) maps to that
/// entity's new id.
proof fn lemma_named_lookup(
    ids: Seq<String>,
    names: Seq<String>,
    prefix: Seq<char>,
    f: Seq<String>,
    n: int,
    k: Seq<char>,
)
    requires
        0 <= n <= ids.len(),
        n <= names.len(),
        forall|i: int| 0 <= i < n ==> prefix + (#[trigger] names[i])@ != k,
    ensures
        (forall|i: int| 0 <= i < n ==> (#[trigger] ids[i])@ != k) ==> table_lookup(
            named_entries(ids, names, prefix, f, n),
            k,
        ) is None,
        forall|j: int|
            0 <= j < n && (#[trigger] ids[j])@ == k && k.len() > 0 && (forall|i: int|
                0 <= i < n && i != j ==> ids[i]@ != k) ==> table_lookup(named_entries(ids, names, prefix, f, n), k)
                == Some(f[j]),
    decreases n,
{
    reveal_with_fuel(table_lookup, 2);
    if n > 0 {
        lemma_named_lookup(ids, names, prefix, f, n - 1, k);
        let pre = named_entries(ids, names, prefix, f, n - 1);
        let e = id_entry(ids[n - 1]@, f[n - 1]);
        let last = seq![(prefix + names[n - 1]@, f[n - 1])];
        assert(named_entries(ids, names, prefix, f, n) == pre + e + last);
        lemma_table_lookup_append(pre + e, last, k);
        lemma_table_lookup_append(pre, e, k);
        assert(prefix + names[n - 1]@ != k);
        assert(table_lookup(last, k) is None) by {
            assert(last.drop_last() =~= Seq::<(Seq<char>, String)>::empty());
        }
        if ids[n - 1]@.len() > 0 {
            assert(e.drop_last() =~= Seq::<(Seq<char>, String)>::empty());
        }
    }
}

/// The same for entities keyed by id only.
proof fn lemma_plain_lookup(ids: Seq<String>, f: Seq<String>, n: int, k: Seq<char>)
    requires
        0 <= n <= ids.len(),
    ensures
        (forall|i: int| 0 <= i < n ==> (#[trigger] ids[i])@ != k) ==> table_lookup(plain_entries(ids, f, n), k) is None,
    decreases n,
{
    reveal_with_fuel(table_lookup, 2);
    if n > 0 {
        lemma_plain_lookup(ids, f, n - 1, k);
        let pre = plain_entries(ids, f, n - 1);
        let e = id_entry(ids[n - 1]@, f[n - 1]);
        lemma_table_lookup_append(pre, e, k);
        if ids[n - 1]@.len() > 0 {
            assert(e.drop_last() =~= Seq::<(Seq<char>, String)>::empty());
        }
        if forall|i: int| 0 <= i < n ==> (#[trigger] ids[i])@ != k {
            assert(ids[n - 1]@ != k);
            assert forall|i: int| 0 <= i < n - 1 implies (#[trigger] ids[i])@ != k by {}
        }
    }
}

/// Every id of `g`, the topology's first, then nodes, volumes, datasets,
/// placements, links and sync regimes.
pub open spec fn all_ids(g: RefGraph) -> Seq<Seq<char>> {
    seq![g.topology_id@] + texts(node_ids(g)) + texts(volume_ids(g)) + texts(dataset_ids(g)) + texts(
        placement_ids(g),
    ) + texts(link_ids(g)) + texts(sync_ids(g))
}

/// A `node:`/`volume:`/`dataset:` name key of `g`.
pub open spec fn is_name_key(g: RefGraph, k: Seq<char>) -> bool {
    ||| exists|i: int| 0 <= i < g.nodes@.len() && k == "node:"@ + (#[trigger] g.nodes@[i]).name@
    ||| exists|i: int| 0 <= i < g.volumes@.len() && k == "volume:"@ + (#[trigger] g.volumes@[i]).name@
    ||| exists|i: int| 0 <= i < g.datasets@.len() && k == "dataset:"@ + (#[trigger] g.datasets@[i]).name@
}

/// The ids of `g` are non-empty and pairwise distinct, and none of them
/// reads like a name key.
pub open spec fn ids_distinct(g: RefGraph) -> bool {
    let a = all_ids(g);
    &&& forall|i: int| 0 <= i < a.len() ==> (#[trigger] a[i]).len() > 0 && !is_name_key(g, a[i])
    &&& forall|i: int, j: int| 0 <= i < j < a.len() ==> #[trigger] a[i] != #[trigger] a[j]
}

} // verus!

verus! {

/// Within each kind, the entities of `g` have pairwise different ids.
pub open spec fn kinds_distinct(g: RefGraph) -> bool {
    &&& forall|i: int, j: int| 0 <= i < g.nodes@.len() && 0 <= j < g.nodes@.len() && i != j ==> #[trigger] g.nodes@[i].id@ != #[trigger] g.nodes@[j].id@
    &&& forall|i: int, j: int| 0 <= i < g.volumes@.len() && 0 <= j < g.volumes@.len() && i != j ==> #[trigger] g.volumes@[i].id@ != #[trigger] g.volumes@[j].id@
    &&& forall|i: int, j: int| 0 <= i < g.datasets@.len() && 0 <= j < g.datasets@.len() && i != j ==> #[trigger] g.datasets@[i].id@ != #[trigger] g.datasets@[j].id@
    &&& forall|i: int, j: int| 0 <= i < g.placements@.len() && 0 <= j < g.placements@.len() && i != j ==> #[trigger] g.placements@[i].id@ != #[trigger] g.placements@[j].id@
    &&& forall|i: int, j: int| 0 <= i < g.links@.len() && 0 <= j < g.links@.len() && i != j ==> #[trigger] g.links@[i].id@ != #[trigger] g.links@[j].id@
    &&& forall|i: int, j: int| 0 <= i < g.syncs@.len() && 0 <= j < g.syncs@.len() && i != j ==> #[trigger] g.syncs@[i].id@ != #[trigger] g.syncs@[j].id@
}

/// Ids distinct over the whole topology are distinct within each kind.
pub proof fn lemma_kinds_distinct(g: RefGraph)
    requires
        ids_distinct(g),
    ensures
        kinds_distinct(g),
{
    lemma_all_ids_index(g);
    let a = all_ids(g);
    let on = 1int;
    let ov = on + g.nodes@.len();
    let od = ov + g.volumes@.len();
    let op = od + g.datasets@.len();
    let ol = op + g.placements@.len();
    let os = ol + g.links@.len();
    assert forall|i: int, j: int| 0 <= i < g.nodes@.len() && 0 <= j < g.nodes@.len() && i != j implies #[trigger] g.nodes@[i].id@ != #[trigger] g.nodes@[j].id@ by {
        assert(a[on + i] != a[on + j]);
    }
    assert forall|i: int, j: int| 0 <= i < g.volumes@.len() && 0 <= j < g.volumes@.len() && i != j implies #[trigger] g.volumes@[i].id@ != #[trigger] g.volumes@[j].id@ by {
        assert(a[ov + i] != a[ov + j]);
    }
    assert forall|i: int, j: int| 0 <= i < g.datasets@.len() && 0 <= j < g.datasets@.len() && i != j implies #[trigger] g.datasets@[i].id@ != #[trigger] g.datasets@[j].id@ by {
        assert(a[od + i] != a[od + j]);
    }
    assert forall|i: int, j: int| 0 <= i < g.placements@.len() && 0 <= j < g.placements@.len() && i != j implies #[trigger] g.placements@[i].id@ != #[trigger] g.placements@[j].id@ by {
        assert(a[op + i] != a[op + j]);
    }
    assert forall|i: int, j: int| 0 <= i < g.links@.len() && 0 <= j < g.links@.len() && i != j implies #[trigger] g.links@[i].id@ != #[trigger] g.links@[j].id@ by {
        assert(a[ol + i] != a[ol + j]);
    }
    assert forall|i: int, j: int| 0 <= i < g.syncs@.len() && 0 <= j < g.syncs@.len() && i != j implies #[trigger] g.syncs@[i].id@ != #[trigger] g.syncs@[j].id@ by {
        assert(a[os + i] != a[os + j]);
    }
}

/// A version-4 UUID text is non-empty and reads like no name key.
proof fn lemma_uuid_not_name_key(g: RefGraph, k: Seq<char>)
    requires
        is_uuid_v4_text(k),
    ensures
        k.len() > 0,
        !is_name_key(g, k),
{
    reveal_strlit("node:");
    reveal_strlit("volume:");
    reveal_strlit("dataset:");
    assert(is_lower_hex(k[4]) && is_lower_hex(k[6]) && is_lower_hex(k[7]));
    if is_name_key(g, k) {
        if exists|i: int| 0 <= i < g.nodes@.len() && k == "node:"@ + (#[trigger] g.nodes@[i]).name@ {
            let i = choose|i: int| 0 <= i < g.nodes@.len() && k == "node:"@ + (#[trigger] g.nodes@[i]).name@;
            assert(k[4] == ':');
        } else if exists|i: int| 0 <= i < g.volumes@.len() && k == "volume:"@ + (#[trigger] g.volumes@[i]).name@ {
            let i = choose|i: int| 0 <= i < g.volumes@.len() && k == "volume:"@ + (#[trigger] g.volumes@[i]).name@;
            assert(k[6] == ':');
        } else {
            let i = choose|i: int| 0 <= i < g.datasets@.len() && k == "dataset:"@ + (#[trigger] g.datasets@[i]).name@;
            assert(k[7] == ':');
        }
    }
}

/// Ids drawn fresh after `src_ids`, each a version-4 UUID, make a
/// topology whose ids are distinct and none of `src_ids`.
proof fn lemma_fresh_copy_ids(src_ids: Seq<Seq<char>>, out: RefGraph, t: Seq<Seq<char>>)
    requires
        t == src_ids + all_ids(out),
        fresh_from(t, src_ids.len() as int),
        uuid_from(t, src_ids.len() as int),
    ensures
        ids_distinct(out),
        forall|k: int| 0 <= k < all_ids(out).len() ==> !src_ids.contains(#[trigger] all_ids(out)[k]),
{
    let a = all_ids(out);
    let n = src_ids.len() as int;
    assert forall|i: int| 0 <= i < a.len() implies (#[trigger] a[i]).len() > 0 && !is_name_key(out, a[i]) by {
        assert(t[n + i] == a[i]);
        lemma_uuid_not_name_key(out, a[i]);
    }
    assert forall|i: int, j: int| 0 <= i < j < a.len() implies #[trigger] a[i] != #[trigger] a[j] by {
        assert(t[n + i] == a[i] && t[n + j] == a[j]);
    }
    assert forall|k: int| 0 <= k < a.len() implies !src_ids.contains(#[trigger] a[k]) by {
        assert(t[n + k] == a[k]);
        if src_ids.contains(a[k]) {
            let i = choose|i: int| 0 <= i < src_ids.len() && src_ids[i] == a[k];
            assert(t[i] == src_ids[i]);
        }
    }
}

/// Where each entity's id sits in `all_ids`.
proof fn lemma_all_ids_index(g: RefGraph)
    ensures
        ({
            let a = all_ids(g);
            let on = 1int;
            let ov = on + g.nodes@.len();
            let od = ov + g.volumes@.len();
            let op = od + g.datasets@.len();
            let ol = op + g.placements@.len();
            let os = ol + g.links@.len();
            &&& a.len() == os + g.syncs@.len()
            &&& a[0] == g.topology_id@
            &&& forall|i: int| 0 <= i < g.nodes@.len() ==> a[on + i] == (#[trigger] g.nodes@[i]).id@
            &&& forall|i: int| 0 <= i < g.volumes@.len() ==> a[ov + i] == (#[trigger] g.volumes@[i]).id@
            &&& forall|i: int| 0 <= i < g.datasets@.len() ==> a[od + i] == (#[trigger] g.datasets@[i]).id@
            &&& forall|i: int| 0 <= i < g.placements@.len() ==> a[op + i] == (#[trigger] g.placements@[i]).id@
            &&& forall|i: int| 0 <= i < g.links@.len() ==> a[ol + i] == (#[trigger] g.links@[i]).id@
            &&& forall|i: int| 0 <= i < g.syncs@.len() ==> a[os + i] == (#[trigger] g.syncs@[i]).id@
        }),
{
    let t = seq![g.topology_id@];
    let n = texts(node_ids(g));
    let v = texts(volume_ids(g));
    let d = texts(dataset_ids(g));
    let p = texts(placement_ids(g));
    let l = texts(link_ids(g));
    let s = texts(sync_ids(g));
    assert(all_ids(g) == t + n + v + d + p + l + s);
    let on = 1int;
    let ov = on + g.nodes@.len();
    let od = ov + g.volumes@.len();
    let op = od + g.datasets@.len();
    let ol = op + g.placements@.len();
    let os = ol + g.links@.len();
    assert forall|i: int| 0 <= i < g.nodes@.len() implies all_ids(g)[on + i] == (#[trigger] g.nodes@[i]).id@ by {
        assert(n[i] == g.nodes@[i].id@);
    }
    assert forall|i: int| 0 <= i < g.volumes@.len() implies all_ids(g)[ov + i] == (#[trigger] g.volumes@[i]).id@ by {
        assert(v[i] == g.volumes@[i].id@);
    }
    assert forall|i: int| 0 <= i < g.datasets@.len() implies all_ids(g)[od + i] == (#[trigger] g.datasets@[i]).id@ by {
        assert(d[i] == g.datasets@[i].id@);
    }
    assert forall|i: int| 0 <= i < g.placements@.len() implies all_ids(g)[op + i] == (#[trigger] g.placements@[i]).id@ by {
        assert(p[i] == g.placements@[i].id@);
    }
    assert forall|i: int| 0 <= i < g.links@.len() implies all_ids(g)[ol + i] == (#[trigger] g.links@[i]).id@ by {
        assert(l[i] == g.links@[i].id@);
    }
    assert forall|i: int| 0 <= i < g.syncs@.len() implies all_ids(g)[os + i] == (#[trigger] g.syncs@[i]).id@ by {
        assert(s[i] == g.syncs@[i].id@);
    }
}

/// The fresh ids drawn for `g` come in the right numbers.
pub open spec fn ids_fit(g: RefGraph, ids: ImportIds) -> bool {
    &&& ids.nodes.len() == g.nodes@.len()
    &&& ids.volumes.len() == g.volumes@.len()
    &&& ids.datasets.len() == g.datasets@.len()
    &&& ids.placements.len() == g.placements@.len()
    &&& ids.links.len() == g.links@.len()
    &&& ids.syncs.len() == g.syncs@.len()
}

/// In the import table of a topology with distinct ids, an entity's id
/// maps to the fresh id drawn for that entity.
#[verifier::spinoff_prover]
#[verifier::rlimit(80)]
proof fn lemma_import_table_lookup(g: RefGraph, ids: ImportIds, x: int)
    requires
        ids_distinct(g),
        ids_fit(g, ids),
        1 <= x < 1 + g.nodes@.len() + g.volumes@.len() + g.datasets@.len(),
    ensures
        ({
            let k = all_ids(g)[x];
            let m = import_table(g, ids);
            let ov = 1 + g.nodes@.len();
            let od = ov + g.volumes@.len();
            &&& x < ov ==> table_lookup(m, k) == Some(ids.nodes[x - 1])
            &&& ov <= x < od ==> table_lookup(m, k) == Some(ids.volumes[x - ov])
            &&& od <= x ==> table_lookup(m, k) == Some(ids.datasets[x - od])
        }),
{
    lemma_all_ids_index(g);
    let a = all_ids(g);
    let k = a[x];
    let on = 1int;
    let ov = on + g.nodes@.len();
    let od = ov + g.volumes@.len();
    let op = od + g.datasets@.len();
    let ol = op + g.placements@.len();
    let os = ol + g.links@.len();
    assert(k.len() > 0 && !is_name_key(g, k));
    let t0 = id_entry(g.topology_id@, ids.topology);
    let nn = named_entries(node_ids(g), node_names(g), "node:"@, ids.nodes, g.nodes@.len() as int);
    let vv = named_entries(volume_ids(g), volume_names(g), "volume:"@, ids.volumes, g.volumes@.len() as int);
    let dd = named_entries(dataset_ids(g), dataset_names(g), "dataset:"@, ids.datasets, g.datasets@.len() as int);
    let pp = plain_entries(placement_ids(g), ids.placements, g.placements@.len() as int);
    let ll = plain_entries(link_ids(g), ids.links, g.links@.len() as int);
    let ss = plain_entries(sync_ids(g), ids.syncs, g.syncs@.len() as int);
    assert(import_table(g, ids) == t0 + nn + vv + dd + pp + ll + ss);
    // No name key equals k.
    assert forall|i: int| 0 <= i < g.nodes@.len() implies "node:"@ + (#[trigger] node_names(g)[i])@ != k by {
        assert(node_names(g)[i] == g.nodes@[i].name);
        if "node:"@ + g.nodes@[i].name@ == k {
            assert(is_name_key(g, k));
        }
    }
    assert forall|i: int| 0 <= i < g.volumes@.len() implies "volume:"@ + (#[trigger] volume_names(g)[i])@ != k by {
        assert(volume_names(g)[i] == g.volumes@[i].name);
        if "volume:"@ + g.volumes@[i].name@ == k {
            assert(is_name_key(g, k));
        }
    }
    assert forall|i: int| 0 <= i < g.datasets@.len() implies "dataset:"@ + (#[trigger] dataset_names(g)[i])@ != k by {
        assert(dataset_names(g)[i] == g.datasets@[i].name);
        if "dataset:"@ + g.datasets@[i].name@ == k {
            assert(is_name_key(g, k));
        }
    }
    lemma_named_lookup(node_ids(g), node_names(g), "node:"@, ids.nodes, g.nodes@.len() as int, k);
    lemma_named_lookup(volume_ids(g), volume_names(g), "volume:"@, ids.volumes, g.volumes@.len() as int, k);
    lemma_named_lookup(dataset_ids(g), dataset_names(g), "dataset:"@, ids.datasets, g.datasets@.len() as int, k);
    lemma_plain_lookup(placement_ids(g), ids.placements, g.placements@.len() as int, k);
    lemma_plain_lookup(link_ids(g), ids.links, g.links@.len() as int, k);
    lemma_plain_lookup(sync_ids(g), ids.syncs, g.syncs@.len() as int, k);
    // Ids of other entities differ from k.
    assert forall|i: int| 0 <= i < g.placements@.len() implies (#[trigger] placement_ids(g)[i])@ != k by {
        assert(placement_ids(g)[i] == g.placements@[i].id);
        assert(a[op + i] == g.placements@[i].id@);
    }
    assert forall|i: int| 0 <= i < g.links@.len() implies (#[trigger] link_ids(g)[i])@ != k by {
        assert(a[ol + i] == g.links@[i].id@);
    }
    assert forall|i: int| 0 <= i < g.syncs@.len() implies (#[trigger] sync_ids(g)[i])@ != k by {
        assert(a[os + i] == g.syncs@[i].id@);
    }
    assert forall|i: int| 0 <= i < g.nodes@.len() && on + i != x implies (#[trigger] node_ids(g)[i])@ != k by {
        assert(a[on + i] == g.nodes@[i].id@);
    }
    assert forall|i: int| 0 <= i < g.volumes@.len() && ov + i != x implies (#[trigger] volume_ids(g)[i])@ != k by {
        assert(a[ov + i] == g.volumes@[i].id@);
    }
    assert forall|i: int| 0 <= i < g.datasets@.len() && od + i != x implies (#[trigger] dataset_ids(g)[i])@ != k by {
        assert(a[od + i] == g.datasets@[i].id@);
    }
    lemma_table_lookup_append(t0 + nn + vv + dd + pp + ll, ss, k);
    lemma_table_lookup_append(t0 + nn + vv + dd + pp, ll, k);
    lemma_table_lookup_append(t0 + nn + vv + dd, pp, k);
    lemma_table_lookup_append(t0 + nn + vv, dd, k);
    lemma_table_lookup_append(t0 + nn, vv, k);
    lemma_table_lookup_append(t0, nn, k);
    if x < ov {
        let j = x - on;
        assert(node_ids(g)[j]@ == k);
        assert(table_lookup(nn, k) == Some(ids.nodes[j]));
        assert forall|i: int| 0 <= i < g.volumes@.len() implies (#[trigger] volume_ids(g)[i])@ != k by {
            assert(a[ov + i] == g.volumes@[i].id@);
        }
        assert forall|i: int| 0 <= i < g.datasets@.len() implies (#[trigger] dataset_ids(g)[i])@ != k by {
            assert(a[od + i] == g.datasets@[i].id@);
        }
    } else if x < od {
        let j = x - ov;
        assert(volume_ids(g)[j]@ == k);
        assert(table_lookup(vv, k) == Some(ids.volumes[j]));
        assert forall|i: int| 0 <= i < g.datasets@.len() implies (#[trigger] dataset_ids(g)[i])@ != k by {
            assert(a[od + i] == g.datasets@[i].id@);
        }
    } else {
        let j = x - od;
        assert(dataset_ids(g)[j]@ == k);
        assert(table_lookup(dd, k) == Some(ids.datasets[j]));
    }
}

/// Import keeps references intact: when every reference of the imported
/// topology names one of its entities, and its ids are non-empty,
/// distinct and unlike any name key, every reference of the copy names
/// an entity of the copy.
pub proof fn lemma_imported_copy_refs_resolve(g: RefGraph, ids: ImportIds, out: RefGraph)
    requires
        refs_resolve(g),
        ids_distinct(g),
        ids_fit(g, ids),
        is_imported_copy(g, import_table(g, ids), out),
    ensures
        refs_resolve(out),
{
    lemma_all_ids_index(g);
    let m = import_table(g, ids);
    let ov = 1 + g.nodes@.len();
    let od = ov + g.volumes@.len();
    // The copy's node / volume / dataset ids are the fresh ids.
    lemma_imported_copy_ids(g, ids, out);
    // A reference to an entity of g maps to a fresh id of the copy.
    assert forall|r: Seq<char>| has_node(g, r) implies #[trigger] remap_id(m, r, node_fallback(g, r)) is Some
        && has_node(out, remap_id(m, r, node_fallback(g, r))->0@) by {
        lemma_last_index_of(texts(node_ids(g)), r);
        let j = last_index_of(texts(node_ids(g)), r);
        assert(g.nodes@[j].id@ == r);
        lemma_import_table_lookup(g, ids, 1 + j);
        assert(out.nodes@[j].id == ids.nodes[j]);
        assert(texts(node_ids(out))[j] == ids.nodes[j]@);
        lemma_last_index_of(texts(node_ids(out)), ids.nodes[j]@);
    }
    assert forall|r: Seq<char>| has_volume(g, r) implies #[trigger] remap_id(m, r, volume_fallback(g, r)) is Some
        && has_volume(out, remap_id(m, r, volume_fallback(g, r))->0@) by {
        lemma_last_index_of(texts(volume_ids(g)), r);
        let j = last_index_of(texts(volume_ids(g)), r);
        assert(g.volumes@[j].id@ == r);
        lemma_import_table_lookup(g, ids, ov + j);
        assert(out.volumes@[j].id == ids.volumes[j]);
        assert(texts(volume_ids(out))[j] == ids.volumes[j]@);
        lemma_last_index_of(texts(volume_ids(out)), ids.volumes[j]@);
    }
    assert forall|r: Seq<char>| has_dataset(g, r) implies #[trigger] remap_id(m, r, dataset_fallback(g, r)) is Some
        && has_dataset(out, remap_id(m, r, dataset_fallback(g, r))->0@) by {
        lemma_last_index_of(texts(dataset_ids(g)), r);
        let j = last_index_of(texts(dataset_ids(g)), r);
        assert(g.datasets@[j].id@ == r);
        lemma_import_table_lookup(g, ids, od + j);
        assert(out.datasets@[j].id == ids.datasets[j]);
        assert(texts(dataset_ids(out))[j] == ids.datasets[j]@);
        lemma_last_index_of(texts(dataset_ids(out)), ids.datasets[j]@);
    }
    assert forall|i: int| 0 <= i < out.volumes@.len() implies has_node(out, #[trigger] out.volumes@[i].node_id@) by {
        assert(has_node(g, g.volumes@[i].node_id@));
        assert(out.volumes@[i].name == g.volumes@[i].name);
        assert(remap_id(m, g.volumes@[i].node_id@, node_fallback(g, g.volumes@[i].node_id@)) == Some(out.volumes@[i].node_id));
    }
    assert forall|i: int| 0 <= i < out.placements@.len() implies has_dataset(out, #[trigger] out.placements@[i].dataset_id@)
        && has_volume(out, out.placements@[i].volume_id@) by {
        assert(has_dataset(g, g.placements@[i].dataset_id@));
        assert(has_volume(g, g.placements@[i].volume_id@));
    }
    assert forall|i: int| 0 <= i < out.links@.len() implies has_node(out, #[trigger] out.links@[i].source_node_id@)
        && has_node(out, out.links@[i].target_node_id@) by {
        assert(has_node(g, g.links@[i].source_node_id@));
        assert(has_node(g, g.links@[i].target_node_id@));
    }
    assert forall|i: int| 0 <= i < out.syncs@.len() implies has_dataset(out, #[trigger] out.syncs@[i].dataset_id@)
        && has_volume(out, out.syncs@[i].source_volume_id@) && has_volume(out, out.syncs@[i].target_volume_id@) by {
        assert(has_dataset(g, g.syncs@[i].dataset_id@));
        assert(has_volume(g, g.syncs@[i].source_volume_id@));
        assert(has_volume(g, g.syncs@[i].target_volume_id@));
    }
}

} // verus!

verus! {

/// Every name key of the first `n` entities is in their entries.
proof fn lemma_named_has_name_key(ids: Seq<String>, names: Seq<String>, prefix: Seq<char>, f: Seq<String>, n: int, j: int)
    requires
        0 <= j < n,
    ensures
        table_lookup(named_entries(ids, names, prefix, f, n), prefix + names[j]@) is Some,
    decreases n,
{
    let k = prefix + names[j]@;
    let pre = named_entries(ids, names, prefix, f, n - 1);
    let e = id_entry(ids[n - 1]@, f[n - 1]);
    let last = seq![(prefix + names[n - 1]@, f[n - 1])];
    assert(named_entries(ids, names, prefix, f, n) == pre + e + last);
    lemma_table_lookup_append(pre + e, last, k);
    lemma_table_lookup_append(pre, e, k);
    if j < n - 1 {
        lemma_named_has_name_key(ids, names, prefix, f, n - 1, j);
    } else {
        assert(last.last().0 == k);
    }
}

/// A topology of nodes and datasets alone always imports, whatever its
/// ids: every node and dataset at least has its name key.
pub proof fn lemma_nodes_and_datasets_import(g: RefGraph, ids: ImportIds)
    requires
        ids_fit(g, ids),
        g.volumes@.len() == 0,
        g.placements@.len() == 0,
        g.links@.len() == 0,
        g.syncs@.len() == 0,
    ensures
        import_resolves(g, import_table(g, ids)),
{
    let m = import_table(g, ids);
    let t0 = id_entry(g.topology_id@, ids.topology);
    let nn = named_entries(node_ids(g), node_names(g), "node:"@, ids.nodes, g.nodes@.len() as int);
    let vv = named_entries(volume_ids(g), volume_names(g), "volume:"@, ids.volumes, g.volumes@.len() as int);
    let dd = named_entries(dataset_ids(g), dataset_names(g), "dataset:"@, ids.datasets, g.datasets@.len() as int);
    let pp = plain_entries(placement_ids(g), ids.placements, g.placements@.len() as int);
    let ll = plain_entries(link_ids(g), ids.links, g.links@.len() as int);
    let ss = plain_entries(sync_ids(g), ids.syncs, g.syncs@.len() as int);
    assert(m == t0 + nn + vv + dd + pp + ll + ss);
    assert(vv =~= Seq::<(Seq<char>, String)>::empty());
    assert(pp =~= Seq::<(Seq<char>, String)>::empty());
    assert(ll =~= Seq::<(Seq<char>, String)>::empty());
    assert(ss =~= Seq::<(Seq<char>, String)>::empty());
    assert(m =~= t0 + nn + dd);
    assert forall|i: int| 0 <= i < g.nodes@.len() implies remap_id(m, #[trigger] g.nodes@[i].id@, "node:"@ + g.nodes@[i].name@) is Some by {
        let k = "node:"@ + g.nodes@[i].name@;
        assert(node_names(g)[i] == g.nodes@[i].name);
        lemma_named_has_name_key(node_ids(g), node_names(g), "node:"@, ids.nodes, g.nodes@.len() as int, i);
        lemma_table_lookup_append(t0, nn, k);
        lemma_table_lookup_append(t0 + nn, dd, k);
    }
    assert forall|i: int| 0 <= i < g.datasets@.len() implies remap_id(m, #[trigger] g.datasets@[i].id@, "dataset:"@ + g.datasets@[i].name@) is Some by {
        let k = "dataset:"@ + g.datasets@[i].name@;
        assert(dataset_names(g)[i] == g.datasets@[i].name);
        lemma_named_has_name_key(dataset_ids(g), dataset_names(g), "dataset:"@, ids.datasets, g.datasets@.len() as int, i);
        lemma_table_lookup_append(t0 + nn, dd, k);
    }
}


/// No entry of named entries has the empty key.
proof fn lemma_named_no_empty_key(ids: Seq<String>, names: Seq<String>, prefix: Seq<char>, f: Seq<String>, n: int)
    requires
        prefix.len() > 0,
    ensures
        table_lookup(named_entries(ids, names, prefix, f, n), Seq::<char>::empty()) is None,
    decreases n,
{
    reveal_with_fuel(table_lookup, 2);
    if n > 0 {
        let e = Seq::<char>::empty();
        let pre = named_entries(ids, names, prefix, f, n - 1);
        let ie = id_entry(ids[n - 1]@, f[n - 1]);
        let last = seq![(prefix + names[n - 1]@, f[n - 1])];
        assert(named_entries(ids, names, prefix, f, n) == pre + ie + last);
        lemma_named_no_empty_key(ids, names, prefix, f, n - 1);
        lemma_table_lookup_append(pre + ie, last, e);
        lemma_table_lookup_append(pre, ie, e);
        assert((prefix + names[n - 1]@).len() > 0);
        assert((prefix + names[n - 1]@) != e);
        assert(last.drop_last() =~= Seq::<(Seq<char>, String)>::empty());
        if ids[n - 1]@.len() > 0 {
            assert(ie.drop_last() =~= Seq::<(Seq<char>, String)>::empty());
            assert(ids[n - 1]@ != e);
        }
    }
}

/// No entry of plain entries has the empty key.
proof fn lemma_plain_no_empty_key(ids: Seq<String>, f: Seq<String>, n: int)
    ensures
        table_lookup(plain_entries(ids, f, n), Seq::<char>::empty()) is None,
    decreases n,
{
    reveal_with_fuel(table_lookup, 2);
    if n > 0 {
        let pre = plain_entries(ids, f, n - 1);
        let ie = id_entry(ids[n - 1]@, f[n - 1]);
        lemma_plain_no_empty_key(ids, f, n - 1);
        lemma_table_lookup_append(pre, ie, Seq::<char>::empty());
        if ids[n - 1]@.len() > 0 {
            assert(ie.drop_last() =~= Seq::<(Seq<char>, String)>::empty());
            assert(ids[n - 1]@ != Seq::<char>::empty());
        }
    }
}

/// A key that some part of a table has is in the table.
proof fn lemma_lookup_in_part(a: Seq<(Seq<char>, String)>, b: Seq<(Seq<char>, String)>, c: Seq<(Seq<char>, String)>, k: Seq<char>)
    requires
        table_lookup(b, k) is Some,
    ensures
        table_lookup(a + b + c, k) is Some,
{
    lemma_table_lookup_append(a, b, k);
    lemma_table_lookup_append(a + b, c, k);
}

/// The empty key has no entry in an import table, and each name key of a
/// node, volume or dataset has one.
#[verifier::spinoff_prover]
#[verifier::rlimit(40)]
proof fn lemma_import_table_keys_present(g: RefGraph, ids: ImportIds)
    ensures
        table_lookup(import_table(g, ids), Seq::<char>::empty()) is None,
        forall|i: int| 0 <= i < g.nodes@.len() ==> table_lookup(import_table(g, ids), "node:"@ + (#[trigger] g.nodes@[i]).name@) is Some,
        forall|i: int| 0 <= i < g.volumes@.len() ==> table_lookup(import_table(g, ids), "volume:"@ + (#[trigger] g.volumes@[i]).name@) is Some,
        forall|i: int| 0 <= i < g.datasets@.len() ==> table_lookup(import_table(g, ids), "dataset:"@ + (#[trigger] g.datasets@[i]).name@) is Some,
{
    reveal_strlit("node:");
    reveal_strlit("volume:");
    reveal_strlit("dataset:");
    reveal_with_fuel(table_lookup, 2);
    let e = Seq::<char>::empty();
    let t0 = id_entry(g.topology_id@, ids.topology);
    let nn = named_entries(node_ids(g), node_names(g), "node:"@, ids.nodes, g.nodes@.len() as int);
    let vv = named_entries(volume_ids(g), volume_names(g), "volume:"@, ids.volumes, g.volumes@.len() as int);
    let dd = named_entries(dataset_ids(g), dataset_names(g), "dataset:"@, ids.datasets, g.datasets@.len() as int);
    let pp = plain_entries(placement_ids(g), ids.placements, g.placements@.len() as int);
    let ll = plain_entries(link_ids(g), ids.links, g.links@.len() as int);
    let ss = plain_entries(sync_ids(g), ids.syncs, g.syncs@.len() as int);
    let m = import_table(g, ids);
    assert(m == t0 + nn + vv + dd + pp + ll + ss);
    lemma_named_no_empty_key(node_ids(g), node_names(g), "node:"@, ids.nodes, g.nodes@.len() as int);
    lemma_named_no_empty_key(volume_ids(g), volume_names(g), "volume:"@, ids.volumes, g.volumes@.len() as int);
    lemma_named_no_empty_key(dataset_ids(g), dataset_names(g), "dataset:"@, ids.datasets, g.datasets@.len() as int);
    lemma_plain_no_empty_key(placement_ids(g), ids.placements, g.placements@.len() as int);
    lemma_plain_no_empty_key(link_ids(g), ids.links, g.links@.len() as int);
    lemma_plain_no_empty_key(sync_ids(g), ids.syncs, g.syncs@.len() as int);
    if g.topology_id@.len() > 0 {
        assert(t0.drop_last() =~= Seq::<(Seq<char>, String)>::empty());
        assert(g.topology_id@ != e);
    }
    lemma_table_lookup_append(t0 + nn + vv + dd + pp + ll, ss, e);
    lemma_table_lookup_append(t0 + nn + vv + dd + pp, ll, e);
    lemma_table_lookup_append(t0 + nn + vv + dd, pp, e);
    lemma_table_lookup_append(t0 + nn + vv, dd, e);
    lemma_table_lookup_append(t0 + nn, vv, e);
    lemma_table_lookup_append(t0, nn, e);
    assert(m == t0 + (nn) + (vv + dd + pp + ll + ss));
    assert forall|i: int| 0 <= i < g.nodes@.len() implies table_lookup(m, "node:"@ + (#[trigger] g.nodes@[i]).name@) is Some by {
        assert(node_names(g)[i] == g.nodes@[i].name);
        lemma_named_has_name_key(node_ids(g), node_names(g), "node:"@, ids.nodes, g.nodes@.len() as int, i);
        lemma_lookup_in_part(t0, nn, vv + dd + pp + ll + ss, "node:"@ + g.nodes@[i].name@);
        assert(t0 + nn + (vv + dd + pp + ll + ss) =~= m);
    }
    assert forall|i: int| 0 <= i < g.volumes@.len() implies table_lookup(m, "volume:"@ + (#[trigger] g.volumes@[i]).name@) is Some by {
        assert(volume_names(g)[i] == g.volumes@[i].name);
        lemma_named_has_name_key(volume_ids(g), volume_names(g), "volume:"@, ids.volumes, g.volumes@.len() as int, i);
        lemma_lookup_in_part(t0 + nn, vv, dd + pp + ll + ss, "volume:"@ + g.volumes@[i].name@);
        assert(t0 + nn + vv + (dd + pp + ll + ss) =~= m);
    }
    assert forall|i: int| 0 <= i < g.datasets@.len() implies table_lookup(m, "dataset:"@ + (#[trigger] g.datasets@[i]).name@) is Some by {
        assert(dataset_names(g)[i] == g.datasets@[i].name);
        lemma_named_has_name_key(dataset_ids(g), dataset_names(g), "dataset:"@, ids.datasets, g.datasets@.len() as int, i);
        lemma_lookup_in_part(t0 + nn + vv, dd, pp + ll + ss, "dataset:"@ + g.datasets@[i].name@);
        assert(t0 + nn + vv + dd + (pp + ll + ss) =~= m);
    }
}

/// Each kind that a reference of `g` points at has exactly one entity:
/// volumes and links leave one node to point at, placements and sync
/// regimes one dataset and one volume.
pub open spec fn refs_leave_no_choice(g: RefGraph) -> bool {
    &&& (g.volumes@.len() > 0 || g.links@.len() > 0) ==> g.nodes@.len() == 1
    &&& (g.placements@.len() > 0 || g.syncs@.len() > 0) ==> g.volumes@.len() == 1 && g.datasets@.len() == 1
}

/// A template export imports exactly when it leaves its blank references
/// no choice: every reference then goes to the copy of the only entity of
/// its kind. A template holds no trace of which of several nodes (volumes,
/// datasets) a reference named, so with several it cannot be rewritten.
pub proof fn lemma_template_import(src: RefGraph, t: RefGraph, ids: ImportIds)
    requires
        is_stripped(src, t),
        ids_fit(t, ids),
    ensures
        import_resolves(t, import_table(t, ids)) <==> refs_leave_no_choice(src),
{
    let m = import_table(t, ids);
    let e = Seq::<char>::empty();
    lemma_import_table_keys_present(t, ids);
    if t.nodes@.len() == 1 {
        assert(node_names(t)[0] == t.nodes@[0].name);
        assert(sole_key("node:"@, node_names(t)) == "node:"@ + t.nodes@[0].name@);
    }
    if t.volumes@.len() == 1 {
        assert(volume_names(t)[0] == t.volumes@[0].name);
        assert(sole_key("volume:"@, volume_names(t)) == "volume:"@ + t.volumes@[0].name@);
    }
    if t.datasets@.len() == 1 {
        assert(dataset_names(t)[0] == t.datasets@[0].name);
        assert(sole_key("dataset:"@, dataset_names(t)) == "dataset:"@ + t.datasets@[0].name@);
    }
    assert forall|i: int| 0 <= i < t.nodes@.len() implies remap_id(m, #[trigger] t.nodes@[i].id@, "node:"@ + t.nodes@[i].name@) is Some by {}
    assert forall|i: int| 0 <= i < t.volumes@.len() implies remap_id(m, #[trigger] t.volumes@[i].id@, "volume:"@ + t.volumes@[i].name@) is Some by {}
    assert forall|i: int| 0 <= i < t.datasets@.len() implies remap_id(m, #[trigger] t.datasets@[i].id@, "dataset:"@ + t.datasets@[i].name@) is Some by {}
    if refs_leave_no_choice(src) {
        assert(import_resolves(t, m));
    } else {
        if (t.volumes@.len() > 0 || t.links@.len() > 0) && t.nodes@.len() != 1 {
            if t.volumes@.len() > 0 {
                assert(remap_id(m, t.volumes@[0].node_id@, node_fallback(t, t.volumes@[0].node_id@)) is None);
            } else {
                assert(remap_id(m, t.links@[0].source_node_id@, node_fallback(t, t.links@[0].source_node_id@)) is None);
            }
        } else if t.volumes@.len() != 1 {
            if t.placements@.len() > 0 {
                assert(remap_id(m, t.placements@[0].volume_id@, volume_fallback(t, t.placements@[0].volume_id@)) is None);
            } else {
                assert(remap_id(m, t.syncs@[0].source_volume_id@, volume_fallback(t, t.syncs@[0].source_volume_id@)) is None);
            }
        } else {
            if t.placements@.len() > 0 {
                assert(remap_id(m, t.placements@[0].dataset_id@, dataset_fallback(t, t.placements@[0].dataset_id@)) is None);
            } else {
                assert(remap_id(m, t.syncs@[0].dataset_id@, dataset_fallback(t, t.syncs@[0].dataset_id@)) is None);
            }
        }
    }
}

/// The copy of a template that leaves its references no choice keeps
/// them intact: every reference of the copy names an entity of the copy.
pub proof fn lemma_template_copy_refs_resolve(src: RefGraph, t: RefGraph, ids: ImportIds, out: RefGraph)
    requires
        is_stripped(src, t),
        refs_leave_no_choice(src),
        is_imported_copy(t, import_table(t, ids), out),
    ensures
        refs_resolve(out),
{
    let m = import_table(t, ids);
    if t.nodes@.len() == 1 {
        assert(node_names(t)[0] == t.nodes@[0].name);
        assert(out.nodes@[0].name == t.nodes@[0].name);
        assert(texts(node_ids(out))[0] == out.nodes@[0].id@);
        lemma_last_index_of(texts(node_ids(out)), out.nodes@[0].id@);
    }
    if t.volumes@.len() == 1 {
        assert(volume_names(t)[0] == t.volumes@[0].name);
        assert(out.volumes@[0].name == t.volumes@[0].name);
        assert(texts(volume_ids(out))[0] == out.volumes@[0].id@);
        lemma_last_index_of(texts(volume_ids(out)), out.volumes@[0].id@);
    }
    if t.datasets@.len() == 1 {
        assert(dataset_names(t)[0] == t.datasets@[0].name);
        assert(out.datasets@[0].name == t.datasets@[0].name);
        assert(texts(dataset_ids(out))[0] == out.datasets@[0].id@);
        lemma_last_index_of(texts(dataset_ids(out)), out.datasets@[0].id@);
    }
    assert forall|i: int| 0 <= i < out.volumes@.len() implies has_node(out, #[trigger] out.volumes@[i].node_id@) by {
        assert(out.volumes@[i].name == t.volumes@[i].name);
    }
    assert forall|i: int| 0 <= i < out.placements@.len() implies has_dataset(out, #[trigger] out.placements@[i].dataset_id@)
        && has_volume(out, out.placements@[i].volume_id@) by {
        assert(t.placements@[i].dataset_id@ == Seq::<char>::empty());
    }
    assert forall|i: int| 0 <= i < out.links@.len() implies has_node(out, #[trigger] out.links@[i].source_node_id@)
        && has_node(out, out.links@[i].target_node_id@) by {
        assert(t.links@[i].source_node_id@ == Seq::<char>::empty());
    }
    assert forall|i: int| 0 <= i < out.syncs@.len() implies has_dataset(out, #[trigger] out.syncs@[i].dataset_id@)
        && has_volume(out, out.syncs@[i].source_volume_id@) && has_volume(out, out.syncs@[i].target_volume_id@) by {
        assert(t.syncs@[i].dataset_id@ == Seq::<char>::empty());
    }
}

// ---------------------------------------------------------------------------
// Whether an import succeeds does not depend on the ids it draws
// ---------------------------------------------------------------------------

/// The keys of a table, in order.
pub open spec fn table_keys(m: Seq<(Seq<char>, String)>) -> Seq<Seq<char>> {
    m.map_values(|p: (Seq<char>, String)| p.0)
}

/// Tables with the same keys find the same keys.
proof fn lemma_lookup_same_keys(m1: Seq<(Seq<char>, String)>, m2: Seq<(Seq<char>, String)>, key: Seq<char>)
    requires
        table_keys(m1) == table_keys(m2),
    ensures
        (table_lookup(m1, key) is Some) == (table_lookup(m2, key) is Some),
    decreases m1.len(),
{
    assert(table_keys(m1).len() == m1.len() && table_keys(m2).len() == m2.len());
    if m1.len() > 0 {
        assert(table_keys(m1.drop_last()) =~= table_keys(m1).drop_last());
        assert(table_keys(m2.drop_last()) =~= table_keys(m2).drop_last());
        assert(table_keys(m1)[m1.len() - 1] == m1.last().0);
        assert(table_keys(m2)[m2.len() - 1] == m2.last().0);
        lemma_lookup_same_keys(m1.drop_last(), m2.drop_last(), key);
    }
}

/// The keys of two joined tables.
proof fn lemma_table_keys_add(a: Seq<(Seq<char>, String)>, b: Seq<(Seq<char>, String)>)
    ensures
        table_keys(a + b) == table_keys(a) + table_keys(b),
{
    assert(table_keys(a + b) =~= table_keys(a) + table_keys(b));
}

proof fn lemma_named_keys(ids: Seq<String>, names: Seq<String>, prefix: Seq<char>, f1: Seq<String>, f2: Seq<String>, n: int)
    ensures
        table_keys(named_entries(ids, names, prefix, f1, n)) == table_keys(named_entries(ids, names, prefix, f2, n)),
    decreases n,
{
    if n > 0 {
        lemma_named_keys(ids, names, prefix, f1, f2, n - 1);
        let a1 = named_entries(ids, names, prefix, f1, n - 1) + id_entry(ids[n - 1]@, f1[n - 1]);
        let a2 = named_entries(ids, names, prefix, f2, n - 1) + id_entry(ids[n - 1]@, f2[n - 1]);
        lemma_table_keys_add(named_entries(ids, names, prefix, f1, n - 1), id_entry(ids[n - 1]@, f1[n - 1]));
        lemma_table_keys_add(named_entries(ids, names, prefix, f2, n - 1), id_entry(ids[n - 1]@, f2[n - 1]));
        assert(table_keys(id_entry(ids[n - 1]@, f1[n - 1])) =~= table_keys(id_entry(ids[n - 1]@, f2[n - 1])));
        lemma_table_keys_add(a1, seq![(prefix + names[n - 1]@, f1[n - 1])]);
        lemma_table_keys_add(a2, seq![(prefix + names[n - 1]@, f2[n - 1])]);
        assert(table_keys(seq![(prefix + names[n - 1]@, f1[n - 1])]) =~= table_keys(
            seq![(prefix + names[n - 1]@, f2[n - 1])],
        ));
    }
}

proof fn lemma_plain_keys(ids: Seq<String>, f1: Seq<String>, f2: Seq<String>, n: int)
    ensures
        table_keys(plain_entries(ids, f1, n)) == table_keys(plain_entries(ids, f2, n)),
    decreases n,
{
    if n > 0 {
        lemma_plain_keys(ids, f1, f2, n - 1);
        lemma_table_keys_add(plain_entries(ids, f1, n - 1), id_entry(ids[n - 1]@, f1[n - 1]));
        lemma_table_keys_add(plain_entries(ids, f2, n - 1), id_entry(ids[n - 1]@, f2[n - 1]));
        assert(table_keys(id_entry(ids[n - 1]@, f1[n - 1])) =~= table_keys(id_entry(ids[n - 1]@, f2[n - 1])));
    }
}

/// The keys of an import's table do not depend on the ids drawn.
proof fn lemma_import_table_keys(g: RefGraph, ids1: ImportIds, ids2: ImportIds)
    ensures
        table_keys(import_table(g, ids1)) == table_keys(import_table(g, ids2)),
{
    let t1 = id_entry(g.topology_id@, ids1.topology);
    let t2 = id_entry(g.topology_id@, ids2.topology);
    assert(table_keys(t1) =~= table_keys(t2));
    let n1 = named_entries(node_ids(g), node_names(g), "node:"@, ids1.nodes, g.nodes@.len() as int);
    let n2 = named_entries(node_ids(g), node_names(g), "node:"@, ids2.nodes, g.nodes@.len() as int);
    let v1 = named_entries(volume_ids(g), volume_names(g), "volume:"@, ids1.volumes, g.volumes@.len() as int);
    let v2 = named_entries(volume_ids(g), volume_names(g), "volume:"@, ids2.volumes, g.volumes@.len() as int);
    let d1 = named_entries(dataset_ids(g), dataset_names(g), "dataset:"@, ids1.datasets, g.datasets@.len() as int);
    let d2 = named_entries(dataset_ids(g), dataset_names(g), "dataset:"@, ids2.datasets, g.datasets@.len() as int);
    let p1 = plain_entries(placement_ids(g), ids1.placements, g.placements@.len() as int);
    let p2 = plain_entries(placement_ids(g), ids2.placements, g.placements@.len() as int);
    let l1 = plain_entries(link_ids(g), ids1.links, g.links@.len() as int);
    let l2 = plain_entries(link_ids(g), ids2.links, g.links@.len() as int);
    let s1 = plain_entries(sync_ids(g), ids1.syncs, g.syncs@.len() as int);
    let s2 = plain_entries(sync_ids(g), ids2.syncs, g.syncs@.len() as int);
    lemma_named_keys(node_ids(g), node_names(g), "node:"@, ids1.nodes, ids2.nodes, g.nodes@.len() as int);
    lemma_named_keys(volume_ids(g), volume_names(g), "volume:"@, ids1.volumes, ids2.volumes, g.volumes@.len() as int);
    lemma_named_keys(dataset_ids(g), dataset_names(g), "dataset:"@, ids1.datasets, ids2.datasets, g.datasets@.len() as int);
    lemma_plain_keys(placement_ids(g), ids1.placements, ids2.placements, g.placements@.len() as int);
    lemma_plain_keys(link_ids(g), ids1.links, ids2.links, g.links@.len() as int);
    lemma_plain_keys(sync_ids(g), ids1.syncs, ids2.syncs, g.syncs@.len() as int);
    lemma_table_keys_add(t1, n1);
    lemma_table_keys_add(t2, n2);
    lemma_table_keys_add(t1 + n1, v1);
    lemma_table_keys_add(t2 + n2, v2);
    lemma_table_keys_add(t1 + n1 + v1, d1);
    lemma_table_keys_add(t2 + n2 + v2, d2);
    lemma_table_keys_add(t1 + n1 + v1 + d1, p1);
    lemma_table_keys_add(t2 + n2 + v2 + d2, p2);
    lemma_table_keys_add(t1 + n1 + v1 + d1 + p1, l1);
    lemma_table_keys_add(t2 + n2 + v2 + d2 + p2, l2);
    lemma_table_keys_add(t1 + n1 + v1 + d1 + p1 + l1, s1);
    lemma_table_keys_add(t2 + n2 + v2 + d2 + p2 + l2, s2);
}

/// Tables with the same keys remap the same ids.
proof fn lemma_remap_same_keys(m1: Seq<(Seq<char>, String)>, m2: Seq<(Seq<char>, String)>, old: Seq<char>, fallback: Seq<char>)
    requires
        table_keys(m1) == table_keys(m2),
    ensures
        (remap_id(m1, old, fallback) is Some) == (remap_id(m2, old, fallback) is Some),
{
    lemma_lookup_same_keys(m1, m2, old);
    lemma_lookup_same_keys(m1, m2, fallback);
}

/// Every id resolving under one table resolves under another with the same
/// keys.
proof fn lemma_resolves_same_keys(g: RefGraph, m1: Seq<(Seq<char>, String)>, m2: Seq<(Seq<char>, String)>)
    requires
        table_keys(m1) == table_keys(m2),
        import_resolves(g, m1),
    ensures
        import_resolves(g, m2),
{
    assert forall|i: int| 0 <= i < g.nodes@.len() implies remap_id(m2, #[trigger] g.nodes@[i].id@, "node:"@ + g.nodes@[i].name@) is Some by {
        lemma_remap_same_keys(m1, m2, g.nodes@[i].id@, "node:"@ + g.nodes@[i].name@);
    }
    assert forall|i: int| 0 <= i < g.volumes@.len() implies remap_id(m2, #[trigger] g.volumes@[i].id@, "volume:"@ + g.volumes@[i].name@) is Some
        && remap_id(m2, g.volumes@[i].node_id@, node_fallback(g, g.volumes@[i].node_id@)) is Some by {
        lemma_remap_same_keys(m1, m2, g.volumes@[i].id@, "volume:"@ + g.volumes@[i].name@);
        lemma_remap_same_keys(m1, m2, g.volumes@[i].node_id@, node_fallback(g, g.volumes@[i].node_id@));
    }
    assert forall|i: int| 0 <= i < g.datasets@.len() implies remap_id(m2, #[trigger] g.datasets@[i].id@, "dataset:"@ + g.datasets@[i].name@) is Some by {
        lemma_remap_same_keys(m1, m2, g.datasets@[i].id@, "dataset:"@ + g.datasets@[i].name@);
    }
    assert forall|i: int| 0 <= i < g.placements@.len() implies remap_id(m2, #[trigger] g.placements@[i].dataset_id@, dataset_fallback(g, g.placements@[i].dataset_id@)) is Some
        && remap_id(m2, g.placements@[i].volume_id@, volume_fallback(g, g.placements@[i].volume_id@)) is Some by {
        lemma_remap_same_keys(m1, m2, g.placements@[i].dataset_id@, dataset_fallback(g, g.placements@[i].dataset_id@));
        lemma_remap_same_keys(m1, m2, g.placements@[i].volume_id@, volume_fallback(g, g.placements@[i].volume_id@));
    }
    assert forall|i: int| 0 <= i < g.links@.len() implies remap_id(m2, #[trigger] g.links@[i].source_node_id@, node_fallback(g, g.links@[i].source_node_id@)) is Some
        && remap_id(m2, g.links@[i].target_node_id@, node_fallback(g, g.links@[i].target_node_id@)) is Some by {
        lemma_remap_same_keys(m1, m2, g.links@[i].source_node_id@, node_fallback(g, g.links@[i].source_node_id@));
        lemma_remap_same_keys(m1, m2, g.links@[i].target_node_id@, node_fallback(g, g.links@[i].target_node_id@));
    }
    assert forall|i: int| 0 <= i < g.syncs@.len() implies remap_id(m2, #[trigger] g.syncs@[i].dataset_id@, dataset_fallback(g, g.syncs@[i].dataset_id@)) is Some
        && remap_id(m2, g.syncs@[i].source_volume_id@, volume_fallback(g, g.syncs@[i].source_volume_id@)) is Some && remap_id(m2, g.syncs@[i].target_volume_id@, volume_fallback(g, g.syncs@[i].target_volume_id@)) is Some by {
        lemma_remap_same_keys(m1, m2, g.syncs@[i].dataset_id@, dataset_fallback(g, g.syncs@[i].dataset_id@));
        lemma_remap_same_keys(m1, m2, g.syncs@[i].source_volume_id@, volume_fallback(g, g.syncs@[i].source_volume_id@));
        lemma_remap_same_keys(m1, m2, g.syncs@[i].target_volume_id@, volume_fallback(g, g.syncs@[i].target_volume_id@));
    }
}

/// Whether an import succeeds depends on the imported topology alone, not
/// on the fresh ids it draws: any two draws resolve the same references.
pub proof fn lemma_import_success_independent_of_ids(g: RefGraph, ids1: ImportIds, ids2: ImportIds)
    ensures
        import_resolves(g, import_table(g, ids1)) == import_resolves(g, import_table(g, ids2)),
{
    lemma_import_table_keys(g, ids1, ids2);
    if import_resolves(g, import_table(g, ids1)) {
        lemma_resolves_same_keys(g, import_table(g, ids1), import_table(g, ids2));
    }
    if import_resolves(g, import_table(g, ids2)) {
        lemma_resolves_same_keys(g, import_table(g, ids2), import_table(g, ids1));
    }
}

} // verus!
