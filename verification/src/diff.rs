//! Entity-level and field-level comparison of two topologies.
//!
//! Each side is a list of entities keyed by a display name (a node's name,
//! `node/volume` for a volume, and so on) whose fields are those of the
//! entity's JSON object. Entities are matched by key: a key only on the
//! base side is removed, a key only on the target side is added, and a key
//! on both sides whose fields differ is changed. Identity and timestamp
//! fields are not compared, since they differ between forks by definition.

use vstd::prelude::*;
use crate::text::{decimal, decimal_text, str_eq, str_lt, lex_lt, lemma_lex_lt_irreflexive, lemma_lex_lt_transitive, lemma_lex_lt_total};
use crate::remap::{texts, last_index_of, lemma_last_index_of};

verus! {

// ---------------------------------------------------------------------------
// Sorted sets of texts
// ---------------------------------------------------------------------------

/// Every text sorts strictly before the texts after it.
pub open spec fn strictly_sorted(s: Seq<Seq<char>>) -> bool {
    forall|i: int, j: int| 0 <= i < j < s.len() ==> lex_lt(#[trigger] s[i], #[trigger] s[j])
}

/// The distinct texts of `keys`, in ascending order.
pub fn sorted_unique(keys: &Vec<String>) -> (r: Vec<String>)
    ensures
        strictly_sorted(texts(r@)),
        forall|k: Seq<char>| texts(r@).contains(k) <==> texts(keys@).contains(k),
{
    let mut r: Vec<String> = Vec::new();
    let mut n: usize = 0;
    while n < keys.len()
        invariant
            n <= keys@.len(),
            strictly_sorted(texts(r@)),
            forall|k: Seq<char>| texts(r@).contains(k) <==> texts(keys@.subrange(0, n as int)).contains(k),
        decreases keys.len() - n,
    {
        let key = keys[n].as_str();
        let ghost old_r = texts(r@);
        // First position whose text does not sort before `key`.
        let mut pos: usize = 0;
        while pos < r.len() && str_lt(r[pos].as_str(), key)
            invariant
                pos <= r@.len(),
                texts(r@) == old_r,
                strictly_sorted(old_r),
                forall|j: int| 0 <= j < pos ==> lex_lt(#[trigger] old_r[j], key@),
            decreases r.len() - pos,
        {
            pos = pos + 1;
        }
        let present = pos < r.len() && str_eq(r[pos].as_str(), key);
        proof {
            let pre = texts(keys@.subrange(0, n as int));
            let post = texts(keys@.subrange(0, n + 1));
            assert(post =~= pre.push(key@));
            assert forall|k: Seq<char>| post.contains(k) <==> (pre.contains(k) || k == key@) by {
                if post.contains(k) {
                    let i = choose|i: int| 0 <= i < post.len() && post[i] == k;
                    if i < pre.len() {
                        assert(pre[i] == k);
                    }
                }
                if pre.contains(k) {
                    let i = choose|i: int| 0 <= i < pre.len() && pre[i] == k;
                    assert(post[i] == k);
                }
                if k == key@ {
                    assert(post[n as int] == k);
                }
            }
        }
        if !present {
            proof {
                assert forall|j: int| pos <= j < old_r.len() implies lex_lt(key@, #[trigger] old_r[j]) by {
                    lemma_lex_lt_total(old_r[pos as int], key@);
                    if j > pos {
                        lemma_lex_lt_transitive(key@, old_r[pos as int], old_r[j]);
                    }
                }
            }
            r.insert(pos, keys[n].clone());
            proof {
                let nr = texts(r@);
                assert(nr =~= old_r.insert(pos as int, key@));
                assert forall|i: int, j: int| 0 <= i < j < nr.len() implies lex_lt(#[trigger] nr[i], #[trigger] nr[j]) by {
                    if j == pos {
                        assert(nr[i] == old_r[i]);
                    } else if i == pos {
                        assert(nr[j] == old_r[j - 1]);
                    } else if i < pos && j > pos {
                        assert(nr[i] == old_r[i]);
                        assert(nr[j] == old_r[j - 1]);
                        lemma_lex_lt_transitive(nr[i], key@, nr[j]);
                    } else if j < pos {
                        assert(nr[i] == old_r[i] && nr[j] == old_r[j]);
                    } else {
                        assert(nr[i] == old_r[i - 1] && nr[j] == old_r[j - 1]);
                    }
                }
                assert forall|k: Seq<char>| nr.contains(k) <==> old_r.contains(k) || k == key@ by {
                    if nr.contains(k) {
                        let i = choose|i: int| 0 <= i < nr.len() && nr[i] == k;
                        if i < pos {
                            assert(old_r[i] == k);
                        } else if i > pos {
                            assert(old_r[i - 1] == k);
                        }
                    }
                    if old_r.contains(k) {
                        let i = choose|i: int| 0 <= i < old_r.len() && old_r[i] == k;
                        if i < pos {
                            assert(nr[i] == k);
                        } else {
                            assert(nr[i + 1] == k);
                        }
                    }
                    if k == key@ {
                        assert(nr[pos as int] == k);
                    }
                }
            }
        } else {
            proof {
                assert(old_r[pos as int] == key@);
            }
        }
        n = n + 1;
    }
    proof {
        assert(keys@.subrange(0, keys@.len() as int) =~= keys@);
    }
    r
}

// ---------------------------------------------------------------------------
// Field values
// ---------------------------------------------------------------------------

/// The value of one field of an entity's JSON object: null, a string (its
/// text), or any other JSON value (number, boolean, array, object) by its
/// compact JSON text.
#[derive(Debug, Clone)]
pub enum FieldValue {
    Null,
    Text(String),
    Other(String),
}

/// What a field value denotes: its kind and its text. Two values are the
/// same JSON value exactly when these agree.
pub open spec fn value_view(v: FieldValue) -> (int, Seq<char>) {
    match v {
        FieldValue::Null => (0, Seq::empty()),
        FieldValue::Text(s) => (1, s@),
        FieldValue::Other(t) => (2, t@),
    }
}

impl FieldValue {
    /// A copy of this value.
    pub fn copy(&self) -> (r: FieldValue)
        ensures
            r == *self,
    {
        match self {
            FieldValue::Null => FieldValue::Null,
            FieldValue::Text(s) => FieldValue::Text(s.clone()),
            FieldValue::Other(t) => FieldValue::Other(t.clone()),
        }
    }

    /// Whether two values are the same JSON value.
    pub fn same(&self, other: &FieldValue) -> (r: bool)
        ensures
            r == (value_view(*self) == value_view(*other)),
    {
        match (self, other) {
            (FieldValue::Null, FieldValue::Null) => true,
            (FieldValue::Text(a), FieldValue::Text(b)) => str_eq(a.as_str(), b.as_str()),
            (FieldValue::Other(a), FieldValue::Other(b)) => str_eq(a.as_str(), b.as_str()),
            _ => false,
        }
    }
}

/// How a field value reads in a diff listing.
pub open spec fn shown_value(v: FieldValue) -> Seq<char> {
    match v {
        FieldValue::Null => "(none)"@,
        FieldValue::Text(s) => s@,
        FieldValue::Other(t) => t@,
    }
}

/// A field value as shown in a diff listing: `(none)` for null, a string
/// as it is, anything else as its JSON text.
pub fn format_diff_value(v: &FieldValue) -> (r: String)
    ensures
        r@ == shown_value(*v),
{
    match v {
        FieldValue::Null => String::from_str("(none)"),
        FieldValue::Text(s) => s.clone(),
        FieldValue::Other(t) => t.clone(),
    }
}

/// One named field of an entity.
#[derive(Debug, Clone)]
pub struct Field {
    pub name: String,
    pub value: FieldValue,
}

/// The value of the field named `name` (the first such field), or null
/// when there is none.
pub open spec fn lookup_field(fields: Seq<Field>, name: Seq<char>) -> FieldValue
    decreases fields.len(),
{
    if fields.len() == 0 {
        FieldValue::Null
    } else if fields[0].name@ == name {
        fields[0].value
    } else {
        lookup_field(fields.drop_first(), name)
    }
}

/// The names of a list of fields.
pub open spec fn field_names(fields: Seq<Field>) -> Seq<Seq<char>> {
    fields.map_values(|f: Field| f.name@)
}

/// Look a field up by name, as `lookup_field` describes.
pub fn get_field(fields: &Vec<Field>, name: &str) -> (r: FieldValue)
    ensures
        r == lookup_field(fields@, name@),
{
    let mut i: usize = 0;
    assert(fields@.skip(0) =~= fields@);
    while i < fields.len()
        invariant
            i <= fields@.len(),
            lookup_field(fields@, name@) == lookup_field(fields@.skip(i as int), name@),
        decreases fields.len() - i,
    {
        assert(fields@.skip(i as int).drop_first() =~= fields@.skip(i + 1));
        if str_eq(fields[i].name.as_str(), name) {
            return fields[i].value.copy();
        }
        i = i + 1;
    }
    FieldValue::Null
}

/// Fields that differ between forks by definition and are never compared.
pub open spec fn is_skipped_field(name: Seq<char>) -> bool {
    ||| name == "id"@
    ||| name == "topology_id"@
    ||| name == "node_id"@
    ||| name == "dataset_id"@
    ||| name == "volume_id"@
    ||| name == "source_node_id"@
    ||| name == "target_node_id"@
    ||| name == "source_volume_id"@
    ||| name == "target_volume_id"@
    ||| name == "created_at"@
    ||| name == "updated_at"@
}

/// Whether a field is one of the identity or timestamp fields left out of
/// comparisons.
pub fn skipped_field(name: &str) -> (r: bool)
    ensures
        r == is_skipped_field(name@),
{
    str_eq(name, "id") || str_eq(name, "topology_id") || str_eq(name, "node_id") || str_eq(name, "dataset_id")
        || str_eq(name, "volume_id") || str_eq(name, "source_node_id") || str_eq(name, "target_node_id")
        || str_eq(name, "source_volume_id") || str_eq(name, "target_volume_id") || str_eq(name, "created_at")
        || str_eq(name, "updated_at")
}

/// A field whose value differs between the two sides.
#[derive(Debug, Clone)]
pub struct FieldDiff {
    pub field: String,
    pub old_value: FieldValue,
    pub new_value: FieldValue,
}

/// The field `name` is compared and differs between `left` and `right`.
pub open spec fn field_differs(left: Seq<Field>, right: Seq<Field>, name: Seq<char>) -> bool {
    &&& (field_names(left).contains(name) || field_names(right).contains(name))
    &&& !is_skipped_field(name)
    &&& value_view(lookup_field(left, name)) != value_view(lookup_field(right, name))
}

/// `d` lists, in ascending order of field name, exactly the fields that
/// differ between `left` and `right`, each with its value on both sides.
pub open spec fn is_field_diff(left: Seq<Field>, right: Seq<Field>, d: Seq<FieldDiff>) -> bool {
    &&& strictly_sorted(d.map_values(|x: FieldDiff| x.field@))
    &&& forall|k: Seq<char>|
        #![trigger field_differs(left, right, k)]
        field_differs(left, right, k) <==> d.map_values(|x: FieldDiff| x.field@).contains(k)
    &&& forall|i: int|
        0 <= i < d.len() ==> (#[trigger] d[i]).old_value == lookup_field(left, d[i].field@) && d[i].new_value
            == lookup_field(right, d[i].field@)
}

/// Some compared field differs between `left` and `right`.
pub open spec fn fields_differ(left: Seq<Field>, right: Seq<Field>) -> bool {
    exists|k: Seq<char>| #[trigger] field_differs(left, right, k)
}

/// The names of the fields of `left` and `right`, each once.
fn all_field_names(left: &Vec<Field>, right: &Vec<Field>) -> (r: Vec<String>)
    ensures
        strictly_sorted(texts(r@)),
        forall|k: Seq<char>|
            texts(r@).contains(k) <==> (field_names(left@).contains(k) || field_names(right@).contains(k)),
{
    let mut all: Vec<String> = Vec::new();
    let mut i: usize = 0;
    while i < left.len()
        invariant
            i <= left@.len(),
            all@.len() == i,
            forall|k: int| 0 <= k < i ==> (#[trigger] all@[k])@ == left@[k].name@,
        decreases left.len() - i,
    {
        all.push(left[i].name.clone());
        i = i + 1;
    }
    let mut j: usize = 0;
    while j < right.len()
        invariant
            j <= right@.len(),
            all@.len() == left@.len() + j,
            forall|k: int| 0 <= k < left@.len() ==> (#[trigger] all@[k])@ == left@[k].name@,
            forall|k: int| 0 <= k < j ==> (#[trigger] all@[left@.len() + k])@ == right@[k].name@,
        decreases right.len() - j,
    {
        all.push(right[j].name.clone());
        j = j + 1;
    }
    proof {
        let a = field_names(left@);
        let b = field_names(right@);
        let t = texts(all@);
        assert forall|k: Seq<char>| t.contains(k) <==> (a.contains(k) || b.contains(k)) by {
            if t.contains(k) {
                let i = choose|i: int| 0 <= i < t.len() && t[i] == k;
                if i < a.len() {
                    assert(a[i] == k);
                } else {
                    assert(all@[left@.len() + (i - left@.len())]@ == right@[i - left@.len()].name@);
                    assert(b[i - a.len()] == k);
                }
            }
            if a.contains(k) {
                let i = choose|i: int| 0 <= i < a.len() && a[i] == k;
                assert(t[i] == k);
            }
            if b.contains(k) {
                let i = choose|i: int| 0 <= i < b.len() && b[i] == k;
                assert(all@[left@.len() + i]@ == right@[i].name@);
                assert(t[i + a.len()] == k);
            }
        }
    }
    sorted_unique(&all)
}

/// Compare two entities' fields: every field on either side, in ascending
/// order of name, except the identity and timestamp fields, whose values
/// differ (a field missing on one side counts as null there).
pub fn diff_fields(left: &Vec<Field>, right: &Vec<Field>) -> (r: Vec<FieldDiff>)
    ensures
        is_field_diff(left@, right@, r@),
        forall|k: Seq<char>|
            #![trigger field_names(left@).contains(k)]
            #![trigger field_names(right@).contains(k)]
            (field_names(left@).contains(k) || field_names(right@).contains(k)) && value_view(lookup_field(left@, k))
                != value_view(lookup_field(right@, k)) && k != "id"@ && k != "topology_id"@ && k != "node_id"@ && k
                != "dataset_id"@ && k != "volume_id"@ && k != "source_node_id"@ && k != "target_node_id"@ && k
                != "source_volume_id"@ && k != "target_volume_id"@ && k != "created_at"@ && k != "updated_at"@
                ==> r@.map_values(|x: FieldDiff| x.field@).contains(k),
        forall|i: int|
            0 <= i < r@.len() ==> {
                let k = (#[trigger] r@[i]).field@;
                &&& k != "id"@ && k != "topology_id"@ && k != "node_id"@ && k != "dataset_id"@ && k != "volume_id"@
                &&& k != "source_node_id"@ && k != "target_node_id"@ && k != "source_volume_id"@
                &&& k != "target_volume_id"@ && k != "created_at"@ && k != "updated_at"@
                &&& value_view(r@[i].old_value) != value_view(r@[i].new_value)
            },
{
    let names = all_field_names(left, right);
    let ghost sn = texts(names@);
    let mut r: Vec<FieldDiff> = Vec::new();
    let mut i: usize = 0;
    while i < names.len()
        invariant
            i <= names@.len(),
            sn == texts(names@),
            strictly_sorted(sn),
            forall|k: Seq<char>|
                sn.contains(k) <==> (field_names(left@).contains(k) || field_names(right@).contains(k)),
            strictly_sorted(r@.map_values(|x: FieldDiff| x.field@)),
            forall|m: int|
                0 <= m < r@.len() ==> exists|j: int| 0 <= j < i && (#[trigger] r@[m]).field@ == sn[j],
            forall|j: int|
                0 <= j < i ==> (field_differs(left@, right@, #[trigger] sn[j]) <==> r@.map_values(
                    |x: FieldDiff| x.field@,
                ).contains(sn[j])),
            forall|m: int|
                0 <= m < r@.len() ==> (#[trigger] r@[m]).old_value == lookup_field(left@, r@[m].field@)
                    && r@[m].new_value == lookup_field(right@, r@[m].field@) && field_differs(
                    left@,
                    right@,
                    r@[m].field@,
                ),
        decreases names.len() - i,
    {
        let name = names[i].as_str();
        let ghost old_r = r@;
        let ghost old_f = old_r.map_values(|x: FieldDiff| x.field@);
        proof {
            assert(sn[i as int] == name@);
            assert(sn.contains(name@));
        }
        if !skipped_field(name) {
            let lv = get_field(left, name);
            let rv = get_field(right, name);
            if !lv.same(&rv) {
                r.push(FieldDiff { field: names[i].clone(), old_value: lv, new_value: rv });
                proof {
                    let nf = r@.map_values(|x: FieldDiff| x.field@);
                    assert(nf =~= old_f.push(name@));
                    assert forall|a: int, b: int| 0 <= a < b < nf.len() implies lex_lt(#[trigger] nf[a], #[trigger] nf[b]) by {
                        if b == nf.len() - 1 {
                            assert(old_r[a] == r@[a]);
                            let j = choose|j: int| 0 <= j < i && (#[trigger] old_r[a]).field@ == sn[j];
                            assert(lex_lt(sn[j], sn[i as int]));
                        } else {
                            assert(nf[a] == old_f[a] && nf[b] == old_f[b]);
                        }
                    }
                    assert forall|m: int| 0 <= m < r@.len() implies exists|j: int|
                        0 <= j < i + 1 && (#[trigger] r@[m]).field@ == sn[j] by {
                        if m < old_r.len() {
                            assert(r@[m] == old_r[m]);
                            let j = choose|j: int| 0 <= j < i && (#[trigger] old_r[m]).field@ == sn[j];
                            assert(r@[m].field@ == sn[j]);
                        } else {
                            assert(r@[m].field@ == sn[i as int]);
                        }
                    }
                }
            }
        }
        proof {
            let nf = r@.map_values(|x: FieldDiff| x.field@);
            assert forall|j: int| 0 <= j < i + 1 implies (field_differs(left@, right@, #[trigger] sn[j]) <==> nf.contains(sn[j])) by {
                if j < i {
                    if old_f.contains(sn[j]) {
                        let m = choose|m: int| 0 <= m < old_f.len() && old_f[m] == sn[j];
                        assert(nf[m] == sn[j]);
                    }
                    if nf.contains(sn[j]) {
                        let m = choose|m: int| 0 <= m < nf.len() && nf[m] == sn[j];
                        if m < old_f.len() {
                            assert(old_f[m] == sn[j]);
                        } else {
                            lemma_lex_lt_total(sn[j], sn[i as int]);
                            assert(lex_lt(sn[j], sn[i as int]));
                            lemma_lex_lt_irreflexive(sn[j]);
                        }
                    }
                } else {
                    if nf.contains(sn[j]) && nf.len() == old_f.len() {
                        let m = choose|m: int| 0 <= m < nf.len() && nf[m] == sn[j];
                        assert(old_r[m] == r@[m]);
                        let j2 = choose|j2: int| 0 <= j2 < i && (#[trigger] old_r[m]).field@ == sn[j2];
                        assert(lex_lt(sn[j2], sn[i as int]));
                        lemma_lex_lt_irreflexive(sn[j2]);
                    }
                    if nf.len() > old_f.len() {
                        assert(nf[nf.len() - 1] == sn[j]);
                    }
                }
            }
        }
        i = i + 1;
    }
    proof {
        let nf = r@.map_values(|x: FieldDiff| x.field@);
        assert forall|k: Seq<char>| #![trigger field_differs(left@, right@, k)] field_differs(left@, right@, k) <==> nf.contains(k) by {
            if field_differs(left@, right@, k) {
                assert(sn.contains(k));
                let j = choose|j: int| 0 <= j < sn.len() && sn[j] == k;
                assert(field_differs(left@, right@, sn[j]));
            }
            if nf.contains(k) {
                let m = choose|m: int| 0 <= m < nf.len() && nf[m] == k;
                assert(r@[m].field@ == k);
            }
        }
        assert forall|k: Seq<char>|
            (field_names(left@).contains(k) || field_names(right@).contains(k)) && value_view(lookup_field(left@, k))
                != value_view(lookup_field(right@, k)) && !is_skipped_field(k) implies nf.contains(k) by {
            assert(field_differs(left@, right@, k));
        }
        assert forall|i: int| 0 <= i < r@.len() implies !is_skipped_field((#[trigger] r@[i]).field@)
            && value_view(r@[i].old_value) != value_view(r@[i].new_value) by {
            assert(nf[i] == r@[i].field@);
            assert(field_differs(left@, right@, nf[i]));
        }
    }
    r
}

// ---------------------------------------------------------------------------
// Entities
// ---------------------------------------------------------------------------

/// An entity of one side, with its display key and its fields.
#[derive(Debug, Clone)]
pub struct Entity {
    pub key: String,
    pub fields: Vec<Field>,
}

/// The keys of a list of entities.
pub open spec fn entity_keys(es: Seq<Entity>) -> Seq<Seq<char>> {
    es.map_values(|e: Entity| e.key@)
}

/// The entity a key denotes on one side: the last entity with that key.
pub open spec fn entity_at(es: Seq<Entity>, k: Seq<char>) -> Entity {
    es[last_index_of(entity_keys(es), k)]
}

/// One line of an entity diff. `Removed` and `Added` carry the index, in
/// the base or target list, of the entity the key denotes.
#[derive(Debug, Clone)]
pub enum DiffEntry {
    Added(String, usize),
    Removed(String, usize),
    Changed(String, Vec<FieldDiff>),
}

/// Removed entries come first, then added ones, then changed ones.
pub open spec fn entry_rank(e: DiffEntry) -> int {
    match e {
        DiffEntry::Removed(_, _) => 0,
        DiffEntry::Added(_, _) => 1,
        DiffEntry::Changed(_, _) => 2,
    }
}

pub open spec fn entry_key(e: DiffEntry) -> Seq<char> {
    match e {
        DiffEntry::Removed(k, _) => k@,
        DiffEntry::Added(k, _) => k@,
        DiffEntry::Changed(k, _) => k@,
    }
}

/// Entries come by rank, and within a rank by ascending key.
pub open spec fn entries_ordered(d: Seq<DiffEntry>) -> bool {
    forall|i: int, j: int|
        0 <= i < j < d.len() ==> entry_rank(#[trigger] d[i]) < entry_rank(#[trigger] d[j]) || (entry_rank(d[i])
            == entry_rank(d[j]) && lex_lt(entry_key(d[i]), entry_key(d[j])))
}

/// A key with an entry of the given rank.
pub open spec fn has_entry(d: Seq<DiffEntry>, rank: int, k: Seq<char>) -> bool {
    exists|i: int| 0 <= i < d.len() && entry_rank(#[trigger] d[i]) == rank && entry_key(d[i]) == k
}

/// `d` is the diff from `base` to `target`: the keys only in the base are
/// removed, those only in the target are added, and those in both whose
/// entities' fields differ are changed, with their field diff.
pub open spec fn is_entity_diff(base: Seq<Entity>, target: Seq<Entity>, d: Seq<DiffEntry>) -> bool {
    let bk = entity_keys(base);
    let tk = entity_keys(target);
    &&& entries_ordered(d)
    &&& forall|k: Seq<char>|
        #![trigger has_entry(d, 0, k)]
        has_entry(d, 0, k) <==> (bk.contains(k) && !tk.contains(k))
    &&& forall|k: Seq<char>|
        #![trigger has_entry(d, 1, k)]
        has_entry(d, 1, k) <==> (tk.contains(k) && !bk.contains(k))
    &&& forall|k: Seq<char>|
        #![trigger has_entry(d, 2, k)]
        has_entry(d, 2, k) <==> (bk.contains(k) && tk.contains(k) && fields_differ(
            entity_at(base, k).fields@,
            entity_at(target, k).fields@,
        ))
    &&& forall|i: int|
        0 <= i < d.len() ==> match #[trigger] d[i] {
            DiffEntry::Removed(k, idx) => idx == last_index_of(bk, k@),
            DiffEntry::Added(k, idx) => idx == last_index_of(tk, k@),
            DiffEntry::Changed(k, fd) => is_field_diff(
                entity_at(base, k@).fields@,
                entity_at(target, k@).fields@,
                fd@,
            ),
        }
}

/// The distinct keys of a list of entities, in ascending order.
fn sorted_keys(es: &Vec<Entity>) -> (r: Vec<String>)
    ensures
        strictly_sorted(texts(r@)),
        forall|k: Seq<char>| texts(r@).contains(k) <==> entity_keys(es@).contains(k),
{
    let mut all: Vec<String> = Vec::new();
    let mut i: usize = 0;
    while i < es.len()
        invariant
            i <= es@.len(),
            all@.len() == i,
            forall|k: int| 0 <= k < i ==> (#[trigger] all@[k])@ == es@[k].key@,
        decreases es.len() - i,
    {
        all.push(es[i].key.clone());
        i = i + 1;
    }
    proof {
        assert(texts(all@) =~= entity_keys(es@));
    }
    sorted_unique(&all)
}

/// Index of the entity a key denotes (the last one with that key).
fn last_entity_index(es: &Vec<Entity>, key: &str) -> (r: Option<usize>)
    ensures
        r is None <==> !entity_keys(es@).contains(key@),
        r matches Some(i) ==> i == last_index_of(entity_keys(es@), key@) && i < es@.len() && es@[i as int].key@
            == key@,
{
    proof {
        lemma_last_index_of(entity_keys(es@), key@);
    }
    let mut i: usize = es.len();
    while i > 0
        invariant
            i <= es@.len(),
            forall|j: int| i <= j < es@.len() ==> (#[trigger] es@[j]).key@ != key@,
        decreases i,
    {
        if str_eq(es[i - 1].key.as_str(), key) {
            proof {
                let ks = entity_keys(es@);
                lemma_last_index_of(ks, key@);
                let li = last_index_of(ks, key@);
                assert(ks[i - 1] == key@);
                if li != i - 1 {
                    if li > i - 1 {
                        assert(ks[li] == key@);
                        assert(es@[li].key@ != key@);
                    } else {
                        assert(ks[i - 1] != key@);
                    }
                }
            }
            return Some(i - 1);
        }
        i = i - 1;
    }
    proof {
        let ks = entity_keys(es@);
        lemma_last_index_of(ks, key@);
        if ks.contains(key@) {
            let j = choose|j: int| 0 <= j < ks.len() && ks[j] == key@;
            assert(es@[j].key@ != key@);
        }
    }
    None
}

/// The part of a diff of one rank: ascending keys, each once.
pub open spec fn part_sorted(d: Seq<DiffEntry>, rank: int) -> bool {
    &&& forall|i: int| 0 <= i < d.len() ==> entry_rank(#[trigger] d[i]) == rank
    &&& forall|i: int, j: int|
        0 <= i < j < d.len() ==> lex_lt(entry_key(#[trigger] d[i]), entry_key(#[trigger] d[j]))
}

/// The rank of one-sided entries: added or removed.
pub open spec fn side_rank(added: bool) -> int {
    if added {
        1
    } else {
        0
    }
}

/// Entries for the keys of `from` that `other` lacks: `Removed` when
/// `added` is false, `Added` when it is true.
fn one_sided(from: &Vec<Entity>, other: &Vec<Entity>, added: bool) -> (r: Vec<DiffEntry>)
    ensures
        part_sorted(r@, side_rank(added)),
        forall|k: Seq<char>|
            #![trigger has_entry(r@, side_rank(added), k)]
            has_entry(r@, side_rank(added), k) <==> (entity_keys(from@).contains(k)
                && !entity_keys(other@).contains(k)),
        forall|i: int|
            0 <= i < r@.len() ==> match #[trigger] r@[i] {
                DiffEntry::Removed(k, idx) => idx == last_index_of(entity_keys(from@), k@),
                DiffEntry::Added(k, idx) => idx == last_index_of(entity_keys(from@), k@),
                DiffEntry::Changed(_, _) => false,
            },
{
    let ghost rank: int = side_rank(added);
    let keys = sorted_keys(from);
    let ghost sn = texts(keys@);
    let mut r: Vec<DiffEntry> = Vec::new();
    let mut i: usize = 0;
    while i < keys.len()
        invariant
            i <= keys@.len(),
            sn == texts(keys@),
            rank == side_rank(added),
            strictly_sorted(sn),
            forall|k: Seq<char>| sn.contains(k) <==> entity_keys(from@).contains(k),
            part_sorted(r@, rank),
            forall|m: int| 0 <= m < r@.len() ==> exists|j: int| 0 <= j < i && entry_key(#[trigger] r@[m]) == sn[j],
            forall|j: int|
                0 <= j < i ==> (has_entry(r@, rank, #[trigger] sn[j]) <==> !entity_keys(other@).contains(sn[j])),
            forall|m: int|
                0 <= m < r@.len() ==> !entity_keys(other@).contains(entry_key(#[trigger] r@[m])),
            forall|m: int|
                0 <= m < r@.len() ==> match #[trigger] r@[m] {
                    DiffEntry::Removed(k, idx) => idx == last_index_of(entity_keys(from@), k@),
                    DiffEntry::Added(k, idx) => idx == last_index_of(entity_keys(from@), k@),
                    DiffEntry::Changed(_, _) => false,
                },
        decreases keys.len() - i,
    {
        let key = keys[i].as_str();
        let ghost old_r = r@;
        proof {
            assert(sn[i as int] == key@);
            assert(sn.contains(key@));
        }
        if last_entity_index(other, key).is_none() {
            let idx = last_entity_index(from, key);
            match idx {
                Some(x) => {
                    let e = if added {
                        DiffEntry::Added(keys[i].clone(), x)
                    } else {
                        DiffEntry::Removed(keys[i].clone(), x)
                    };
                    r.push(e);
                    proof {
                        assert forall|a: int, b: int| 0 <= a < b < r@.len() implies lex_lt(entry_key(#[trigger] r@[a]), entry_key(#[trigger] r@[b])) by {
                            if b == r@.len() - 1 {
                                assert(old_r[a] == r@[a]);
                                let j = choose|j: int| 0 <= j < i && entry_key(#[trigger] old_r[a]) == sn[j];
                                assert(lex_lt(sn[j], sn[i as int]));
                            } else {
                                assert(old_r[a] == r@[a] && old_r[b] == r@[b]);
                            }
                        }
                        assert forall|m: int| 0 <= m < r@.len() implies exists|j: int|
                            0 <= j < i + 1 && entry_key(#[trigger] r@[m]) == sn[j] by {
                            if m < old_r.len() {
                                assert(r@[m] == old_r[m]);
                                let j = choose|j: int| 0 <= j < i && entry_key(#[trigger] old_r[m]) == sn[j];
                            } else {
                                assert(entry_key(r@[m]) == sn[i as int]);
                            }
                        }
                    }
                },
                None => {},
            }
        }
        proof {
            assert forall|j: int| 0 <= j < i + 1 implies (has_entry(r@, rank, #[trigger] sn[j]) <==> !entity_keys(other@).contains(sn[j])) by {
                if j < i {
                    if has_entry(old_r, rank, sn[j]) {
                        let m = choose|m: int| 0 <= m < old_r.len() && entry_rank(#[trigger] old_r[m]) == rank && entry_key(old_r[m]) == sn[j];
                        assert(r@[m] == old_r[m]);
                    }
                    if has_entry(r@, rank, sn[j]) {
                        let m = choose|m: int| 0 <= m < r@.len() && entry_rank(#[trigger] r@[m]) == rank && entry_key(r@[m]) == sn[j];
                        if m < old_r.len() {
                            assert(r@[m] == old_r[m]);
                        } else {
                            lemma_lex_lt_total(sn[j], sn[i as int]);
                            lemma_lex_lt_irreflexive(sn[j]);
                        }
                    }
                } else {
                    if has_entry(r@, rank, sn[j]) && r@.len() == old_r.len() {
                        let m = choose|m: int| 0 <= m < r@.len() && entry_rank(#[trigger] r@[m]) == rank && entry_key(r@[m]) == sn[j];
                        assert(!entity_keys(other@).contains(entry_key(r@[m])));
                    }
                    if r@.len() > old_r.len() {
                        assert(entry_key(r@[r@.len() - 1]) == sn[j]);
                        assert(entry_rank(r@[r@.len() - 1]) == rank);
                    }
                }
            }
        }
        i = i + 1;
    }
    proof {
        assert forall|k: Seq<char>| #![trigger has_entry(r@, rank, k)] has_entry(r@, rank, k) <==> (entity_keys(from@).contains(k)
            && !entity_keys(other@).contains(k)) by {
            if entity_keys(from@).contains(k) {
                assert(sn.contains(k));
                let j = choose|j: int| 0 <= j < sn.len() && sn[j] == k;
                assert(has_entry(r@, rank, sn[j]) <==> !entity_keys(other@).contains(sn[j]));
            }
            if has_entry(r@, rank, k) {
                let m = choose|m: int| 0 <= m < r@.len() && entry_rank(#[trigger] r@[m]) == rank && entry_key(r@[m]) == k;
                let j = choose|j: int| 0 <= j < i && entry_key(#[trigger] r@[m]) == sn[j];
                assert(sn.contains(k));
            }
        }
    }
    r
}

/// A field diff is empty exactly when no compared field differs.
proof fn lemma_field_diff_empty(left: Seq<Field>, right: Seq<Field>, d: Seq<FieldDiff>)
    requires
        is_field_diff(left, right, d),
    ensures
        d.len() > 0 <==> fields_differ(left, right),
{
    let names = d.map_values(|x: FieldDiff| x.field@);
    if d.len() > 0 {
        assert(names.contains(names[0]));
        assert(field_differs(left, right, names[0]));
    }
    if fields_differ(left, right) {
        let k = choose|k: Seq<char>| #[trigger] field_differs(left, right, k);
        assert(names.contains(k));
    }
}

/// Entries for the keys on both sides whose entities' fields differ.
fn changed_part(base: &Vec<Entity>, target: &Vec<Entity>) -> (r: Vec<DiffEntry>)
    ensures
        part_sorted(r@, 2),
        forall|k: Seq<char>|
            #![trigger has_entry(r@, 2, k)]
            has_entry(r@, 2, k) <==> (entity_keys(base@).contains(k) && entity_keys(target@).contains(k)
                && fields_differ(entity_at(base@, k).fields@, entity_at(target@, k).fields@)),
        forall|i: int|
            0 <= i < r@.len() ==> match #[trigger] r@[i] {
                DiffEntry::Changed(k, fd) => is_field_diff(
                    entity_at(base@, k@).fields@,
                    entity_at(target@, k@).fields@,
                    fd@,
                ),
                _ => false,
            },
{
    let keys = sorted_keys(base);
    let ghost sn = texts(keys@);
    let ghost bk = entity_keys(base@);
    let ghost tk = entity_keys(target@);
    let mut r: Vec<DiffEntry> = Vec::new();
    let mut i: usize = 0;
    while i < keys.len()
        invariant
            i <= keys@.len(),
            sn == texts(keys@),
            bk == entity_keys(base@),
            tk == entity_keys(target@),
            strictly_sorted(sn),
            forall|k: Seq<char>| sn.contains(k) <==> bk.contains(k),
            part_sorted(r@, 2),
            forall|m: int| 0 <= m < r@.len() ==> exists|j: int| 0 <= j < i && entry_key(#[trigger] r@[m]) == sn[j],
            forall|j: int|
                0 <= j < i ==> (has_entry(r@, 2, #[trigger] sn[j]) <==> (tk.contains(sn[j]) && fields_differ(
                    entity_at(base@, sn[j]).fields@,
                    entity_at(target@, sn[j]).fields@,
                ))),
            forall|m: int|
                0 <= m < r@.len() ==> match #[trigger] r@[m] {
                    DiffEntry::Changed(k, fd) => tk.contains(k@) && is_field_diff(
                        entity_at(base@, k@).fields@,
                        entity_at(target@, k@).fields@,
                        fd@,
                    ) && fd@.len() > 0,
                    _ => false,
                },
        decreases keys.len() - i,
    {
        let key = keys[i].as_str();
        let ghost old_r = r@;
        proof {
            assert(sn[i as int] == key@);
            assert(sn.contains(key@));
        }
        match last_entity_index(target, key) {
            Some(ti) => {
                match last_entity_index(base, key) {
                    Some(bi) => {
                        let fd = diff_fields(&base[bi].fields, &target[ti].fields);
                        proof {
                            lemma_field_diff_empty(base@[bi as int].fields@, target@[ti as int].fields@, fd@);
                        }
                        if fd.len() > 0 {
                            r.push(DiffEntry::Changed(keys[i].clone(), fd));
                            proof {
                                assert forall|a: int, b: int| 0 <= a < b < r@.len() implies lex_lt(entry_key(#[trigger] r@[a]), entry_key(#[trigger] r@[b])) by {
                                    if b == r@.len() - 1 {
                                        assert(old_r[a] == r@[a]);
                                        let j = choose|j: int| 0 <= j < i && entry_key(#[trigger] old_r[a]) == sn[j];
                                        assert(lex_lt(sn[j], sn[i as int]));
                                    } else {
                                        assert(old_r[a] == r@[a] && old_r[b] == r@[b]);
                                    }
                                }
                                assert forall|m: int| 0 <= m < r@.len() implies exists|j: int|
                                    0 <= j < i + 1 && entry_key(#[trigger] r@[m]) == sn[j] by {
                                    if m < old_r.len() {
                                        assert(r@[m] == old_r[m]);
                                        let j = choose|j: int| 0 <= j < i && entry_key(#[trigger] old_r[m]) == sn[j];
                                    } else {
                                        assert(entry_key(r@[m]) == sn[i as int]);
                                    }
                                }
                            }
                        }
                    },
                    None => {},
                }
            },
            None => {},
        }
        proof {
            assert forall|j: int| 0 <= j < i + 1 implies (has_entry(r@, 2, #[trigger] sn[j]) <==> (tk.contains(sn[j])
                && fields_differ(entity_at(base@, sn[j]).fields@, entity_at(target@, sn[j]).fields@))) by {
                if j < i {
                    if has_entry(old_r, 2, sn[j]) {
                        let m = choose|m: int| 0 <= m < old_r.len() && entry_rank(#[trigger] old_r[m]) == 2 && entry_key(old_r[m]) == sn[j];
                        assert(r@[m] == old_r[m]);
                    }
                    if has_entry(r@, 2, sn[j]) {
                        let m = choose|m: int| 0 <= m < r@.len() && entry_rank(#[trigger] r@[m]) == 2 && entry_key(r@[m]) == sn[j];
                        if m < old_r.len() {
                            assert(r@[m] == old_r[m]);
                        } else {
                            lemma_lex_lt_total(sn[j], sn[i as int]);
                            lemma_lex_lt_irreflexive(sn[j]);
                        }
                    }
                } else {
                    if has_entry(r@, 2, sn[j]) && r@.len() == old_r.len() {
                        let m = choose|m: int| 0 <= m < r@.len() && entry_rank(#[trigger] r@[m]) == 2 && entry_key(r@[m]) == sn[j];
                        assert(old_r[m] == r@[m]);
                        let j2 = choose|j2: int| 0 <= j2 < i && entry_key(#[trigger] old_r[m]) == sn[j2];
                        assert(lex_lt(sn[j2], sn[i as int]));
                        lemma_lex_lt_irreflexive(sn[j2]);
                    }
                    if r@.len() > old_r.len() {
                        assert(entry_key(r@[r@.len() - 1]) == sn[j]);
                        assert(entry_rank(r@[r@.len() - 1]) == 2);
                    }
                }
            }
        }
        i = i + 1;
    }
    proof {
        assert forall|k: Seq<char>| #![trigger has_entry(r@, 2, k)] has_entry(r@, 2, k) <==> (bk.contains(k) && tk.contains(k)
            && fields_differ(entity_at(base@, k).fields@, entity_at(target@, k).fields@)) by {
            if bk.contains(k) {
                assert(sn.contains(k));
                let j = choose|j: int| 0 <= j < sn.len() && sn[j] == k;
                assert(has_entry(r@, 2, sn[j]) <==> (tk.contains(sn[j]) && fields_differ(
                    entity_at(base@, sn[j]).fields@,
                    entity_at(target@, sn[j]).fields@,
                )));
            }
            if has_entry(r@, 2, k) {
                let m = choose|m: int| 0 <= m < r@.len() && entry_rank(#[trigger] r@[m]) == 2 && entry_key(r@[m]) == k;
                let j = choose|j: int| 0 <= j < i && entry_key(#[trigger] r@[m]) == sn[j];
                assert(sn.contains(k));
            }
        }
    }
    r
}

/// Diff two sides entity by entity, matching entities by key: removed
/// keys first, then added ones, then changed ones, each group in
/// ascending order of key.
pub fn diff_entities(base: &Vec<Entity>, target: &Vec<Entity>) -> (r: Vec<DiffEntry>)
    ensures
        is_entity_diff(base@, target@, r@),
{
    let removed = one_sided(base, target, false);
    let added = one_sided(target, base, true);
    let changed = changed_part(base, target);
    let ghost p0 = removed@;
    let ghost p1 = added@;
    let ghost p2 = changed@;
    let mut r = removed;
    let mut added = added;
    r.append(&mut added);
    let mut changed = changed;
    r.append(&mut changed);
    proof {
        let d = r@;
        assert(d =~= p0 + p1 + p2);
        let a = p0.len();
        let b = p0.len() + p1.len();
        assert forall|i: int| 0 <= i < d.len() implies (#[trigger] d[i]) == (if i < a {
            p0[i]
        } else if i < b {
            p1[i - a]
        } else {
            p2[i - b]
        }) by {}
        assert forall|i: int, j: int| 0 <= i < j < d.len() implies entry_rank(#[trigger] d[i]) < entry_rank(#[trigger] d[j])
            || (entry_rank(d[i]) == entry_rank(d[j]) && lex_lt(entry_key(d[i]), entry_key(d[j]))) by {
            if j < a {
                assert(p0[i] == d[i] && p0[j] == d[j]);
            } else if i >= a && j < b {
                assert(p1[i - a] == d[i] && p1[j - a] == d[j]);
            } else if i >= b {
                assert(p2[i - b] == d[i] && p2[j - b] == d[j]);
            } else if i < a {
                assert(entry_rank(p0[i]) == 0);
                if j < b {
                    assert(entry_rank(p1[j - a]) == 1);
                } else {
                    assert(entry_rank(p2[j - b]) == 2);
                }
            } else {
                assert(entry_rank(p1[i - a]) == 1);
                assert(entry_rank(p2[j - b]) == 2);
            }
        }
        assert forall|rank: int, k: Seq<char>| 0 <= rank <= 2 implies #[trigger] has_entry(d, rank, k) == (if rank == 0 {
            has_entry(p0, 0, k)
        } else if rank == 1 {
            has_entry(p1, 1, k)
        } else {
            has_entry(p2, 2, k)
        }) by {
            if has_entry(d, rank, k) {
                let i = choose|i: int| 0 <= i < d.len() && entry_rank(#[trigger] d[i]) == rank && entry_key(d[i]) == k;
                if i < a {
                    assert(entry_rank(p0[i]) == 0);
                } else if i < b {
                    assert(entry_rank(p1[i - a]) == 1);
                } else {
                    assert(entry_rank(p2[i - b]) == 2);
                }
            }
            if rank == 0 && has_entry(p0, 0, k) {
                let i = choose|i: int| 0 <= i < p0.len() && entry_rank(#[trigger] p0[i]) == 0 && entry_key(p0[i]) == k;
                assert(d[i] == p0[i]);
            }
            if rank == 1 && has_entry(p1, 1, k) {
                let i = choose|i: int| 0 <= i < p1.len() && entry_rank(#[trigger] p1[i]) == 1 && entry_key(p1[i]) == k;
                assert(d[i + a] == p1[i]);
            }
            if rank == 2 && has_entry(p2, 2, k) {
                let i = choose|i: int| 0 <= i < p2.len() && entry_rank(#[trigger] p2[i]) == 2 && entry_key(p2[i]) == k;
                assert(d[i + b] == p2[i]);
            }
        }
        assert forall|k: Seq<char>| #![trigger has_entry(d, 0, k)] has_entry(d, 0, k) <==> (entity_keys(base@).contains(k)
            && !entity_keys(target@).contains(k)) by {
            assert(has_entry(d, 0, k) == has_entry(p0, 0, k));
            assert(has_entry(p0, side_rank(false), k) == has_entry(p0, 0, k));
        }
        assert forall|k: Seq<char>| #![trigger has_entry(d, 1, k)] has_entry(d, 1, k) <==> (entity_keys(target@).contains(k)
            && !entity_keys(base@).contains(k)) by {
            assert(has_entry(d, 1, k) == has_entry(p1, 1, k));
            assert(has_entry(p1, side_rank(true), k) == has_entry(p1, 1, k));
        }
        assert forall|k: Seq<char>| #![trigger has_entry(d, 2, k)] has_entry(d, 2, k) <==> (entity_keys(base@).contains(k)
            && entity_keys(target@).contains(k) && fields_differ(entity_at(base@, k).fields@, entity_at(target@, k).fields@)) by {
            assert(has_entry(d, 2, k) == has_entry(p2, 2, k));
        }
        assert forall|i: int| 0 <= i < d.len() implies match #[trigger] d[i] {
            DiffEntry::Removed(k, idx) => idx == last_index_of(entity_keys(base@), k@),
            DiffEntry::Added(k, idx) => idx == last_index_of(entity_keys(target@), k@),
            DiffEntry::Changed(k, fd) => is_field_diff(entity_at(base@, k@).fields@, entity_at(target@, k@).fields@, fd@),
        } by {
            if i < a {
                assert(d[i] == p0[i]);
                assert(entry_rank(p0[i]) == 0);
            } else if i < b {
                assert(d[i] == p1[i - a]);
                assert(entry_rank(p1[i - a]) == 1);
            } else {
                assert(d[i] == p2[i - b]);
            }
        }
    }
    r
}

// ---------------------------------------------------------------------------
// Sections and summary
// ---------------------------------------------------------------------------

/// The entity kinds a topology diff covers.
#[derive(Debug, Clone, Copy, PartialEq, Eq, Structural)]
pub struct DiffSections {
    pub nodes: bool,
    pub volumes: bool,
    pub datasets: bool,
    pub placements: bool,
    pub links: bool,
    pub syncs: bool,
}

impl DiffSections {
    /// The kinds a diff covers given its `--nodes`, `--volumes`, ...
    /// flags: every kind when no flag is set, else exactly the flagged ones.
    pub fn from_flags(flags: DiffSections) -> (r: DiffSections)
        ensures
            ({
                let any = flags.nodes || flags.volumes || flags.datasets || flags.placements || flags.links
                    || flags.syncs;
                &&& r.nodes == (!any || flags.nodes)
                &&& r.volumes == (!any || flags.volumes)
                &&& r.datasets == (!any || flags.datasets)
                &&& r.placements == (!any || flags.placements)
                &&& r.links == (!any || flags.links)
                &&& r.syncs == (!any || flags.syncs)
            }),
    {
        let any = flags.nodes || flags.volumes || flags.datasets || flags.placements || flags.links || flags.syncs;
        DiffSections {
            nodes: !any || flags.nodes,
            volumes: !any || flags.volumes,
            datasets: !any || flags.datasets,
            placements: !any || flags.placements,
            links: !any || flags.links,
            syncs: !any || flags.syncs,
        }
    }
}

/// The number of entries of the given rank.
pub open spec fn count_rank(d: Seq<DiffEntry>, rank: int) -> nat
    decreases d.len(),
{
    if d.len() == 0 {
        0
    } else {
        count_rank(d.drop_last(), rank) + if entry_rank(d.last()) == rank {
            1nat
        } else {
            0nat
        }
    }
}

/// The numbers of added, modified and removed entries of a diff section.
pub fn count_entries(entries: &Vec<DiffEntry>) -> (r: (usize, usize, usize))
    ensures
        r.0 == count_rank(entries@, 1),
        r.1 == count_rank(entries@, 2),
        r.2 == count_rank(entries@, 0),
{
    let mut added: usize = 0;
    let mut modified: usize = 0;
    let mut removed: usize = 0;
    let mut i: usize = 0;
    while i < entries.len()
        invariant
            i <= entries@.len(),
            added == count_rank(entries@.take(i as int), 1),
            modified == count_rank(entries@.take(i as int), 2),
            removed == count_rank(entries@.take(i as int), 0),
            added + modified + removed == i,
        decreases entries.len() - i,
    {
        proof {
            assert(entries@.take(i + 1).drop_last() =~= entries@.take(i as int));
        }
        match &entries[i] {
            DiffEntry::Added(_, _) => {
                added = added + 1;
            },
            DiffEntry::Changed(_, _) => {
                modified = modified + 1;
            },
            DiffEntry::Removed(_, _) => {
                removed = removed + 1;
            },
        }
        i = i + 1;
    }
    proof {
        assert(entries@.take(entries@.len() as int) =~= entries@);
    }
    (added, modified, removed)
}

/// `parts` joined with ", ".
pub open spec fn join_comma(parts: Seq<Seq<char>>) -> Seq<char>
    decreases parts.len(),
{
    if parts.len() == 0 {
        Seq::empty()
    } else if parts.len() == 1 {
        parts[0]
    } else {
        join_comma(parts.drop_last()) + ", "@ + parts.last()
    }
}

/// `n` followed by `word` (which starts with a space), when `n` is not
/// zero.
pub open spec fn count_part(n: nat, word: Seq<char>) -> Seq<Seq<char>> {
    if n > 0 {
        seq![decimal_text(n) + word]
    } else {
        seq![]
    }
}

/// The closing line of a text diff.
pub open spec fn summary_text(added: nat, modified: nat, removed: nat) -> Seq<char> {
    let parts = count_part(added, " added"@) + count_part(modified, " modified"@) + count_part(removed, " removed"@);
    if parts.len() == 0 {
        "No differences found."@
    } else {
        "Summary: "@ + join_comma(parts)
    }
}

/// The closing line of a text diff: the non-zero totals, or a note that
/// nothing differs.
pub fn diff_summary(added: u64, modified: u64, removed: u64) -> (r: String)
    ensures
        r@ == summary_text(added as nat, modified as nat, removed as nat),
{
    let mut parts: Vec<String> = Vec::new();
    let ghost p1 = count_part(added as nat, " added"@);
    let ghost p2 = p1 + count_part(modified as nat, " modified"@);
    let ghost p3 = p2 + count_part(removed as nat, " removed"@);
    if added > 0 {
        let mut p = decimal(added);
        p.append(" added");
        parts.push(p);
    }
    assert(texts(parts@) =~= p1);
    if modified > 0 {
        let mut p = decimal(modified);
        p.append(" modified");
        let ghost before = parts@;
        parts.push(p);
        assert(texts(parts@) =~= texts(before).push(p@));
    }
    assert(texts(parts@) =~= p2);
    if removed > 0 {
        let mut p = decimal(removed);
        p.append(" removed");
        let ghost before = parts@;
        parts.push(p);
        assert(texts(parts@) =~= texts(before).push(p@));
    }
    assert(texts(parts@) =~= p3);
    if parts.len() == 0 {
        return String::from_str("No differences found.");
    }
    let mut s = String::from_str("Summary: ");
    let mut joined = parts[0].clone();
    let mut i: usize = 1;
    while i < parts.len()
        invariant
            1 <= i <= parts@.len(),
            joined@ == join_comma(texts(parts@).take(i as int)),
        decreases parts.len() - i,
    {
        proof {
            assert(texts(parts@).take(i + 1).drop_last() =~= texts(parts@).take(i as int));
        }
        joined.append(", ");
        joined.append(parts[i].as_str());
        i = i + 1;
    }
    proof {
        assert(texts(parts@).take(parts@.len() as int) =~= texts(parts@));
        assert(texts(parts@).take(1)[0] == texts(parts@)[0]);
    }
    s.append(joined.as_str());
    s
}


// ---------------------------------------------------------------------------
// Laws
// ---------------------------------------------------------------------------

/// A side compared with itself shows no differences: no entity is added,
/// removed or changed.
pub proof fn lemma_diff_with_itself_is_empty(es: Seq<Entity>, d: Seq<DiffEntry>)
    requires
        is_entity_diff(es, es, d),
    ensures
        d.len() == 0,
{
    if d.len() > 0 {
        let k = entry_key(d[0]);
        let rank = entry_rank(d[0]);
        assert(has_entry(d, rank, k));
        if rank == 2 {
            let fl = entity_at(es, k).fields@;
            assert(fields_differ(fl, fl));
            let name = choose|name: Seq<char>| #[trigger] field_differs(fl, fl, name);
            assert(field_differs(fl, fl, name));
        }
    }
}

/// Swapping the sides swaps what is added and what is removed, and
/// changes the same keys.
pub proof fn lemma_diff_swapped_sides(a: Seq<Entity>, b: Seq<Entity>, ab: Seq<DiffEntry>, ba: Seq<DiffEntry>, k: Seq<char>)
    requires
        is_entity_diff(a, b, ab),
        is_entity_diff(b, a, ba),
    ensures
        has_entry(ab, 0, k) <==> has_entry(ba, 1, k),
        has_entry(ab, 1, k) <==> has_entry(ba, 0, k),
        has_entry(ab, 2, k) <==> has_entry(ba, 2, k),
{
    if has_entry(ab, 2, k) || has_entry(ba, 2, k) {
        let l = entity_at(a, k).fields@;
        let r = entity_at(b, k).fields@;
        if fields_differ(l, r) {
            let name = choose|name: Seq<char>| #[trigger] field_differs(l, r, name);
            assert(field_differs(r, l, name));
        }
        if fields_differ(r, l) {
            let name = choose|name: Seq<char>| #[trigger] field_differs(r, l, name);
            assert(field_differs(l, r, name));
        }
    }
}

} // verus!
