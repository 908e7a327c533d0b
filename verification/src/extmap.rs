use vstd::prelude::*;

verus! {

// An `indexmap::IndexMap<String, String>` carries the per-entity key/value
// mapping while a chunk of attribute rows is pivoted, and the ordered pairs
// handed to a batched attach. The map is modelled as the sequence of its
// entries, in the map's own order, through the uninterpreted `im_entries`.

#[verifier::external_type_specification]
#[verifier::external_body]
#[verifier::reject_recursive_types(K)]
#[verifier::reject_recursive_types(V)]
#[verifier::reject_recursive_types(S)]
pub struct ExIndexMap<K, V, S>(indexmap::IndexMap<K, V, S>);

/// The entries a map holds, each key and value as its sequence of characters,
/// in the map's own order.
pub uninterp spec fn im_entries(m: indexmap::IndexMap<String, String>) -> Seq<(Seq<char>, Seq<char>)>;

/// What one insertion does to an entry sequence whose keys are unique: an
/// existing key keeps its place and takes the new value; a new key is
/// appended last.
pub open spec fn entries_insert(
    s: Seq<(Seq<char>, Seq<char>)>,
    k: Seq<char>,
    v: Seq<char>,
) -> Seq<(Seq<char>, Seq<char>)>
    decreases s.len(),
{
    if s.len() == 0 {
        seq![(k, v)]
    } else if s[0].0 == k {
        seq![(k, v)] + s.drop_first()
    } else {
        seq![s[0]] + entries_insert(s.drop_first(), k, v)
    }
}

/// The value stored under a key in an entry sequence whose keys are unique.
pub open spec fn entries_lookup(s: Seq<(Seq<char>, Seq<char>)>, k: Seq<char>) -> Option<Seq<char>>
    decreases s.len(),
{
    if s.len() == 0 {
        None
    } else if s[0].0 == k {
        Some(s[0].1)
    } else {
        entries_lookup(s.drop_first(), k)
    }
}

/// Relies on `indexmap::IndexMap::new`: the new map is empty.
#[verifier::external_body]
pub(crate) fn im_new() -> (m: indexmap::IndexMap<String, String>)
    ensures
        im_entries(m) == Seq::<(Seq<char>, Seq<char>)>::empty(),
{
    indexmap::IndexMap::new()
}

/// Relies on `indexmap::IndexMap::insert`: if an equivalent key already
/// exists, the key keeps its place in the order and its value is updated;
/// otherwise the pair is inserted last in order.
#[verifier::external_body]
pub(crate) fn im_insert(m: &mut indexmap::IndexMap<String, String>, k: String, v: String)
    ensures
        im_entries(*final(m)) == entries_insert(im_entries(*old(m)), k@, v@),
{
    m.insert(k, v);
}

/// Relies on `indexmap::IndexMap::get`: returns the value stored for the key,
/// if it is present, else `None`. Keys in the map are unique, so the stored
/// value is the one `entries_lookup` finds.
#[verifier::external_body]
pub(crate) fn im_get(m: &indexmap::IndexMap<String, String>, k: &String) -> (r: Option<String>)
    ensures
        match r {
            Some(v) => entries_lookup(im_entries(*m), k@) == Some(v@),
            None => entries_lookup(im_entries(*m), k@) is None,
        },
{
    m.get(k).cloned()
}

/// Relies on `indexmap::IndexMap::iter`: the key-value pairs come out in the
/// map's order.
#[verifier::external_body]
pub(crate) fn im_pairs(m: &indexmap::IndexMap<String, String>) -> (r: Vec<(String, String)>)
    ensures
        r@.len() == im_entries(*m).len(),
        forall|i: int|
            0 <= i < r@.len() ==> (#[trigger] r@[i]).0@ == im_entries(*m)[i].0 && r@[i].1@
                == im_entries(*m)[i].1,
{
    m.iter().map(|(k, v)| (k.clone(), v.clone())).collect()
}

/// One insertion changes nothing but the inserted key: looking up the
/// inserted key finds the new value, and any other key finds what it found
/// before.
pub proof fn lemma_entries_insert_lookup(
    s: Seq<(Seq<char>, Seq<char>)>,
    k: Seq<char>,
    v: Seq<char>,
    q: Seq<char>,
)
    ensures
        entries_lookup(entries_insert(s, k, v), q) == if q == k {
            Some(v)
        } else {
            entries_lookup(s, q)
        },
    decreases s.len(),
{
    let t = entries_insert(s, k, v);
    if s.len() == 0 {
        assert(t == seq![(k, v)]);
        assert(t.len() == 1 && t[0] == (k, v));
        if q != k {
            assert(entries_lookup(t.drop_first(), q) is None);
        }
    } else if s[0].0 == k {
        assert(t == seq![(k, v)] + s.drop_first());
        assert(t[0] == (k, v));
        if q != k {
            assert(t.drop_first() =~= s.drop_first());
        }
    } else {
        assert(t == seq![s[0]] + entries_insert(s.drop_first(), k, v));
        assert(t[0] == s[0]);
        assert(t.drop_first() =~= entries_insert(s.drop_first(), k, v));
        lemma_entries_insert_lookup(s.drop_first(), k, v, q);
    }
}

} // verus!
