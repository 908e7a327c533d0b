use vstd::prelude::*;
use crate::columns::{dedup, spec_distinct_keys, strs_view, vec_contains_string};
use crate::errors::DataToolErrors;

verus! {

/// One entity: a surrogate id and its unique textual value.
#[derive(Debug)]
pub struct ItemData {
    id: i64,
    item_val: String,
}

impl ItemData {
    pub closed spec fn id_spec(&self) -> i64 {
        self.id
    }

    pub closed spec fn val_spec(&self) -> Seq<char> {
        self.item_val@
    }

    pub fn id(&self) -> (r: i64)
        ensures
            r == self.id_spec(),
    {
        self.id
    }

    pub fn value(&self) -> (r: &String)
        ensures
            r@ == self.val_spec(),
    {
        &self.item_val
    }
}

/// One attribute: a key and a value, as stored in or fetched from the
/// attribute table.
#[derive(Debug)]
pub struct KeyValPair {
    key: String,
    value: String,
}

impl View for KeyValPair {
    type V = (Seq<char>, Seq<char>);

    closed spec fn view(&self) -> (Seq<char>, Seq<char>) {
        (self.key@, self.value@)
    }
}

impl KeyValPair {
    pub fn new(key: String, value: String) -> (r: Self)
        ensures
            r@ == (key@, value@),
    {
        KeyValPair { key, value }
    }

    pub fn key(&self) -> (r: &String)
        ensures
            r@ == self@.0,
    {
        &self.key
    }

    pub fn value(&self) -> (r: &String)
        ensures
            r@ == self@.1,
    {
        &self.value
    }
}

/// Entity ids are handed out by the store in creation order, starting at one,
/// and entity values never repeat.
pub open spec fn entities_wf(s: Seq<(i64, Seq<char>)>) -> bool {
    &&& forall|i: int| 0 <= i < s.len() ==> (#[trigger] s[i]).0 == i + 1
    &&& forall|i: int, j: int| 0 <= i < j < s.len() ==> s[i].1 != s[j].1
}

/// The id holding a value, if any entity holds it; entity values are unique,
/// so at most one does.
pub open spec fn find_entity(s: Seq<(i64, Seq<char>)>, v: Seq<char>) -> Option<i64>
    decreases s.len(),
{
    if s.len() == 0 {
        None
    } else if s.last().1 == v {
        Some(s.last().0)
    } else {
        find_entity(s.drop_last(), v)
    }
}

/// The entity list after select-or-create: unchanged when the value is
/// already present, else extended by one entity with the next id.
pub open spec fn select_entities(s: Seq<(i64, Seq<char>)>, v: Seq<char>) -> Seq<(i64, Seq<char>)> {
    if find_entity(s, v) is Some {
        s
    } else {
        s.push(((s.len() + 1) as i64, v))
    }
}

/// The id select-or-create resolves to: the existing entity's id when the
/// value is present, else the id the new entity gets.
pub open spec fn select_id(s: Seq<(i64, Seq<char>)>, v: Seq<char>) -> i64 {
    match find_entity(s, v) {
        Some(id) => id,
        None => (s.len() + 1) as i64,
    }
}

/// What `find_entity` finds: `None` means no entity holds the value; an id
/// points at the entity holding it.
pub proof fn lemma_find_entity(s: Seq<(i64, Seq<char>)>, v: Seq<char>)
    requires
        entities_wf(s),
        s.len() <= i64::MAX,
    ensures
        match find_entity(s, v) {
            None => forall|i: int| 0 <= i < s.len() ==> (#[trigger] s[i]).1 != v,
            Some(id) => 1 <= id <= s.len() && s[id - 1].1 == v,
        },
    decreases s.len(),
{
    if s.len() > 0 {
        if s.last().1 == v {
            assert(s.last().0 == s.len() - 1 + 1);
        } else {
            assert(entities_wf(s.drop_last()));
            lemma_find_entity(s.drop_last(), v);
            if find_entity(s.drop_last(), v) is Some {
                let id = find_entity(s.drop_last(), v)->Some_0;
                assert(s.drop_last()[id - 1] == s[id - 1]);
            } else {
                assert(forall|i: int|
                    0 <= i < s.len() - 1 ==> (#[trigger] s[i]).1 == s.drop_last()[i].1);
            }
        }
    }
}

/// The attribute rows a batched attach appends: one per pair, in pair order,
/// all owned by the cursor entity.
pub open spec fn rows_of_pairs(c: i64, pairs: Seq<(Seq<char>, Seq<char>)>) -> Seq<
    (i64, (Seq<char>, Seq<char>)),
> {
    pairs.map_values(|p: (Seq<char>, Seq<char>)| (c, (p.0, p.1)))
}

/// The staging store: entities, their attribute rows, the current-entity
/// cursor the attach calls target, and the cursor of the row iteration.
pub struct TableMapDb {
    items: Vec<ItemData>,
    attrs: Vec<(i64, KeyValPair)>,
    current_id: Option<i64>,
    current_row_iter: Option<Vec<i64>>,
}

impl TableMapDb {
    /// The entities, in creation order: id and value.
    pub closed spec fn entities(&self) -> Seq<(i64, Seq<char>)> {
        self.items@.map_values(|it: ItemData| (it.id, it.item_val@))
    }

    /// The attribute rows, in insertion order: owning id, then key and value.
    pub closed spec fn attr_rows(&self) -> Seq<(i64, (Seq<char>, Seq<char>))> {
        self.attrs@.map_values(|r: (i64, KeyValPair)| (r.0, (r.1@.0, r.1@.1)))
    }

    /// The current-entity cursor.
    pub closed spec fn cursor(&self) -> Option<i64> {
        self.current_id
    }

    /// The ids the row iteration has not yet yielded, if it has started.
    pub closed spec fn iter_state(&self) -> Option<Seq<i64>> {
        match self.current_row_iter {
            Some(v) => Some(v@),
            None => None,
        }
    }

    pub open spec fn wf(&self) -> bool {
        &&& entities_wf(self.entities())
        &&& self.entities().len() <= i64::MAX
        &&& match self.cursor() {
            Some(c) => 1 <= c <= self.entities().len(),
            None => true,
        }
        &&& forall|k: int|
            0 <= k < self.attr_rows().len() ==> 1 <= (#[trigger] self.attr_rows()[k]).0
                <= self.entities().len()
        &&& match self.iter_state() {
            Some(s) => forall|i: int| 0 <= i < s.len() ==> 1 <= #[trigger] s[i] <= self.entities().len(),
            None => true,
        }
    }

    /// A fresh, empty store: no entities, no attributes, no cursor.
    pub fn new() -> (s: Self)
        ensures
            s.wf(),
            s.entities() == Seq::<(i64, Seq<char>)>::empty(),
            s.attr_rows() == Seq::<(i64, (Seq<char>, Seq<char>))>::empty(),
            s.cursor() is None,
            s.iter_state() is None,
    {
        let s = TableMapDb {
            items: Vec::new(),
            attrs: Vec::new(),
            current_id: None,
            current_row_iter: None,
        };
        proof {
            assert(s.entities() =~= Seq::<(i64, Seq<char>)>::empty());
            assert(s.attr_rows() =~= Seq::<(i64, (Seq<char>, Seq<char>))>::empty());
        }
        s
    }

    /// The total entity count.
    pub fn how_many_items(&mut self) -> (r: Result<usize, DataToolErrors>)
        ensures
            *final(self) == *old(self),
            r matches Ok(n) && n == old(self).entities().len(),
    {
        Ok(self.items.len())
    }

    /// All entity ids, in descending-id (reverse creation) order.
    pub fn item_ids(&self) -> (r: Vec<i64>)
        requires
            self.wf(),
        ensures
            r@.len() == self.entities().len(),
            forall|i: int| 0 <= i < r@.len() ==> r@[i] == self.entities().len() - i,
    {
        let mut r: Vec<i64> = Vec::new();
        let mut i: usize = self.items.len();
        while i > 0
            invariant
                self.wf(),
                i <= self.items.len(),
                self.entities().len() == self.items@.len(),
                r@.len() == self.items@.len() - i,
                forall|k: int| 0 <= k < r@.len() ==> r@[k] == self.items@.len() - k,
            decreases i,
        {
            i -= 1;
            proof {
                assert(self.entities()[i as int].0 == i + 1);
            }
            r.push(self.items[i].id());
        }
        r
    }

    /// Select-or-create: resolves the value to its entity, creating the
    /// entity only when the value is new, and points the cursor at it.
    /// Repeated calls with one value never create a second entity.
    pub fn next_row(&mut self, d: &str) -> (r: Result<(), DataToolErrors>)
        requires
            old(self).wf(),
            old(self).entities().len() < i64::MAX,
        ensures
            final(self).wf(),
            r is Ok,
            final(self).entities() == select_entities(old(self).entities(), d@),
            final(self).cursor() == Some(select_id(old(self).entities(), d@)),
            final(self).attr_rows() == old(self).attr_rows(),
            final(self).iter_state() == old(self).iter_state(),
    {
        let ghost ents = self.entities();
        let dv: String = d.to_owned();
        let mut i: usize = self.items.len();
        proof {
            assert(ents.take(i as int) =~= ents);
        }
        while i > 0
            invariant
                self == old(self),
                self.wf(),
                ents == self.entities(),
                dv@ == d@,
                i <= self.items@.len(),
                ents.len() == self.items@.len(),
                find_entity(ents, d@) == find_entity(ents.take(i as int), d@),
            decreases i,
        {
            i -= 1;
            let hit = self.items[i].item_val == dv;
            proof {
                let t = ents.take(i as int + 1);
                assert(t.last() == ents[i as int]);
                assert(t.drop_last() =~= ents.take(i as int));
            }
            if hit {
                let id = self.items[i].id;
                proof {
                    assert(ents[i as int] == (self.items@[i as int].id, self.items@[i as int].item_val@));
                    assert(ents[i as int].1 == d@);
                    let t = ents.take(i as int + 1);
                    assert(find_entity(t, d@) == Some(ents[i as int].0));
                    assert(find_entity(ents, d@) == Some(id));
                    assert(select_entities(ents, d@) == ents);
                    assert(select_id(ents, d@) == id);
                    assert(ents[i as int].0 == i + 1);
                    assert(1 <= id <= ents.len());
                }
                self.current_id = Some(id);
                proof {
                    assert(self.attr_rows() =~= old(self).attr_rows());
                }
                return Ok(());
            }
        }
        proof {
            assert(ents.take(0) =~= Seq::<(i64, Seq<char>)>::empty());
            assert(find_entity(ents, d@) is None);
            lemma_find_entity(ents, d@);
        }
        let id: i64 = self.items.len() as i64 + 1;
        let item = ItemData { id, item_val: dv };
        self.items.push(item);
        self.current_id = Some(id);
        proof {
            assert(self.entities() =~= ents.push((id, d@)));
            assert(select_entities(ents, d@) == ents.push(((ents.len() + 1) as i64, d@)));
            assert(entities_wf(self.entities()));
            assert(self.attr_rows() =~= old(self).attr_rows());
        }
        Ok(())
    }

    /// Appends one attribute to the cursor entity. Fails, writing nothing,
    /// when no entity has ever been selected.
    pub fn insert(&mut self, column: &str, val: &str) -> (r: Result<(), String>)
        requires
            old(self).wf(),
        ensures
            final(self).wf(),
            final(self).entities() == old(self).entities(),
            final(self).cursor() == old(self).cursor(),
            final(self).iter_state() == old(self).iter_state(),
            match old(self).cursor() {
                None => r matches Err(m) && m@ == "No item is set"@ && final(self).attr_rows()
                    == old(self).attr_rows(),
                Some(c) => r is Ok && final(self).attr_rows() == old(self).attr_rows().push(
                    (c, (column@, val@)),
                ),
            },
    {
        match self.current_id {
            None => Err("No item is set".to_owned()),
            Some(c) => {
                let pair = KeyValPair { key: column.to_owned(), value: val.to_owned() };
                self.attrs.push((c, pair));
                proof {
                    assert(self.attr_rows() =~= old(self).attr_rows().push((c, (column@, val@))));
                }
                Ok(())
            },
        }
    }

    /// Appends one attribute per pair of the map, in the map's order, all to
    /// the cursor entity. Fails, writing nothing, when no entity has ever
    /// been selected.
    pub fn insert_batched(&mut self, index_map: &indexmap::IndexMap<String, String>) -> (r: Result<
        (),
        DataToolErrors,
    >)
        requires
            old(self).wf(),
        ensures
            final(self).wf(),
            final(self).entities() == old(self).entities(),
            final(self).cursor() == old(self).cursor(),
            final(self).iter_state() == old(self).iter_state(),
            match old(self).cursor() {
                None => r matches Err(e) && (e matches DataToolErrors::GenericError(m) && m@
                    == "No Item is set"@) && final(self).attr_rows() == old(self).attr_rows(),
                Some(c) => r is Ok && final(self).attr_rows() == old(self).attr_rows()
                    + rows_of_pairs(c, crate::extmap::im_entries(*index_map)),
            },
    {
        let c = match self.current_id {
            None => {
                return Err(DataToolErrors::GenericError("No Item is set".to_owned()));
            },
            Some(c) => c,
        };
        let ghost pairs = crate::extmap::im_entries(*index_map);
        let kvs = crate::extmap::im_pairs(index_map);
        let mut i: usize = 0;
        proof {
            assert(old(self).attr_rows() + rows_of_pairs(c, pairs.take(0)) =~= old(
                self,
            ).attr_rows());
        }
        while i < kvs.len()
            invariant
                self.wf(),
                1 <= c <= self.entities().len(),
                self.entities() == old(self).entities(),
                self.cursor() == old(self).cursor(),
                self.iter_state() == old(self).iter_state(),
                kvs@.len() == pairs.len(),
                forall|k: int|
                    0 <= k < kvs@.len() ==> (#[trigger] kvs@[k]).0@ == pairs[k].0 && kvs@[k].1@
                        == pairs[k].1,
                i <= kvs@.len(),
                self.attr_rows() == old(self).attr_rows() + rows_of_pairs(c, pairs.take(i as int)),
            decreases kvs@.len() - i,
        {
            let k = kvs[i].0.clone();
            let v = kvs[i].1.clone();
            proof {
                assert(k@ == pairs[i as int].0);
                assert(v@ == pairs[i as int].1);
            }
            let ghost before = self.attr_rows();
            self.attrs.push((c, KeyValPair { key: k, value: v }));
            proof {
                assert(self.attr_rows() =~= before.push((c, (k@, v@))));
                assert(rows_of_pairs(c, pairs.take(i as int + 1)) =~= rows_of_pairs(
                    c,
                    pairs.take(i as int),
                ).push((c, (pairs[i as int].0, pairs[i as int].1))));
                assert(self.attr_rows() =~= old(self).attr_rows() + rows_of_pairs(
                    c,
                    pairs.take(i as int + 1),
                ));
            }
            i += 1;
        }
        proof {
            assert(pairs.take(pairs.len() as int) =~= pairs);
        }
        Ok(())
    }

    /// Fetches every attribute row whose entity is in the chunk, ordered by
    /// entity id; within one entity the rows keep their stored order. The
    /// chunk lists its ids in descending order, as the partitioned id list
    /// hands them out.
    pub fn rows_for_ids(&self, ids: &Vec<i64>) -> (r: Vec<(i64, KeyValPair)>)
        requires
            self.wf(),
            forall|i: int, j: int| 0 <= i < j < ids@.len() ==> ids@[i] > ids@[j],
        ensures
            crate::pivot::rows_view(r@) == crate::pivot::rows_for(self.attr_rows(), ids@),
    {
        let ghost attrs = self.attr_rows();
        let ghost n = ids@.len() as int;
        let mut r: Vec<(i64, KeyValPair)> = Vec::new();
        let mut j: usize = ids.len();
        proof {
            assert(ids@.subrange(n, n) =~= Seq::<i64>::empty());
            assert(crate::pivot::rows_view(r@) =~= crate::pivot::rows_for(
                attrs,
                ids@.subrange(n, n),
            ));
        }
        while j > 0
            invariant
                self.wf(),
                attrs == self.attr_rows(),
                n == ids@.len() as int,
                j <= ids@.len(),
                crate::pivot::rows_view(r@) == crate::pivot::rows_for(
                    attrs,
                    ids@.subrange(j as int, n),
                ),
            decreases j,
        {
            j -= 1;
            let id = ids[j];
            let mut a: usize = 0;
            proof {
                assert(attrs.take(0) =~= Seq::<(i64, (Seq<char>, Seq<char>))>::empty());
                assert(crate::pivot::rows_view(r@) + crate::pivot::rows_of_id(attrs.take(0), id)
                    =~= crate::pivot::rows_view(r@));
            }
            while a < self.attrs.len()
                invariant
                    self.wf(),
                    attrs == self.attr_rows(),
                    n == ids@.len() as int,
                    j < ids@.len(),
                    id == ids@[j as int],
                    a <= self.attrs@.len(),
                    attrs.len() == self.attrs@.len(),
                    crate::pivot::rows_view(r@) == crate::pivot::rows_for(
                        attrs,
                        ids@.subrange(j as int + 1, n),
                    ) + crate::pivot::rows_of_id(attrs.take(a as int), id),
                decreases self.attrs@.len() - a,
            {
                proof {
                    assert(attrs.take(a as int + 1).drop_last() =~= attrs.take(a as int));
                    assert(attrs.take(a as int + 1).last() == attrs[a as int]);
                    assert(attrs[a as int] == (self.attrs@[a as int].0, (
                        self.attrs@[a as int].1@.0,
                        self.attrs@[a as int].1@.1,
                    )));
                }
                if self.attrs[a].0 == id {
                    let kv = KeyValPair {
                        key: self.attrs[a].1.key.clone(),
                        value: self.attrs[a].1.value.clone(),
                    };
                    let ghost rprev = r@;
                    let ghost kvv = kv@;
                    proof {
                        assert(attrs[a as int].0 == id);
                        assert(crate::pivot::rows_of_id(attrs.take(a as int + 1), id)
                            == crate::pivot::rows_of_id(attrs.take(a as int), id).push(
                            attrs[a as int],
                        ));
                        assert(kvv == (self.attrs@[a as int].1@.0, self.attrs@[a as int].1@.1));
                    }
                    r.push((id, kv));
                    proof {
                        assert(crate::pivot::rows_view(r@).len() == rprev.len() + 1);
                        assert(crate::pivot::rows_view(r@)[rprev.len() as int] == (id, (
                            kvv.0,
                            kvv.1,
                        )));
                        assert((id, (kvv.0, kvv.1)) == attrs[a as int]);
                        assert(forall|t: int|
                            0 <= t < rprev.len() ==> crate::pivot::rows_view(r@)[t]
                                == crate::pivot::rows_view(rprev)[t]);
                        let before = crate::pivot::rows_for(attrs, ids@.subrange(j as int + 1, n))
                            + crate::pivot::rows_of_id(attrs.take(a as int), id);
                        assert(crate::pivot::rows_view(rprev) == before);
                        let after = crate::pivot::rows_for(attrs, ids@.subrange(j as int + 1, n))
                            + crate::pivot::rows_of_id(attrs.take(a as int + 1), id);
                        assert(after =~= before.push(attrs[a as int]));
                        assert(crate::pivot::rows_view(r@) =~= before.push(attrs[a as int]));
                        assert(crate::pivot::rows_view(r@) == after);
                    }
                } else {
                    proof {
                        assert(crate::pivot::rows_of_id(attrs.take(a as int + 1), id)
                            == crate::pivot::rows_of_id(attrs.take(a as int), id));
                    }
                }
                a += 1;
            }
            proof {
                assert(attrs.take(attrs.len() as int) =~= attrs);
                assert(ids@.subrange(j as int, n).drop_first() =~= ids@.subrange(j as int + 1, n));
                assert(ids@.subrange(j as int, n).first() == ids@[j as int]);
            }
        }
        proof {
            assert(ids@.subrange(0, n) =~= ids@);
        }
        r
    }

    /// One chunk worker's computation: fetch the chunk's attribute rows and
    /// pivot them against the global column list, one wide row per entity in
    /// the chunk that produced at least one attribute.
    pub fn worker_rows(&self, ids: &Vec<i64>, columns: &Vec<String>) -> (out: Vec<Vec<String>>)
        requires
            self.wf(),
            forall|i: int, j: int| 0 <= i < j < ids@.len() ==> ids@[i] > ids@[j],
        ensures
            crate::pivot::rows_views(out@) == crate::pivot::chunk_batch(
                self.attr_rows(),
                ids@,
                strs_view(columns@),
            ),
            forall|j: int| 0 <= j < out@.len() ==> (#[trigger] out@[j])@.len() == columns@.len(),
    {
        let rows = self.rows_for_ids(ids);
        proof {
            crate::pivot::lemma_rows_for_sorted(self.attr_rows(), ids@);
        }
        let out = crate::pivot::pivot_chunk(&rows, columns);
        proof {
            assert(crate::pivot::rows_views(out@) =~= crate::pivot::chunk_batch(
                self.attr_rows(),
                ids@,
                strs_view(columns@),
            ));
        }
        out
    }

    /// Yields the next entity, ascending by id, pivoted into a mapping that
    /// opens with the entity's id under the "id" key and then holds the
    /// entity's attributes in row order, a repeated key overwriting the
    /// earlier value. The walk starts over the ids present at the first
    /// call and ends with `None`.
    pub fn next(&mut self) -> (r: Option<indexmap::IndexMap<String, String>>)
        requires
            old(self).wf(),
        ensures
            final(self).wf(),
            final(self).entities() == old(self).entities(),
            final(self).attr_rows() == old(self).attr_rows(),
            final(self).cursor() == old(self).cursor(),
            ({
                let cur = match old(self).iter_state() {
                    Some(s) => s,
                    None => desc_ids(old(self).entities().len() as int),
                };
                if cur.len() == 0 {
                    r is None && final(self).iter_state() == Some(cur)
                } else {
                    &&& final(self).iter_state() == Some(cur.drop_last())
                    &&& r matches Some(m) && crate::extmap::im_entries(m) == entity_map(
                        old(self).attr_rows(),
                        cur.last(),
                    )
                }
            }),
    {
        let ghost l = self.entities().len() as int;
        let mut cur: Vec<i64> = match self.current_row_iter.take() {
            Some(v) => v,
            None => self.item_ids(),
        };
        let ghost cur0 = cur@;
        proof {
            match old(self).iter_state() {
                Some(s) => {
                    assert(cur0 == s);
                },
                None => {
                    assert(cur0 =~= desc_ids(l));
                },
            }
            assert(forall|i: int| 0 <= i < cur0.len() ==> 1 <= #[trigger] cur0[i] <= l);
        }
        let popped = cur.pop();
        self.current_row_iter = Some(cur);
        proof {
            assert(self.attr_rows() =~= old(self).attr_rows());
            assert(self.entities() =~= old(self).entities());
        }
        let id = match popped {
            None => {
                return None;
            },
            Some(id) => id,
        };
        proof {
            assert(cur0[cur0.len() - 1] == id);
            assert(1 <= id <= l);
        }
        let mut m = crate::extmap::im_new();
        let ghost seed = seq![("id"@, crate::digits::dec_str(id as nat))];
        let id_text = crate::digits::u64_to_dec(id as u64);
        crate::extmap::im_insert(&mut m, "id".to_owned(), id_text);
        proof {
            assert((id as u64) as nat == id as nat);
            assert(crate::extmap::im_entries(m) =~= seed);
            assert(self.attr_rows().take(0) =~= Seq::<(i64, (Seq<char>, Seq<char>))>::empty());
            assert(crate::extmap::im_entries(m) == crate::pivot::fold_insert(
                seed,
                crate::pivot::pairs_of(self.attr_rows().take(0), id),
            ));
        }
        let ghost attrs = self.attr_rows();
        let mut a: usize = 0;
        while a < self.attrs.len()
            invariant
                self.wf(),
                attrs == self.attr_rows(),
                a <= self.attrs@.len(),
                attrs.len() == self.attrs@.len(),
                crate::extmap::im_entries(m) == crate::pivot::fold_insert(
                    seed,
                    crate::pivot::pairs_of(attrs.take(a as int), id),
                ),
            decreases self.attrs@.len() - a,
        {
            proof {
                assert(attrs.take(a as int + 1).drop_last() =~= attrs.take(a as int));
                assert(attrs.take(a as int + 1).last() == attrs[a as int]);
                assert(attrs[a as int] == (self.attrs@[a as int].0, (
                    self.attrs@[a as int].1@.0,
                    self.attrs@[a as int].1@.1,
                )));
            }
            if self.attrs[a].0 == id {
                let k = self.attrs[a].1.key.clone();
                let v = self.attrs[a].1.value.clone();
                crate::extmap::im_insert(&mut m, k, v);
                proof {
                    crate::pivot::lemma_fold_insert_push(
                        seed,
                        crate::pivot::pairs_of(attrs.take(a as int), id),
                        attrs[a as int].1.0,
                        attrs[a as int].1.1,
                    );
                }
            }
            a += 1;
        }
        proof {
            assert(attrs.take(attrs.len() as int) =~= attrs);
        }
        Some(m)
    }

    /// Column discovery: the priority list, deduplicated in place order,
    /// followed by every attribute key not already named, each exactly once,
    /// in the order the rows hold them. A function of the store's keys and
    /// the priority list alone, so repeated calls agree.
    pub fn get_distinct_keys(&mut self, priority_cols: Vec<String>) -> (r: Result<
        Vec<String>,
        DataToolErrors,
    >)
        ensures
            *final(self) == *old(self),
            r matches Ok(v) && strs_view(v@) == spec_distinct_keys(
                strs_view(priority_cols@),
                attr_keys(old(self).attr_rows()),
            ),
    {
        let ghost whole = strs_view(priority_cols@) + attr_keys(self.attr_rows());
        let mut out: Vec<String> = Vec::new();
        let mut i: usize = 0;
        proof {
            assert(strs_view(out@) =~= dedup(whole.take(0)));
        }
        while i < priority_cols.len()
            invariant
                self == old(self),
                whole == strs_view(priority_cols@) + attr_keys(self.attr_rows()),
                i <= priority_cols@.len(),
                strs_view(out@) == dedup(whole.take(i as int)),
            decreases priority_cols@.len() - i,
        {
            proof {
                assert(whole.take(i as int + 1).last() == priority_cols@[i as int]@);
                assert(whole.take(i as int + 1).drop_last() =~= whole.take(i as int));
            }
            if !vec_contains_string(&out, &priority_cols[i]) {
                proof {
                    crate::columns::lemma_dedup_membership(
                        whole.take(i as int),
                        priority_cols@[i as int]@,
                    );
                }
                let s = priority_cols[i].clone();
                out.push(s);
                proof {
                    assert(strs_view(out@) =~= dedup(whole.take(i as int + 1)));
                }
            } else {
                proof {
                    crate::columns::lemma_dedup_membership(
                        whole.take(i as int),
                        priority_cols@[i as int]@,
                    );
                    assert(strs_view(out@) =~= dedup(whole.take(i as int + 1)));
                }
            }
            i += 1;
        }
        let n = priority_cols.len();
        let mut j: usize = 0;
        while j < self.attrs.len()
            invariant
                self == old(self),
                whole == strs_view(priority_cols@) + attr_keys(self.attr_rows()),
                n == priority_cols@.len(),
                j <= self.attrs@.len(),
                attr_keys(self.attr_rows()).len() == self.attrs@.len(),
                whole.len() == n + self.attrs@.len(),
                strs_view(out@) == dedup(whole.take(n + j as int)),
            decreases self.attrs@.len() - j,
        {
            proof {
                assert(attr_keys(self.attr_rows())[j as int] == self.attrs@[j as int].1@.0);
                assert(whole.take(n + j as int + 1).last() == self.attrs@[j as int].1@.0);
                assert(whole.take(n + j as int + 1).drop_last() =~= whole.take(n + j as int));
            }
            if !vec_contains_string(&out, &self.attrs[j].1.key) {
                proof {
                    crate::columns::lemma_dedup_membership(
                        whole.take(n + j as int),
                        self.attrs@[j as int].1@.0,
                    );
                }
                let s = self.attrs[j].1.key.clone();
                out.push(s);
                proof {
                    assert(strs_view(out@) =~= dedup(whole.take(n + j as int + 1)));
                }
            } else {
                proof {
                    crate::columns::lemma_dedup_membership(
                        whole.take(n + j as int),
                        self.attrs@[j as int].1@.0,
                    );
                    assert(strs_view(out@) =~= dedup(whole.take(n + j as int + 1)));
                }
            }
            j += 1;
        }
        proof {
            assert(whole.take(whole.len() as int) =~= whole);
        }
        Ok(out)
    }
}

/// How many entities hold a value.
pub open spec fn count_value(s: Seq<(i64, Seq<char>)>, v: Seq<char>) -> int
    decreases s.len(),
{
    if s.len() == 0 {
        0
    } else {
        count_value(s.drop_last(), v) + if s.last().1 == v {
            1int
        } else {
            0int
        }
    }
}

/// With unique values, a value present once is counted once, and an absent
/// value is counted zero times.
pub proof fn lemma_count_value(s: Seq<(i64, Seq<char>)>, v: Seq<char>)
    requires
        forall|i: int, j: int| 0 <= i < j < s.len() ==> s[i].1 != s[j].1,
    ensures
        (exists|i: int| 0 <= i < s.len() && s[i].1 == v) ==> count_value(s, v) == 1,
        (forall|i: int| 0 <= i < s.len() ==> (#[trigger] s[i]).1 != v) ==> count_value(s, v) == 0,
    decreases s.len(),
{
    if s.len() > 0 {
        let sub = s.drop_last();
        assert(forall|i: int, j: int| 0 <= i < j < sub.len() ==> sub[i].1 != sub[j].1) by {
            assert(forall|i: int| 0 <= i < sub.len() ==> sub[i] == s[i]);
        }
        lemma_count_value(sub, v);
        if s.last().1 == v {
            assert(forall|i: int| 0 <= i < sub.len() ==> (#[trigger] sub[i]).1 != v) by {
                assert(forall|i: int| 0 <= i < sub.len() ==> sub[i] == s[i]);
                assert(forall|i: int| 0 <= i < s.len() - 1 ==> (#[trigger] s[i]).1 != s[s.len()
                    - 1].1);
            }
            assert(count_value(sub, v) == 0);
            assert(count_value(s, v) == 1);
        } else {
            if exists|i: int| 0 <= i < s.len() && s[i].1 == v {
                let w = choose|i: int| 0 <= i < s.len() && s[i].1 == v;
                assert(w < s.len() - 1);
                assert(sub[w] == s[w]);
                assert(exists|i: int| 0 <= i < sub.len() && sub[i].1 == v);
                assert(count_value(s, v) == 1);
            }
            if forall|i: int| 0 <= i < s.len() ==> (#[trigger] s[i]).1 != v {
                assert(forall|i: int| 0 <= i < sub.len() ==> (#[trigger] sub[i]).1 != v) by {
                    assert(forall|i: int| 0 <= i < sub.len() ==> sub[i] == s[i]);
                }
                assert(count_value(s, v) == 0);
            }
        }
    }
}

/// Select-or-create is idempotent: a second call with the same value resolves
/// to the same id, changes nothing, and the store holds exactly one entity
/// with that value.
pub proof fn lemma_select_or_create_idempotent(s: Seq<(i64, Seq<char>)>, v: Seq<char>)
    requires
        entities_wf(s),
        s.len() < i64::MAX,
    ensures
        select_entities(select_entities(s, v), v) == select_entities(s, v),
        select_id(select_entities(s, v), v) == select_id(s, v),
        count_value(select_entities(s, v), v) == 1,
{
    lemma_find_entity(s, v);
    match find_entity(s, v) {
        Some(id) => {
            assert(select_entities(s, v) == s);
            assert(exists|i: int| 0 <= i < s.len() && s[i].1 == v) by {
                assert(s[id - 1].1 == v);
            }
            lemma_count_value(s, v);
        },
        None => {
            let t = s.push(((s.len() + 1) as i64, v));
            assert(select_entities(s, v) == t);
            assert(t.last().1 == v);
            assert(find_entity(t, v) == Some(t.last().0));
            assert(select_entities(t, v) == t);
            assert(select_id(t, v) == (s.len() + 1) as i64);
            assert(t.drop_last() =~= s);
            lemma_count_value(s, v);
            assert(count_value(s, v) == 0);
            assert(count_value(t, v) == 1);
        },
    }
}

/// All entity ids of a store of `len` entities, in descending order: the id
/// list the row iteration walks.
pub open spec fn desc_ids(len: int) -> Seq<i64> {
    Seq::new(len as nat, |i: int| (len - i) as i64)
}

/// The pivoted mapping the row iteration yields for one entity: the entity's
/// id, rendered in decimal, under the "id" key, then the entity's attributes
/// folded in row order, a repeated key overwriting the earlier value.
pub open spec fn entity_map(rows: Seq<(i64, (Seq<char>, Seq<char>))>, id: i64) -> Seq<
    (Seq<char>, Seq<char>),
> {
    crate::pivot::fold_insert(
        seq![("id"@, crate::digits::dec_str(id as nat))],
        crate::pivot::pairs_of(rows, id),
    )
}

/// The keys of a run of attribute rows, in row order.
pub open spec fn attr_keys(rows: Seq<(i64, (Seq<char>, Seq<char>))>) -> Seq<Seq<char>> {
    rows.map_values(|r: (i64, (Seq<char>, Seq<char>))| r.1.0)
}

} // verus!
