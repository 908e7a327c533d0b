use vstd::prelude::*;
use crate::columns::{dedup, strs_view};
use crate::extmap::{entries_lookup, entries_insert, im_entries, im_get, im_insert, im_new};
use crate::store::KeyValPair;

verus! {

/// The view of fetched attribute rows: owning id, then key and value.
pub open spec fn rows_view(rows: Seq<(i64, KeyValPair)>) -> Seq<(i64, (Seq<char>, Seq<char>))> {
    rows.map_values(|r: (i64, KeyValPair)| (r.0, (r.1@.0, r.1@.1)))
}

/// The key/value pairs of one entity's rows, in row order.
pub open spec fn pairs_of(rows: Seq<(i64, (Seq<char>, Seq<char>))>, id: i64) -> Seq<
    (Seq<char>, Seq<char>),
>
    decreases rows.len(),
{
    if rows.len() == 0 {
        Seq::empty()
    } else if rows.last().0 == id {
        pairs_of(rows.drop_last(), id).push((rows.last().1.0, rows.last().1.1))
    } else {
        pairs_of(rows.drop_last(), id)
    }
}

/// The value a scan leaves for a key: the value of the last pair holding the
/// key, later pairs overwriting earlier ones.
pub open spec fn last_value(pairs: Seq<(Seq<char>, Seq<char>)>, k: Seq<char>) -> Option<Seq<char>>
    decreases pairs.len(),
{
    if pairs.len() == 0 {
        None
    } else if pairs.last().0 == k {
        Some(pairs.last().1)
    } else {
        last_value(pairs.drop_last(), k)
    }
}

/// Folding pairs into a map seeded with `init`: one insertion per pair, in
/// pair order.
pub open spec fn fold_insert(
    init: Seq<(Seq<char>, Seq<char>)>,
    pairs: Seq<(Seq<char>, Seq<char>)>,
) -> Seq<(Seq<char>, Seq<char>)>
    decreases pairs.len(),
{
    if pairs.len() == 0 {
        init
    } else {
        entries_insert(fold_insert(init, pairs.drop_last()), pairs.last().0, pairs.last().1)
    }
}

/// One step of the fold: appending a pair is one more insertion.
pub proof fn lemma_fold_insert_push(
    init: Seq<(Seq<char>, Seq<char>)>,
    pairs: Seq<(Seq<char>, Seq<char>)>,
    k: Seq<char>,
    v: Seq<char>,
)
    ensures
        fold_insert(init, pairs.push((k, v))) == entries_insert(fold_insert(init, pairs), k, v),
{
    assert(pairs.push((k, v)).drop_last() =~= pairs);
    assert(pairs.push((k, v)).last() == (k, v));
}

/// A fold-built map holds, for each key, the last value written for it,
/// falling back to the seed map for keys never written.
pub proof fn lemma_fold_insert_lookup(
    init: Seq<(Seq<char>, Seq<char>)>,
    pairs: Seq<(Seq<char>, Seq<char>)>,
    k: Seq<char>,
)
    ensures
        entries_lookup(fold_insert(init, pairs), k) == match last_value(pairs, k) {
            Some(v) => Some(v),
            None => entries_lookup(init, k),
        },
    decreases pairs.len(),
{
    if pairs.len() > 0 {
        crate::extmap::lemma_entries_insert_lookup(
            fold_insert(init, pairs.drop_last()),
            pairs.last().0,
            pairs.last().1,
            k,
        );
        lemma_fold_insert_lookup(init, pairs.drop_last(), k);
    }
}

/// One cell of a wide row: the surviving value for the column's key, or the
/// empty string when the entity has no row with that key.
pub open spec fn cell_value(
    rows: Seq<(i64, (Seq<char>, Seq<char>))>,
    id: i64,
    col: Seq<char>,
) -> Seq<char> {
    match last_value(pairs_of(rows, id), col) {
        Some(v) => v,
        None => Seq::empty(),
    }
}

/// The dense wide row for one entity: one cell per column, in column order.
pub open spec fn wide_row(
    rows: Seq<(i64, (Seq<char>, Seq<char>))>,
    id: i64,
    cols: Seq<Seq<char>>,
) -> Seq<Seq<char>> {
    Seq::new(cols.len(), |c: int| cell_value(rows, id, cols[c]))
}

/// Last write wins: whatever earlier rows said, the cell for a key is the
/// value of the latest row that wrote it.
pub proof fn lemma_last_write_wins(
    rows: Seq<(i64, (Seq<char>, Seq<char>))>,
    id: i64,
    k: Seq<char>,
    v: Seq<char>,
)
    ensures
        cell_value(rows.push((id, (k, v))), id, k) == v,
{
    let ext = rows.push((id, (k, v)));
    assert(ext.last() == (id, (k, v)));
    assert(ext.drop_last() =~= rows);
    assert(pairs_of(ext, id) == pairs_of(rows, id).push((k, v)));
}

/// Row completeness: a wide row has exactly one field per column, and a key
/// absent from the entity's rows appears as the empty string at that
/// column's position, never as an omitted field.
pub proof fn lemma_row_completeness(
    rows: Seq<(i64, (Seq<char>, Seq<char>))>,
    id: i64,
    cols: Seq<Seq<char>>,
)
    ensures
        wide_row(rows, id, cols).len() == cols.len(),
        forall|c: int|
            0 <= c < cols.len() && last_value(pairs_of(rows, id), cols[c]) is None
                ==> #[trigger] wide_row(rows, id, cols)[c] == Seq::<char>::empty(),
{
}

/// The ids of the rows, each exactly once, in first-appearance order.
pub open spec fn row_ids(rows: Seq<(i64, (Seq<char>, Seq<char>))>) -> Seq<i64> {
    dedup(rows.map_values(|r: (i64, (Seq<char>, Seq<char>))| r.0))
}

/// Rows sorted (nondecreasing) by entity id, as a chunk fetch orders them.
pub open spec fn sorted_by_id(rows: Seq<(i64, (Seq<char>, Seq<char>))>) -> bool {
    forall|i: int, j: int|
        0 <= i < j < rows.len() ==> (#[trigger] rows[i]).0 <= (#[trigger] rows[j]).0
}

/// Rows past the prefix that all carry other ids do not change an entity's
/// pairs.
pub proof fn lemma_pairs_of_prefix(rows: Seq<(i64, (Seq<char>, Seq<char>))>, n: int, id: i64)
    requires
        0 <= n <= rows.len(),
        forall|k: int| n <= k < rows.len() ==> (#[trigger] rows[k]).0 != id,
    ensures
        pairs_of(rows, id) == pairs_of(rows.take(n), id),
    decreases rows.len() - n,
{
    if n == rows.len() {
        assert(rows.take(n) =~= rows);
    } else {
        assert(rows.last().0 != id);
        lemma_pairs_of_prefix(rows.drop_last(), n, id);
        assert(rows.drop_last().take(n) =~= rows.take(n));
    }
}

/// One entity's rows, in row order.
pub open spec fn rows_of_id(rows: Seq<(i64, (Seq<char>, Seq<char>))>, id: i64) -> Seq<
    (i64, (Seq<char>, Seq<char>)),
>
    decreases rows.len(),
{
    if rows.len() == 0 {
        Seq::empty()
    } else if rows.last().0 == id {
        rows_of_id(rows.drop_last(), id).push(rows.last())
    } else {
        rows_of_id(rows.drop_last(), id)
    }
}

/// What a chunk worker fetches for a descending id list: the rows of each
/// listed id, blocks in ascending id order, rows within a block in stored
/// order.
pub open spec fn rows_for(rows: Seq<(i64, (Seq<char>, Seq<char>))>, ids: Seq<i64>) -> Seq<
    (i64, (Seq<char>, Seq<char>)),
>
    decreases ids.len(),
{
    if ids.len() == 0 {
        Seq::empty()
    } else {
        rows_for(rows, ids.drop_first()) + rows_of_id(rows, ids.first())
    }
}

/// Every row of one entity's block carries that entity's id.
pub proof fn lemma_rows_of_id_ids(rows: Seq<(i64, (Seq<char>, Seq<char>))>, id: i64)
    ensures
        forall|k: int|
            0 <= k < rows_of_id(rows, id).len() ==> (#[trigger] rows_of_id(rows, id)[k]).0 == id,
    decreases rows.len(),
{
    if rows.len() > 0 {
        lemma_rows_of_id_ids(rows.drop_last(), id);
        let sub = rows_of_id(rows.drop_last(), id);
        if rows.last().0 == id {
            assert forall|k: int| 0 <= k < rows_of_id(rows, id).len() implies (
            #[trigger] rows_of_id(rows, id)[k]).0 == id by {
                if k < sub.len() {
                    assert(rows_of_id(rows, id)[k] == sub[k]);
                } else {
                    assert(rows_of_id(rows, id)[k] == rows.last());
                }
            }
        }
    }
}

/// The fetch for a strictly descending id list comes out sorted by id, every
/// id at most the first of the list.
pub proof fn lemma_rows_for_sorted(rows: Seq<(i64, (Seq<char>, Seq<char>))>, ids: Seq<i64>)
    requires
        forall|i: int, j: int| 0 <= i < j < ids.len() ==> ids[i] > ids[j],
    ensures
        sorted_by_id(rows_for(rows, ids)),
        forall|k: int|
            0 <= k < rows_for(rows, ids).len() ==> (#[trigger] rows_for(rows, ids)[k]).0
                <= ids.first(),
    decreases ids.len(),
{
    if ids.len() > 0 {
        let tail = ids.drop_first();
        lemma_rows_for_sorted(rows, tail);
        lemma_rows_of_id_ids(rows, ids.first());
        let whole = rows_for(rows, ids);
        let prefix = rows_for(rows, tail);
        let block = rows_of_id(rows, ids.first());
        assert forall|k: int| 0 <= k < whole.len() implies (#[trigger] whole[k]).0
            <= ids.first() by {
            if k < prefix.len() {
                assert(whole[k] == prefix[k]);
                if tail.len() > 0 {
                    assert(prefix[k].0 <= tail.first());
                    assert(tail.first() == ids[1]);
                    assert(ids[1] < ids[0]);
                } else {
                    assert(prefix.len() == 0);
                }
            } else {
                assert(whole[k] == block[k - prefix.len()]);
            }
        }
        assert forall|i: int, j: int| 0 <= i < j < whole.len() implies (#[trigger] whole[i]).0 <= (
        #[trigger] whole[j]).0 by {
            if j < prefix.len() {
                assert(whole[i] == prefix[i] && whole[j] == prefix[j]);
            } else if i >= prefix.len() {
                assert(whole[i] == block[i - prefix.len()] && whole[j] == block[j - prefix.len()]);
            } else {
                assert(whole[i] == prefix[i]);
                assert(whole[j] == block[j - prefix.len()]);
                assert(whole[j].0 == ids.first());
                if tail.len() > 0 {
                    assert(prefix[i].0 <= tail.first());
                    assert(tail.first() == ids[1]);
                    assert(ids[1] < ids[0]);
                } else {
                    assert(prefix.len() == 0);
                }
            }
        }
    }
}

/// The views of a batch of wide rows.
pub open spec fn rows_views(out: Seq<Vec<String>>) -> Seq<Seq<Seq<char>>> {
    out.map_values(|v: Vec<String>| strs_view(v@))
}

/// The wide rows one chunk of entity ids contributes to an export.
pub open spec fn chunk_batch(
    attrs: Seq<(i64, (Seq<char>, Seq<char>))>,
    chunk: Seq<i64>,
    cols: Seq<Seq<char>>,
) -> Seq<Seq<Seq<char>>> {
    let rows = rows_for(attrs, chunk);
    Seq::new(row_ids(rows).len(), |k: int| wide_row(rows, row_ids(rows)[k], cols))
}

/// Projects one entity's mapping into a dense row: one field per column, in
/// column order, the empty string standing in for an absent key.
pub fn project_row(m: &indexmap::IndexMap<String, String>, columns: &Vec<String>) -> (r: Vec<
    String,
>)
    ensures
        r@.len() == columns@.len(),
        forall|c: int|
            0 <= c < columns@.len() ==> (#[trigger] r@[c])@ == match entries_lookup(
                im_entries(*m),
                columns@[c]@,
            ) {
                Some(v) => v,
                None => Seq::<char>::empty(),
            },
{
    let mut r: Vec<String> = Vec::new();
    let mut c: usize = 0;
    while c < columns.len()
        invariant
            c <= columns@.len(),
            r@.len() == c,
            forall|k: int|
                0 <= k < c ==> (#[trigger] r@[k])@ == match entries_lookup(
                    im_entries(*m),
                    columns@[k]@,
                ) {
                    Some(v) => v,
                    None => Seq::<char>::empty(),
                },
        decreases columns@.len() - c,
    {
        match im_get(m, &columns[c]) {
            Some(v) => r.push(v),
            None => r.push(String::new()),
        }
        c += 1;
    }
    r
}

/// Pivots one chunk's attribute rows, fetched in nondecreasing id order, into
/// wide rows: one row per entity that produced at least one attribute, in
/// first-appearance order, each row holding one field per column with the
/// entity's last-written value for that column's key, or the empty string.
pub fn pivot_chunk(rows: &Vec<(i64, KeyValPair)>, columns: &Vec<String>) -> (out: Vec<Vec<String>>)
    requires
        sorted_by_id(rows_view(rows@)),
    ensures
        out@.len() == row_ids(rows_view(rows@)).len(),
        forall|j: int|
            0 <= j < out@.len() ==> strs_view((#[trigger] out@[j])@) == wide_row(
                rows_view(rows@),
                row_ids(rows_view(rows@))[j],
                strs_view(columns@),
            ),
        forall|j: int| 0 <= j < out@.len() ==> (#[trigger] out@[j])@.len() == columns@.len(),
{
    let ghost rv = rows_view(rows@);
    let ghost cols = strs_view(columns@);
    let mut out: Vec<Vec<String>> = Vec::new();
    let mut cur_map = im_new();
    let mut cur_id: i64 = 0;
    let mut i: usize = 0;
    while i < rows.len()
        invariant
            rv == rows_view(rows@),
            cols == strs_view(columns@),
            sorted_by_id(rv),
            rv.len() == rows@.len(),
            i <= rows@.len(),
            i == 0 ==> out@.len() == 0 && im_entries(cur_map) == Seq::<(
                Seq<char>,
                Seq<char>,
            )>::empty(),
            i > 0 ==> ({
                let d = row_ids(rv.take(i as int));
                &&& cur_id == rv[i as int - 1].0
                &&& d.len() >= 1
                &&& d.last() == cur_id
                &&& im_entries(cur_map) == fold_insert(
                    Seq::<(Seq<char>, Seq<char>)>::empty(),
                    pairs_of(rv.take(i as int), cur_id),
                )
                &&& out@.len() == d.len() - 1
                &&& forall|j: int|
                    0 <= j < out@.len() ==> strs_view((#[trigger] out@[j])@) == wide_row(
                        rv,
                        d[j],
                        cols,
                    )
                &&& forall|j: int| 0 <= j < out@.len() ==> (#[trigger] out@[j])@.len() == cols.len()
            }),
        decreases rows@.len() - i,
    {
        let id = rows[i].0;
        let ghost p = rv.take(i as int);
        let ghost ids_p = p.map_values(|r: (i64, (Seq<char>, Seq<char>))| r.0);
        proof {
            assert(rv[i as int] == (rows@[i as int].0, (rows@[i as int].1@.0, rows@[i as int].1@.1)));
            assert(rv.take(i as int + 1).drop_last() =~= p);
            assert(rv.take(i as int + 1).last() == rv[i as int]);
            assert(rv.take(i as int + 1).map_values(|r: (i64, (Seq<char>, Seq<char>))| r.0)
                =~= ids_p.push(id));
        }
        if i == 0 {
            cur_id = id;
            let k = rows[i].1.key().clone();
            let v = rows[i].1.value().clone();
            im_insert(&mut cur_map, k, v);
            proof {
                assert(p =~= Seq::<(i64, (Seq<char>, Seq<char>))>::empty());
                assert(pairs_of(rv.take(1), id) =~= pairs_of(p, id).push(
                    (rv[0].1.0, rv[0].1.1),
                ));
                assert(k@ == rv[0].1.0 && v@ == rv[0].1.1);
                assert(pairs_of(p, id) =~= Seq::<(Seq<char>, Seq<char>)>::empty());
                lemma_fold_insert_push(
                    Seq::<(Seq<char>, Seq<char>)>::empty(),
                    pairs_of(p, id),
                    k@,
                    v@,
                );
                assert(ids_p =~= Seq::<i64>::empty());
                assert(!ids_p.contains(id));
                crate::columns::lemma_dedup_push(ids_p, id);
                assert(row_ids(rv.take(1)) == dedup(ids_p).push(id));
                assert(dedup(ids_p) =~= Seq::<i64>::empty());
            }
        } else if id == cur_id {
            let k = rows[i].1.key().clone();
            let v = rows[i].1.value().clone();
            im_insert(&mut cur_map, k, v);
            proof {
                assert(pairs_of(rv.take(i as int + 1), cur_id) == pairs_of(p, cur_id).push(
                    (rv[i as int].1.0, rv[i as int].1.1),
                ));
                assert(k@ == rv[i as int].1.0 && v@ == rv[i as int].1.1);
                lemma_fold_insert_push(
                    Seq::<(Seq<char>, Seq<char>)>::empty(),
                    pairs_of(p, cur_id),
                    k@,
                    v@,
                );
                assert(ids_p.contains(cur_id)) by {
                    assert(ids_p[i as int - 1] == rv[i as int - 1].0);
                }
                crate::columns::lemma_dedup_push(ids_p, cur_id);
                assert(row_ids(rv.take(i as int + 1)) == row_ids(p));
            }
        } else {
            proof {
                assert(cur_id == rv[i as int - 1].0);
                assert(cur_id <= id);
                assert(cur_id < id);
                assert(forall|k: int| i <= k < rv.len() ==> (#[trigger] rv[k]).0 >= id);
                assert(forall|k: int| i <= k < rv.len() ==> (#[trigger] rv[k]).0 != cur_id);
                lemma_pairs_of_prefix(rv, i as int, cur_id);
            }
            let row = project_row(&cur_map, columns);
            proof {
                let d = row_ids(p);
                assert forall|c: int| 0 <= c < cols.len() implies row@[c]@ == cell_value(
                    rv,
                    cur_id,
                    cols[c],
                ) by {
                    lemma_fold_insert_lookup(
                        Seq::<(Seq<char>, Seq<char>)>::empty(),
                        pairs_of(p, cur_id),
                        cols[c],
                    );
                }
                assert(strs_view(row@) =~= wide_row(rv, cur_id, cols));
            }
            out.push(row);
            cur_id = id;
            cur_map = im_new();
            let k = rows[i].1.key().clone();
            let v = rows[i].1.value().clone();
            im_insert(&mut cur_map, k, v);
            proof {
                let d = row_ids(p);
                assert(forall|k: int| 0 <= k < i ==> (#[trigger] rv[k]).0 <= cur_id);
                assert(forall|k: int| 0 <= k < ids_p.len() ==> (#[trigger] ids_p[k]) < id);
                assert(!ids_p.contains(id));
                crate::columns::lemma_dedup_push(ids_p, id);
                assert(row_ids(rv.take(i as int + 1)) == d.push(id));
                assert(forall|k: int| 0 <= k < p.len() ==> (#[trigger] p[k]).0 != id);
                lemma_pairs_of_prefix(p, 0, id);
                assert(p.take(0) =~= Seq::<(i64, (Seq<char>, Seq<char>))>::empty());
                assert(pairs_of(rv.take(i as int + 1), id) == pairs_of(p, id).push(
                    (rv[i as int].1.0, rv[i as int].1.1),
                ));
                assert(pairs_of(p, id) =~= Seq::<(Seq<char>, Seq<char>)>::empty());
                assert(k@ == rv[i as int].1.0 && v@ == rv[i as int].1.1);
                lemma_fold_insert_push(
                    Seq::<(Seq<char>, Seq<char>)>::empty(),
                    pairs_of(p, id),
                    k@,
                    v@,
                );
            }
        }
        i += 1;
    }
    if rows.len() > 0 {
        proof {
            assert(rv.take(rv.len() as int) =~= rv);
        }
        let row = project_row(&cur_map, columns);
        proof {
            assert forall|c: int| 0 <= c < cols.len() implies row@[c]@ == cell_value(
                rv,
                cur_id,
                cols[c],
            ) by {
                lemma_fold_insert_lookup(
                    Seq::<(Seq<char>, Seq<char>)>::empty(),
                    pairs_of(rv, cur_id),
                    cols[c],
                );
            }
            assert(strs_view(row@) =~= wide_row(rv, cur_id, cols));
        }
        out.push(row);
    } else {
        proof {
            assert(rv =~= Seq::<(i64, (Seq<char>, Seq<char>))>::empty());
            assert(rv.map_values(|r: (i64, (Seq<char>, Seq<char>))| r.0) =~= Seq::<i64>::empty());
        }
    }
    out
}

} // verus!
