use vstd::prelude::*;

verus! {

/// How many contiguous chunks of size `cs` a list of `len` elements falls
/// into: the last chunk may be shorter, and an empty list has no chunk.
pub open spec fn chunk_count(len: int, cs: int) -> int
    recommends
        cs > 0,
    decreases len,
{
    if len <= 0 || cs <= 0 {
        0
    } else if len <= cs {
        1
    } else {
        1 + chunk_count(len - cs, cs)
    }
}

/// The chunk count is the usual ceiling division.
pub proof fn lemma_chunk_count_is_ceil_div(len: int, cs: int)
    requires
        cs > 0,
        len >= 0,
    ensures
        chunk_count(len, cs) == (len + cs - 1) / cs,
    decreases len,
{
    if len == 0 {
        vstd::arithmetic::div_mod::lemma_basic_div(cs - 1, cs);
    } else if len <= cs {
        vstd::arithmetic::div_mod::lemma_basic_div(len - 1, cs);
        vstd::arithmetic::div_mod::lemma_div_plus_one(len - 1, cs);
        assert(len + cs - 1 == cs + (len - 1));
    } else {
        lemma_chunk_count_is_ceil_div(len - cs, cs);
        vstd::arithmetic::div_mod::lemma_div_plus_one(len - cs + cs - 1, cs);
        assert(len + cs - 1 == cs + (len - cs + cs - 1));
    }
}

/// The view of each chunk of a chunk list, so that the list of chunks can be
/// compared, flattened, against the list it was cut from.
pub open spec fn chunk_views(r: Seq<Vec<i64>>) -> Seq<Seq<i64>> {
    r.map_values(|c: Vec<i64>| c@)
}

/// Splits `ids` into contiguous chunks of `chunk_size` elements; the last
/// chunk holds the remainder. The chunks, in order, are exactly the
/// consecutive slices of the input, so their concatenation is the input
/// itself: nothing is lost and nothing is repeated.
pub fn partition(ids: &Vec<i64>, chunk_size: usize) -> (r: Vec<Vec<i64>>)
    requires
        chunk_size > 0,
    ensures
        r@.len() == chunk_count(ids@.len() as int, chunk_size as int),
        forall|j: int| 0 <= j < r@.len() ==> #[trigger] (j * (chunk_size as int)) < ids@.len(),
        forall|j: int|
            0 <= j < r@.len() ==> (#[trigger] r@[j])@ == ids@.subrange(
                j * (chunk_size as int),
                vstd::math::min(ids@.len() as int, (j + 1) * (chunk_size as int)),
            ),
        chunk_views(r@).flatten() == ids@,
{
    let ghost cs = chunk_size as int;
    let ghost len = ids@.len() as int;
    let mut r: Vec<Vec<i64>> = Vec::new();
    let mut start: usize = 0;
    proof {
        assert(r@.len() * cs == 0) by (nonlinear_arith)
            requires
                r@.len() == 0,
        ;
        assert(chunk_views(r@).flatten() =~= ids@.subrange(0, 0));
    }
    while start < ids.len()
        invariant
            chunk_size > 0,
            cs == chunk_size as int,
            len == ids@.len() as int,
            start <= ids.len(),
            start == ids.len() || start as int == r@.len() * cs,
            chunk_count(len, cs) == r@.len() + chunk_count(len - start as int, cs),
            forall|j: int| 0 <= j < r@.len() ==> #[trigger] (j * cs) < len,
            forall|j: int|
                0 <= j < r@.len() ==> (#[trigger] r@[j])@ == ids@.subrange(
                    j * cs,
                    vstd::math::min(len, (j + 1) * cs),
                ),
            chunk_views(r@).flatten() == ids@.subrange(0, start as int),
        decreases ids.len() - start,
    {
        let ghost j0 = r@.len() as int;
        let end: usize = if ids.len() - start < chunk_size {
            ids.len()
        } else {
            start + chunk_size
        };
        let mut chunk: Vec<i64> = Vec::new();
        let mut i: usize = start;
        while i < end
            invariant
                start <= i <= end,
                end <= ids.len(),
                chunk@ == ids@.subrange(start as int, i as int),
            decreases end - i,
        {
            chunk.push(ids[i]);
            proof {
                assert(chunk@ =~= ids@.subrange(start as int, i as int + 1));
            }
            i += 1;
        }
        proof {
            assert(start as int == j0 * cs);
            assert((j0 + 1) * cs == j0 * cs + cs) by (nonlinear_arith);
            assert(end as int == vstd::math::min(len, (j0 + 1) * cs));
            chunk_views(r@).lemma_flatten_push(chunk@);
            assert(chunk_views(r@.push(chunk)) =~= chunk_views(r@).push(chunk@));
            assert(chunk_views(r@).flatten() + chunk@ =~= ids@.subrange(0, end as int));
        }
        r.push(chunk);
        start = end;
    }
    proof {
        assert(start == ids.len());
        assert(ids@.subrange(0, len) =~= ids@);
    }
    r
}

} // verus!
