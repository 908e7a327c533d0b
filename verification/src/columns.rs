use vstd::prelude::*;

verus! {

/// A sequence with its later repetitions removed: each element keeps its
/// first occurrence's place and appears exactly once.
pub open spec fn dedup<A>(s: Seq<A>) -> Seq<A>
    decreases s.len(),
{
    if s.len() == 0 {
        Seq::empty()
    } else if s.drop_last().contains(s.last()) {
        dedup(s.drop_last())
    } else {
        dedup(s.drop_last()).push(s.last())
    }
}

/// The views of a list of strings.
pub open spec fn strs_view(s: Seq<String>) -> Seq<Seq<char>> {
    s.map_values(|x: String| x@)
}

/// The column list for an export: the priority list first, then every
/// attribute key not already named, each exactly once, keys in the order the
/// store yields them.
pub open spec fn spec_distinct_keys(priority: Seq<Seq<char>>, keys: Seq<Seq<char>>) -> Seq<
    Seq<char>,
> {
    dedup(priority + keys)
}

/// One step of `dedup` over a push: a repeated element is dropped, a new one
/// is kept last.
pub proof fn lemma_dedup_push<A>(s: Seq<A>, x: A)
    ensures
        dedup(s.push(x)) == if s.contains(x) {
            dedup(s)
        } else {
            dedup(s).push(x)
        },
{
    assert(s.push(x).drop_last() =~= s);
    assert(s.push(x).last() == x);
}

/// Whether some string in the list reads the same as `s`.
pub fn vec_contains_string(v: &Vec<String>, s: &String) -> (r: bool)
    ensures
        r == strs_view(v@).contains(s@),
{
    let mut i: usize = 0;
    while i < v.len()
        invariant
            i <= v@.len(),
            forall|k: int| 0 <= k < i ==> strs_view(v@)[k] != s@,
        decreases v@.len() - i,
    {
        if v[i] == *s {
            proof {
                assert(strs_view(v@)[i as int] == s@);
            }
            return true;
        }
        i += 1;
    }
    proof {
        assert forall|k: int| 0 <= k < strs_view(v@).len() implies strs_view(v@)[k] != s@ by {}
    }
    false
}

/// Removing repetitions neither adds nor loses elements.
pub proof fn lemma_dedup_membership<A>(s: Seq<A>, x: A)
    ensures
        dedup(s).contains(x) <==> s.contains(x),
    decreases s.len(),
{
    if s.len() > 0 {
        lemma_dedup_membership(s.drop_last(), x);
        assert(s.contains(x) <==> (s.drop_last().contains(x) || s.last() == x)) by {
            if s.contains(x) {
                let i = choose|i: int| 0 <= i < s.len() && s[i] == x;
                if i < s.len() - 1 {
                    assert(s.drop_last()[i] == x);
                }
            }
            if s.drop_last().contains(x) {
                let i = choose|i: int| 0 <= i < s.drop_last().len() && s.drop_last()[i] == x;
                assert(s[i] == x);
            }
        }
        if !s.drop_last().contains(s.last()) {
            assert(dedup(s) == dedup(s.drop_last()).push(s.last()));
            assert(forall|y: A| dedup(s.drop_last()).push(s.last()).contains(y) <==> (dedup(
                s.drop_last(),
            ).contains(y) || s.last() == y)) by {
                assert forall|y: A| dedup(s.drop_last()).contains(y) || s.last()
                    == y implies dedup(s.drop_last()).push(s.last()).contains(y) by {
                    let t = dedup(s.drop_last()).push(s.last());
                    if s.last() == y {
                        assert(t[t.len() - 1] == y);
                    } else {
                        let i = choose|i: int|
                            0 <= i < dedup(s.drop_last()).len() && dedup(s.drop_last())[i] == y;
                        assert(t[i] == y);
                    }
                }
            }
        }
    }
}

/// Each element appears exactly once after removing repetitions.
pub proof fn lemma_dedup_no_duplicates<A>(s: Seq<A>)
    ensures
        dedup(s).no_duplicates(),
    decreases s.len(),
{
    if s.len() > 0 {
        lemma_dedup_no_duplicates(s.drop_last());
        if !s.drop_last().contains(s.last()) {
            lemma_dedup_membership(s.drop_last(), s.last());
            let d = dedup(s.drop_last());
            let t = d.push(s.last());
            assert forall|i: int, j: int| 0 <= i < j < t.len() implies t[i] != t[j] by {
                if j < t.len() - 1 {
                    assert(d[i] != d[j]);
                } else {
                    assert(t[j] == s.last());
                    if t[i] == s.last() {
                        assert(d[i] == s.last());
                        assert(d.contains(s.last()));
                        assert(false);
                    }
                }
            }
        }
    }
}

/// The discovered column list for one export run contains each key exactly
/// once, holds exactly the priority names and the attribute keys, and is a
/// function of those two lists alone, so repeated discovery over unchanged
/// store contents yields the identical list.
pub proof fn lemma_column_determinism(priority: Seq<Seq<char>>, keys: Seq<Seq<char>>)
    ensures
        spec_distinct_keys(priority, keys).no_duplicates(),
        forall|k: Seq<char>|
            spec_distinct_keys(priority, keys).contains(k) <==> (priority + keys).contains(k),
{
    lemma_dedup_no_duplicates(priority + keys);
    assert forall|k: Seq<char>| true implies (spec_distinct_keys(priority, keys).contains(k) <==> (
    priority + keys).contains(k)) by {
        lemma_dedup_membership(priority + keys, k);
    }
}

} // verus!
