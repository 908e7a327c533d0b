use vstd::prelude::*;
use vstd::string::StringExecFns;
use crate::columns::strs_view;
use crate::digits::{dec_str, u64_to_dec};

verus! {

/// The quoted, text-typed column definition of one column name.
pub open spec fn col_def(c: Seq<char>) -> Seq<char> {
    "\""@ + c + "\" TEXT"@
}

/// The quoted column name.
pub open spec fn col_name(c: Seq<char>) -> Seq<char> {
    "\""@ + c + "\""@
}

/// The positional parameter standing for the column at a zero-based index.
pub open spec fn param_at(i: int) -> Seq<char> {
    "?"@ + dec_str((i + 1) as nat)
}

/// Comma-separated concatenation.
pub open spec fn join_comma(parts: Seq<Seq<char>>) -> Seq<char>
    decreases parts.len(),
{
    if parts.len() == 0 {
        Seq::empty()
    } else if parts.len() == 1 {
        parts[0]
    } else {
        join_comma(parts.drop_last()) + ","@ + parts.last()
    }
}

/// The statement the relational sink creates its fresh table with: every
/// discovered column, in column order, declared as text.
pub fn create_table_sql(columns: &Vec<String>) -> (r: String)
    ensures
        r@ == "create table products ("@ + join_comma(
            strs_view(columns@).map_values(|c: Seq<char>| col_def(c)),
        ) + ")"@,
{
    let ghost parts = strs_view(columns@).map_values(|c: Seq<char>| col_def(c));
    let mut r: String = "create table products (".to_owned();
    let mut i: usize = 0;
    proof {
        assert(parts.take(0) =~= Seq::<Seq<char>>::empty());
        assert(r@ =~= "create table products ("@ + join_comma(parts.take(0)));
    }
    while i < columns.len()
        invariant
            parts == strs_view(columns@).map_values(|c: Seq<char>| col_def(c)),
            parts.len() == columns@.len(),
            i <= columns@.len(),
            r@ == "create table products ("@ + join_comma(parts.take(i as int)),
        decreases columns@.len() - i,
    {
        if i > 0 {
            r.append(",");
        }
        r.append("\"");
        r.append(columns[i].as_str());
        r.append("\" TEXT");
        proof {
            assert(parts.take(i as int + 1).drop_last() =~= parts.take(i as int));
            assert(parts.take(i as int + 1).last() == col_def(columns@[i as int]@));
            if i == 0 {
                assert(join_comma(parts.take(1)) == parts.take(1)[0]);
                assert(parts.take(1)[0] == col_def(columns@[0]@));
                assert(r@ =~= "create table products ("@ + join_comma(parts.take(1)));
            } else {
                assert(join_comma(parts.take(i as int + 1)) == join_comma(parts.take(i as int))
                    + ","@ + col_def(columns@[i as int]@));
                assert(r@ =~= "create table products ("@ + join_comma(parts.take(i as int + 1)));
            }
        }
        i += 1;
    }
    r.append(")");
    proof {
        assert(parts.take(parts.len() as int) =~= parts);
        assert(r@ =~= "create table products ("@ + join_comma(parts) + ")"@);
    }
    r
}

/// The parameterized statement the relational sink inserts each wide row
/// with: the quoted column names, in order, then one positional parameter
/// per column.
pub fn insert_sql(columns: &Vec<String>) -> (r: String)
    ensures
        r@ == "insert into products ("@ + join_comma(
            strs_view(columns@).map_values(|c: Seq<char>| col_name(c)),
        ) + ") values ("@ + join_comma(Seq::new(columns@.len(), |i: int| param_at(i))) + ")"@,
{
    let ghost names = strs_view(columns@).map_values(|c: Seq<char>| col_name(c));
    let ghost params = Seq::new(columns@.len(), |i: int| param_at(i));
    let mut r: String = "insert into products (".to_owned();
    let mut i: usize = 0;
    proof {
        assert(names.take(0) =~= Seq::<Seq<char>>::empty());
        assert(r@ =~= "insert into products ("@ + join_comma(names.take(0)));
    }
    while i < columns.len()
        invariant
            names == strs_view(columns@).map_values(|c: Seq<char>| col_name(c)),
            names.len() == columns@.len(),
            i <= columns@.len(),
            r@ == "insert into products ("@ + join_comma(names.take(i as int)),
        decreases columns@.len() - i,
    {
        if i > 0 {
            r.append(",");
        }
        r.append("\"");
        r.append(columns[i].as_str());
        r.append("\"");
        proof {
            assert(names.take(i as int + 1).drop_last() =~= names.take(i as int));
            assert(names.take(i as int + 1).last() == col_name(columns@[i as int]@));
            if i == 0 {
                assert(join_comma(names.take(1)) == names.take(1)[0]);
                assert(names.take(1)[0] == col_name(columns@[0]@));
                assert(r@ =~= "insert into products ("@ + join_comma(names.take(1)));
            } else {
                assert(join_comma(names.take(i as int + 1)) == join_comma(names.take(i as int))
                    + ","@ + col_name(columns@[i as int]@));
                assert(r@ =~= "insert into products ("@ + join_comma(names.take(i as int + 1)));
            }
        }
        i += 1;
    }
    r.append(") values (");
    let ghost mid = "insert into products ("@ + join_comma(names) + ") values ("@;
    proof {
        assert(names.take(names.len() as int) =~= names);
        assert(params.take(0) =~= Seq::<Seq<char>>::empty());
        assert(r@ =~= mid + join_comma(params.take(0)));
    }
    let mut j: usize = 0;
    while j < columns.len()
        invariant
            params == Seq::new(columns@.len(), |i: int| param_at(i)),
            params.len() == columns@.len(),
            j <= columns@.len(),
            r@ == mid + join_comma(params.take(j as int)),
        decreases columns@.len() - j,
    {
        if j > 0 {
            r.append(",");
        }
        r.append("?");
        let number = u64_to_dec(j as u64 + 1);
        r.append(number.as_str());
        proof {
            assert((j as u64 + 1) as nat == j as nat + 1);
            assert(number@ == dec_str((j as int + 1) as nat));
            assert(params.take(j as int + 1).drop_last() =~= params.take(j as int));
            assert(params.take(j as int + 1).last() == param_at(j as int));
            if j == 0 {
                assert(join_comma(params.take(1)) == params.take(1)[0]);
                assert(params.take(1)[0] == param_at(0));
                assert(r@ =~= mid + join_comma(params.take(1)));
            } else {
                assert(join_comma(params.take(j as int + 1)) == join_comma(params.take(j as int))
                    + ","@ + param_at(j as int));
                assert(r@ =~= mid + join_comma(params.take(j as int + 1)));
            }
        }
        j += 1;
    }
    r.append(")");
    proof {
        assert(params.take(params.len() as int) =~= params);
        assert(r@ =~= mid + join_comma(params) + ")"@);
    }
    r
}

} // verus!
