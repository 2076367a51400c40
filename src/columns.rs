use vstd::prelude::*;

use crate::error::ColumnError;

verus! {

/// The physical element type of a stored column.
#[derive(Debug, Clone, Copy, PartialEq, Eq, Structural)]
pub enum PhysicalType {
    Boolean,
    Int32,
    Int64,
    Int96,
    Float,
    Double,
    ByteArray,
    FixedLenByteArray,
    /// A nested group of columns rather than a column of values.
    Group,
}

/// A column of a stored table: its name and element type.
pub struct ColumnSchema {
    pub name: String,
    pub physical_type: PhysicalType,
}

/// Whether `i` is the first position of `schema` holding a column named
/// `name`.
pub open spec fn is_first_match(schema: Seq<ColumnSchema>, name: Seq<char>, i: int) -> bool {
    &&& 0 <= i < schema.len()
    &&& schema[i].name@ == name
    &&& forall|m: int| 0 <= m < i ==> (#[trigger] schema[m]).name@ != name
}

/// Whether `schema` holds a column named `name`.
pub open spec fn has_column(schema: Seq<ColumnSchema>, name: Seq<char>) -> bool {
    exists|m: int| 0 <= m < schema.len() && (#[trigger] schema[m]).name@ == name
}

proof fn lemma_first_match_unique(schema: Seq<ColumnSchema>, name: Seq<char>, i: int, j: int)
    requires
        is_first_match(schema, name, i),
        is_first_match(schema, name, j),
    ensures
        i == j,
{
    if i < j {
        assert(schema[i].name@ != name);
    } else if j < i {
        assert(schema[j].name@ != name);
    }
}

/// The columns of `schema` named by `wanted`, in that order, as positions in
/// `schema` (the first column of each name). Fails with `ColumnMissing` at
/// the first wanted name that no column has; once all are found, fails with
/// `TypeMismatch` at the first wanted column whose type is not `expected`.
pub fn select_columns(schema: &[ColumnSchema], wanted: &[String], expected: PhysicalType) -> (r:
    Result<Vec<usize>, ColumnError>)
    ensures
        r matches Ok(ix) ==> ix@.len() == wanted@.len() && forall|k: int|
            0 <= k < ix@.len() ==> is_first_match(schema@, wanted@[k]@, #[trigger] ix@[k] as int)
                && schema@[ix@[k] as int].physical_type == expected,
        r is Ok <==> forall|k: int|
            0 <= k < wanted@.len() ==> has_column(schema@, #[trigger] wanted@[k]@) && forall|
                i: int,
            |
                is_first_match(schema@, wanted@[k]@, i) ==> schema@[i].physical_type == expected,
        r matches Err(ColumnError::ColumnMissing(name)) ==> exists|k: int|
            0 <= k < wanted@.len() && name@ == (#[trigger] wanted@[k])@ && !has_column(
                schema@,
                name@,
            ) && forall|m: int| 0 <= m < k ==> has_column(schema@, (#[trigger] wanted@[m])@),
        r matches Err(ColumnError::TypeMismatch(name)) ==> (forall|m: int|
            0 <= m < wanted@.len() ==> has_column(schema@, (#[trigger] wanted@[m])@)) && exists|
            k: int,
            i: int,
        |
            0 <= k < wanted@.len() && name@ == (#[trigger] wanted@[k])@ && #[trigger] is_first_match(
                schema@,
                name@,
                i,
            ) && schema@[i].physical_type != expected && forall|m: int, p: int|
                0 <= m < k && #[trigger] is_first_match(schema@, wanted@[m]@, p)
                    ==> schema@[p].physical_type == expected,
{
    let n = schema.len();
    let mut ix: Vec<usize> = Vec::new();
    let mut k: usize = 0;
    while k < wanted.len()
        invariant
            n == schema@.len(),
            k <= wanted@.len(),
            ix@.len() == k,
            forall|j: int| 0 <= j < k ==> is_first_match(schema@, wanted@[j]@, #[trigger] ix@[j] as int),
        decreases wanted@.len() - k,
    {
        let mut m: usize = 0;
        while m < n && schema[m].name != wanted[k]
            invariant
                n == schema@.len(),
                k < wanted@.len(),
                m <= n,
                forall|p: int| 0 <= p < m ==> (#[trigger] schema@[p]).name@ != wanted@[k as int]@,
            decreases n - m,
        {
            m += 1;
        }
        if m == n {
            proof {
                assert forall|j: int| 0 <= j < k implies has_column(
                    schema@,
                    (#[trigger] wanted@[j])@,
                ) by {
                    assert(schema@[ix@[j] as int].name@ == wanted@[j]@);
                }
                assert(!has_column(schema@, wanted@[k as int]@));
            }
            return Err(ColumnError::ColumnMissing(wanted[k].clone()));
        }
        ix.push(m);
        k += 1;
    }
    assert forall|j: int| 0 <= j < wanted@.len() implies has_column(schema@, (#[trigger] wanted@[j])@) by {
        assert(schema@[ix@[j] as int].name@ == wanted@[j]@);
    }
    let mut k: usize = 0;
    while k < ix.len()
        invariant
            ix@.len() == wanted@.len(),
            k <= ix@.len(),
            forall|j: int| 0 <= j < ix@.len() ==> is_first_match(schema@, wanted@[j]@, #[trigger] ix@[j] as int),
            forall|j: int| 0 <= j < k ==> schema@[#[trigger] ix@[j] as int].physical_type == expected,
            forall|j: int| 0 <= j < wanted@.len() ==> has_column(schema@, (#[trigger] wanted@[j])@),
        decreases ix@.len() - k,
    {
        if schema[ix[k]].physical_type != expected {
            proof {
                assert(is_first_match(schema@, wanted@[k as int]@, ix@[k as int] as int));
                assert forall|i: int| #[trigger]
                    is_first_match(schema@, wanted@[k as int]@, i) implies i == ix@[k as int] by {
                    lemma_first_match_unique(schema@, wanted@[k as int]@, i, ix@[k as int] as int);
                }
            }
            let name = wanted[k].clone();
            proof {
                assert forall|mm: int, p: int|
                    0 <= mm < k && #[trigger] is_first_match(schema@, wanted@[mm]@, p) implies schema@[p].physical_type
                    == expected by {
                    lemma_first_match_unique(schema@, wanted@[mm]@, p, ix@[mm] as int);
                }
            }
            let r: Result<Vec<usize>, ColumnError> = Err(ColumnError::TypeMismatch(name));
            assert(r matches Err(ColumnError::TypeMismatch(nm)) ==> is_first_match(
                schema@,
                nm@,
                ix@[k as int] as int,
            ));
            return r;
        }
        k += 1;
    }
    proof {
        assert forall|j: int, i: int|
            0 <= j < wanted@.len() && #[trigger] is_first_match(schema@, wanted@[j]@, i) implies schema@[i].physical_type
            == expected by {
            lemma_first_match_unique(schema@, wanted@[j]@, i, ix@[j] as int);
        }
    }
    Ok(ix)
}

} // verus!
