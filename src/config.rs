use vstd::prelude::*;
use vstd::laws_cmp::obeys_partial_cmp_spec_properties;
use vstd::std_specs::cmp::PartialOrdSpec;

use crate::matrix::Matrix;

verus! {

/// Where the observed and the query rows are read from.
pub struct Input {
    pub data: InputData,
    pub pred: InputPred,
}

/// The observed rows: a file and the column of observed values.
pub struct InputData {
    pub path: String,
    pub values: String,
}

/// The query rows: a file.
pub struct InputPred {
    pub path: String,
}

/// Where the weighted averages are written: a file and a column name.
pub struct Output {
    pub path: String,
    pub values: String,
}

/// `a < b` under the type's partial order.
pub open spec fn less<T: PartialOrd>(a: T, b: T) -> bool {
    a.partial_cmp_spec(&b) == Some(core::cmp::Ordering::Less)
}

/// Whether the order of `T` is lawful, total, and ranks as equal only
/// identical values (as on integers).
pub open spec fn total_order<T: PartialOrd>() -> bool {
    &&& T::obeys_partial_cmp_spec()
    &&& obeys_partial_cmp_spec_properties::<T>()
    &&& forall|a: T, b: T|
        #![trigger a.partial_cmp_spec(&b)]
        a.partial_cmp_spec(&b) is Some && (a.partial_cmp_spec(&b) == Some(
            core::cmp::Ordering::Equal,
        ) ==> a == b)
}

/// The smallest and the largest value of a non-empty matrix, each borrowed
/// from it. Where the order is lawful, no value is smaller than the first
/// or larger than the second; where it is also total, each is the first
/// position holding such a value: every earlier value is strictly larger
/// than the first, and strictly smaller than the second.
pub fn partialord_min_max<T: PartialOrd>(coords: &Matrix<T>) -> (r: (&T, &T))
    requires
        coords@.len() > 0,
    ensures
        coords@.contains(*r.0),
        coords@.contains(*r.1),
        T::obeys_partial_cmp_spec() && obeys_partial_cmp_spec_properties::<T>() ==> forall|k: int|
            0 <= k < coords@.len() ==> !less(coords@[k], *r.0) && !less(*r.1, coords@[k]),
        total_order::<T>() ==> exists|i: int|
            0 <= i < coords@.len() && coords@[i] == *r.0 && forall|m: int|
                0 <= m < i ==> less(coords@[i], #[trigger] coords@[m]),
        total_order::<T>() ==> exists|j: int|
            0 <= j < coords@.len() && coords@[j] == *r.1 && forall|m: int|
                0 <= m < j ==> less(#[trigger] coords@[m], coords@[j]),
{
    let values = coords.values();
    let n = values.len();
    let mut lo: &T = &values[0];
    let mut hi: &T = &values[0];
    let ghost mut li: int = 0;
    let ghost mut hj: int = 0;
    let mut i: usize = 1;
    proof {
        if T::obeys_partial_cmp_spec() && obeys_partial_cmp_spec_properties::<T>() {
            reveal(obeys_partial_cmp_spec_properties);
            assert(!less(coords@[0], coords@[0]));
        }
    }
    while i < n
        invariant
            values@ == coords@,
            n == values@.len(),
            1 <= i <= n,
            0 <= li < i,
            0 <= hj < i,
            coords@[li] == *lo,
            coords@[hj] == *hi,
            T::obeys_partial_cmp_spec() && obeys_partial_cmp_spec_properties::<T>() ==> forall|
                k: int,
            |
                0 <= k < i ==> !less(coords@[k], *lo) && !less(*hi, coords@[k]),
            total_order::<T>() ==> forall|m: int|
                0 <= m < li ==> less(coords@[li], #[trigger] coords@[m]),
            total_order::<T>() ==> forall|m: int|
                0 <= m < hj ==> less(#[trigger] coords@[m], coords@[hj]),
        decreases n - i,
    {
        let x = &values[i];
        proof {
            if T::obeys_partial_cmp_spec() && obeys_partial_cmp_spec_properties::<T>() {
                reveal(obeys_partial_cmp_spec_properties);
            }
        }
        if x < lo {
            proof {
                if total_order::<T>() {
                    reveal(obeys_partial_cmp_spec_properties);
                    assert forall|m: int| 0 <= m < i implies less(
                        coords@[i as int],
                        #[trigger] coords@[m],
                    ) by {
                        let xm = coords@[m];
                        let xl = coords@[li];
                        if m < li {
                            assert(less(xl, xm));
                        } else {
                            assert(!less(xm, xl));
                            assert(xm.partial_cmp_spec(&xl) is Some);
                            if xm.partial_cmp_spec(&xl) == Some(core::cmp::Ordering::Equal) {
                                assert(xm == xl);
                            } else {
                                assert(xm.partial_cmp_spec(&xl) == Some(
                                    core::cmp::Ordering::Greater,
                                ));
                                assert(less(xl, xm));
                            }
                        }
                    }
                }
                li = i as int;
            }
            lo = x;
        }
        if x > hi {
            proof {
                if total_order::<T>() {
                    reveal(obeys_partial_cmp_spec_properties);
                    assert forall|m: int| 0 <= m < i implies less(
                        #[trigger] coords@[m],
                        coords@[i as int],
                    ) by {
                        let xm = coords@[m];
                        let xh = coords@[hj];
                        if m < hj {
                            assert(less(xm, xh));
                        } else {
                            assert(!less(xh, xm));
                            assert(xh.partial_cmp_spec(&xm) is Some);
                            if xh.partial_cmp_spec(&xm) == Some(core::cmp::Ordering::Equal) {
                                assert(xh == xm);
                            } else {
                                assert(xh.partial_cmp_spec(&xm) == Some(
                                    core::cmp::Ordering::Greater,
                                ));
                                assert(less(xm, xh));
                            }
                        }
                    }
                }
                hj = i as int;
            }
            hi = x;
        }
        i += 1;
    }
    (lo, hi)
}

} // verus!
