//! Places picked out of a row of them, in order.

use vstd::prelude::*;

verus! {

/// Some places, the lowest first.
pub open spec fn ascending(places: Seq<int>) -> bool {
    forall|i: int, j: int|
        #![trigger places[i], places[j]]
        0 <= i < j < places.len() ==> places[i] < places[j]
}

/// Whether `places` are exactly the places below `n` that `wanted` picks, the
/// lowest first.
pub open spec fn exactly(places: Seq<int>, n: int, wanted: spec_fn(int) -> bool) -> bool {
    &&& ascending(places)
    &&& forall|j: int| 0 <= j < places.len() ==> 0 <= #[trigger] places[j] < n && wanted(places[j])
    &&& forall|i: int| 0 <= i < n && #[trigger] wanted(i) ==> places.contains(i)
}

/// The places below `n` are those below `n - 1`, and `n - 1` itself if it is
/// wanted.
pub proof fn one_place_less(places: Seq<int>, n: int, wanted: spec_fn(int) -> bool)
    requires
        n > 0,
        exactly(places, n, wanted),
    ensures
        wanted(n - 1) ==> places.len() > 0 && places.last() == n - 1 && exactly(
            places.drop_last(),
            n - 1,
            wanted,
        ),
        !wanted(n - 1) ==> exactly(places, n - 1, wanted),
{
    let last = n - 1;
    if wanted(last) {
        assert(places.contains(last));
        let j = choose|j: int| 0 <= j < places.len() && places[j] == last;
        let k = places.len() - 1;
        assert(places[k] < n);
        if j < k {
            assert(places[j] < places[k]);
        }
        let rest = places.drop_last();
        assert forall|i: int| 0 <= i < rest.len() implies 0 <= #[trigger] rest[i] < n - 1 && wanted(
            rest[i],
        ) by {
            assert(rest[i] == places[i]);
            assert(places[i] < places[k]);
        }
        assert forall|i: int| 0 <= i < n - 1 && #[trigger] wanted(i) implies rest.contains(i) by {
            assert(places.contains(i));
            let a = choose|a: int| 0 <= a < places.len() && places[a] == i;
            assert(rest[a] == i);
        }
    } else {
        assert forall|j: int| 0 <= j < places.len() implies 0 <= #[trigger] places[j] < n - 1
            && wanted(places[j]) by {
            if places[j] == last {
                assert(wanted(last));
            }
        }
    }
}

} // verus!
