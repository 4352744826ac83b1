//! The "continuous item-number sequence" rule: the nonzero item numbers a
//! document carries must form an unbroken run starting at 1.

use vstd::prelude::*;
use vstd::set_lib::lemma_len_subset;

verus! {

broadcast use vstd::seq_lib::seq_to_set_is_finite;

/// The item numbers of `s` with zeros and duplicates discarded: the set the
/// continuity rule looks at.
pub open spec fn item_set(s: Seq<i32>) -> Set<i32> {
    s.to_set().remove(0)
}

/// `m` is the greatest element of `st`.
pub open spec fn is_greatest(st: Set<i32>, m: i32) -> bool {
    st.contains(m) && forall|v: i32| st.contains(v) ==> v <= m
}

/// The continuity rule on a list of item numbers: vacuously true when no
/// nonzero item number is present; otherwise the greatest remaining item
/// number must be at least 1 and no larger than the count of distinct
/// remaining item numbers.
pub open spec fn spec_continuous(s: Seq<i32>) -> bool {
    item_set(s).is_empty() || (exists|m: i32|
        is_greatest(item_set(s), m) && 1 <= m && m as int <= item_set(s).len() as int)
}

/// The unbroken run of item numbers 1 through `m`.
pub open spec fn run_set(m: i32) -> Set<i32> {
    Set::new(|v: i32| 1 <= v <= m)
}

proof fn lemma_run_set_len(m: i32)
    requires
        m >= 0,
    ensures
        run_set(m).finite(),
        run_set(m).len() == m,
    decreases m,
{
    if m == 0 {
        assert(run_set(0) =~= Set::<i32>::empty());
    } else {
        lemma_run_set_len((m - 1) as i32);
        assert(run_set(m) =~= run_set((m - 1) as i32).insert(m));
        assert(!run_set((m - 1) as i32).contains(m));
    }
}

proof fn lemma_item_set_finite(s: Seq<i32>)
    ensures
        item_set(s).finite(),
{
    assert(s.to_set().finite());
}

/// The continuity rule holds of a list of nonnegative item numbers exactly
/// when the nonzero values among them form the unbroken run `1..=m` for some
/// `m` (or there are no nonzero values at all).
pub proof fn lemma_continuous_iff_initial_run(s: Seq<i32>)
    requires
        forall|i: int| 0 <= i < s.len() ==> s[i] >= 0,
    ensures
        spec_continuous(s) <==> (item_set(s).is_empty() || (exists|m: i32|
            1 <= m && item_set(s) =~= run_set(m))),
{
    let st = item_set(s);
    lemma_item_set_finite(s);
    assert forall|v: i32| st.contains(v) implies v >= 1 by {
        assert(s.contains(v));
        let i = choose|i: int| 0 <= i < s.len() && s[i] == v;
        assert(s[i] >= 0);
    }
    if !st.is_empty() {
        assert((exists|m: i32| 1 <= m && st =~= run_set(m)) ==> spec_continuous(s)) by {
            if exists|m: i32| 1 <= m && st =~= run_set(m) {
                let m = choose|m: i32| 1 <= m && st =~= run_set(m);
                lemma_run_set_len(m);
                assert(st.len() == m);
                assert(st.contains(m));
                assert(is_greatest(st, m) && 1 <= m && m as int <= st.len() as int);
            }
        }
        assert(spec_continuous(s) ==> (exists|m: i32| 1 <= m && st =~= run_set(m))) by {
            if spec_continuous(s) {
                let m = choose|m: i32|
                    is_greatest(st, m) && 1 <= m && m as int <= st.len() as int;
                lemma_run_set_len(m);
                assert(st.subset_of(run_set(m)));
                lemma_len_subset(st, run_set(m));
                assert forall|v: i32| run_set(m).contains(v) implies st.contains(v) by {
                    if !st.contains(v) {
                        st.lemma_subset_not_in_lt(run_set(m), v);
                    }
                }
                assert(1 <= m && st =~= run_set(m));
            }
        }
    }
}

fn vec_holds(values: &Vec<i32>, x: i32) -> (r: bool)
    ensures
        r == values@.contains(x),
{
    let mut i: usize = 0;
    while i < values.len()
        invariant
            i <= values@.len(),
            forall|k: int| 0 <= k < i ==> values@[k] != x,
        decreases values@.len() - i,
    {
        if values[i] == x {
            return true;
        }
        i += 1;
    }
    false
}

/// Checks whether the nonzero, deduplicated values of `numbers` form a
/// gapless run `1..=m`: their maximum must be at least 1 and at most their
/// distinct count. An empty list (or one holding only zeros) passes
/// vacuously.
pub fn is_continuous(numbers: &[i32]) -> (r: bool)
    ensures
        r == spec_continuous(numbers@),
{
    let ghost all = numbers@;
    let mut uniq: Vec<i32> = Vec::new();
    let mut idx: usize = 0;
    while idx < numbers.len()
        invariant
            idx <= all.len(),
            all == numbers@,
            uniq@.no_duplicates(),
            forall|v: i32| #[trigger] uniq@.contains(v) ==> all.contains(v) && v != 0,
            forall|k: int| 0 <= k < idx && all[k] != 0 ==> uniq@.contains(#[trigger] all[k]),
        decreases all.len() - idx,
    {
        let v = numbers[idx];
        if v != 0 && !vec_holds(&uniq, v) {
            let ghost uniq0 = uniq@;
            uniq.push(v);
            proof {
                assert forall|x: i32| #[trigger] uniq@.contains(x) implies all.contains(x) && x
                    != 0 by {
                    let k = choose|k: int| 0 <= k < uniq@.len() && uniq@[k] == x;
                    if k < uniq0.len() {
                        assert(uniq0[k] == x);
                        assert(uniq0.contains(x));
                    } else {
                        assert(x == v);
                        assert(all[idx as int] == v);
                    }
                }
                assert forall|k: int| 0 <= k < idx + 1 && all[k] != 0 implies uniq@.contains(
                    #[trigger] all[k],
                ) by {
                    if k < idx {
                        assert(uniq0.contains(all[k]));
                        let j = choose|j: int| 0 <= j < uniq0.len() && uniq0[j] == all[k];
                        assert(uniq@[j] == all[k]);
                    } else {
                        assert(uniq@[uniq0.len() as int] == v);
                    }
                }
                assert(uniq@.no_duplicates()) by {
                    assert(forall|j: int| 0 <= j < uniq0.len() ==> uniq@[j] == uniq0[j]);
                    assert(forall|j: int| 0 <= j < uniq0.len() ==> uniq0[j] != v) by {
                        assert(!uniq0.contains(v));
                    }
                }
            }
        } else {
            proof {
                if v != 0 {
                    assert(uniq@.contains(all[idx as int]));
                }
            }
        }
        idx += 1;
    }
    proof {
        assert(uniq@.to_set() =~= item_set(all)) by {
            assert forall|x: i32| item_set(all).contains(x) implies uniq@.to_set().contains(
                x,
            ) by {
                assert(all.contains(x) && x != 0);
                let k = choose|k: int| 0 <= k < all.len() && all[k] == x;
                assert(uniq@.contains(all[k]));
            }
        }
        uniq@.unique_seq_to_set();
    }
    if uniq.len() == 0 {
        proof {
            assert(uniq@.to_set() =~= Set::<i32>::empty());
            assert(item_set(all).is_empty());
        }
        return true;
    }
    let mut max: i32 = uniq[0];
    let mut i: usize = 1;
    while i < uniq.len()
        invariant
            1 <= i <= uniq@.len(),
            forall|k: int| 0 <= k < i ==> uniq@[k] <= max,
            exists|k: int| 0 <= k < i && uniq@[k] == max,
        decreases uniq@.len() - i,
    {
        if uniq[i] > max {
            max = uniq[i];
            proof {
                assert(uniq@[i as int] == max);
            }
        }
        i += 1;
    }
    proof {
        assert(is_greatest(item_set(all), max)) by {
            let k = choose|k: int| 0 <= k < uniq@.len() && uniq@[k] == max;
            assert(uniq@.contains(max));
            assert forall|v: i32| item_set(all).contains(v) implies v <= max by {
                assert(uniq@.to_set().contains(v));
                let j = choose|j: int| 0 <= j < uniq@.len() && uniq@[j] == v;
            }
        }
        assert(!item_set(all).is_empty()) by {
            assert(uniq@.contains(uniq@[0]));
            assert(uniq@.to_set().contains(uniq@[0]));
        }
    }
    let r = max >= 1 && (max as usize) <= uniq.len();
    proof {
        if r {
            assert(is_greatest(item_set(all), max) && 1 <= max && max as int <= item_set(
                all,
            ).len() as int);
            assert(spec_continuous(all));
        } else {
            assert forall|m: i32|
                is_greatest(item_set(all), m) && 1 <= m && m as int <= item_set(all).len() as int
                implies false by {
                assert(m <= max && max <= m);
            }
            assert(!spec_continuous(all));
        }
    }
    r
}

} // verus!
