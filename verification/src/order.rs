//! Ordering the merge inputs. The split and compress stages finish their
//! chunks in whatever order the workers happen to run, but the single merge
//! invocation must receive the chunks ascending by first page; this module
//! restores that order and proves it does not depend on arrival order.

use crate::plan::PageRange;
use vstd::prelude::*;

verus! {

/// Ranges listed in ascending order of their first page.
pub open spec fn sorted_by_start(s: Seq<PageRange>) -> bool {
    forall|i: int, j: int| 0 <= i < j < s.len() ==> s[i].start <= s[j].start
}

/// No two ranges share a first page — true of any planned set of chunks.
pub open spec fn starts_distinct(s: Seq<PageRange>) -> bool {
    forall|i: int, j: int| 0 <= i < j < s.len() ==> s[i].start != s[j].start
}

/// Puts the ranges in ascending order of first page, keeping exactly the
/// ranges given: the order the chunks arrive in does not matter, only which
/// chunks arrived.
pub fn merge_order(v: &Vec<PageRange>) -> (r: Vec<PageRange>)
    ensures
        sorted_by_start(r@),
        r@.to_multiset() == v@.to_multiset(),
        r@.len() == v@.len(),
        starts_distinct(v@) ==> starts_distinct(r@),
{
    broadcast use vstd::seq_lib::group_to_multiset_ensures;

    let mut r: Vec<PageRange> = Vec::new();
    proof {
        assert(v@.take(0) =~= Seq::<PageRange>::empty());
        assert(r@.to_multiset() =~= v@.take(0).to_multiset());
    }
    let mut i: usize = 0;
    while i < v.len()
        invariant
            i <= v@.len(),
            sorted_by_start(r@),
            r@.len() == i,
            r@.to_multiset() == v@.take(i as int).to_multiset(),
            starts_distinct(v@) ==> starts_distinct(r@),
        decreases v@.len() - i,
    {
        let x = v[i];
        let mut j: usize = 0;
        while j < r.len() && r[j].start <= x.start
            invariant
                j <= r@.len(),
                forall|k: int| 0 <= k < j ==> (#[trigger] r@[k]).start <= x.start,
            decreases r@.len() - j,
        {
            j = j + 1;
        }
        let ghost prev = r@;
        r.insert(j, x);
        proof {
            broadcast use vstd::seq_lib::group_to_multiset_ensures;

            prev.insert_ensures(j as int, x);
            assert(sorted_by_start(r@)) by {
                assert forall|a: int, b: int| 0 <= a < b < r@.len() implies (#[trigger] r@[a]).start
                    <= (#[trigger] r@[b]).start by {
                    if b < j {
                    } else if a > j {
                        assert(r@[a] == prev[a - 1] && r@[b] == prev[b - 1]);
                    } else if a == j && b > j {
                        assert(r@[b] == prev[b - 1]);
                        assert(j < prev.len() ==> prev[j as int].start > x.start);
                        assert(prev[j as int].start <= prev[b - 1].start);
                    } else if a < j && b == j {
                        assert(r@[a] == prev[a]);
                    } else if a < j && b > j {
                        assert(r@[a] == prev[a] && r@[b] == prev[b - 1]);
                        if j < prev.len() {
                            assert(prev[j as int].start <= prev[b - 1].start);
                        }
                    }
                }
            }
            vstd::seq_lib::to_multiset_insert(prev, j as int, x);
            assert(v@.take(i as int + 1) =~= v@.take(i as int).push(x));
            assert(v@.take(i as int).push(x).to_multiset() == v@.take(i as int).to_multiset().insert(
                x,
            ));
            if starts_distinct(v@) {
                assert forall|k: int| 0 <= k < prev.len() implies (#[trigger] prev[k]).start
                    != x.start by {
                    assert(prev.to_multiset().count(prev[k]) > 0);
                    assert(v@.take(i as int).contains(prev[k]));
                    let idx = choose|idx: int|
                        0 <= idx < i as int && v@.take(i as int)[idx] == prev[k];
                    assert(v@[idx] == prev[k]);
                    assert(v@[idx].start != v@[i as int].start);
                }
                assert(starts_distinct(r@)) by {
                    assert forall|p: int, q: int| 0 <= p < q < r@.len() implies r@[p].start
                        != r@[q].start by {
                        if q < j {
                        } else if p > j {
                            assert(r@[p] == prev[p - 1] && r@[q] == prev[q - 1]);
                        } else if p == j {
                            assert(r@[q] == prev[q - 1]);
                        } else if q == j {
                            assert(r@[p] == prev[p]);
                        } else {
                            assert(r@[p] == prev[p] && r@[q] == prev[q - 1]);
                        }
                    }
                }
            }
        }
        i = i + 1;
    }
    proof {
        assert(v@.take(v@.len() as int) =~= v@);
    }
    r
}

/// A later range of a partition begins on a later page.
proof fn lemma_start_increases(ranges: Seq<PageRange>, page_count: int, i: int, j: int)
    requires
        crate::plan::partitions(ranges, page_count),
        0 <= i < j < ranges.len(),
    ensures
        ranges[i].start < ranges[j].start,
    decreases j - i,
{
    if j == i + 1 {
        assert(ranges[i].end + 1 == ranges[j].start);
    } else {
        lemma_start_increases(ranges, page_count, i, j - 1);
        assert(ranges[j - 1].end + 1 == ranges[j].start);
    }
}

/// A partition of the document lists its ranges ascending by first page, and
/// no two of its ranges share one.
pub proof fn lemma_partitions_ordered(ranges: Seq<PageRange>, page_count: int)
    requires
        crate::plan::partitions(ranges, page_count),
    ensures
        sorted_by_start(ranges),
        starts_distinct(ranges),
{
    assert forall|i: int, j: int| 0 <= i < j < ranges.len() implies (#[trigger] ranges[i]).start
        < (#[trigger] ranges[j]).start by {
        lemma_start_increases(ranges, page_count, i, j);
    }
}

/// Copies a list of ranges, for handing the same plan to both the next state
/// and the action that runs it.
pub fn copy_ranges(v: &Vec<PageRange>) -> (r: Vec<PageRange>)
    ensures
        r@ == v@,
{
    let mut r: Vec<PageRange> = Vec::new();
    let mut i: usize = 0;
    while i < v.len()
        invariant
            i <= v@.len(),
            r@ == v@.take(i as int),
        decreases v@.len() - i,
    {
        r.push(v[i]);
        proof {
            assert(v@.take(i as int + 1) =~= v@.take(i as int).push(v@[i as int]));
        }
        i = i + 1;
    }
    proof {
        assert(v@.take(v@.len() as int) =~= v@);
    }
    r
}

/// Two ascending sequences of ranges with pairwise different first pages and
/// the same chunks are the same sequence: the merge input order is a function
/// of which chunks exist, never of the order the compress stage completed
/// them in.
pub proof fn lemma_merge_order_unique(a: Seq<PageRange>, b: Seq<PageRange>)
    requires
        sorted_by_start(a),
        sorted_by_start(b),
        starts_distinct(a),
        a.to_multiset() == b.to_multiset(),
    ensures
        a == b,
    decreases a.len(),
{
    broadcast use vstd::seq_lib::group_to_multiset_ensures;
    broadcast use vstd::multiset::group_multiset_axioms;

    if a.len() == 0 {
        assert(b.to_multiset().len() == 0);
        assert(a =~= b);
    } else {
        assert(b.to_multiset().contains(a[0]));
        assert(b.len() > 0);
        assert(a.to_multiset().contains(b[0]));
        let bi = choose|bi: int| 0 <= bi < b.len() && b[bi] == a[0];
        let ak = choose|ak: int| 0 <= ak < a.len() && a[ak] == b[0];
        assert(a[0].start <= a[ak].start);
        assert(b[0].start <= b[bi].start);
        assert(a[0].start == b[0].start);
        assert(ak == 0) by {
            if ak != 0 {
                assert(a[0].start != a[ak].start);
            }
        }
        assert(a[0] == b[0]);
        assert(a.drop_first().to_multiset() =~= a.to_multiset().remove(a[0])) by {
            assert(a.remove(0) =~= a.drop_first());
        }
        assert(b.drop_first().to_multiset() =~= b.to_multiset().remove(b[0])) by {
            assert(b.remove(0) =~= b.drop_first());
        }
        assert(sorted_by_start(a.drop_first()) && starts_distinct(a.drop_first())) by {
            assert(forall|i: int| 0 <= i < a.len() - 1 ==> #[trigger] a.drop_first()[i] == a[i + 1]);
        }
        assert(sorted_by_start(b.drop_first())) by {
            assert(forall|i: int| 0 <= i < b.len() - 1 ==> #[trigger] b.drop_first()[i] == b[i + 1]);
        }
        lemma_merge_order_unique(a.drop_first(), b.drop_first());
        assert(a =~= b) by {
            assert(forall|i: int|
                1 <= i < a.len() ==> #[trigger] a[i] == a.drop_first()[i - 1] && #[trigger] b[i]
                    == b.drop_first()[i - 1]);
        }
    }
}

} // verus!
