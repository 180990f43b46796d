//! Page ranges and the chunk planner: partitioning `[1, page_count]` into
//! contiguous, non-overlapping ranges of at most `chunk_size` pages each.

use vstd::prelude::*;

verus! {

/// One contiguous, inclusive range of pages, together with its position in
/// the planned sequence of ranges.
#[derive(Clone, Copy, Debug, PartialEq, Eq, Structural)]
pub struct PageRange {
    pub start: usize,
    pub end: usize,
    pub ordinal: usize,
}

impl PageRange {
    /// A range is well formed for a document of `page_count` pages when it
    /// lies inside `[1, page_count]` and is non-empty.
    pub open spec fn wf(self, page_count: int) -> bool {
        1 <= self.start <= self.end <= page_count
    }

    /// The number of pages the range covers.
    pub open spec fn spec_len(self) -> int {
        self.end - self.start + 1
    }
}

/// The planner's output for the suffix of the document that starts at page
/// `start`: a first range of at most `chunk_size` pages, then the plan for
/// what remains.
pub open spec fn plan_from(start: int, page_count: int, chunk_size: int, ordinal: int) -> Seq<
    PageRange,
>
    decreases page_count + 1 - start when chunk_size >= 1
{
    if start > page_count {
        Seq::empty()
    } else {
        let end = if start + chunk_size - 1 <= page_count {
            start + chunk_size - 1
        } else {
            page_count
        };
        seq![
            PageRange {
                start: #[verifier::truncate] (start as usize),
                end: #[verifier::truncate] (end as usize),
                ordinal: #[verifier::truncate] (ordinal as usize),
            },
        ] + plan_from(end + 1, page_count, chunk_size, ordinal + 1)
    }
}

/// The full plan for a document of `page_count` pages cut into chunks of at
/// most `chunk_size` pages: empty when the document has no pages.
pub open spec fn plan_spec(page_count: int, chunk_size: int) -> Seq<PageRange> {
    plan_from(1, page_count, chunk_size, 0)
}

/// The least number of chunks of `chunk_size` pages that cover `pages` pages.
pub open spec fn spec_ceil_div(pages: int, chunk_size: int) -> int {
    (pages + chunk_size - 1) / chunk_size
}

/// A sequence of ranges partitions `[1, page_count]`: it begins at page 1,
/// each range begins right after its predecessor ends, the last range ends at
/// `page_count`, and every range is well formed and carries its own index as
/// its ordinal.
pub open spec fn partitions(ranges: Seq<PageRange>, page_count: int) -> bool {
    &&& forall|i: int| 0 <= i < ranges.len() ==> (#[trigger] ranges[i]).wf(page_count)
    &&& forall|i: int| 0 <= i < ranges.len() ==> (#[trigger] ranges[i]).ordinal == i
    &&& (ranges.len() == 0 ==> page_count == 0)
    &&& (ranges.len() > 0 ==> ranges[0].start == 1 && ranges[ranges.len() - 1].end == page_count)
    &&& forall|i: int|
        0 <= i < ranges.len() - 1 ==> (#[trigger] ranges[i]).end + 1 == ranges[i + 1].start
}

/// `n` chunks of `chunk_size` pages suffice for `pages` pages, and `n - 1` do
/// not, exactly when `n` is the rounded-up quotient.
proof fn lemma_ceil_div_exact(pages: int, chunk_size: int, n: int)
    requires
        chunk_size >= 1,
        n >= 0,
        (n - 1) * chunk_size < pages <= n * chunk_size,
    ensures
        spec_ceil_div(pages, chunk_size) == n,
{
    let r = pages + chunk_size - 1 - n * chunk_size;
    assert((n - 1) * chunk_size == n * chunk_size - chunk_size) by {
        vstd::arithmetic::mul::lemma_mul_is_distributive_sub(chunk_size, n, 1);
        vstd::arithmetic::mul::lemma_mul_is_commutative(n - 1, chunk_size);
        vstd::arithmetic::mul::lemma_mul_is_commutative(n, chunk_size);
    }
    vstd::arithmetic::div_mod::lemma_fundamental_div_mod_converse_div(
        pages + chunk_size - 1,
        chunk_size,
        n,
        r,
    );
}

/// Conversely, the rounded-up quotient `n` of `pages` by `chunk_size` covers
/// `pages` pages with `n` chunks but not with `n - 1`, and never exceeds
/// `pages` itself.
proof fn lemma_ceil_div_bounds(pages: int, chunk_size: int)
    requires
        chunk_size >= 1,
        pages >= 0,
    ensures
        ({
            let n = spec_ceil_div(pages, chunk_size);
            &&& (n - 1) * chunk_size < pages <= n * chunk_size
            &&& 0 <= n <= pages
        }),
{
    let n = spec_ceil_div(pages, chunk_size);
    let x = pages + chunk_size - 1;
    vstd::arithmetic::div_mod::lemma_fundamental_div_mod(x, chunk_size);
    assert(x == chunk_size * (x / chunk_size) + x % chunk_size);
    vstd::arithmetic::div_mod::lemma_mod_division_less_than_divisor(x, chunk_size);
    assert(n * chunk_size == chunk_size * n) by {
        vstd::arithmetic::mul::lemma_mul_is_commutative(n, chunk_size);
    }
    assert((n - 1) * chunk_size == n * chunk_size - chunk_size) by {
        vstd::arithmetic::mul::lemma_mul_is_distributive_sub(chunk_size, n, 1);
        vstd::arithmetic::mul::lemma_mul_is_commutative(n - 1, chunk_size);
        vstd::arithmetic::mul::lemma_mul_is_commutative(n, chunk_size);
    }
    assert(n >= 0) by {
        vstd::arithmetic::div_mod::lemma_div_pos_is_pos(x, chunk_size);
    }
    if n >= 1 {
        assert((n - 1) * 1 <= (n - 1) * chunk_size) by {
            vstd::arithmetic::mul::lemma_mul_inequality(1, chunk_size, n - 1);
            vstd::arithmetic::mul::lemma_mul_is_commutative(n - 1, chunk_size);
        }
    }
}

/// Every range the planner emits for the document suffix `[start, page_count]`
/// is well formed, covers at most `chunk_size` pages (exactly `chunk_size`
/// except for the last), the ranges are contiguous from `start` to
/// `page_count`, ordinals count up from `ordinal`, and their number is the
/// least number of chunks of `chunk_size` pages that cover the suffix.
proof fn lemma_plan_from_partitions(start: int, page_count: int, chunk_size: int, ordinal: int)
    requires
        chunk_size >= 1,
        1 <= start <= page_count + 1,
        page_count <= usize::MAX,
        0 <= ordinal,
        ordinal + (page_count + 1 - start) <= usize::MAX,
    ensures
        ({
            let ranges = plan_from(start, page_count, chunk_size, ordinal);
            &&& forall|i: int| 0 <= i < ranges.len() ==> (#[trigger] ranges[i]).wf(page_count)
            &&& forall|i: int|
                0 <= i < ranges.len() ==> (#[trigger] ranges[i]).ordinal == ordinal + i
            &&& forall|i: int|
                0 <= i < ranges.len() ==> (#[trigger] ranges[i]).spec_len() <= chunk_size
            &&& forall|i: int|
                0 <= i < ranges.len() - 1 ==> (#[trigger] ranges[i]).spec_len() == chunk_size
            &&& forall|i: int|
                0 <= i < ranges.len() - 1 ==> (#[trigger] ranges[i]).end + 1 == ranges[i
                    + 1].start
            &&& (ranges.len() == 0 <==> start > page_count)
            &&& (ranges.len() > 0 ==> ranges[0].start == start && ranges[ranges.len() - 1].end
                == page_count)
            &&& ranges.len() == spec_ceil_div(page_count + 1 - start, chunk_size)
        }),
    decreases page_count + 1 - start,
{
    let ranges = plan_from(start, page_count, chunk_size, ordinal);
    if start > page_count {
        assert(spec_ceil_div(page_count + 1 - start, chunk_size) == 0) by {
            lemma_ceil_div_exact(page_count + 1 - start, chunk_size, 0);
        }
    } else {
        let end = if start + chunk_size - 1 <= page_count {
            start + chunk_size - 1
        } else {
            page_count
        };
        let rest = plan_from(end + 1, page_count, chunk_size, ordinal + 1);
        lemma_plan_from_partitions(end + 1, page_count, chunk_size, ordinal + 1);
        assert(ranges.len() == rest.len() + 1);
        assert(ranges.len() == spec_ceil_div(page_count + 1 - start, chunk_size)) by {
            let n = rest.len() as int;
            lemma_ceil_div_bounds(page_count - end, chunk_size);
            assert((n - 1) * chunk_size < page_count - end <= n * chunk_size);
            assert(n * chunk_size == (n + 1) * chunk_size - chunk_size) by {
                vstd::arithmetic::mul::lemma_mul_is_distributive_add(chunk_size, n, 1);
                vstd::arithmetic::mul::lemma_mul_is_commutative(n + 1, chunk_size);
                vstd::arithmetic::mul::lemma_mul_is_commutative(n, chunk_size);
            }
            assert((n + 1 - 1) * chunk_size == n * chunk_size);
            assert((n - 1) * chunk_size == n * chunk_size - chunk_size) by {
                vstd::arithmetic::mul::lemma_mul_is_distributive_sub(chunk_size, n, 1);
                vstd::arithmetic::mul::lemma_mul_is_commutative(n - 1, chunk_size);
                vstd::arithmetic::mul::lemma_mul_is_commutative(n, chunk_size);
            }
            assert(n * chunk_size < page_count + 1 - start <= (n + 1) * chunk_size);
            lemma_ceil_div_exact(page_count + 1 - start, chunk_size, n + 1);
        }
    }
}

/// The planner's output partitions `[1, page_count]` into exactly
/// `ceil(page_count / chunk_size)` ranges, every range covering at most
/// `chunk_size` pages and all but the last covering exactly `chunk_size`.
/// In particular a document with no pages yields the empty plan.
pub proof fn lemma_plan_properties(page_count: int, chunk_size: int)
    requires
        chunk_size >= 1,
        0 <= page_count <= usize::MAX,
    ensures
        ({
            let ranges = plan_spec(page_count, chunk_size);
            &&& partitions(ranges, page_count)
            &&& ranges.len() == spec_ceil_div(page_count, chunk_size)
            &&& forall|i: int|
                0 <= i < ranges.len() ==> (#[trigger] ranges[i]).spec_len() <= chunk_size
            &&& forall|i: int|
                0 <= i < ranges.len() - 1 ==> (#[trigger] ranges[i]).spec_len() == chunk_size
            &&& (page_count == 0 ==> ranges == Seq::<PageRange>::empty())
        }),
{
    lemma_plan_from_partitions(1, page_count, chunk_size, 0);
    if page_count == 0 {
        assert(plan_spec(page_count, chunk_size) =~= Seq::<PageRange>::empty());
    }
}

/// Sizing chunks by the available parallelism pays off: a plan cut into
/// chunks of `ceil(page_count / parallelism)` pages has at most `parallelism`
/// ranges, so one worker per range never oversubscribes the pool.
pub proof fn lemma_plan_matches_parallelism(page_count: int, parallelism: int)
    requires
        1 <= parallelism,
        1 <= page_count <= usize::MAX,
    ensures
        plan_spec(page_count, spec_ceil_div(page_count, parallelism)).len() <= parallelism,
{
    let chunk = spec_ceil_div(page_count, parallelism);
    lemma_ceil_div_bounds(page_count, parallelism);
    assert(page_count <= chunk * parallelism);
    assert(chunk >= 1) by {
        if chunk <= 0 {
            assert(chunk * parallelism <= 0) by {
                vstd::arithmetic::mul::lemma_mul_inequality(chunk, 0, parallelism);
            }
        }
    }
    lemma_plan_properties(page_count, chunk);
    let n = plan_spec(page_count, chunk).len() as int;
    lemma_ceil_div_bounds(page_count, chunk);
    assert((n - 1) * chunk < page_count);
    if n > parallelism {
        assert(parallelism * chunk <= (n - 1) * chunk) by {
            vstd::arithmetic::mul::lemma_mul_inequality(parallelism, n - 1, chunk);
        }
        assert(chunk * parallelism == parallelism * chunk) by {
            vstd::arithmetic::mul::lemma_mul_is_commutative(chunk, parallelism);
        }
        assert(false);
    }
}

/// The chunk size the pipeline hands the planner: the page count divided by
/// the available parallelism, rounded up, so that the number of planned
/// ranges is at most the number of workers.
pub fn chunk_size_for(page_count: usize, parallelism: usize) -> (r: usize)
    requires
        parallelism >= 1,
    ensures
        r == spec_ceil_div(page_count as int, parallelism as int),
        page_count >= 1 ==> r >= 1,
        page_count == 0 ==> r == 0,
{
    if page_count == 0 {
        proof {
            lemma_ceil_div_bounds(0, parallelism as int);
        }
        0
    } else {
        let q = (page_count - 1) / parallelism;
        proof {
            let pc = page_count as int;
            let par = parallelism as int;
            vstd::arithmetic::div_mod::lemma_fundamental_div_mod(pc - 1, par);
            vstd::arithmetic::div_mod::lemma_mod_division_less_than_divisor(pc - 1, par);
            vstd::arithmetic::div_mod::lemma_div_pos_is_pos(pc - 1, par);
            vstd::arithmetic::div_mod::lemma_div_nonincreasing(pc - 1, par);
            let r = (pc - 1) % par;
            assert(pc + par - 1 == (q as int + 1) * par + r) by {
                vstd::arithmetic::mul::lemma_mul_is_distributive_add_other_way(par, q as int, 1);
                vstd::arithmetic::mul::lemma_mul_is_commutative(q as int, par);
            }
            vstd::arithmetic::div_mod::lemma_fundamental_div_mod_converse_div(
                pc + par - 1,
                par,
                q as int + 1,
                r,
            );
        }
        1 + q
    }
}

/// The chunk planner: cuts `[1, page_count]` into contiguous ranges of
/// `chunk_size` pages each, the last range holding whatever remains. A
/// document with no pages yields no ranges.
pub fn plan_chunks(page_count: usize, chunk_size: usize) -> (ranges: Vec<PageRange>)
    requires
        chunk_size >= 1,
    ensures
        ranges@ == plan_spec(page_count as int, chunk_size as int),
        partitions(ranges@, page_count as int),
        ranges@.len() == spec_ceil_div(page_count as int, chunk_size as int),
        forall|i: int|
            0 <= i < ranges@.len() ==> (#[trigger] ranges@[i]).spec_len() <= chunk_size,
        forall|i: int|
            0 <= i < ranges@.len() - 1 ==> (#[trigger] ranges@[i]).spec_len() == chunk_size,
        page_count == 0 ==> ranges@ == Seq::<PageRange>::empty(),
{
    let ghost pc = page_count as int;
    let ghost cs = chunk_size as int;
    let mut ranges: Vec<PageRange> = Vec::new();
    let mut next: usize = 1;
    loop
        invariant_except_break
            plan_spec(pc, cs) == ranges@ + plan_from(next as int, pc, cs, ranges@.len() as int),
        invariant
            chunk_size >= 1,
            pc == page_count as int,
            cs == chunk_size as int,
            1 <= next as int <= pc + 1,
        ensures
            ranges@ == plan_spec(pc, cs),
        decreases pc + 1 - next as int,
    {
        if next > page_count {
            proof {
                assert(plan_from(next as int, pc, cs, ranges@.len() as int) =~= Seq::empty());
                assert(ranges@ + Seq::<PageRange>::empty() =~= ranges@);
            }
            break ;
        }
        let end = if chunk_size - 1 <= page_count - next {
            next + (chunk_size - 1)
        } else {
            page_count
        };
        let r = PageRange { start: next, end, ordinal: ranges.len() };
        proof {
            assert(plan_from(next as int, pc, cs, ranges@.len() as int) =~= seq![r] + plan_from(
                end as int + 1,
                pc,
                cs,
                ranges@.len() as int + 1,
            ));
            assert(ranges@ + (seq![r] + plan_from(end as int + 1, pc, cs, ranges@.len() as int + 1))
                =~= ranges@.push(r) + plan_from(end as int + 1, pc, cs, ranges@.push(r).len() as int));
        }
        ranges.push(r);
        if end == page_count {
            proof {
                assert(plan_from(end as int + 1, pc, cs, ranges@.len() as int) =~= Seq::empty());
                assert(ranges@ + Seq::<PageRange>::empty() =~= ranges@);
            }
            break ;
        }
        next = end + 1;
    }
    proof {
        lemma_plan_properties(pc, cs);
    }
    ranges
}

} // verus!

