//! What becomes of the bytes in a chain of the balloon's queues.

use vstd::prelude::*;

use crate::balloon::drain::{
    chain_worked, reported, settled, step_may, stepped, QueueKind, QueueRun,
};
use crate::balloon::inflate::{
    all_named, ascending, chain_read_may, gapless, inflate_ranges, inflated, joined,
    named_pages_are_released, one_range, only_given_pages_are_released, page_in_region,
    page_numbers, pieces_read, range_of_pages, readable_count, released, run_is_consecutive,
    run_len, sorted_unique, starts_mapped, PageRange,
};
use crate::guest::{addresses_in, in_one_region, mapped_at, range_mapped, Access};
use crate::queue::{all_mapped, Descriptor, Queue, QueueError};
use crate::ring_laws::{
    double_word, entries, for_writing, loads, next_element, one_more_used, return_fails,
    room_before, room_grows, stores_element, stores_word, trace_decides_about_the_chain,
    unusable_chain_is_refused, used_chain_is_published, used_ring_mapped, write_flag,
};

verus! {

/// The `i`th number of four bytes.
pub open spec fn spelled(bytes: Seq<u8>, i: int) -> int {
    double_word(bytes, 4 * i)
}

/// Each group of four bytes, however many there are, is one page number; nothing else is.
pub proof fn each_four_bytes_are_a_page_number(bytes: Seq<u8>)
    ensures
        page_numbers(bytes).len() == bytes.len() / 4,
        forall|i: int|
            0 <= i && 4 * i + 4 <= bytes.len() ==> #[trigger] page_numbers(bytes)[i] == spelled(
                bytes,
                i,
            ),
{
}

/// Some four bytes of `bytes` spell `page`.
pub open spec fn names_page(bytes: Seq<u8>, page: int) -> bool {
    exists|i: int| 0 <= i && 4 * i + 4 <= bytes.len() && #[trigger] spelled(bytes, i) == page
}

/// All pages from `from` to `to` are spelled.
pub open spec fn names_pages(bytes: Seq<u8>, from: int, to: int) -> bool {
    forall|page: int| from <= page <= to ==> #[trigger] names_page(bytes, page)
}

/// Which pages are spelled.
proof fn named_pages(bytes: Seq<u8>, page: int)
    ensures
        names_page(bytes, page) ==> 0 <= page <= u32::MAX,
        0 <= page <= u32::MAX ==> names_page(bytes, page) == page_numbers(bytes).contains(
            page as u32,
        ),
{
    each_four_bytes_are_a_page_number(bytes);
    if names_page(bytes, page) {
        let i = choose|i: int|
            0 <= i && 4 * i + 4 <= bytes.len() && #[trigger] spelled(bytes, i) == page;
        assert(page_numbers(bytes)[i] == spelled(bytes, i));
    }
    if 0 <= page <= u32::MAX && page_numbers(bytes).contains(page as u32) {
        let i = choose|i: int|
            0 <= i < page_numbers(bytes).len() && page_numbers(bytes)[i] == page as u32;
        assert(page_numbers(bytes)[i] == spelled(bytes, i));
    }
}

/// Which runs of pages are spelled.
proof fn named_runs(bytes: Seq<u8>, from: u32, to: u32)
    ensures
        names_pages(bytes, from as int, to as int) == all_named(page_numbers(bytes), from, to),
{
    if names_pages(bytes, from as int, to as int) {
        assert forall|page: u32| from <= page <= to implies #[trigger] page_numbers(bytes).contains(
            page,
        ) by {
            named_pages(bytes, page as int);
            assert(names_page(bytes, page as int));
        }
    }
    if all_named(page_numbers(bytes), from, to) {
        assert forall|page: int| from <= page <= to implies #[trigger] names_page(bytes, page) by {
            named_pages(bytes, page);
            assert(page_numbers(bytes).contains(page as u32));
        }
    }
}

/// `page`, which is 4096 bytes long, lies inside `range`.
pub open spec fn covers(range: PageRange, page: int) -> bool {
    range.guest_addr <= 4096 * page && 4096 * page + 4096 <= range.guest_addr + range.len
}

/// `page` lies inside one of `ranges`.
pub open spec fn covered(ranges: Seq<PageRange>, page: int) -> bool {
    exists|i: int| 0 <= i < ranges.len() && covers(#[trigger] ranges[i], page)
}

/// The pages from `from` to `to` can be released in one go: they lie in one region, and a host can
/// name their length.
pub open spec fn in_one_go(regions: Set<(u64, u64)>, from: int, to: int) -> bool {
    let len = 4096 * (to - from + 1);
    len <= usize::MAX && in_one_region(regions, 4096 * from, len)
}

/// The spelled pages that come without a gap before `page`, and `page` itself, start in mapped
/// memory.
pub open spec fn reachable(regions: Set<(u64, u64)>, bytes: Seq<u8>, page: int) -> bool {
    forall|from: int|
        0 <= from <= page && #[trigger] names_pages(bytes, from, page) ==> mapped_at(
            addresses_in(regions),
            4096 * from,
        )
}

/// Whole pages that `bytes` spell and that lie in one region.
pub open spec fn made_of_pages(
    regions: Set<(u64, u64)>,
    bytes: Seq<u8>,
    range: PageRange,
) -> bool {
    &&& range.len > 0
    &&& range.guest_addr % 4096 == 0
    &&& range.len % 4096 == 0
    &&& in_one_region(regions, range.guest_addr as int, range.len as int)
    &&& forall|page: int| #[trigger] covers(range, page) ==> names_page(bytes, page)
}

/// The range has one page, or no page is spelled that could still be joined to its end.
pub open spec fn reaches_as_far_as_it_can(bytes: Seq<u8>, range: PageRange) -> bool {
    range.len == 4096 || !names_page(bytes, (range.guest_addr + range.len) / 4096)
}

/// From `from` to `to`, where the run of spelled pages ends, the pages can be released in one go,
/// and not from the page before that on.
pub open spec fn longest_tail(regions: Set<(u64, u64)>, bytes: Seq<u8>, from: int, to: int) -> bool {
    &&& 0 <= from <= to
    &&& names_pages(bytes, from, to)
    &&& !names_page(bytes, to + 1)
    &&& in_one_go(regions, from, to)
    &&& !names_page(bytes, from - 1) || !in_one_go(regions, from - 1, to)
    &&& reachable(regions, bytes, from)
}

/// `ranges` are what is to be released for the pages that `bytes` spell: ascending ranges of
/// spelled pages, in which each page is that lies in one region and can be reached. Where the end
/// of a run can be released in one go it is one range; otherwise a range is a single page.
pub open spec fn releases(
    regions: Set<(u64, u64)>,
    bytes: Seq<u8>,
    ranges: Seq<PageRange>,
) -> bool {
    &&& forall|i: int, j: int|
        0 <= i < j < ranges.len() ==> (#[trigger] ranges[i]).guest_addr + ranges[i].len <= (
        #[trigger] ranges[j]).guest_addr
    &&& forall|i: int|
        0 <= i < ranges.len() ==> made_of_pages(regions, bytes, #[trigger] ranges[i])
            && reaches_as_far_as_it_can(bytes, ranges[i])
    &&& forall|page: int| #[trigger]
        names_page(bytes, page) ==> (covered(ranges, page) <==> in_one_region(
            regions,
            4096 * page,
            4096,
        ) && reachable(regions, bytes, page))
    &&& forall|from: int, to: int| #[trigger]
        longest_tail(regions, bytes, from, to) ==> ranges.contains(
            PageRange { guest_addr: (4096 * from) as u64, len: (4096 * (to - from + 1)) as u64 },
        )
}

/// A range of more than one page ends where its run of pages ends.
proof fn long_range_ends_a_run(regions: Set<(u64, u64)>, pfns: Seq<u32>, i: int)
    requires
        ascending(pfns),
        0 <= i < inflate_ranges(regions, pfns).len(),
    ensures
        ({
            let range = inflate_ranges(regions, pfns)[i];
            let behind = (range.guest_addr + range.len) / 4096;
            range.len == 4096 || forall|m: int| 0 <= m < pfns.len() ==> #[trigger] pfns[m] != behind
        }),
    decreases pfns.len(),
{
    run_is_consecutive(pfns);
    only_given_pages_are_released(regions, pfns);
    let run = run_len(pfns) as int;
    let all = inflate_ranges(regions, pfns);
    let start = 4096 * pfns[0];
    let whole = mapped_at(addresses_in(regions), start) && one_range(regions, start, 4096 * run);
    let skips = !mapped_at(addresses_in(regions), start);
    let taken: int = if whole || skips {
        run
    } else {
        1
    };
    let rest = pfns.skip(taken);
    let sub = inflate_ranges(regions, rest);
    let first: int = all.len() - sub.len();
    assert(pfns[run - 1] == pfns[0] + (run - 1));
    assert(forall|a: int, b: int| 0 <= a < b < rest.len() ==> rest[a] < rest[b]) by {
        assert forall|a: int, b: int| 0 <= a < b < rest.len() implies rest[a] < rest[b] by {
            assert(pfns[a + taken] < pfns[b + taken]);
        }
    }
    assert(first == 0 || first == 1);
    if i < first {
        if all[i].len != 4096 {
            assert(whole);
            assert forall|m: int| 0 <= m < pfns.len() implies #[trigger] pfns[m] != pfns[0]
                + run by {
                if m < run {
                    assert(pfns[m] == pfns[0] + m);
                } else {
                    assert(pfns[run - 1] < pfns[run]);
                    if m > run {
                        assert(pfns[run] < pfns[m]);
                    }
                }
            }
        }
    } else {
        assert(all[i] == sub[i - first]);
        long_range_ends_a_run(regions, rest, i - first);
        only_given_pages_are_released(regions, rest);
        let range = all[i];
        if range.len != 4096 {
            assert(range_of_pages(regions, sub[i - first], rest));
            let behind = (range.guest_addr + range.len) / 4096;
            assert forall|m: int| 0 <= m < pfns.len() implies #[trigger] pfns[m] != behind by {
                if m < taken {
                    assert(rest.len() > 0);
                    assert(rest[0] == pfns[taken]);
                    assert(pfns[m] < pfns[taken]);
                } else {
                    assert(rest[m - taken] == pfns[m]);
                }
            }
        }
    }
}

/// The longest end of a run that can be released in one go is one range.
proof fn tail_is_one_range(regions: Set<(u64, u64)>, pfns: Seq<u32>, i: int)
    requires
        ascending(pfns),
        0 <= i < pfns.len(),
        one_range(regions, 4096 * pfns[i], 4096 * (run_len(pfns.skip(i)) as int)),
        i == 0 || pfns[i - 1] + 1 != pfns[i] || !one_range(
            regions,
            4096 * pfns[i - 1],
            4096 * (run_len(pfns.skip(i)) as int) + 4096,
        ),
        forall|j: int|
            0 <= j <= i && gapless(pfns, j, i) ==> #[trigger] starts_mapped(regions, pfns, j),
    ensures
        inflate_ranges(regions, pfns).contains(
            PageRange {
                guest_addr: (4096 * pfns[i]) as u64,
                len: (4096 * run_len(pfns.skip(i))) as u64,
            },
        ),
    decreases pfns.len(),
{
    run_is_consecutive(pfns);
    let run = run_len(pfns) as int;
    let all = inflate_ranges(regions, pfns);
    let start = 4096 * pfns[0];
    let mapped = mapped_at(addresses_in(regions), start);
    let whole = mapped && one_range(regions, start, 4096 * run);
    let taken: int = if whole || !mapped {
        run
    } else {
        1
    };
    let rest = pfns.skip(taken);
    let sub = inflate_ranges(regions, rest);
    let first: int = all.len() - sub.len();
    let tail = run_len(pfns.skip(i)) as int;
    let range = PageRange { guest_addr: (4096 * pfns[i]) as u64, len: (4096 * tail) as u64 };
    if i == 0 {
        assert(pfns.skip(0) =~= pfns);
        assert(gapless(pfns, 0, 0));
        assert(starts_mapped(regions, pfns, 0));
        assert(all[0] == range);
    } else {
        if i < run {
            assert(pfns[i] == pfns[0] + i);
            assert(pfns[i - 1] == pfns[0] + (i - 1));
            assert(gapless(pfns, 0, i));
            assert(starts_mapped(regions, pfns, 0));
            runs_end_together(pfns, i);
            if whole {
                let region = choose|region: (u64, u64)| #[trigger]
                    regions.contains(region) && region.0 <= start && start + 4096 * run <= region.0
                        + region.1;
                assert(one_range(regions, 4096 * pfns[i - 1], 4096 * tail + 4096)) by {
                    assert(regions.contains(region));
                }
            }
            assert(taken == 1);
        }
        assert(rest.skip(i - taken) =~= pfns.skip(i));
        assert(rest[i - taken] == pfns[i]);
        if i - taken > 0 {
            assert(rest[i - taken - 1] == pfns[i - 1]);
        }
        assert(forall|a: int, b: int| 0 <= a < b < rest.len() ==> rest[a] < rest[b]) by {
            assert forall|a: int, b: int| 0 <= a < b < rest.len() implies rest[a] < rest[b] by {
                assert(pfns[a + taken] < pfns[b + taken]);
            }
        }
        assert forall|j: int|
            0 <= j <= i - taken && gapless(rest, j, i - taken) implies #[trigger] starts_mapped(
            regions,
            rest,
            j,
        ) by {
            assert(rest[j] == pfns[j + taken]);
            assert(gapless(pfns, j + taken, i));
            assert(starts_mapped(regions, pfns, j + taken));
        }
        tail_is_one_range(regions, rest, i - taken);
        let m = choose|m: int| 0 <= m < sub.len() && sub[m] == range;
        assert(all[m + first] == range);
    }
}

/// A run and what is left of it from the index `i` on end with the same page.
proof fn runs_end_together(pfns: Seq<u32>, i: int)
    requires
        0 <= i < run_len(pfns),
        run_len(pfns) <= pfns.len(),
    ensures
        run_len(pfns.skip(i)) == run_len(pfns) - i,
    decreases i,
{
    if i > 0 {
        run_is_consecutive(pfns.skip(1));
        runs_end_together(pfns.skip(1), i - 1);
        assert(pfns.skip(1).skip(i - 1) =~= pfns.skip(i));
    } else {
        assert(pfns.skip(0) =~= pfns);
    }
}

/// Pages behind a gap are a matter of their own, in whatever order the pages come: what is released
/// for all is what is released for those up to the gap and then what is released for the others.
pub proof fn pages_behind_a_gap_are_separate(regions: Set<(u64, u64)>, a: Seq<u32>, b: Seq<u32>)
    requires
        a.len() > 0 && b.len() > 0 ==> a.last() + 1 != b[0],
    ensures
        inflate_ranges(regions, a + b) == inflate_ranges(regions, a) + inflate_ranges(regions, b),
    decreases a.len(),
{
    let all = a + b;
    if a.len() == 0 {
        assert(all =~= b);
        assert(inflate_ranges(regions, a) + inflate_ranges(regions, b) =~= inflate_ranges(
            regions,
            b,
        ));
    } else if b.len() == 0 {
        assert(all =~= a);
        assert(inflate_ranges(regions, a) + inflate_ranges(regions, b) =~= inflate_ranges(
            regions,
            a,
        ));
    } else {
        run_ends_at_the_gap(a, b);
        run_is_consecutive(a);
        let run = run_len(a) as int;
        let start = 4096 * a[0];
        let mapped = mapped_at(addresses_in(regions), start);
        let taken: int = if !mapped || one_range(regions, start, 4096 * run) {
            run
        } else {
            1
        };
        let rest = a.skip(taken);
        assert(all[0] == a[0]);
        assert(all.skip(taken) =~= rest + b);
        if rest.len() > 0 {
            assert(rest.last() == a.last());
        }
        pages_behind_a_gap_are_separate(regions, rest, b);
        assert(inflate_ranges(regions, all) =~= inflate_ranges(regions, a) + inflate_ranges(
            regions,
            b,
        ));
    }
}

/// A run does not go over a gap.
proof fn run_ends_at_the_gap(a: Seq<u32>, b: Seq<u32>)
    requires
        a.len() > 0,
        b.len() > 0,
        a.last() + 1 != b[0],
    ensures
        run_len(a + b) == run_len(a),
    decreases a.len(),
{
    let all = a + b;
    if a.len() > 1 {
        assert(all[1] == a[1]);
        assert(all.skip(1) =~= a.skip(1) + b);
        assert(a.skip(1).last() == a.last());
        run_ends_at_the_gap(a.skip(1), b);
    } else {
        assert(all[1] == b[0]);
    }
}

/// A run that is spelled from its first to its last page is a run of the sorted pages.
proof fn spelled_run_is_a_run(pfns: Seq<u32>, i: int, to: u32)
    requires
        ascending(pfns),
        0 <= i < pfns.len(),
        pfns[i] <= to,
        forall|page: u32| pfns[i] <= page <= to ==> #[trigger] pfns.contains(page),
        to == u32::MAX || !pfns.contains((to + 1) as u32),
    ensures
        run_len(pfns.skip(i)) == to - pfns[i] + 1,
    decreases pfns.len() - i,
{
    let s = pfns.skip(i);
    run_is_consecutive(s);
    if pfns[i] == to {
        if s.len() > 1 && s[1] == s[0] + 1 {
            assert(pfns.contains(pfns[i + 1]));
            assert(pfns[i + 1] == (to + 1) as u32);
            assert(false);
        }
    } else {
        let next = (pfns[i] + 1) as u32;
        assert(pfns.contains(next));
        let m = choose|m: int| 0 <= m < pfns.len() && pfns[m] == next;
        if m < i {
            assert(pfns[m] < pfns[i]);
        }
        if m > i + 1 {
            assert(pfns[i] < pfns[i + 1]);
            assert(pfns[i + 1] < pfns[m]);
        }
        assert(m == i + 1);
        spelled_run_is_a_run(pfns, i + 1, to);
        assert(s.skip(1) =~= pfns.skip(i + 1));
        assert(s[1] == s[0] + 1);
    }
}

/// What is released for the pages that a chain names is said by its bytes.
pub proof fn released_memory_is_said_by_the_bytes(
    regions: Set<(u64, u64)>,
    bytes: Seq<u8>,
    ranges: Seq<PageRange>,
)
    requires
        inflated(regions, bytes, ranges),
    ensures
        releases(regions, bytes, ranges),
{
    let named = page_numbers(bytes);
    let pfns = choose|pfns: Seq<u32>| #[trigger]
        sorted_unique(named, pfns) && ranges == inflate_ranges(regions, pfns);
    named_pages_are_released(regions, bytes, ranges);
    only_given_pages_are_released(regions, pfns);
    assert forall|i: int| 0 <= i < ranges.len() implies made_of_pages(
        regions,
        bytes,
        #[trigger] ranges[i],
    ) && reaches_as_far_as_it_can(bytes, ranges[i]) by {
        let range = ranges[i];
        assert(range_of_pages(regions, range, named));
        assert forall|page: int| #[trigger] covers(range, page) implies names_page(bytes, page) by {
            assert(crate::balloon::inflate::holds(range, page));
            named_pages(bytes, page);
        }
        long_range_ends_a_run(regions, pfns, i);
        let behind = (range.guest_addr + range.len) / 4096;
        if range.len != 4096 && names_page(bytes, behind) {
            named_pages(bytes, behind);
            assert(pfns.contains(behind as u32));
            let m = choose|m: int| 0 <= m < pfns.len() && pfns[m] == behind as u32;
            assert(pfns[m] == behind);
        }
    }
    assert forall|page: int| #[trigger] names_page(bytes, page) implies (covered(ranges, page)
        <==> in_one_region(regions, 4096 * page, 4096) && reachable(regions, bytes, page)) by {
        page_is_covered_iff_reachable(regions, bytes, ranges, page);
    }
    assert forall|from: int, to: int| #[trigger]
        longest_tail(regions, bytes, from, to) implies ranges.contains(
        PageRange { guest_addr: (4096 * from) as u64, len: (4096 * (to - from + 1)) as u64 },
    ) by {
        tail_is_released(regions, bytes, pfns, from, to);
    }
}

/// One page of `released_memory_is_said_by_the_bytes`.
proof fn page_is_covered_iff_reachable(
    regions: Set<(u64, u64)>,
    bytes: Seq<u8>,
    ranges: Seq<PageRange>,
    page: int,
)
    requires
        inflated(regions, bytes, ranges),
        names_page(bytes, page),
    ensures
        covered(ranges, page) <==> in_one_region(regions, 4096 * page, 4096) && reachable(
            regions,
            bytes,
            page,
        ),
{
    let named = page_numbers(bytes);
    named_pages_are_released(regions, bytes, ranges);
    named_pages(bytes, page);
    let number = page as u32;
    assert(named.contains(number));
    assert(covered(ranges, page) == released(ranges, page)) by {
        if covered(ranges, page) {
            let i = choose|i: int| 0 <= i < ranges.len() && covers(#[trigger] ranges[i], page);
            assert(crate::balloon::inflate::holds(ranges[i], page));
        }
        if released(ranges, page) {
            let i = choose|i: int|
                0 <= i < ranges.len() && crate::balloon::inflate::holds(#[trigger] ranges[i], page);
            assert(covers(ranges[i], page));
        }
    }
    let starts = forall|from: u32|
        from <= number && #[trigger] all_named(named, from, number) ==> mapped_at(
            addresses_in(regions),
            from * 4096,
        );
    assert(starts == reachable(regions, bytes, page)) by {
        if starts {
            assert forall|from: int|
                0 <= from <= page && #[trigger] names_pages(bytes, from, page) implies mapped_at(
                addresses_in(regions),
                4096 * from,
            ) by {
                named_runs(bytes, from as u32, number);
                assert(all_named(named, from as u32, number));
            }
        }
        if reachable(regions, bytes, page) {
            assert forall|from: u32|
                from <= number && #[trigger] all_named(named, from, number) implies mapped_at(
                addresses_in(regions),
                from * 4096,
            ) by {
                named_runs(bytes, from, number);
                assert(names_pages(bytes, from as int, page));
            }
        }
    }
    assert(page_in_region(regions, page) == in_one_region(regions, 4096 * page, 4096));
}

/// One run of `released_memory_is_said_by_the_bytes`.
proof fn tail_is_released(
    regions: Set<(u64, u64)>,
    bytes: Seq<u8>,
    pfns: Seq<u32>,
    from: int,
    to: int,
)
    requires
        sorted_unique(page_numbers(bytes), pfns),
        longest_tail(regions, bytes, from, to),
    ensures
        inflate_ranges(regions, pfns).contains(
            PageRange { guest_addr: (4096 * from) as u64, len: (4096 * (to - from + 1)) as u64 },
        ),
{
    assert(names_page(bytes, from));
    assert(names_page(bytes, to));
    named_pages(bytes, from);
    named_pages(bytes, to);
    named_pages(bytes, to + 1);
    named_pages(bytes, from - 1);
    assert(pfns.contains(from as u32));
    let i = choose|i: int| 0 <= i < pfns.len() && pfns[i] == from as u32;
    assert forall|page: u32| pfns[i] <= page <= to implies #[trigger] pfns.contains(page) by {
        named_pages(bytes, page as int);
        assert(names_page(bytes, page as int));
        assert(page_numbers(bytes).contains(page));
    }
    spelled_run_is_a_run(pfns, i, to as u32);
    let tail = to - from + 1;
    assert(run_len(pfns.skip(i)) == tail);
    if i > 0 && pfns[i - 1] + 1 == pfns[i] {
        assert(pfns.contains(pfns[i - 1]));
        assert(page_numbers(bytes).contains(pfns[i - 1]));
        assert(pfns[i - 1] == from - 1);
    }
    assert forall|j: int| 0 <= j <= i && gapless(pfns, j, i) implies #[trigger] starts_mapped(
        regions,
        pfns,
        j,
    ) by {
        assert forall|page: int| pfns[j] <= page <= from implies #[trigger] names_page(
            bytes,
            page,
        ) by {
            let k = j + (page - pfns[j]);
            steady(pfns, j, i, k);
            assert(pfns.contains(pfns[k]));
            assert(page_numbers(bytes).contains(pfns[k]));
            named_pages(bytes, page);
        }
        assert(names_pages(bytes, pfns[j] as int, from));
    }
    tail_is_one_range(regions, pfns, i);
}

/// Between two indices of an ascending sequence without a gap every index has its number.
proof fn steady(pfns: Seq<u32>, j: int, i: int, k: int)
    requires
        ascending(pfns),
        0 <= j <= k <= i < pfns.len(),
        gapless(pfns, j, i),
    ensures
        pfns[k] == pfns[j] + (k - j),
{
    spread(pfns, j, k);
    spread(pfns, k, i);
}

/// Between two indices of an ascending sequence lie at least as many numbers.
proof fn spread(pfns: Seq<u32>, j: int, k: int)
    requires
        ascending(pfns),
        0 <= j <= k < pfns.len(),
    ensures
        pfns[j] + (k - j) <= pfns[k],
    decreases k - j,
{
    if j < k {
        spread(pfns, j, k - 1);
        assert(pfns[k - 1] < pfns[k]);
    }
}

/// The chain starts with exactly `n` buffers that the device does not write.
pub open spec fn leads(ds: Seq<Descriptor>, n: int) -> bool {
    &&& 0 <= n <= ds.len()
    &&& forall|i: int| 0 <= i < n ==> !#[trigger] for_writing(ds, i)
    &&& n == ds.len() || for_writing(ds, n)
}

/// The first `n` buffers of the chain are mapped.
pub open spec fn first_mapped(space: Set<u64>, ds: Seq<Descriptor>, n: int) -> bool {
    forall|i: int|
        0 <= i < n ==> range_mapped(space, (#[trigger] ds[i]).addr as int, ds[i].len as nat)
}

/// `trace` goes on after its first `at` accesses by loading the first `n` buffers of the chain, one
/// behind the other and each as a whole.
pub open spec fn loads_buffers(trace: Seq<Access>, at: int, ds: Seq<Descriptor>, n: int) -> bool {
    &&& trace.len() == at + n
    &&& forall|i: int|
        0 <= i < n ==> loads(#[trigger] trace[at + i], ds[i].addr as int, ds[i].len as int)
}

/// `bytes` are what the first `n` buffers held, one behind the other.
pub open spec fn buffers_held(
    trace: Seq<Access>,
    at: int,
    ds: Seq<Descriptor>,
    n: int,
    bytes: Seq<u8>,
) -> bool {
    &&& bytes.len() == room_before(ds, n)
    &&& forall|i: int, k: int|
        0 <= i < n && 0 <= k < ds[i].len ==> #[trigger] bytes[room_before(ds, i) + k]
            == #[trigger] trace[at + i].2[k]
}

/// How many buffers come before the first one that the device writes.
proof fn readable_count_leads(ds: Seq<Descriptor>)
    ensures
        leads(ds, readable_count(ds) as int),
    decreases ds.len(),
{
    if ds.len() > 0 {
        write_flag(ds[0].flags);
        if !ds[0].is_write_only() {
            let rest = ds.skip(1);
            readable_count_leads(rest);
            let n = readable_count(ds) as int;
            assert forall|i: int| 0 <= i < n implies !#[trigger] for_writing(ds, i) by {
                if i > 0 {
                    assert(!for_writing(rest, i - 1));
                }
            }
            if n < ds.len() {
                assert(for_writing(rest, n - 1));
            }
        }
    }
}

/// Where the pieces of joined bytes lie.
proof fn pieces_in_order(ds: Seq<Descriptor>, datas: Seq<Seq<u8>>)
    requires
        datas.len() <= ds.len(),
        forall|i: int| 0 <= i < datas.len() ==> (#[trigger] datas[i]).len() == ds[i].len,
    ensures
        joined(datas).len() == room_before(ds, datas.len() as int),
        forall|i: int, k: int|
            0 <= i < datas.len() && 0 <= k < ds[i].len ==> #[trigger] joined(datas)[room_before(
                ds,
                i,
            ) + k] == #[trigger] datas[i][k],
    decreases datas.len(),
{
    if datas.len() > 0 {
        let first = datas.drop_last();
        let n = first.len() as int;
        assert forall|i: int| 0 <= i < first.len() implies (#[trigger] first[i]).len()
            == ds[i].len by {
            assert(first[i] == datas[i]);
        }
        pieces_in_order(ds, first);
        assert(datas[n].len() == ds[n].len);
        assert forall|i: int, k: int|
            0 <= i < datas.len() && 0 <= k < ds[i].len implies #[trigger] joined(datas)[room_before(
            ds,
            i,
        ) + k] == #[trigger] datas[i][k] by {
            if i < n {
                room_grows(ds, 0, i);
                room_grows(ds, i + 1, n);
                assert(room_before(ds, i + 1) == room_before(ds, i) + ds[i].len);
                assert(first[i][k] == datas[i][k]);
                assert(joined(first)[room_before(ds, i) + k] == first[i][k]);
            }
        }
    }
}

/// Reading a chain takes every buffer in front of the first one that the device writes, however
/// many there are and however long: each is loaded as a whole and in order, and their bytes are
/// what is read. If one of them is not mapped, nothing is.
pub proof fn chain_is_read_as_a_whole(
    space: Set<u64>,
    before: Seq<Access>,
    ds: Seq<Descriptor>,
    after: Seq<Access>,
    bytes: Option<Seq<u8>>,
    n: int,
)
    requires
        chain_read_may(space, before, ds, after, bytes),
        leads(ds, n),
    ensures
        first_mapped(space, ds, n) ==> {
            &&& bytes is Some
            &&& after.take(before.len() as int) == before
            &&& loads_buffers(after, before.len() as int, ds, n)
            &&& buffers_held(after, before.len() as int, ds, n, bytes.unwrap())
        },
        !first_mapped(space, ds, n) ==> bytes is None && after == before,
{
    let count = readable_count(ds) as int;
    readable_count_leads(ds);
    assert(count == n) by {
        if count < n {
            assert(!for_writing(ds, count));
        } else if n < count {
            assert(!for_writing(ds, n));
        }
    }
    let front = ds.take(count);
    assert(all_mapped(space, front) == first_mapped(space, ds, n)) by {
        if all_mapped(space, front) {
            assert forall|i: int| 0 <= i < n implies range_mapped(
                space,
                (#[trigger] ds[i]).addr as int,
                ds[i].len as nat,
            ) by {
                assert(front[i] == ds[i]);
            }
        }
    }
    if all_mapped(space, front) {
        let datas = choose|datas: Seq<Seq<u8>>|
            {
                &&& datas.len() == count
                &&& forall|i: int| 0 <= i < count ==> (#[trigger] datas[i]).len() == ds[i].len
                &&& (after, bytes.unwrap()) == #[trigger] pieces_read(before, ds, datas)
            };
        pieces_in_order(ds, datas);
        let at = before.len() as int;
        assert(after.take(at) =~= before);
        assert forall|i: int| 0 <= i < n implies loads(
            #[trigger] after[at + i],
            ds[i].addr as int,
            ds[i].len as int,
        ) && after[at + i].2 == datas[i] by {}
        assert forall|i: int, k: int|
            0 <= i < n && 0 <= k < ds[i].len implies #[trigger] bytes.unwrap()[room_before(ds, i)
            + k] == #[trigger] after[at + i].2[k] by {
            assert(after[at + i].2 == datas[i]);
            assert(joined(datas)[room_before(ds, i) + k] == datas[i][k]);
        }
    }
}

/// What is said of a single reported buffer: it is released if it starts in mapped memory.
pub proof fn reported_buffer_is_released(space: Set<u64>, d: Descriptor)
    ensures
        reported(space, seq![d]) == if space.contains(d.addr) {
            seq![PageRange { guest_addr: d.addr, len: d.len as u64 }]
        } else {
            Seq::empty()
        },
{
    let ds = seq![d];
    assert(ds.drop_last() =~= Seq::empty());
    assert(reported(space, Seq::empty()) =~= Seq::empty());
    assert(reported(space, ds) =~= if space.contains(d.addr) {
        seq![PageRange { guest_addr: d.addr, len: d.len as u64 }]
    } else {
        Seq::empty()
    });
}

/// The buffers of a report are looked at one by one and in order: what is released for a chain is
/// what is released for its first part and then what is released for the rest.
pub proof fn report_is_released_in_order(space: Set<u64>, a: Seq<Descriptor>, b: Seq<Descriptor>)
    ensures
        reported(space, a + b) == reported(space, a) + reported(space, b),
    decreases b.len(),
{
    if b.len() == 0 {
        assert(a + b =~= a);
        assert(reported(space, a) + reported(space, b) =~= reported(space, a));
    } else {
        assert((a + b).drop_last() =~= a + b.drop_last());
        report_is_released_in_order(space, a, b.drop_last());
        assert(reported(space, a + b) =~= reported(space, a) + reported(space, b));
    }
}

/// What is done for a chain of the queue `kind`. For the inflate queue, its leading buffers are
/// loaded, and the pages that they name are released. If one of them is not mapped nothing is done,
/// and the chain does not count.
pub open spec fn dealt_with(
    kind: QueueKind,
    regions: Set<(u64, u64)>,
    taken: Seq<Access>,
    ds: Seq<Descriptor>,
    after: Seq<Access>,
    counts: bool,
    ranges: Seq<PageRange>,
) -> bool {
    match kind {
        QueueKind::Inflate => forall|n: int| #[trigger]
            leads(ds, n) ==> if first_mapped(addresses_in(regions), ds, n) {
                &&& counts
                &&& after.take(taken.len() as int) == taken
                &&& loads_buffers(after, taken.len() as int, ds, n)
                &&& exists|bytes: Seq<u8>| #[trigger]
                    buffers_held(after, taken.len() as int, ds, n, bytes) && releases(
                        regions,
                        bytes,
                        ranges,
                    )
            } else {
                !counts && after == taken && ranges.len() == 0
            },
        QueueKind::Report => {
            &&& counts
            &&& after == taken
            &&& ranges == reported(addresses_in(regions), ds)
        },
        QueueKind::Deflate => counts && after == taken && ranges.len() == 0,
    }
}

/// The chains of each queue are dealt with as they should be.
pub proof fn chain_is_dealt_with(
    kind: QueueKind,
    regions: Set<(u64, u64)>,
    taken: Seq<Access>,
    ds: Seq<Descriptor>,
    after: Seq<Access>,
    counts: bool,
    ranges: Seq<PageRange>,
)
    requires
        chain_worked(kind, regions, taken, ds, after, counts, ranges),
    ensures
        dealt_with(kind, regions, taken, ds, after, counts, ranges),
{
    if kind is Inflate {
        let space = addresses_in(regions);
        let bytes = choose|bytes: Option<Seq<u8>>|
            {
                &&& #[trigger] chain_read_may(space, taken, ds, after, bytes)
                &&& counts == bytes is Some
                &&& match bytes {
                    Some(bytes) => inflated(regions, bytes, ranges),
                    None => ranges.len() == 0,
                }
            };
        if let Some(bytes) = bytes {
            released_memory_is_said_by_the_bytes(regions, bytes, ranges);
        }
        assert forall|n: int| #[trigger] leads(ds, n) implies if first_mapped(space, ds, n) {
            &&& counts
            &&& after.take(taken.len() as int) == taken
            &&& loads_buffers(after, taken.len() as int, ds, n)
            &&& exists|bytes: Seq<u8>| #[trigger]
                buffers_held(after, taken.len() as int, ds, n, bytes) && releases(
                    regions,
                    bytes,
                    ranges,
                )
        } else {
            !counts && after == taken && ranges.len() == 0
        } by {
            chain_is_read_as_a_whole(space, taken, ds, after, bytes, n);
        }
    }
}

/// The chain that the last step took, if there is one, is given back with length zero: `q1` and
/// `t1` are the queue and the accesses after that.
pub open spec fn gives_back(
    space: Set<u64>,
    run: QueueRun,
    q: Queue,
    t: Seq<Access>,
    q1: Queue,
    t1: Seq<Access>,
) -> bool {
    match run.pending {
        Some(chain) => if chain.head < entries(q) && used_ring_mapped(q, space) {
            let n = t.len() as int;
            &&& q1 == one_more_used(q)
            &&& t1.len() == n + 2
            &&& t1.take(n) == t
            &&& stores_element(t1[n], next_element(q), chain.head as int, 0)
            &&& stores_word(t1[n + 1], q.used_ring + 2, (q.next_used + 1) % 65536)
        } else {
            exists|e: QueueError| #[trigger] return_fails(q, space, chain.head, q1, e)
        },
        None => q1 == q && t1 == t,
    }
}

/// The guest is to be notified at the end if that was so before, or if the chain that is given back
/// now counts.
pub open spec fn notifies(run: QueueRun) -> bool {
    run.have_used || match run.pending {
        Some(chain) => chain.counts,
        None => false,
    }
}

/// A step that took `chain` from the queue `q1` with the accesses `taken`, ended in `end`.
pub open spec fn takes_next(
    kind: QueueKind,
    regions: Set<(u64, u64)>,
    have_used: bool,
    q1: Queue,
    taken: Seq<Access>,
    chain: Option<(u16, Seq<Descriptor>)>,
    end: (QueueRun, Queue, Seq<Access>),
    ranges: Option<Seq<PageRange>>,
) -> bool {
    &&& end.0.have_used == have_used
    &&& match chain {
        Some((head, ds)) => {
            &&& ranges is Some
            &&& end.0.pending is Some
            &&& end.0.pending.unwrap().head == head
            &&& end.1 == Queue { next_avail: ((q1.next_avail + 1) % 65536) as u16, ..q1 }
            &&& dealt_with(
                kind,
                regions,
                taken,
                ds,
                end.2,
                end.0.pending.unwrap().counts,
                ranges.unwrap(),
            )
        },
        None => ranges is None && end.0.pending is None && end.1 == q1 && end.2 == taken,
    }
}

/// A step gives the last chain back, takes the next one and deals with it. When there is none, it
/// releases nothing and leaves nothing pending.
pub proof fn step_goes_from_chain_to_chain(
    kind: QueueKind,
    regions: Set<(u64, u64)>,
    start: (QueueRun, Queue, Seq<Access>),
    end: (QueueRun, Queue, Seq<Access>),
    ranges: Option<Seq<PageRange>>,
) -> (r: (Queue, Seq<Access>, Seq<Access>, Option<(u16, Seq<Descriptor>)>))
    requires
        step_may(kind, regions, start, end, ranges),
    ensures
        gives_back(addresses_in(regions), start.0, start.1, start.2, r.0, r.1),
        r.0.pop_may(addresses_in(regions), r.1, r.2, r.3),
        takes_next(kind, regions, notifies(start.0), r.0, r.2, r.3, end, ranges),
{
    let space = addresses_in(regions);
    let (taken, chain) = choose|taken: Seq<Access>, chain: Option<(u16, Seq<Descriptor>)>|
        stepped(kind, regions, start, end, ranges, taken, chain);
    let (run, q1, t1) = settled(space, start.0, start.1, start.2);
    if let Some(last) = start.0.pending {
        if last.head < entries(start.1) && used_ring_mapped(start.1, space) {
            used_chain_is_published(start.1, space, start.2, last.head, 0);
        } else {
            unusable_chain_is_refused(start.1, space, start.2, last.head, 0);
            let (next, _, r) = start.1.used_added(space, start.2, last.head, 0);
            assert(return_fails(start.1, space, last.head, next, r->Err_0));
        }
    }
    if let Some((head, ds)) = chain {
        chain_is_dealt_with(
            kind,
            regions,
            taken,
            ds,
            end.2,
            end.0.pending.unwrap().counts,
            ranges.unwrap(),
        );
    }
    (q1, t1, taken, chain)
}

/// Whatever chain the queue gave, by what was loaded from it, a step with no chain pending deals with
/// this chain, all of it.
pub proof fn step_deals_with_the_whole_chain(
    kind: QueueKind,
    regions: Set<(u64, u64)>,
    start: (QueueRun, Queue, Seq<Access>),
    end: (QueueRun, Queue, Seq<Access>),
    ranges: Option<Seq<PageRange>>,
    taken: Seq<Access>,
    chain: Option<(u16, Seq<Descriptor>)>,
)
    requires
        step_may(kind, regions, start, end, ranges),
        start.0.pending is None,
        start.1.pop_may(addresses_in(regions), start.2, taken, chain),
        taken.len() <= end.2.len(),
        end.2.take(taken.len() as int) == taken,
    ensures
        takes_next(kind, regions, start.0.have_used, start.1, taken, chain, end, ranges),
{
    let (q1, t1, taken1, chain1) = step_goes_from_chain_to_chain(kind, regions, start, end, ranges);
    assert(taken1.len() <= end.2.len() && end.2.take(taken1.len() as int) == taken1) by {
        if let Some((head, ds)) = chain1 {
            if kind is Inflate {
                readable_count_leads(ds);
                assert(leads(ds, readable_count(ds) as int));
            }
        }
        if end.2 == taken1 {
            assert(end.2.take(taken1.len() as int) =~= taken1);
        }
    }
    trace_decides_about_the_chain(
        start.1,
        addresses_in(regions),
        start.2,
        taken,
        chain,
        taken1,
        chain1,
        end.2,
    );
}

} // verus!
