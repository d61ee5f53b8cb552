//! Which ranges of guest memory are released when the guest puts pages into the balloon.
//!
//! The guest names pages by 4-byte numbers, in any order and perhaps more than once. They are
//! sorted, freed of duplicates and joined into ranges, so that no page is released twice and
//! neighbours are released together.

use vm_memory::GuestMemoryMmap;
use vstd::prelude::*;

use crate::bytes::{get_le32, le32};
use crate::guest::{
    accesses, address_in_range, addresses_in, check_one_region, check_range, guest_addresses,
    guest_regions, in_one_region, in_region, load, load_bytes, mapped_at, one_region_is_mapped,
    Access,
};
use crate::queue::{all_mapped, Descriptor};

verus! {

/// Size of the pages that the balloon counts.
pub const VIRTIO_BALLOON_PAGE_SIZE: u64 = 4096;

/// A range of guest memory.
#[derive(Clone, Copy, Debug, PartialEq, Eq, Structural)]
pub struct PageRange {
    pub guest_addr: u64,
    pub len: u64,
}

/// The page numbers that `bytes` spell; up to three bytes at the end that make no number are left
/// out.
pub open spec fn page_numbers(bytes: Seq<u8>) -> Seq<u32> {
    Seq::new(bytes.len() / 4, |i: int| le32(bytes, 4 * i))
}

/// No two entries are equal, and they come in ascending order.
pub open spec fn ascending(pfns: Seq<u32>) -> bool {
    forall|i: int, j: int| 0 <= i < j < pfns.len() ==> pfns[i] < pfns[j]
}

/// `out` holds what `pfns` holds, in ascending order and each once.
pub open spec fn sorted_unique(pfns: Seq<u32>, out: Seq<u32>) -> bool {
    &&& ascending(out)
    &&& forall|x: u32| out.contains(x) <==> pfns.contains(x)
}

/// How many consecutive numbers `pfns` starts with.
pub open spec fn run_len(pfns: Seq<u32>) -> nat
    decreases pfns.len(),
{
    if pfns.len() == 0 {
        0
    } else if pfns.len() > 1 && pfns[1] == pfns[0] + 1 {
        1 + run_len(pfns.skip(1))
    } else {
        1
    }
}

/// A run is made of pages that follow each other, and the page behind its last one is not the next
/// that is asked for.
pub proof fn run_is_consecutive(pfns: Seq<u32>)
    ensures
        run_len(pfns) <= pfns.len(),
        pfns.len() > 0 ==> run_len(pfns) >= 1,
        forall|j: int| 0 <= j < run_len(pfns) ==> #[trigger] pfns[j] == pfns[0] + j,
        0 < run_len(pfns) < pfns.len() ==> pfns[run_len(pfns) as int] != pfns[0] + run_len(pfns),
    decreases pfns.len(),
{
    if pfns.len() > 1 && pfns[1] == pfns[0] + 1 {
        let rest = pfns.skip(1);
        run_is_consecutive(rest);
        assert forall|j: int| 0 <= j < run_len(pfns) implies #[trigger] pfns[j] == pfns[0] + j by {
            if j > 0 {
                assert(rest[j - 1] == pfns[j]);
            }
        }
        if run_len(pfns) < pfns.len() {
            assert(rest[run_len(rest) as int] == pfns[run_len(pfns) as int]);
        }
    }
}

/// The `len` bytes from `addr` on can be released as one range: they lie in one region, and a host
/// can name their length.
pub open spec fn one_range(regions: Set<(u64, u64)>, addr: int, len: int) -> bool {
    len <= usize::MAX && in_one_region(regions, addr, len)
}

/// The ranges to be released for the pages `pfns`, which are ascending. A run of neighbours is
/// one range if it lies in one region as a whole. If it does not, it is cut down to its first page,
/// which is released if it lies in one region, and the rest of the run is looked at anew. If the
/// run does not even start in mapped memory, it is passed over.
pub open spec fn inflate_ranges(regions: Set<(u64, u64)>, pfns: Seq<u32>) -> Seq<PageRange>
    decreases pfns.len(),
{
    if pfns.len() == 0 {
        Seq::empty()
    } else {
        proof {
            run_is_consecutive(pfns);
        }
        let run = run_len(pfns);
        let start = pfns[0] * VIRTIO_BALLOON_PAGE_SIZE;
        let len = run * VIRTIO_BALLOON_PAGE_SIZE;
        if !mapped_at(addresses_in(regions), start) {
            inflate_ranges(regions, pfns.skip(run as int))
        } else if one_range(regions, start, len) {
            seq![PageRange { guest_addr: start as u64, len: len as u64 }] + inflate_ranges(
                regions,
                pfns.skip(run as int),
            )
        } else if in_one_region(regions, start, VIRTIO_BALLOON_PAGE_SIZE as int) {
            seq![PageRange { guest_addr: start as u64, len: VIRTIO_BALLOON_PAGE_SIZE }]
                + inflate_ranges(regions, pfns.skip(1))
        } else {
            inflate_ranges(regions, pfns.skip(1))
        }
    }
}

/// `ranges` is what is released for pages given as `bytes`.
pub open spec fn inflated(
    regions: Set<(u64, u64)>,
    bytes: Seq<u8>,
    ranges: Seq<PageRange>,
) -> bool {
    exists|pfns: Seq<u32>| #[trigger]
        sorted_unique(page_numbers(bytes), pfns) && ranges == inflate_ranges(regions, pfns)
}

/// How many descriptors the chain starts with that the device may read; those that it may only
/// write come behind them.
pub open spec fn readable_count(ds: Seq<Descriptor>) -> nat
    decreases ds.len(),
{
    if ds.len() == 0 || ds[0].is_write_only() {
        0
    } else {
        1 + readable_count(ds.skip(1))
    }
}

/// The pieces `datas` one behind the other.
pub open spec fn joined(datas: Seq<Seq<u8>>) -> Seq<u8>
    decreases datas.len(),
{
    if datas.len() == 0 {
        Seq::empty()
    } else {
        joined(datas.drop_last()) + datas.last()
    }
}

/// The first descriptors of `ds` held `datas`: the accesses afterwards, and the bytes.
pub open spec fn pieces_read(
    before: Seq<Access>,
    ds: Seq<Descriptor>,
    datas: Seq<Seq<u8>>,
) -> (Seq<Access>, Seq<u8>) {
    (
        before + Seq::new(datas.len(), |i: int| load(ds[i].addr, datas[i])),
        joined(datas),
    )
}

/// `(after, bytes)` is a way in which reading the chain `ds` may go. Nothing is read if some
/// readable buffer lies outside of the mapped memory.
pub open spec fn chain_read_may(
    space: Set<u64>,
    before: Seq<Access>,
    ds: Seq<Descriptor>,
    after: Seq<Access>,
    bytes: Option<Seq<u8>>,
) -> bool {
    let count = readable_count(ds) as int;
    if all_mapped(space, ds.take(count)) {
        bytes is Some && exists|datas: Seq<Seq<u8>>|
            {
                &&& datas.len() == count
                &&& forall|i: int| 0 <= i < count ==> (#[trigger] datas[i]).len() == ds[i].len
                &&& (after, bytes.unwrap()) == #[trigger] pieces_read(before, ds, datas)
            }
    } else {
        after == before && bytes is None
    }
}

/// `slice::sort_unstable` of std on page numbers: afterwards they are in ascending order, and
/// each occurs as often as before.
#[verifier::external_body]
fn sort_unstable(v: &mut Vec<u32>)
    ensures
        forall|i: int, j: int| 0 <= i <= j < final(v)@.len() ==> final(v)@[i] <= final(v)@[j],
        final(v)@.to_multiset() == old(v)@.to_multiset(),
{
    v.sort_unstable()
}

/// Reads the page numbers that `bytes` spell.
pub fn parse_page_numbers(bytes: &Vec<u8>) -> (r: Vec<u32>)
    ensures
        r@ == page_numbers(bytes@),
{
    let count: usize = bytes.len() / 4;
    let mut r: Vec<u32> = Vec::with_capacity(count);
    for i in 0..count
        invariant
            count == bytes@.len() / 4,
            bytes.len() == bytes@.len(),
            r@ == page_numbers(bytes@).take(i as int),
    {
        r.push(get_le32(bytes.as_slice(), 4 * i));
        assert(r@ =~= page_numbers(bytes@).take(i + 1));
    }
    assert(page_numbers(bytes@).take(count as int) =~= page_numbers(bytes@));
    r
}

/// Sorts page numbers and drops the duplicates.
pub fn sort_and_dedup(pfns: Vec<u32>) -> (r: Vec<u32>)
    ensures
        sorted_unique(pfns@, r@),
{
    let ghost input = pfns@;
    let mut v: Vec<u32> = pfns;
    sort_unstable(&mut v);
    proof {
        same_multiset_same_elements(input, v@);
    }
    let mut r: Vec<u32> = Vec::with_capacity(v.len());
    let mut i: usize = 0;
    while i < v.len()
        invariant
            i <= v@.len(),
            forall|a: int, b: int| 0 <= a <= b < v@.len() ==> v@[a] <= v@[b],
            ascending(r@),
            i > 0 ==> r@.len() > 0 && r@.last() == v@[i - 1],
            i == 0 ==> r@.len() == 0,
            forall|k: int| 0 <= k < r@.len() ==> v@.contains(#[trigger] r@[k]),
            forall|k: int| 0 <= k < i ==> r@.contains(#[trigger] v@[k]),
        decreases v@.len() - i,
    {
        let ghost before = r@;
        if i == 0 || v[i] != v[i - 1] {
            r.push(v[i]);
            proof {
                assert forall|a: int, b: int| 0 <= a < b < r@.len() implies r@[a] < r@[b] by {
                    if b == before.len() {
                        assert(r@[a] == before[a]);
                        if a < before.len() - 1 {
                            assert(before[a] < before[before.len() - 1]);
                        }
                    } else {
                        assert(before[a] < before[b]);
                    }
                }
                assert forall|k: int| 0 <= k < i + 1 implies r@.contains(#[trigger] v@[k]) by {
                    if k < i {
                        assert(before.contains(v@[k]));
                        let w = choose|w: int| 0 <= w < before.len() && before[w] == v@[k];
                        assert(r@[w] == v@[k]);
                    } else {
                        assert(r@[before.len() as int] == v@[k]);
                    }
                }
                assert forall|k: int| 0 <= k < r@.len() implies v@.contains(#[trigger] r@[k]) by {
                    if k < before.len() {
                        assert(r@[k] == before[k]);
                    } else {
                        assert(v@[i as int] == r@[k]);
                    }
                }
            }
        } else {
            proof {
                assert(r@[r@.len() - 1] == v@[i as int]);
            }
        }
        i = i + 1;
    }
    proof {
        assert forall|x: u32| r@.contains(x) <==> input.contains(x) by {
            if r@.contains(x) {
                let k = choose|k: int| 0 <= k < r@.len() && r@[k] == x;
                assert(v@.contains(r@[k]));
            }
            if input.contains(x) {
                assert(v@.contains(x));
                let k = choose|k: int| 0 <= k < v@.len() && v@[k] == x;
                assert(r@.contains(v@[k]));
            }
        }
    }
    r
}

/// Sequences in which everything occurs equally often hold the same elements.
proof fn same_multiset_same_elements(a: Seq<u32>, b: Seq<u32>)
    requires
        a.to_multiset() == b.to_multiset(),
    ensures
        forall|x: u32| a.contains(x) <==> b.contains(x),
{
    broadcast use vstd::seq_lib::group_to_multiset_ensures;

    assert forall|x: u32| a.contains(x) <==> b.contains(x) by {
        assert(a.to_multiset().contains(x) <==> a.contains(x));
        assert(b.to_multiset().contains(x) <==> b.contains(x));
    }
}

/// What pages were given decides what is released; in which order and how often they were named
/// does not matter.
pub proof fn order_of_pages_does_not_matter(
    regions: Set<(u64, u64)>,
    a: Seq<u8>,
    b: Seq<u8>,
    ranges_a: Seq<PageRange>,
    ranges_b: Seq<PageRange>,
)
    requires
        inflated(regions, a, ranges_a),
        inflated(regions, b, ranges_b),
        forall|page: u32| page_numbers(a).contains(page) <==> page_numbers(b).contains(page),
    ensures
        ranges_a == ranges_b,
{
    let x = choose|x: Seq<u32>| #[trigger]
        sorted_unique(page_numbers(a), x) && ranges_a == inflate_ranges(regions, x);
    let y = choose|y: Seq<u32>| #[trigger]
        sorted_unique(page_numbers(b), y) && ranges_b == inflate_ranges(regions, y);
    assert forall|page: u32| x.contains(page) <==> y.contains(page) by {
        assert(page_numbers(a).contains(page) <==> page_numbers(b).contains(page));
    }
    ascending_is_unique(x, y);
}

/// There is one ascending sequence of given elements.
proof fn ascending_is_unique(x: Seq<u32>, y: Seq<u32>)
    requires
        ascending(x),
        ascending(y),
        forall|page: u32| x.contains(page) <==> y.contains(page),
    ensures
        x == y,
    decreases x.len(),
{
    if x.len() == 0 {
        if y.len() > 0 {
            assert(y.contains(y[0]));
        }
        assert(x =~= y);
    } else {
        assert(x.contains(x.last()));
        assert(y.contains(x.last()));
        let j = choose|j: int| 0 <= j < y.len() && y[j] == x.last();
        assert(y.contains(y.last()));
        assert(x.contains(y.last()));
        let i = choose|i: int| 0 <= i < x.len() && x[i] == y.last();
        assert(x.last() == y.last());
        let x0 = x.drop_last();
        let y0 = y.drop_last();
        assert forall|page: u32| x0.contains(page) <==> y0.contains(page) by {
            if x0.contains(page) {
                let k = choose|k: int| 0 <= k < x0.len() && x0[k] == page;
                assert(x[k] == page);
                assert(x.contains(page));
                let m = choose|m: int| 0 <= m < y.len() && y[m] == page;
                assert(y0[m] == page);
            }
            if y0.contains(page) {
                let k = choose|k: int| 0 <= k < y0.len() && y0[k] == page;
                assert(y[k] == page);
                assert(y.contains(page));
                let m = choose|m: int| 0 <= m < x.len() && x[m] == page;
                assert(x0[m] == page);
            }
        }
        ascending_is_unique(x0, y0);
        assert(x =~= x0.push(x.last()));
        assert(y =~= y0.push(y.last()));
    }
}

/// Reads off `pfns` which ranges are to be released.
pub fn plan_inflate(mem: &GuestMemoryMmap<()>, pfns: &Vec<u32>) -> (r: Vec<PageRange>)
    ensures
        r@ == inflate_ranges(guest_regions(*mem), pfns@),
{
    let ghost regions = guest_regions(*mem);
    let mut r: Vec<PageRange> = Vec::new();
    let mut i: usize = 0;
    proof {
        assert(pfns@.skip(0) =~= pfns@);
    }
    while i < pfns.len()
        invariant
            i <= pfns@.len(),
            regions == guest_regions(*mem),
            inflate_ranges(regions, pfns@) == r@ + inflate_ranges(regions, pfns@.skip(i as int)),
        decreases pfns@.len() - i,
    {
        let ghost rest = pfns@.skip(i as int);
        let run: usize = run_from(pfns, i);
        proof {
            run_is_consecutive(rest);
            assert(rest[run - 1] == rest[0] + (run - 1));
            assert(rest.skip(run as int) =~= pfns@.skip(i + run));
            assert(rest.skip(1) =~= pfns@.skip(i + 1));
        }
        let start: u64 = pfns[i] as u64 * VIRTIO_BALLOON_PAGE_SIZE;
        let len: u64 = run as u64 * VIRTIO_BALLOON_PAGE_SIZE;
        let page: u64 = VIRTIO_BALLOON_PAGE_SIZE;
        let ghost before = r@;
        if !address_in_range(mem, start) {
            i = i + run;
        } else if len <= usize::MAX as u64 && check_one_region(mem, start, len as usize) {
            let range = PageRange { guest_addr: start, len };
            r.push(range);
            i = i + run;
            assert(before + (seq![range] + inflate_ranges(regions, pfns@.skip(i as int))) =~= r@
                + inflate_ranges(regions, pfns@.skip(i as int)));
        } else if check_one_region(mem, start, page as usize) {
            let range = PageRange { guest_addr: start, len: page };
            r.push(range);
            i = i + 1;
            assert(before + (seq![range] + inflate_ranges(regions, pfns@.skip(i as int))) =~= r@
                + inflate_ranges(regions, pfns@.skip(i as int)));
        } else {
            i = i + 1;
        }
    }
    r
}

/// The ranges that are released for pages given as `bytes`.
pub fn inflate(mem: &GuestMemoryMmap<()>, bytes: &Vec<u8>) -> (r: Vec<PageRange>)
    ensures
        inflated(guest_regions(*mem), bytes@, r@),
{
    let pfns = sort_and_dedup(parse_page_numbers(bytes));
    plan_inflate(mem, &pfns)
}

/// Reads the readable buffers of the chain `ds`.
pub fn read_chain(mem: &mut GuestMemoryMmap<()>, ds: &Vec<Descriptor>) -> (r: Option<Vec<u8>>)
    ensures
        guest_regions(*final(mem)) == guest_regions(*old(mem)),
        chain_read_may(
            guest_addresses(*old(mem)),
            accesses(*old(mem)),
            ds@,
            accesses(*final(mem)),
            match r {
                Some(bytes) => Some(bytes@),
                None => None,
            },
        ),
{
    let ghost space = guest_addresses(*mem);
    let ghost before = accesses(*mem);
    let ghost count = readable_count(ds@) as int;
    let mut n: usize = 0;
    proof {
        assert(ds@.skip(0) =~= ds@);
    }
    while n < ds.len() && !ds[n].is_write_only()
        invariant
            n <= ds@.len(),
            count == readable_count(ds@),
            count == n + readable_count(ds@.skip(n as int)),
            space == guest_addresses(*mem),
            *mem == *old(mem),
            all_mapped(space, ds@.take(n as int)),
        ensures
            count == n,
            n <= ds@.len(),
            all_mapped(space, ds@.take(n as int)),
        decreases ds@.len() - n,
    {
        proof {
            assert(ds@.skip(n as int).skip(1) =~= ds@.skip(n + 1));
            readable_count_bound(ds@.skip(n + 1));
        }
        if !check_range(mem, ds[n].addr, ds[n].len as usize) {
            proof {
                assert(ds@.take(count)[n as int] == ds@[n as int]);
            }
            return None;
        }
        assert(forall|i: int|
            0 <= i < n + 1 ==> #[trigger] ds@.take(n + 1)[i] == if i < n {
                ds@.take(n as int)[i]
            } else {
                ds@[n as int]
            });
        n = n + 1;
    }
    let mut bytes: Vec<u8> = Vec::new();
    let ghost mut datas: Seq<Seq<u8>> = Seq::empty();
    proof {
        assert(before + Seq::new(0, |i: int| load(ds@[i].addr, datas[i])) =~= before);
    }
    for k in 0..n
        invariant
            n <= ds@.len(),
            n == count,
            all_mapped(space, ds@.take(n as int)),
            space == guest_addresses(*mem),
            guest_regions(*mem) == guest_regions(*old(mem)),
            datas.len() == k,
            forall|i: int| 0 <= i < k ==> (#[trigger] datas[i]).len() == ds@[i].len,
            pieces_read(before, ds@, datas) == (accesses(*mem), bytes@),
    {
        proof {
            assert(ds@.take(n as int)[k as int] == ds@[k as int]);
        }
        if let Some(data) = load_bytes(mem, ds[k].addr, ds[k].len as usize) {
            let ghost old_datas = datas;
            let mut data: Vec<u8> = data;
            proof {
                datas = datas.push(data@);
                assert(datas.drop_last() =~= old_datas);
                assert(before + Seq::new(datas.len(), |i: int| load(ds@[i].addr, datas[i])) =~= (
                before + Seq::new(
                    old_datas.len(),
                    |i: int| load(ds@[i].addr, old_datas[i]),
                )).push(load(ds@[k as int].addr, data@)));
            }
            bytes.append(&mut data);
        }
    }
    Some(bytes)
}

/// No more descriptors are readable than there are.
proof fn readable_count_bound(ds: Seq<Descriptor>)
    ensures
        readable_count(ds) <= ds.len(),
    decreases ds.len(),
{
    if ds.len() > 0 && !ds[0].is_write_only() {
        readable_count_bound(ds.skip(1));
    }
}

/// The length of the run of neighbours that starts at index `i`.
fn run_from(pfns: &Vec<u32>, i: usize) -> (r: usize)
    requires
        i < pfns@.len(),
    ensures
        r == run_len(pfns@.skip(i as int)),
{
    let ghost rest = pfns@.skip(i as int);
    let mut n: usize = 1;
    proof {
        run_is_consecutive(rest);
    }
    while n < pfns.len() - i && pfns[i + n] as u64 == pfns[i] as u64 + n as u64
        invariant
            rest == pfns@.skip(i as int),
            i < pfns@.len(),
            1 <= n <= run_len(rest) <= rest.len(),
            pfns@[i as int] + n - 1 <= u32::MAX,
            forall|j: int| 0 <= j < run_len(rest) ==> #[trigger] rest[j] == rest[0] + j,
            run_len(rest) < rest.len() ==> rest[run_len(rest) as int] != rest[0] + run_len(rest),
        decreases pfns@.len() - n,
    {
        assert(rest[n as int] == pfns@[i + n]);
        n = n + 1;
    }
    proof {
        if n < run_len(rest) {
            assert(rest[n as int] == pfns@[i + n]);
        }
    }
    n
}

/// `page` lies inside `range`.
pub open spec fn holds(range: PageRange, page: int) -> bool {
    &&& range.guest_addr <= page * VIRTIO_BALLOON_PAGE_SIZE
    &&& (page + 1) * VIRTIO_BALLOON_PAGE_SIZE <= range.guest_addr + range.len
}

/// The range is made of one or more whole pages, all of which stand in `pfns`, and it lies in one
/// region.
pub open spec fn range_of_pages(
    regions: Set<(u64, u64)>,
    range: PageRange,
    pfns: Seq<u32>,
) -> bool {
    &&& range.len > 0
    &&& range.guest_addr % VIRTIO_BALLOON_PAGE_SIZE == 0
    &&& range.len % VIRTIO_BALLOON_PAGE_SIZE == 0
    &&& in_one_region(regions, range.guest_addr as int, range.len as int)
    &&& forall|page: int| #[trigger]
        holds(range, page) ==> 0 <= page <= u32::MAX && pfns.contains(page as u32)
}

/// The ranges come in ascending order and do not overlap.
pub open spec fn apart(ranges: Seq<PageRange>) -> bool {
    forall|i: int, j: int|
        0 <= i < j < ranges.len() ==> (#[trigger] ranges[i]).guest_addr + ranges[i].len <= (
        #[trigger] ranges[j]).guest_addr
}

/// How many pages the first step of `inflate_ranges` deals with.
spec fn first_step(regions: Set<(u64, u64)>, pfns: Seq<u32>) -> int {
    let start = pfns[0] * VIRTIO_BALLOON_PAGE_SIZE;
    let len = run_len(pfns) * VIRTIO_BALLOON_PAGE_SIZE;
    if mapped_at(addresses_in(regions), start) && !one_range(regions, start, len) {
        1
    } else {
        run_len(pfns) as int
    }
}

/// What the first step of `inflate_ranges` releases.
spec fn first_release(regions: Set<(u64, u64)>, pfns: Seq<u32>) -> Seq<PageRange> {
    let start = pfns[0] * VIRTIO_BALLOON_PAGE_SIZE;
    let len = first_step(regions, pfns) * VIRTIO_BALLOON_PAGE_SIZE;
    if mapped_at(addresses_in(regions), start) && in_one_region(regions, start, len) {
        seq![PageRange { guest_addr: start as u64, len: len as u64 }]
    } else {
        Seq::empty()
    }
}

/// `inflate_ranges`, taken apart into its first step and the others.
proof fn first_and_others(regions: Set<(u64, u64)>, pfns: Seq<u32>)
    requires
        ascending(pfns),
        pfns.len() > 0,
    ensures
        1 <= first_step(regions, pfns) <= run_len(pfns) <= pfns.len(),
        forall|j: int| 0 <= j < run_len(pfns) ==> #[trigger] pfns[j] == pfns[0] + j,
        run_len(pfns) < pfns.len() ==> pfns[run_len(pfns) as int] != pfns[0] + run_len(pfns),
        pfns[0] + run_len(pfns) <= u32::MAX + 1,
        ascending(pfns.skip(first_step(regions, pfns))),
        inflate_ranges(regions, pfns) == first_release(regions, pfns) + inflate_ranges(
            regions,
            pfns.skip(first_step(regions, pfns)),
        ),
{
    run_is_consecutive(pfns);
    let run = run_len(pfns);
    assert(pfns[run - 1] == pfns[0] + (run - 1));
    let taken = first_step(regions, pfns);
    let rest = pfns.skip(taken);
    assert forall|i: int, j: int| 0 <= i < j < rest.len() implies rest[i] < rest[j] by {
        assert(pfns[i + taken] < pfns[j + taken]);
    }
    let sub = inflate_ranges(regions, rest);
    assert(Seq::<PageRange>::empty() + sub =~= sub);
}

/// Only pages that the guest gave up are released, none of them twice, and nothing that is not
/// there: each range is made of whole pages out of `pfns` and lies in one region, and the ranges
/// come in ascending order without overlap.
pub proof fn only_given_pages_are_released(regions: Set<(u64, u64)>, pfns: Seq<u32>)
    requires
        ascending(pfns),
    ensures
        forall|i: int|
            0 <= i < inflate_ranges(regions, pfns).len() ==> range_of_pages(
                regions,
                #[trigger] inflate_ranges(regions, pfns)[i],
                pfns,
            ),
        apart(inflate_ranges(regions, pfns)),
        forall|i: int|
            0 <= i < inflate_ranges(regions, pfns).len() ==> (#[trigger] inflate_ranges(
                regions,
                pfns,
            )[i]).guest_addr >= pfns[0] * VIRTIO_BALLOON_PAGE_SIZE,
    decreases pfns.len(),
{
    if pfns.len() > 0 {
        first_and_others(regions, pfns);
        let taken = first_step(regions, pfns);
        let rest = pfns.skip(taken);
        only_given_pages_are_released(regions, rest);
        let first = first_release(regions, pfns);
        let sub = inflate_ranges(regions, rest);
        let all = inflate_ranges(regions, pfns);
        assert forall|i: int| 0 <= i < sub.len() implies range_of_pages(
            regions,
            #[trigger] sub[i],
            pfns,
        ) && sub[i].guest_addr >= (pfns[0] + taken) * VIRTIO_BALLOON_PAGE_SIZE by {
            assert(range_of_pages(regions, sub[i], rest));
            assert forall|page: int| #[trigger] holds(sub[i], page) implies 0 <= page <= u32::MAX
                && pfns.contains(page as u32) by {
                let k = choose|k: int| 0 <= k < rest.len() && rest[k] == page as u32;
                assert(pfns[k + taken] == page as u32);
            }
            if rest.len() > 0 {
                assert(pfns[taken - 1] < pfns[taken]);
                assert(rest[0] == pfns[taken]);
            }
        }
        if first.len() > 0 {
            let range = first[0];
            assert forall|page: int| #[trigger] holds(range, page) implies 0 <= page <= u32::MAX
                && pfns.contains(page as u32) by {
                assert(pfns[page - pfns[0]] == pfns[0] + (page - pfns[0]));
            }
            assert(range_of_pages(regions, range, pfns));
        }
        assert forall|i: int| 0 <= i < all.len() implies range_of_pages(
            regions,
            #[trigger] all[i],
            pfns,
        ) && all[i].guest_addr >= pfns[0] * VIRTIO_BALLOON_PAGE_SIZE by {
            if i >= first.len() {
                assert(all[i] == sub[i - first.len()]);
            }
        }
        assert forall|i: int, j: int| 0 <= i < j < all.len() implies (
        #[trigger] all[i]).guest_addr + all[i].len <= (#[trigger] all[j]).guest_addr by {
            assert(all[j] == sub[j - first.len()]);
            if i >= first.len() {
                assert(all[i] == sub[i - first.len()]);
            }
        }
    }
}

/// `page` lies inside one of `ranges`.
pub open spec fn released(ranges: Seq<PageRange>, page: int) -> bool {
    exists|i: int| 0 <= i < ranges.len() && holds(#[trigger] ranges[i], page)
}

/// The page lies in one region as a whole.
pub open spec fn page_in_region(regions: Set<(u64, u64)>, page: int) -> bool {
    in_one_region(
        regions,
        page * VIRTIO_BALLOON_PAGE_SIZE,
        VIRTIO_BALLOON_PAGE_SIZE as int,
    )
}

/// The first byte of the page at index `j` is mapped.
pub open spec fn starts_mapped(regions: Set<(u64, u64)>, pfns: Seq<u32>, j: int) -> bool {
    mapped_at(addresses_in(regions), pfns[j] * VIRTIO_BALLOON_PAGE_SIZE)
}

/// The pages at the indices `j` to `k` follow each other without a gap.
pub open spec fn gapless(pfns: Seq<u32>, j: int, k: int) -> bool {
    pfns[j] + (k - j) == pfns[k]
}

/// The page at index `k` lies in one region, and it and the pages that come without a gap before
/// it start in mapped memory.
pub open spec fn releasable(regions: Set<(u64, u64)>, pfns: Seq<u32>, k: int) -> bool {
    &&& page_in_region(regions, pfns[k] as int)
    &&& forall|j: int|
        0 <= j <= k && gapless(pfns, j, k) ==> #[trigger] starts_mapped(regions, pfns, j)
}

/// Between two indices of an ascending sequence lie at least as many numbers.
proof fn ascending_spreads(pfns: Seq<u32>, j: int, k: int)
    requires
        ascending(pfns),
        0 <= j <= k < pfns.len(),
    ensures
        pfns[j] + (k - j) <= pfns[k],
    decreases k - j,
{
    if j < k {
        ascending_spreads(pfns, j, k - 1);
        assert(pfns[k - 1] < pfns[k]);
    }
}

/// Behind the pages that the first step deals with, it makes no difference whether they are
/// there.
proof fn releasable_behind_first(regions: Set<(u64, u64)>, pfns: Seq<u32>, k: int)
    requires
        ascending(pfns),
        first_step(regions, pfns) <= k < pfns.len(),
    ensures
        releasable(regions, pfns, k) <==> releasable(
            regions,
            pfns.skip(first_step(regions, pfns)),
            k - first_step(regions, pfns),
        ),
{
    first_and_others(regions, pfns);
    let taken = first_step(regions, pfns);
    let run = run_len(pfns) as int;
    let rest = pfns.skip(taken);
    assert(rest[k - taken] == pfns[k]);
    if releasable(regions, pfns, k) {
        assert forall|j: int|
            0 <= j <= k - taken && gapless(rest, j, k - taken) implies #[trigger] starts_mapped(
            regions,
            rest,
            j,
        ) by {
            assert(rest[j] == pfns[j + taken]);
            assert(starts_mapped(regions, pfns, j + taken));
        }
    }
    if releasable(regions, rest, k - taken) {
        assert forall|j: int|
            0 <= j <= k && gapless(pfns, j, k) implies #[trigger] starts_mapped(
            regions,
            pfns,
            j,
        ) by {
            if j >= taken {
                assert(rest[j - taken] == pfns[j]);
                assert(starts_mapped(regions, rest, j - taken));
            } else if taken == run && run <= k && !starts_mapped(regions, pfns, j) {
                assert(pfns[j] == pfns[0] + j);
                assert(pfns[run - 1] < pfns[run]);
                assert(pfns[run - 1] == pfns[0] + (run - 1));
                ascending_spreads(pfns, run, k);
            }
        }
    }
}

/// A page that the guest gave up is released exactly if it lies in one region and it and the
/// pages that come without a gap before it start in mapped memory.
pub proof fn page_is_released_iff_releasable(regions: Set<(u64, u64)>, pfns: Seq<u32>, k: int)
    requires
        ascending(pfns),
        0 <= k < pfns.len(),
    ensures
        released(inflate_ranges(regions, pfns), pfns[k] as int) <==> releasable(regions, pfns, k),
    decreases pfns.len(),
{
    first_and_others(regions, pfns);
    only_given_pages_are_released(regions, pfns);
    let taken = first_step(regions, pfns);
    let rest = pfns.skip(taken);
    let first = first_release(regions, pfns);
    let sub = inflate_ranges(regions, rest);
    let all = inflate_ranges(regions, pfns);
    let start = pfns[0] * VIRTIO_BALLOON_PAGE_SIZE;
    let page = pfns[k] as int;
    only_given_pages_are_released(regions, rest);
    if k < taken {
        assert(pfns[k] == pfns[0] + k);
        assert(gapless(pfns, 0, k));
        if first.len() > 0 {
            assert(holds(all[0], page));
            let region = choose|region: (u64, u64)| #[trigger]
                regions.contains(region) && region.0 <= start && start + taken
                    * VIRTIO_BALLOON_PAGE_SIZE <= region.0 + region.1;
            assert(page_in_region(regions, page)) by {
                assert(regions.contains(region));
            }
            one_region_is_mapped(regions, start, taken * VIRTIO_BALLOON_PAGE_SIZE);
            assert forall|j: int|
                0 <= j <= k && gapless(pfns, j, k) implies #[trigger] starts_mapped(
                regions,
                pfns,
                j,
            ) by {
                assert(pfns[j] == pfns[0] + j);
                assert(mapped_at(
                    addresses_in(regions),
                    pfns[j] * VIRTIO_BALLOON_PAGE_SIZE,
                ));
            }
        } else {
            if released(all, page) {
                let i = choose|i: int| 0 <= i < all.len() && holds(#[trigger] all[i], page);
                assert(all[i] == sub[i]);
                assert(range_of_pages(regions, sub[i], rest));
                let m = choose|m: int| 0 <= m < rest.len() && rest[m] == page as u32;
                assert(pfns[m + taken] == pfns[k]);
            }
            if releasable(regions, pfns, k) {
                assert(starts_mapped(regions, pfns, 0));
            }
        }
    } else {
        assert(rest[k - taken] == pfns[k]);
        releasable_behind_first(regions, pfns, k);
        page_is_released_iff_releasable(regions, rest, k - taken);
        if released(sub, page) {
            let i = choose|i: int| 0 <= i < sub.len() && holds(#[trigger] sub[i], page);
            assert(all[i + first.len()] == sub[i]);
        }
        if released(all, page) {
            let i = choose|i: int| 0 <= i < all.len() && holds(#[trigger] all[i], page);
            if i < first.len() {
                assert(pfns[taken - 1] == pfns[0] + (taken - 1));
                assert(pfns[taken - 1] < pfns[k]);
            } else {
                assert(all[i] == sub[i - first.len()]);
            }
        }
    }
}

/// A run of neighbours that lies in one region is released as one range, where it begins with the
/// page at index `i` and reaches as far as it can.
pub proof fn run_in_one_region_is_one_range(regions: Set<(u64, u64)>, pfns: Seq<u32>, i: int)
    requires
        ascending(pfns),
        0 <= i < pfns.len(),
        i == 0 || pfns[i - 1] + 1 != pfns[i],
        one_range(
            regions,
            pfns[i] * VIRTIO_BALLOON_PAGE_SIZE,
            run_len(pfns.skip(i)) * VIRTIO_BALLOON_PAGE_SIZE,
        ),
    ensures
        inflate_ranges(regions, pfns).contains(
            PageRange {
                guest_addr: (pfns[i] * VIRTIO_BALLOON_PAGE_SIZE) as u64,
                len: (run_len(pfns.skip(i)) * VIRTIO_BALLOON_PAGE_SIZE) as u64,
            },
        ),
    decreases pfns.len(),
{
    first_and_others(regions, pfns);
    let taken = first_step(regions, pfns);
    let rest = pfns.skip(taken);
    let first = first_release(regions, pfns);
    let sub = inflate_ranges(regions, rest);
    let all = inflate_ranges(regions, pfns);
    let range = PageRange {
        guest_addr: (pfns[i] * VIRTIO_BALLOON_PAGE_SIZE) as u64,
        len: (run_len(pfns.skip(i)) * VIRTIO_BALLOON_PAGE_SIZE) as u64,
    };
    if i == 0 {
        assert(pfns.skip(0) =~= pfns);
        let start = pfns[0] * VIRTIO_BALLOON_PAGE_SIZE;
        let len = run_len(pfns) * VIRTIO_BALLOON_PAGE_SIZE;
        one_region_is_mapped(regions, start, len);
        assert(all[0] == range);
    } else {
        if i < run_len(pfns) {
            assert(pfns[i] == pfns[0] + i);
            assert(pfns[i - 1] == pfns[0] + (i - 1));
        }
        assert(rest.skip(i - taken) =~= pfns.skip(i));
        assert(rest[i - taken] == pfns[i]);
        if i - taken > 0 {
            assert(rest[i - taken - 1] == pfns[i - 1]);
        }
        run_in_one_region_is_one_range(regions, rest, i - taken);
        let m = choose|m: int| 0 <= m < sub.len() && sub[m] == range;
        assert(all[m + first.len()] == range);
    }
}

/// In a guest whose memory is one region, which starts no later than the first page, exactly the
/// pages up to the end of the region are released.
pub proof fn pages_up_to_the_end_are_released(base: u64, size: u64, pfns: Seq<u32>, k: int)
    requires
        ascending(pfns),
        0 <= k < pfns.len(),
        base <= pfns[0] * VIRTIO_BALLOON_PAGE_SIZE,
    ensures
        released(inflate_ranges(set![(base, size)], pfns), pfns[k] as int) <==> (pfns[k] + 1)
            * VIRTIO_BALLOON_PAGE_SIZE <= base + size,
{
    let regions = set![(base, size)];
    page_is_released_iff_releasable(regions, pfns, k);
    let fits = (pfns[k] + 1) * VIRTIO_BALLOON_PAGE_SIZE <= base + size;
    if k > 0 {
        assert(pfns[0] < pfns[k]);
    }
    if fits {
        assert(regions.contains((base, size)));
        assert forall|j: int|
            0 <= j <= k && gapless(pfns, j, k) implies #[trigger] starts_mapped(
            regions,
            pfns,
            j,
        ) by {
            reveal(addresses_in);
            if j > 0 {
                assert(pfns[0] < pfns[j]);
            }
            assert(in_region((base, size), pfns[j] * VIRTIO_BALLOON_PAGE_SIZE));
        }
    }
    if page_in_region(regions, pfns[k] as int) {
        let region = choose|region: (u64, u64)| #[trigger]
            regions.contains(region) && region.0 <= pfns[k] * VIRTIO_BALLOON_PAGE_SIZE && pfns[k]
                * VIRTIO_BALLOON_PAGE_SIZE + VIRTIO_BALLOON_PAGE_SIZE <= region.0 + region.1;
        assert(region == (base, size));
    }
}

/// Every page from `from` to `to` was named.
pub open spec fn all_named(named: Seq<u32>, from: u32, to: u32) -> bool {
    forall|page: u32| from <= page <= to ==> #[trigger] named.contains(page)
}

/// Pages of an ascending sequence follow each other without a gap exactly if all between them are
/// in it.
proof fn gapless_iff_all_named(pfns: Seq<u32>, j: int, k: int)
    requires
        ascending(pfns),
        0 <= j <= k < pfns.len(),
    ensures
        gapless(pfns, j, k) <==> all_named(pfns, pfns[j], pfns[k]),
    decreases k - j,
{
    ascending_spreads(pfns, j, k);
    if gapless(pfns, j, k) {
        assert forall|page: u32| pfns[j] <= page <= pfns[k] implies #[trigger] pfns.contains(
            page,
        ) by {
            let m = j + (page - pfns[j]);
            ascending_spreads(pfns, j, m);
            ascending_spreads(pfns, m, k);
            assert(pfns[m] == page);
        }
    }
    if all_named(pfns, pfns[j], pfns[k]) && j < k {
        let next = (pfns[j] + 1) as u32;
        assert(pfns[j] < pfns[j + 1]);
        assert(pfns[j] < pfns[k]);
        assert(pfns.contains(next));
        let m = choose|m: int| 0 <= m < pfns.len() && pfns[m] == next;
        if m <= j {
            if m < j {
                assert(pfns[m] < pfns[j]);
            }
        } else if m > j + 1 {
            assert(pfns[j + 1] < pfns[m]);
        }
        assert(pfns[j + 1] == next);
        gapless_iff_all_named(pfns, j + 1, k);
    }
}

/// Of the pages that the guest named, whatever the order and however often: nothing else is
/// released, nothing is released twice, every range lies in one region, and a page is released
/// exactly if it lies in one region and it and the named pages that come without a gap before it
/// start in mapped memory.
pub proof fn named_pages_are_released(
    regions: Set<(u64, u64)>,
    bytes: Seq<u8>,
    ranges: Seq<PageRange>,
)
    requires
        inflated(regions, bytes, ranges),
    ensures
        apart(ranges),
        forall|i: int|
            0 <= i < ranges.len() ==> range_of_pages(
                regions,
                #[trigger] ranges[i],
                page_numbers(bytes),
            ),
        forall|page: u32| #[trigger]
            page_numbers(bytes).contains(page) ==> (released(ranges, page as int) <==> {
                &&& page_in_region(regions, page as int)
                &&& forall|from: u32|
                    from <= page && #[trigger] all_named(page_numbers(bytes), from, page)
                        ==> mapped_at(addresses_in(regions), from * VIRTIO_BALLOON_PAGE_SIZE)
            }),
{
    let named = page_numbers(bytes);
    let pfns = choose|pfns: Seq<u32>| #[trigger]
        sorted_unique(named, pfns) && ranges == inflate_ranges(regions, pfns);
    only_given_pages_are_released(regions, pfns);
    assert forall|i: int| 0 <= i < ranges.len() implies range_of_pages(
        regions,
        #[trigger] ranges[i],
        named,
    ) by {
        assert(range_of_pages(regions, ranges[i], pfns));
    }
    assert forall|page: u32| #[trigger] named.contains(page) implies (released(
        ranges,
        page as int,
    ) <==> {
        &&& page_in_region(regions, page as int)
        &&& forall|from: u32|
            from <= page && #[trigger] all_named(named, from, page) ==> mapped_at(
                addresses_in(regions),
                from * VIRTIO_BALLOON_PAGE_SIZE,
            )
    }) by {
        assert(pfns.contains(page));
        let k = choose|k: int| 0 <= k < pfns.len() && pfns[k] == page;
        page_is_released_iff_releasable(regions, pfns, k);
        if releasable(regions, pfns, k) {
            assert forall|from: u32|
                from <= page && #[trigger] all_named(named, from, page) implies mapped_at(
                addresses_in(regions),
                from * VIRTIO_BALLOON_PAGE_SIZE,
            ) by {
                assert(named.contains(from));
                assert(pfns.contains(from));
                let j = choose|j: int| 0 <= j < pfns.len() && pfns[j] == from;
                if j > k {
                    assert(pfns[k] < pfns[j]);
                }
                assert(all_named(pfns, from, page)) by {
                    assert forall|z: u32| from <= z <= page implies #[trigger] pfns.contains(z) by {
                        assert(named.contains(z));
                    }
                }
                gapless_iff_all_named(pfns, j, k);
                assert(starts_mapped(regions, pfns, j));
            }
        }
        if forall|from: u32|
            from <= page && #[trigger] all_named(named, from, page) ==> mapped_at(
                addresses_in(regions),
                from * VIRTIO_BALLOON_PAGE_SIZE,
            ) {
            assert forall|j: int|
                0 <= j <= k && gapless(pfns, j, k) implies #[trigger] starts_mapped(
                regions,
                pfns,
                j,
            ) by {
                gapless_iff_all_named(pfns, j, k);
                if j < k {
                    assert(pfns[j] < pfns[k]);
                }
                assert(all_named(named, pfns[j], page)) by {
                    assert forall|z: u32| pfns[j] <= z <= page implies #[trigger] named.contains(
                        z,
                    ) by {
                        assert(pfns.contains(z));
                    }
                }
            }
        }
    }
}

} // verus!
