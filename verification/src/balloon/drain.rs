//! Working off the balloon's queues.
//!
//! A queue is worked off chain by chain. Each step gives the last chain back to the guest, takes
//! the next one and says which memory is to be released for it; releasing it is the caller's part
//! before the next step.

use vm_memory::GuestMemoryMmap;
use vstd::prelude::*;

use crate::balloon::inflate::{
    chain_read_may, inflate, inflated, named_pages_are_released, page_numbers, range_of_pages,
    read_chain, PageRange,
};
use crate::guest::{
    accesses, address_in_range, addresses_in, guest_addresses, guest_regions, in_one_region, Access,
};
use crate::queue::{Descriptor, DescriptorChain, Queue};

verus! {

/// A chain that was taken and not given back yet.
#[derive(Clone, Copy, Debug, PartialEq, Eq, Structural)]
pub struct PendingChain {
    pub head: u16,
    /// Whether giving it back is something to notify the guest of.
    pub counts: bool,
}

/// How far working off a queue has come.
#[derive(Clone, Copy, Debug, PartialEq, Eq, Structural)]
pub struct QueueRun {
    /// Whether the guest is to be notified at the end.
    pub have_used: bool,
    /// The chain that the last step took.
    pub pending: Option<PendingChain>,
}

impl QueueRun {
    /// The start of a run.
    pub fn new() -> (r: QueueRun)
        ensures
            r == (QueueRun { have_used: false, pending: None }),
    {
        QueueRun { have_used: false, pending: None }
    }
}

/// Giving the pending chain back, if there is one: the run, the queue and the accesses afterwards.
pub open spec fn settled(space: Set<u64>, run: QueueRun, q: Queue, before: Seq<Access>) -> (
    QueueRun,
    Queue,
    Seq<Access>,
) {
    match run.pending {
        Some(chain) => {
            let (next, after, _) = q.used_added(space, before, chain.head, 0);
            (QueueRun { have_used: run.have_used || chain.counts, pending: None }, next, after)
        },
        None => (run, q, before),
    }
}

/// A way in which giving the pending chain back and taking the next one may go: `run`, `q` and
/// `after` are the run, the queue and the accesses afterwards.
pub open spec fn next_chain_may(
    space: Set<u64>,
    start: (QueueRun, Queue, Seq<Access>),
    run: QueueRun,
    q: Queue,
    after: Seq<Access>,
    chain: Option<(u16, Seq<Descriptor>)>,
) -> bool {
    let (run1, q1, t1) = settled(space, start.0, start.1, start.2);
    &&& run == run1
    &&& q1.pop_may(space, t1, after, chain)
    &&& q == Queue {
        next_avail: if chain is Some {
            q1.next_avail.wrapping_add(1)
        } else {
            q1.next_avail
        },
        ..q1
    }
}

/// The run after the chain `head` was taken.
pub open spec fn pending(run: QueueRun, head: u16, counts: bool) -> QueueRun {
    QueueRun { have_used: run.have_used, pending: Some(PendingChain { head, counts }) }
}

/// The ranges that the descriptors of a report name, without those that start in unmapped memory.
pub open spec fn reported(space: Set<u64>, ds: Seq<Descriptor>) -> Seq<PageRange>
    decreases ds.len(),
{
    if ds.len() == 0 {
        Seq::empty()
    } else {
        let before = reported(space, ds.drop_last());
        let range = PageRange { guest_addr: ds.last().addr, len: ds.last().len as u64 };
        if space.contains(range.guest_addr) {
            before.push(range)
        } else {
            before
        }
    }
}

/// The queues of the balloon that carry pages.
#[derive(Clone, Copy, Debug, PartialEq, Eq, Structural)]
pub enum QueueKind {
    /// The guest gives up pages.
    Inflate,
    /// The guest names pages that it does not use for now.
    Report,
    /// The guest takes pages back.
    Deflate,
}

/// Dealing with a chain that was taken with the accesses `taken`: the accesses `after` may come of
/// it, whether the chain counts, and what is released. A chain of the inflate queue that cannot be
/// read releases nothing and does not count. Nothing is released for the deflate queue.
pub open spec fn chain_worked(
    kind: QueueKind,
    regions: Set<(u64, u64)>,
    taken: Seq<Access>,
    ds: Seq<Descriptor>,
    after: Seq<Access>,
    counts: bool,
    ranges: Seq<PageRange>,
) -> bool {
    let space = addresses_in(regions);
    match kind {
        QueueKind::Inflate => exists|bytes: Option<Seq<u8>>|
            {
                &&& #[trigger] chain_read_may(space, taken, ds, after, bytes)
                &&& counts == bytes is Some
                &&& match bytes {
                    Some(bytes) => inflated(regions, bytes, ranges),
                    None => ranges.len() == 0,
                }
            },
        QueueKind::Report => after == taken && counts && ranges == reported(space, ds),
        QueueKind::Deflate => after == taken && counts && ranges.len() == 0,
    }
}

/// A step of working off a queue in which `chain` was taken, with `taken` as the accesses up to
/// then.
pub open spec fn stepped(
    kind: QueueKind,
    regions: Set<(u64, u64)>,
    start: (QueueRun, Queue, Seq<Access>),
    end: (QueueRun, Queue, Seq<Access>),
    ranges: Option<Seq<PageRange>>,
    taken: Seq<Access>,
    chain: Option<(u16, Seq<Descriptor>)>,
) -> bool {
    let space = addresses_in(regions);
    let run = settled(space, start.0, start.1, start.2).0;
    &&& next_chain_may(space, start, run, end.1, taken, chain)
    &&& match chain {
        Some((head, ds)) => {
            &&& ranges is Some
            &&& end.0.pending is Some
            &&& end.0 == pending(run, head, end.0.pending.unwrap().counts)
            &&& chain_worked(
                kind,
                regions,
                taken,
                ds,
                end.2,
                end.0.pending.unwrap().counts,
                ranges.unwrap(),
            )
        },
        None => end.0 == run && end.2 == taken && ranges is None,
    }
}

/// A way in which a step of working off a queue may go. Without `ranges`, the queue is empty.
pub open spec fn step_may(
    kind: QueueKind,
    regions: Set<(u64, u64)>,
    start: (QueueRun, Queue, Seq<Access>),
    end: (QueueRun, Queue, Seq<Access>),
    ranges: Option<Seq<PageRange>>,
) -> bool {
    exists|taken: Seq<Access>, chain: Option<(u16, Seq<Descriptor>)>|
        stepped(kind, regions, start, end, ranges, taken, chain)
}

/// The view of an optional list of ranges.
pub open spec fn ranges_view(ranges: Option<Vec<PageRange>>) -> Option<Seq<PageRange>> {
    match ranges {
        Some(v) => Some(v@),
        None => None,
    }
}

/// What a step of a queue that releases nothing gives.
pub open spec fn nothing_released(more: bool) -> Option<Seq<PageRange>> {
    if more {
        Some(Seq::empty())
    } else {
        None
    }
}

/// Gives the pending chain back and takes the next one.
fn next_chain(q: &mut Queue, mem: &mut GuestMemoryMmap<()>, run: &mut QueueRun) -> (r: Option<
    DescriptorChain,
>)
    ensures
        guest_regions(*final(mem)) == guest_regions(*old(mem)),
        next_chain_may(
            guest_addresses(*old(mem)),
            (*old(run), *old(q), accesses(*old(mem))),
            *final(run),
            *final(q),
            accesses(*final(mem)),
            match r {
                Some(chain) => Some((chain.index, chain.descriptors@)),
                None => None,
            },
        ),
{
    if let Some(chain) = run.pending {
        let _ = q.add_used(mem, chain.head, 0);
        run.have_used = run.have_used || chain.counts;
        run.pending = None;
    }
    q.pop(mem)
}

/// A step of the inflate queue, by which the guest gives up pages: what is to be released for the
/// next chain, or nothing if the queue is empty.
pub fn inflate_step(q: &mut Queue, mem: &mut GuestMemoryMmap<()>, run: &mut QueueRun) -> (r: Option<
    Vec<PageRange>,
>)
    ensures
        guest_regions(*final(mem)) == guest_regions(*old(mem)),
        step_may(
            QueueKind::Inflate,
            guest_regions(*old(mem)),
            (*old(run), *old(q), accesses(*old(mem))),
            (*final(run), *final(q), accesses(*final(mem))),
            ranges_view(r),
        ),
{
    let ghost regions = guest_regions(*mem);
    let ghost space = guest_addresses(*mem);
    let ghost start = (*run, *q, accesses(*mem));
    let ghost kind = QueueKind::Inflate;
    let chain: DescriptorChain = match next_chain(q, mem, run) {
        Some(chain) => chain,
        None => {
            let ghost end = (*run, *q, accesses(*mem));
            assert(stepped(kind, regions, start, end, None, end.2, None));
            return None;
        },
    };
    let ghost taken = accesses(*mem);
    let ghost ds = chain.descriptors@;
    match read_chain(mem, &chain.descriptors) {
        Some(bytes) => {
            run.pending = Some(PendingChain { head: chain.index, counts: true });
            let ranges = inflate(mem, &bytes);
            let ghost end = (*run, *q, accesses(*mem));
            assert(chain_read_may(space, taken, ds, end.2, Some(bytes@)));
            assert(chain_worked(kind, regions, taken, ds, end.2, true, ranges@));
            assert(stepped(
                kind,
                regions,
                start,
                end,
                Some(ranges@),
                taken,
                Some((chain.index, ds)),
            ));
            Some(ranges)
        },
        None => {
            run.pending = Some(PendingChain { head: chain.index, counts: false });
            let ranges: Vec<PageRange> = Vec::new();
            let ghost end = (*run, *q, accesses(*mem));
            assert(chain_read_may(space, taken, ds, end.2, None));
            assert(chain_worked(kind, regions, taken, ds, end.2, false, ranges@));
            assert(stepped(
                kind,
                regions,
                start,
                end,
                Some(ranges@),
                taken,
                Some((chain.index, ds)),
            ));
            Some(ranges)
        },
    }
}

/// A step of the free page reporting queue, by which the guest names pages that it does not use
/// for now: what may be released for the next chain, or nothing if the queue is empty.
pub fn report_step(q: &mut Queue, mem: &mut GuestMemoryMmap<()>, run: &mut QueueRun) -> (r: Option<
    Vec<PageRange>,
>)
    ensures
        guest_regions(*final(mem)) == guest_regions(*old(mem)),
        step_may(
            QueueKind::Report,
            guest_regions(*old(mem)),
            (*old(run), *old(q), accesses(*old(mem))),
            (*final(run), *final(q), accesses(*final(mem))),
            ranges_view(r),
        ),
{
    let ghost regions = guest_regions(*mem);
    let ghost space = guest_addresses(*mem);
    let ghost start = (*run, *q, accesses(*mem));
    let ghost kind = QueueKind::Report;
    let chain: DescriptorChain = match next_chain(q, mem, run) {
        Some(chain) => chain,
        None => {
            let ghost end = (*run, *q, accesses(*mem));
            assert(stepped(kind, regions, start, end, None, end.2, None));
            return None;
        },
    };
    run.pending = Some(PendingChain { head: chain.index, counts: true });
    let ds: &Vec<Descriptor> = &chain.descriptors;
    let mut ranges: Vec<PageRange> = Vec::new();
    for i in 0..ds.len()
        invariant
            space == guest_addresses(*mem),
            ranges@ == reported(space, ds@.take(i as int)),
    {
        assert(ds@.take(i + 1).drop_last() =~= ds@.take(i as int));
        if address_in_range(mem, ds[i].addr) {
            ranges.push(PageRange { guest_addr: ds[i].addr, len: ds[i].len as u64 });
        }
    }
    assert(ds@.take(ds@.len() as int) =~= ds@);
    let ghost end = (*run, *q, accesses(*mem));
    assert(stepped(
        kind,
        regions,
        start,
        end,
        Some(ranges@),
        end.2,
        Some((chain.index, chain.descriptors@)),
    ));
    Some(ranges)
}

/// A step of the deflate queue, by which the guest takes pages back: whether there was a chain.
pub fn deflate_step(q: &mut Queue, mem: &mut GuestMemoryMmap<()>, run: &mut QueueRun) -> (r: bool)
    ensures
        guest_regions(*final(mem)) == guest_regions(*old(mem)),
        step_may(
            QueueKind::Deflate,
            guest_regions(*old(mem)),
            (*old(run), *old(q), accesses(*old(mem))),
            (*final(run), *final(q), accesses(*final(mem))),
            nothing_released(r),
        ),
{
    let ghost regions = guest_regions(*mem);
    let ghost start = (*run, *q, accesses(*mem));
    let ghost kind = QueueKind::Deflate;
    match next_chain(q, mem, run) {
        Some(chain) => {
            run.pending = Some(PendingChain { head: chain.index, counts: true });
            let ghost end = (*run, *q, accesses(*mem));
            let ghost view = Some((chain.index, chain.descriptors@));
            assert(stepped(kind, regions, start, end, nothing_released(true), end.2, view));
            true
        },
        None => {
            let ghost end = (*run, *q, accesses(*mem));
            assert(stepped(kind, regions, start, end, nothing_released(false), end.2, None));
            false
        },
    }
}

/// `range` is the buffer of the descriptor `d`.
pub open spec fn names(d: Descriptor, range: PageRange) -> bool {
    d.addr == range.guest_addr && d.len == range.len
}

/// Pages reported as free are released where the guest said, all of them and nowhere else: each
/// range is the buffer of a descriptor of the chain that starts in mapped memory, and each such
/// buffer is among the ranges.
pub proof fn reported_pages_are_released(space: Set<u64>, ds: Seq<Descriptor>)
    ensures
        forall|i: int|
            0 <= i < reported(space, ds).len() ==> {
                &&& space.contains((#[trigger] reported(space, ds)[i]).guest_addr)
                &&& exists|k: int|
                    0 <= k < ds.len() && names(#[trigger] ds[k], reported(space, ds)[i])
            },
        forall|k: int|
            0 <= k < ds.len() && space.contains((#[trigger] ds[k]).addr) ==> exists|i: int|
                0 <= i < reported(space, ds).len() && names(
                    ds[k],
                    #[trigger] reported(space, ds)[i],
                ),
    decreases ds.len(),
{
    if ds.len() > 0 {
        let rest = ds.drop_last();
        reported_pages_are_released(space, rest);
        let all = reported(space, ds);
        let sub = reported(space, rest);
        assert forall|i: int| 0 <= i < all.len() implies {
            &&& space.contains((#[trigger] all[i]).guest_addr)
            &&& exists|k: int| 0 <= k < ds.len() && names(#[trigger] ds[k], all[i])
        } by {
            if i < sub.len() {
                assert(all[i] == sub[i]);
                let k = choose|k: int| 0 <= k < rest.len() && names(#[trigger] rest[k], sub[i]);
                assert(names(ds[k], all[i]));
            } else {
                assert(names(ds[ds.len() - 1], all[i]));
            }
        }
        assert forall|k: int|
            0 <= k < ds.len() && space.contains((#[trigger] ds[k]).addr) implies exists|i: int|
            0 <= i < all.len() && names(ds[k], #[trigger] all[i]) by {
            if k < rest.len() {
                assert(rest[k] == ds[k]);
                let i = choose|i: int| 0 <= i < sub.len() && names(rest[k], #[trigger] sub[i]);
                assert(all[i] == sub[i]);
                assert(names(ds[k], all[i]));
            } else {
                assert(names(ds[k], all[sub.len() as int]));
            }
        }
    }
}

/// Whatever the guest names, each range that a step of the inflate queue releases lies in one
/// region of its memory: nothing of a hole or past the end of a region is ever released.
pub proof fn inflate_stays_inside_regions(
    regions: Set<(u64, u64)>,
    start: (QueueRun, Queue, Seq<Access>),
    end: (QueueRun, Queue, Seq<Access>),
    ranges: Seq<PageRange>,
)
    requires
        step_may(QueueKind::Inflate, regions, start, end, Some(ranges)),
    ensures
        forall|i: int|
            0 <= i < ranges.len() ==> in_one_region(
                regions,
                (#[trigger] ranges[i]).guest_addr as int,
                ranges[i].len as int,
            ),
{
    let (taken, chain) = choose|taken: Seq<Access>, chain: Option<(u16, Seq<Descriptor>)>|
        stepped(QueueKind::Inflate, regions, start, end, Some(ranges), taken, chain);
    let (head, ds) = chain.unwrap();
    let bytes = choose|bytes: Option<Seq<u8>>|
        {
            &&& #[trigger] chain_read_may(addresses_in(regions), taken, ds, end.2, bytes)
            &&& match bytes {
                Some(bytes) => inflated(regions, bytes, ranges),
                None => ranges.len() == 0,
            }
        };
    if let Some(bytes) = bytes {
        named_pages_are_released(regions, bytes, ranges);
        assert forall|i: int| 0 <= i < ranges.len() implies in_one_region(
            regions,
            (#[trigger] ranges[i]).guest_addr as int,
            ranges[i].len as int,
        ) by {
            assert(range_of_pages(regions, ranges[i], page_numbers(bytes)));
        }
    }
}

/// A chain that was worked off.
pub struct WorkedChain {
    pub head: u16,
    pub ds: Seq<Descriptor>,
    /// Whether giving it back is something to notify the guest of.
    pub counts: bool,
    /// What was released for it.
    pub ranges: Seq<PageRange>,
}

/// The next chain of the queue `q` is `chain`: it is taken with the accesses `taken`, and what is
/// done for it leads to the accesses `worked`.
pub open spec fn next_worked(
    kind: QueueKind,
    regions: Set<(u64, u64)>,
    q: Queue,
    before: Seq<Access>,
    chain: WorkedChain,
    taken: Seq<Access>,
    worked: Seq<Access>,
) -> bool {
    &&& q.pop_may(addresses_in(regions), before, taken, Some((chain.head, chain.ds)))
    &&& chain_worked(kind, regions, taken, chain.ds, worked, chain.counts, chain.ranges)
}

/// Giving `chain` back with length zero after it was taken from the queue `q`: the queue and the
/// accesses afterwards.
pub open spec fn returned(
    regions: Set<(u64, u64)>,
    q: Queue,
    worked: Seq<Access>,
    chain: WorkedChain,
) -> (Queue, Seq<Access>) {
    let taken = Queue { next_avail: q.next_avail.wrapping_add(1), ..q };
    let (next, after, _) = taken.used_added(addresses_in(regions), worked, chain.head, 0);
    (next, after)
}

/// A way in which a queue may be worked off as a whole: each of `chains` is taken, dealt with and
/// given back with length zero before the next one is taken, until there is none.
#[verifier::opaque]
pub open spec fn worked_off(
    kind: QueueKind,
    regions: Set<(u64, u64)>,
    q0: Queue,
    t0: Seq<Access>,
    chains: Seq<WorkedChain>,
    q1: Queue,
    t1: Seq<Access>,
) -> bool
    decreases chains.len(),
{
    if chains.len() == 0 {
        q0.pop_may(addresses_in(regions), t0, t1, None) && q1 == q0
    } else {
        exists|taken: Seq<Access>, worked: Seq<Access>|
            {
                &&& #[trigger] next_worked(kind, regions, q0, t0, chains[0], taken, worked)
                &&& worked_off(
                    kind,
                    regions,
                    returned(regions, q0, worked, chains[0]).0,
                    returned(regions, q0, worked, chains[0]).1,
                    chains.skip(1),
                    q1,
                    t1,
                )
            }
    }
}

/// Some of `chains` counts.
pub open spec fn any_counts(chains: Seq<WorkedChain>) -> bool {
    exists|i: int| 0 <= i < chains.len() && (#[trigger] chains[i]).counts
}

/// `chains` are worked off from the queue and accesses of `start`, with `ranges` released, and
/// that leads to `end`.
pub open spec fn run_worked_off(
    kind: QueueKind,
    regions: Set<(u64, u64)>,
    start: (QueueRun, Queue, Seq<Access>),
    chains: Seq<WorkedChain>,
    ranges: Seq<Seq<PageRange>>,
    end: (QueueRun, Queue, Seq<Access>),
) -> bool {
    &&& worked_off(kind, regions, start.1, start.2, chains, end.1, end.2)
    &&& chains.len() == ranges.len()
    &&& forall|i: int| 0 <= i < chains.len() ==> (#[trigger] chains[i]).ranges == ranges[i]
    &&& end.0 == QueueRun { have_used: start.0.have_used || any_counts(chains), pending: None }
}

/// `states` are the states between the steps of a run, and `ranges` what each step gave, up to the
/// one that found the queue empty.
pub open spec fn run_of_steps(
    kind: QueueKind,
    regions: Set<(u64, u64)>,
    states: Seq<(QueueRun, Queue, Seq<Access>)>,
    ranges: Seq<Seq<PageRange>>,
) -> bool {
    let n = ranges.len() as int;
    &&& states.len() == n + 2
    &&& forall|i: int|
        0 <= i < n ==> step_may(
            kind,
            regions,
            #[trigger] states[i],
            states[i + 1],
            Some(ranges[i]),
        )
    &&& step_may(kind, regions, states[n], states[n + 1], None)
}

/// A run of steps works the queue off: the chains that it met were taken in order, and each was
/// given back exactly once, with length zero, before the next one was taken; none is left. The
/// guest is to be notified at the end exactly if one of them counts.
pub proof fn steps_work_off_the_queue(
    kind: QueueKind,
    regions: Set<(u64, u64)>,
    states: Seq<(QueueRun, Queue, Seq<Access>)>,
    ranges: Seq<Seq<PageRange>>,
)
    requires
        run_of_steps(kind, regions, states, ranges),
        states[0].0 == (QueueRun { have_used: false, pending: None }),
    ensures
        exists|chains: Seq<WorkedChain>|
            run_worked_off(kind, regions, states[0], chains, ranges, states.last()),
{
    let chains = steps_after_settling(kind, regions, states, ranges);
    assert(settled(addresses_in(regions), states[0].0, states[0].1, states[0].2) == states[0]);
    assert(run_worked_off(kind, regions, states[0], chains, ranges, states.last()));
}

/// The steps of a run work the queue off from the state in which the pending chain was given back;
/// returns the chains.
proof fn steps_after_settling(
    kind: QueueKind,
    regions: Set<(u64, u64)>,
    states: Seq<(QueueRun, Queue, Seq<Access>)>,
    ranges: Seq<Seq<PageRange>>,
) -> (chains: Seq<WorkedChain>)
    requires
        run_of_steps(kind, regions, states, ranges),
    ensures
        run_worked_off(
            kind,
            regions,
            settled(addresses_in(regions), states[0].0, states[0].1, states[0].2),
            chains,
            ranges,
            states.last(),
        ),
    decreases ranges.len(),
{
    reveal_with_fuel(worked_off, 1);
    let space = addresses_in(regions);
    let (run1, q1, t1) = settled(space, states[0].0, states[0].1, states[0].2);
    if ranges.len() == 0 {
        let (taken, chain) = choose|taken: Seq<Access>, chain: Option<(u16, Seq<Descriptor>)>|
            stepped(kind, regions, states[0], states[1], None, taken, chain);
        Seq::empty()
    } else {
        assert(step_may(kind, regions, states[0], states[0int + 1], Some(ranges[0])));
        let (taken, chain) = choose|taken: Seq<Access>, chain: Option<(u16, Seq<Descriptor>)>|
            stepped(kind, regions, states[0], states[1], Some(ranges[0]), taken, chain);
        let (head, ds) = chain.unwrap();
        let first = WorkedChain {
            head,
            ds,
            counts: states[1].0.pending.unwrap().counts,
            ranges: ranges[0],
        };
        let later = states.skip(1);
        let given = ranges.skip(1);
        assert forall|i: int| 0 <= i < given.len() implies step_may(
            kind,
            regions,
            #[trigger] later[i],
            later[i + 1],
            Some(given[i]),
        ) by {
            assert(later[i] == states[i + 1]);
            assert(step_may(
                kind,
                regions,
                states[i + 1],
                states[i + 1 + 1],
                Some(ranges[i + 1]),
            ));
        }
        let rest = steps_after_settling(kind, regions, later, given);
        let chains = seq![first] + rest;
        assert(chains.skip(1) =~= rest);
        assert(later.last() == states.last());
        let worked = states[1].2;
        assert(next_worked(kind, regions, q1, t1, chains[0], taken, worked));
        let (q2, t2) = returned(regions, q1, worked, first);
        assert(settled(space, later[0].0, later[0].1, later[0].2) == (
            QueueRun { have_used: run1.have_used || first.counts, pending: None },
            q2,
            t2,
        ));
        assert(worked_off(
            kind,
            regions,
            returned(regions, q1, worked, chains[0]).0,
            returned(regions, q1, worked, chains[0]).1,
            chains.skip(1),
            states.last().1,
            states.last().2,
        ));
        assert forall|i: int| 0 <= i < chains.len() implies (#[trigger] chains[i]).ranges
            == ranges[i] by {
            if i > 0 {
                assert(chains[i] == rest[i - 1]);
            }
        }
        assert(any_counts(chains) == (first.counts || any_counts(rest))) by {
            if any_counts(chains) {
                let i = choose|i: int| 0 <= i < chains.len() && (#[trigger] chains[i]).counts;
                if i > 0 {
                    assert(rest[i - 1].counts);
                }
            }
            if any_counts(rest) {
                let i = choose|i: int| 0 <= i < rest.len() && (#[trigger] rest[i]).counts;
                assert(chains[i + 1].counts);
            }
            if first.counts {
                assert(chains[0].counts);
            }
        }
        chains
    }
}

} // verus!
