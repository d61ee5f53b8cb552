//! Access to the physical memory of the guest.
//!
//! The memory is a `vm_memory::GuestMemoryMmap`: a fixed collection of mapped regions whose bytes
//! the guest may change at any moment. So a load can return anything, and what is stated of a
//! device is stated over the accesses that it made: where it loaded from and what it got there,
//! where it stored and what.

use vm_memory::{Bytes, GuestAddress, GuestMemory, GuestMemoryError, GuestMemoryMmap};
use vstd::prelude::*;

use crate::bytes::{get_le16, le16_bytes, le16_round_trip};

verus! {

/// The mapped memory of a guest.
#[verifier::external_type_specification]
#[verifier::external_body]
#[verifier::reject_recursive_types(B)]
pub struct ExGuestMemoryMmap<B>(vm_memory::GuestMemoryMmap<B>);

/// Why an access to guest memory failed.
#[verifier::external_type_specification]
#[verifier::external_body]
pub struct ExGuestMemoryError(vm_memory::GuestMemoryError);

/// The regions of `mem`: the first guest address and the length of each.
pub uninterp spec fn guest_regions(mem: GuestMemoryMmap<()>) -> Set<(u64, u64)>;

/// The accesses made through the handle `mem`, oldest first: for each whether it was a store, the
/// guest address of its first byte, and the bytes that were moved. What the guest itself, or
/// another handle, does to the memory is not among them.
pub uninterp spec fn accesses(mem: GuestMemoryMmap<()>) -> Seq<(bool, u64, Seq<u8>)>;

/// An access of the device to guest memory, as `accesses` records it.
pub type Access = (bool, u64, Seq<u8>);

/// `addr` lies in the region `region`.
pub open spec fn in_region(region: (u64, u64), addr: int) -> bool {
    region.0 <= addr < region.0 + region.1
}

/// The guest addresses that lie in one of `regions`.
#[verifier::opaque]
pub open spec fn addresses_in(regions: Set<(u64, u64)>) -> Set<u64> {
    Set::new(
        |addr: u64|
            exists|region: (u64, u64)| #[trigger]
                regions.contains(region) && in_region(region, addr as int),
    )
}

/// The guest addresses that lie in a region of `mem`.
pub open spec fn guest_addresses(mem: GuestMemoryMmap<()>) -> Set<u64> {
    addresses_in(guest_regions(mem))
}

/// The `len` bytes from `addr` on lie in one of `regions`.
pub open spec fn in_one_region(regions: Set<(u64, u64)>, addr: int, len: int) -> bool {
    exists|region: (u64, u64)| #[trigger]
        regions.contains(region) && region.0 <= addr && addr + len <= region.0 + region.1
}

/// The record of a load that got `data` from `addr`.
pub open spec fn load(addr: u64, data: Seq<u8>) -> Access {
    (false, addr, data)
}

/// The record of a store of `data` at `addr`.
pub open spec fn store(addr: u64, data: Seq<u8>) -> Access {
    (true, addr, data)
}

/// The guest address `addr` is mapped.
pub open spec fn mapped_at(space: Set<u64>, addr: int) -> bool {
    0 <= addr <= u64::MAX && space.contains(addr as u64)
}

/// How many of the `len` bytes from `addr` on come before the first unmapped one.
pub open spec fn mapped_prefix(space: Set<u64>, addr: int, len: nat) -> nat
    decreases len,
{
    if len == 0 || !mapped_at(space, addr) {
        0
    } else {
        1 + mapped_prefix(space, addr + 1, (len - 1) as nat)
    }
}

/// An access of `len` bytes at `addr` succeeds: the first address is mapped, and so is each one
/// that a byte goes to.
pub open spec fn range_mapped(space: Set<u64>, addr: int, len: nat) -> bool {
    &&& mapped_at(space, addr)
    &&& forall|i: int| addr <= i < addr + len ==> #[trigger] mapped_at(space, i)
}

/// The accesses `before`, and then a store of `data` at `addr`, of which as many bytes arrive as
/// there is mapped memory for.
pub open spec fn after_store(before: Seq<Access>, space: Set<u64>, addr: u64, data: Seq<u8>) -> Seq<
    Access,
> {
    before.push(store(addr, data.take(mapped_prefix(space, addr as int, data.len()) as int)))
}

/// What the device itself last stored at exactly `addr`.
pub open spec fn last_stored(trace: Seq<Access>, addr: u64) -> Option<Seq<u8>>
    decreases trace.len(),
{
    if trace.len() == 0 {
        None
    } else if trace.last().0 && trace.last().1 == addr {
        Some(trace.last().2)
    } else {
        last_stored(trace.drop_last(), addr)
    }
}

/// The mapped prefix of a range is all of it exactly if every byte of the range is mapped.
pub proof fn mapped_prefix_is_whole(space: Set<u64>, addr: int, len: nat)
    ensures
        mapped_prefix(space, addr, len) <= len,
        mapped_prefix(space, addr, len) == len <==> (forall|i: int|
            addr <= i < addr + len ==> #[trigger] mapped_at(space, i)),
    decreases len,
{
    if len > 0 {
        mapped_prefix_is_whole(space, addr + 1, (len - 1) as nat);
        if mapped_prefix(space, addr, len) == len {
            assert forall|i: int| addr <= i < addr + len implies #[trigger] mapped_at(space, i) by {
                if i > addr {
                }
            }
        } else if forall|i: int| addr <= i < addr + len ==> #[trigger] mapped_at(space, i) {
            assert(mapped_at(space, addr));
        }
    }
}

/// What lies in one region is mapped.
pub proof fn one_region_is_mapped(regions: Set<(u64, u64)>, addr: int, len: int)
    requires
        in_one_region(regions, addr, len),
        len > 0,
        addr + len <= u64::MAX,
    ensures
        range_mapped(addresses_in(regions), addr, len as nat),
{
    reveal(addresses_in);
    let region = choose|region: (u64, u64)| #[trigger]
        regions.contains(region) && region.0 <= addr && addr + len <= region.0 + region.1;
    assert forall|i: int| addr <= i < addr + len implies #[trigger] mapped_at(
        addresses_in(regions),
        i,
    ) by {
        assert(regions.contains(region) && in_region(region, (i as u64) as int));
    }
    assert(mapped_at(addresses_in(regions), addr));
}

/// A part of a mapped range is mapped.
pub proof fn sub_range_mapped(space: Set<u64>, addr: int, len: nat, part: int, part_len: nat)
    requires
        range_mapped(space, addr, len),
        addr <= part,
        part + part_len <= addr + len,
        part < addr + len,
    ensures
        range_mapped(space, part, part_len),
{
    assert(mapped_at(space, part));
}

/// A store that meets mapped memory only is what was last stored there.
pub proof fn whole_store_is_last(before: Seq<Access>, space: Set<u64>, addr: u64, data: Seq<u8>)
    requires
        range_mapped(space, addr as int, data.len()),
    ensures
        last_stored(after_store(before, space, addr, data), addr) == Some(data),
{
    mapped_prefix_is_whole(space, addr as int, data.len());
    assert(data.take(data.len() as int) =~= data);
}

/// `GuestMemory::address_in_range` of `vm_memory`: whether `addr` lies in some region.
#[verifier::external_body]
pub(crate) fn address_in_range(mem: &GuestMemoryMmap<()>, addr: u64) -> (r: bool)
    ensures
        r == guest_addresses(*mem).contains(addr),
{
    mem.address_in_range(GuestAddress(addr))
}

/// `GuestMemory::check_range` of `vm_memory`: whether an access of `len` bytes at `addr` would
/// meet mapped memory only. With `len` zero it still asks for `addr` to be mapped.
#[verifier::external_body]
pub(crate) fn check_range(mem: &GuestMemoryMmap<()>, addr: u64, len: usize) -> (r: bool)
    ensures
        r == range_mapped(guest_addresses(*mem), addr as int, len as nat),
{
    mem.check_range(GuestAddress(addr), len)
}

/// `GuestMemory::get_slice` of `vm_memory`: whether the `len` bytes from `addr` on can be had as one
/// slice, which is so if they lie in one region.
#[verifier::external_body]
pub(crate) fn check_one_region(mem: &GuestMemoryMmap<()>, addr: u64, len: usize) -> (r: bool)
    requires
        len > 0,
    ensures
        r == in_one_region(guest_regions(*mem), addr as int, len as int),
{
    mem.get_slice(GuestAddress(addr), len).is_ok()
}

/// `Bytes::read_slice` of `vm_memory`: fills `buf[start..end]` from the guest memory at `addr`,
/// up to the first unmapped byte, and succeeds if there was none. Which bytes come is not stated,
/// since the guest writes the memory too; they are recorded as loaded.
#[verifier::external_body]
pub(crate) fn read_slice(
    mem: &mut GuestMemoryMmap<()>,
    buf: &mut Vec<u8>,
    start: usize,
    end: usize,
    addr: u64,
) -> (r: Result<(), GuestMemoryError>)
    requires
        start <= end <= old(buf)@.len(),
    ensures
        guest_regions(*final(mem)) == guest_regions(*old(mem)),
        r is Ok <==> range_mapped(guest_addresses(*old(mem)), addr as int, (end - start) as nat),
        final(buf)@.len() == old(buf)@.len(),
        ({
            let n = mapped_prefix(guest_addresses(*old(mem)), addr as int, (end - start) as nat);
            &&& forall|i: int|
                0 <= i < old(buf)@.len() && !(start <= i < start + n) ==> #[trigger] final(buf)@[i]
                    == old(buf)@[i]
            &&& accesses(*final(mem)) == accesses(*old(mem)).push(
                load(addr, final(buf)@.subrange(start as int, start + n)),
            )
        }),
{
    mem.read_slice(&mut buf[start..end], GuestAddress(addr))
}

/// `Bytes::write_slice` of `vm_memory`: stores `data[start..end]` at `addr`, up to the first
/// unmapped byte, and succeeds if there was none.
#[verifier::external_body]
pub(crate) fn write_slice(
    mem: &mut GuestMemoryMmap<()>,
    data: &Vec<u8>,
    start: usize,
    end: usize,
    addr: u64,
) -> (r: Result<(), GuestMemoryError>)
    requires
        start <= end <= data@.len(),
    ensures
        guest_regions(*final(mem)) == guest_regions(*old(mem)),
        r is Ok <==> range_mapped(guest_addresses(*old(mem)), addr as int, (end - start) as nat),
        accesses(*final(mem)) == after_store(
            accesses(*old(mem)),
            guest_addresses(*old(mem)),
            addr,
            data@.subrange(start as int, end as int),
        ),
{
    mem.write_slice(&data[start..end], GuestAddress(addr))
}

/// `std::sync::atomic::fence` with sequential consistency, between accesses whose order the guest
/// relies on. Nothing is stated of it: it changes no value.
#[verifier::external_body]
pub(crate) fn fence() {
    std::sync::atomic::fence(std::sync::atomic::Ordering::SeqCst)
}

/// Loads `len` bytes from `addr`; nothing if they are not all mapped.
pub fn load_bytes(mem: &mut GuestMemoryMmap<()>, addr: u64, len: usize) -> (r: Option<Vec<u8>>)
    ensures
        guest_regions(*final(mem)) == guest_regions(*old(mem)),
        r is Some <==> range_mapped(guest_addresses(*old(mem)), addr as int, len as nat),
        match r {
            Some(data) => {
                &&& data@.len() == len
                &&& accesses(*final(mem)) == accesses(*old(mem)).push(load(addr, data@))
            },
            None => accesses(*final(mem)) == accesses(*old(mem)),
        },
{
    if !check_range(mem, addr, len) {
        return None;
    }
    let mut data: Vec<u8> = vec![0u8; len];
    let _ = read_slice(mem, &mut data, 0, len, addr);
    proof {
        mapped_prefix_is_whole(guest_addresses(*old(mem)), addr as int, len as nat);
        assert(data@.subrange(0, len as int) =~= data@);
    }
    Some(data)
}

/// Loads the 16-bit little-endian integer at `addr`; nothing if its bytes are not mapped.
pub fn load_u16(mem: &mut GuestMemoryMmap<()>, addr: u64) -> (r: Option<u16>)
    ensures
        guest_regions(*final(mem)) == guest_regions(*old(mem)),
        r is Some <==> range_mapped(guest_addresses(*old(mem)), addr as int, 2),
        match r {
            Some(v) => accesses(*final(mem)) == accesses(*old(mem)).push(load(addr, le16_bytes(v))),
            None => accesses(*final(mem)) == accesses(*old(mem)),
        },
{
    match load_bytes(mem, addr, 2) {
        Some(data) => {
            proof {
                le16_round_trip(data@);
            }
            Some(get_le16(data.as_slice(), 0))
        },
        None => None,
    }
}

/// Stores `data` at `addr`, as far as the memory there is mapped. Tells whether all of it was.
pub fn store_bytes(mem: &mut GuestMemoryMmap<()>, addr: u64, data: &Vec<u8>) -> (r: bool)
    ensures
        guest_regions(*final(mem)) == guest_regions(*old(mem)),
        r <==> range_mapped(guest_addresses(*old(mem)), addr as int, data@.len()),
        accesses(*final(mem)) == after_store(
            accesses(*old(mem)),
            guest_addresses(*old(mem)),
            addr,
            data@,
        ),
{
    proof {
        assert(data@.subrange(0, data@.len() as int) =~= data@);
    }
    match write_slice(mem, data, 0, data.len(), addr) {
        Ok(_) => true,
        Err(_) => false,
    }
}

} // verus!
