//! What host and guest see of the balloon device.

use vstd::prelude::*;

use crate::balloon::device::{
    config_read, config_written, features, guest_writes_only_actual, written_config_reads_back,
    Balloon, DeviceState, VirtioBalloonConfig, DFQ_INDEX, FRQ_INDEX, IFQ_INDEX, PHQ_INDEX,
    STQ_INDEX,
};
use crate::balloon::drain::{nothing_released, ranges_view, QueueRun};
use crate::balloon::inflate::PageRange;
use crate::bytes::{le16, le16_bytes, le32, le32_bytes, le64};
use crate::guest::{accesses, guest_regions};
use crate::platform::Platform;
use crate::ring_laws::double_word;

verus! {

/// Integers are spelled with the least significant byte first.
pub proof fn integers_are_little_endian(b: Seq<u8>, at: int, half: u16, whole: u32)
    ensures
        le16(b, at) == b[at] + 256 * b[at + 1],
        le32(b, at) == double_word(b, at),
        le64(b, at) == double_word(b, at) + 4294967296 * double_word(b, at + 4),
        le16_bytes(half).len() == 2,
        le16_bytes(half)[0] + 256 * le16_bytes(half)[1] == half,
        le32_bytes(whole).len() == 4,
        double_word(le32_bytes(whole), 0) == whole,
{
}

/// The configuration space is four numbers of four bytes each: the target, what is in the balloon,
/// the command id of free page reports, and the poison value.
pub proof fn config_space_is_laid_out_in_order(config: VirtioBalloonConfig)
    ensures
        config.bytes().len() == 16,
        double_word(config.bytes(), 0) == config.num_pages,
        double_word(config.bytes(), 4) == config.actual,
        double_word(config.bytes(), 8) == config.free_page_report_cmd_id,
        double_word(config.bytes(), 12) == config.poison_val,
{
    let b = config.bytes();
    field_spells(b, 0, config.num_pages);
    field_spells(b, 4, config.actual);
    field_spells(b, 8, config.free_page_report_cmd_id);
    field_spells(b, 12, config.poison_val);
}

/// Four bytes of a sequence that are those of a number spell it.
proof fn field_spells(b: Seq<u8>, at: int, v: u32)
    requires
        0 <= at,
        at + 4 <= b.len(),
        forall|i: int| 0 <= i < 4 ==> b[at + i] == #[trigger] le32_bytes(v)[i],
    ensures
        double_word(b, at) == v,
{
    let part = le32_bytes(v);
    assert(b[at + 0] == part[0] && b[at + 1] == part[1] && b[at + 2] == part[2] && b[at + 3]
        == part[3]);
}

/// Whatever part of a configuration space is read, each byte of the buffer becomes the one at its
/// place, and stays as it was where there is none.
pub proof fn config_is_read_byte_by_byte(config: Seq<u8>, offset: u64, data: Seq<u8>, i: int)
    requires
        0 <= i < data.len(),
    ensures
        config_read(config, offset, data).len() == data.len(),
        config_read(config, offset, data)[i] == if offset + i < config.len() {
            config[offset + i]
        } else {
            data[i]
        },
{
}

/// A write that lies inside the bytes 4 to 7, however long, replaces the bytes that it is given, and
/// no others; any other write changes nothing.
pub proof fn config_is_written_byte_by_byte(
    config: VirtioBalloonConfig,
    offset: u64,
    data: Seq<u8>,
    i: int,
)
    requires
        0 <= i < 16,
    ensures
        config_written(config, offset, data).bytes()[i] == if 4 <= offset && offset + data.len()
            <= 8 && offset <= i < offset + data.len() {
            data[i - offset]
        } else {
            config.bytes()[i]
        },
        !(4 <= offset && offset + data.len() <= 8) ==> config_written(config, offset, data)
            == config,
{
    guest_writes_only_actual(config, offset, data);
    let after = config_written(config, offset, data).bytes();
    assert(config.bytes().len() == 16);
    if 4 <= offset && offset + data.len() <= 8 && offset <= i < offset + data.len() {
        let buffer = data;
        written_config_reads_back(config, offset, data, buffer);
        config_is_read_byte_by_byte(after, offset, buffer, i - offset);
    } else {
        assert(after[i] == config.bytes()[i]) by {
            if !(offset <= i < offset + data.len()) {
                assert(config.bytes()[i] == config.bytes()[i]);
            }
        }
    }
}

/// The device offers version 1 of virtio, statistics and page hinting, and free page reporting
/// except on macOS; nothing else.
pub proof fn features_are_the_offered_bits(platform: Platform)
    ensures
        features(platform) == if platform is Linux {
            0x1_0000_002au64
        } else {
            0x1_0000_000au64
        },
{
    assert(0x1_0000_0000u64 | 0x2u64 | 0x8u64 | 0x20u64 == 0x1_0000_002au64) by (bit_vector);
    assert(0x1_0000_0000u64 | 0x2u64 | 0x8u64 == 0x1_0000_000au64) by (bit_vector);
}

/// The queues come in the order inflate, deflate, statistics, page hinting, free page reporting.
pub proof fn queues_come_in_order()
    ensures
        IFQ_INDEX == 0,
        DFQ_INDEX == 1,
        STQ_INDEX == 2,
        PHQ_INDEX == 3,
        FRQ_INDEX == 4,
{
}

/// A device is up once it has the guest's memory and its queues, of which there are five.
pub proof fn device_is_up_with_its_queues(device: Balloon, run: QueueRun, index: int)
    ensures
        device.activated() <==> device.device_state is Activated,
        device.wf() <==> match device.device_state {
            DeviceState::Activated(_, queues) => queues@.len() == 5,
            DeviceState::Inactive => true,
        },
        match device.device_state {
            DeviceState::Activated(mem, queues) => device.at(run, index) == (
                run,
                queues@[index],
                accesses(mem),
            ) && guest_regions(device.mem()) == guest_regions(mem),
            DeviceState::Inactive => true,
        },
{
}

/// Working off one queue touches nothing else of the device.
pub proof fn other_parts_of_the_device_stay(a: Balloon, b: Balloon, index: int)
    requires
        a.same_but_queue(b, index),
    ensures
        b.avail_features == a.avail_features,
        b.acked_features == a.acked_features,
        b.config == a.config,
        match (a.device_state, b.device_state) {
            (DeviceState::Activated(mem, queues), DeviceState::Activated(mem1, queues1)) => {
                &&& guest_regions(mem1) == guest_regions(mem)
                &&& queues1@.len() == queues@.len()
                &&& forall|i: int|
                    0 <= i < queues@.len() && i != index ==> queues1@[i] == #[trigger] queues@[i]
            },
            (DeviceState::Inactive, DeviceState::Inactive) => true,
            _ => false,
        },
{
    if a.activated() {
        assert(a.queues() == a.device_state->Activated_1@);
    }
}

/// What a step gives is seen as what it released.
pub proof fn given_ranges_are_released(ranges: Vec<PageRange>)
    ensures
        ranges_view(Some(ranges)) == Some(ranges@),
        ranges_view(None) is None,
        nothing_released(true) is Some && nothing_released(true).unwrap().len() == 0,
        nothing_released(false) is None,
{
}

} // verus!
