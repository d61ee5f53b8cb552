//! The balloon device.

use vm_memory::GuestMemoryMmap;
use vstd::prelude::*;

use crate::balloon::drain::{
    deflate_step, inflate_step, nothing_released, ranges_view, report_step, step_may, QueueKind,
    QueueRun,
};
use crate::balloon::inflate::PageRange;
use crate::bytes::{get_le32, le32, le32_bytes, le32_bytes_round_trip, le32_round_trip, push_le32};
use crate::guest::{accesses, guest_regions, Access};
use crate::platform::Platform;
use crate::queue::{Queue, QueueConfig};

verus! {

/// The inflate queue.
pub const IFQ_INDEX: usize = 0;

/// The deflate queue.
pub const DFQ_INDEX: usize = 1;

/// The statistics queue.
pub const STQ_INDEX: usize = 2;

/// The page hinting queue.
pub const PHQ_INDEX: usize = 3;

/// The free page reporting queue.
pub const FRQ_INDEX: usize = 4;

/// How many queues the device has.
pub const NUM_QUEUES: usize = 5;

/// The largest size of each queue.
pub const QUEUE_SIZE: u16 = 256;

/// Identifier of the device.
pub const BALLOON_DEV_ID: &'static str = "virtio_balloon";

/// The device type of balloons.
pub const VIRTIO_ID_BALLOON: u32 = 5;

/// Feature bit: the device follows version 1 of virtio.
pub const VIRTIO_F_VERSION_1: u64 = 0x1_0000_0000;

/// Feature bit: there is a statistics queue.
pub const VIRTIO_BALLOON_F_STATS_VQ: u64 = 0x2;

/// Feature bit: there is a page hinting queue.
pub const VIRTIO_BALLOON_F_FREE_PAGE_HINT: u64 = 0x8;

/// Feature bit: there is a free page reporting queue.
pub const VIRTIO_BALLOON_F_REPORTING: u64 = 0x20;

/// The features of the device on `platform`. Free page reporting is left out on macOS, where
/// advice alone releases nothing.
pub open spec fn features(platform: Platform) -> u64 {
    match platform {
        Platform::Linux => VIRTIO_F_VERSION_1 | VIRTIO_BALLOON_F_STATS_VQ
            | VIRTIO_BALLOON_F_FREE_PAGE_HINT | VIRTIO_BALLOON_F_REPORTING,
        Platform::MacOs => VIRTIO_F_VERSION_1 | VIRTIO_BALLOON_F_STATS_VQ
            | VIRTIO_BALLOON_F_FREE_PAGE_HINT,
    }
}

/// Length of the configuration space.
pub const CONFIG_LEN: usize = 16;

/// The configuration space, which host and guest share.
#[derive(Clone, Copy, Debug, PartialEq, Eq, Structural)]
pub struct VirtioBalloonConfig {
    /// Number of pages that the host wants the guest to give up.
    pub num_pages: u32,
    /// Number of pages that are in the balloon, as the guest reports it.
    pub actual: u32,
    /// Command id of free page reports, read only for the guest.
    pub free_page_report_cmd_id: u32,
    /// The pattern that the guest poisons free pages with, if it does.
    pub poison_val: u32,
}

impl VirtioBalloonConfig {
    /// The configuration space as the guest sees it.
    pub open spec fn bytes(self) -> Seq<u8> {
        le32_bytes(self.num_pages) + le32_bytes(self.actual) + le32_bytes(
            self.free_page_report_cmd_id,
        ) + le32_bytes(self.poison_val)
    }

    /// The configuration space as the guest sees it.
    pub fn to_bytes(&self) -> (r: Vec<u8>)
        ensures
            r@ == self.bytes(),
            r@.len() == CONFIG_LEN,
    {
        let mut r: Vec<u8> = Vec::with_capacity(CONFIG_LEN);
        push_le32(&mut r, self.num_pages);
        push_le32(&mut r, self.actual);
        push_le32(&mut r, self.free_page_report_cmd_id);
        push_le32(&mut r, self.poison_val);
        assert(r@ =~= self.bytes());
        r
    }
}

/// Whether the driver has brought the device up.
pub enum DeviceState {
    Inactive,
    /// The device is up, with the memory of the guest and its queues.
    Activated(GuestMemoryMmap<()>, Vec<Queue>),
}

/// Why the device could not be brought up.
#[derive(Clone, Copy, Debug, PartialEq, Eq, Structural)]
pub enum ActivateError {
    BadActivate,
}

/// The balloon device.
pub struct Balloon {
    pub avail_features: u64,
    pub acked_features: u64,
    pub device_state: DeviceState,
    pub config: VirtioBalloonConfig,
}

/// What the guest reads of the configuration space `config` when it asks for the bytes from
/// `offset` on, into a buffer that held `data`.
pub open spec fn config_read(config: Seq<u8>, offset: u64, data: Seq<u8>) -> Seq<u8> {
    if offset >= config.len() {
        data
    } else {
        let n = if data.len() <= config.len() - offset {
            data.len() as int
        } else {
            config.len() - offset
        };
        config.subrange(offset as int, offset + n) + data.skip(n)
    }
}

/// The bytes `data` lie inside the field `actual` if written at `offset`.
pub open spec fn inside_actual(offset: u64, data: Seq<u8>) -> bool {
    4 <= offset && offset + data.len() <= 8
}

/// The configuration after the guest wrote `data` at `offset`. Only `actual` can be written.
pub open spec fn config_written(
    config: VirtioBalloonConfig,
    offset: u64,
    data: Seq<u8>,
) -> VirtioBalloonConfig {
    if inside_actual(offset, data) {
        let field = le32_bytes(config.actual);
        let at = offset - 4;
        VirtioBalloonConfig {
            actual: le32(field.take(at) + data + field.skip(at + data.len()), 0),
            ..config
        }
    } else {
        config
    }
}

impl Balloon {
    /// The device is up.
    pub open spec fn activated(&self) -> bool {
        self.device_state is Activated
    }

    /// The guest's memory, once the device is up.
    pub open spec fn mem(self) -> GuestMemoryMmap<()> {
        self.device_state->Activated_0
    }

    /// The queues, once the device is up.
    pub open spec fn queues(self) -> Seq<Queue> {
        self.device_state->Activated_1@
    }

    /// A device that is up has all its queues.
    pub open spec fn wf(self) -> bool {
        self.activated() ==> self.queues().len() == NUM_QUEUES
    }

    /// Nothing but the queue at `index` and the record of guest memory accesses differs.
    pub open spec fn same_but_queue(self, other: Balloon, index: int) -> bool {
        &&& other.avail_features == self.avail_features
        &&& other.acked_features == self.acked_features
        &&& other.config == self.config
        &&& other.activated() == self.activated()
        &&& self.activated() ==> {
            &&& guest_regions(other.mem()) == guest_regions(self.mem())
            &&& other.queues().len() == self.queues().len()
            &&& forall|i: int|
                0 <= i < self.queues().len() && i != index ==> other.queues()[i]
                    == #[trigger] self.queues()[i]
        }
    }

    /// The part of the device that working off the queue at `index` is about.
    pub open spec fn at(self, run: QueueRun, index: int) -> (QueueRun, Queue, Seq<Access>) {
        (run, self.queues()[index], accesses(self.mem()))
    }

    /// A new device, with an empty balloon and no target.
    pub fn new(platform: Platform) -> (r: Balloon)
        ensures
            r.wf(),
            !r.activated(),
            r.avail_features == features(platform),
            r.acked_features == 0,
            r.config == (VirtioBalloonConfig {
                num_pages: 0,
                actual: 0,
                free_page_report_cmd_id: 0,
                poison_val: 0,
            }),
    {
        let common: u64 = VIRTIO_F_VERSION_1 | VIRTIO_BALLOON_F_STATS_VQ
            | VIRTIO_BALLOON_F_FREE_PAGE_HINT;
        Balloon {
            avail_features: match platform {
                Platform::Linux => common | VIRTIO_BALLOON_F_REPORTING,
                Platform::MacOs => common,
            },
            acked_features: 0,
            device_state: DeviceState::Inactive,
            config: VirtioBalloonConfig {
                num_pages: 0,
                actual: 0,
                free_page_report_cmd_id: 0,
                poison_val: 0,
            },
        }
    }

    pub fn id(&self) -> (r: &str)
        ensures
            r@ == BALLOON_DEV_ID@,
            r@ == "virtio_balloon"@,
    {
        BALLOON_DEV_ID
    }

    /// Sets the balloon target, the number of 4 KiB pages that the host wants the guest to give
    /// up. Returns whether the guest is to be told of a changed configuration, which is so once
    /// the device is up.
    pub fn set_num_pages(&mut self, num_pages: u32) -> (signal: bool)
        ensures
            signal == old(self).activated(),
            *final(self) == (Balloon {
                config: VirtioBalloonConfig { num_pages, ..old(self).config },
                ..*old(self)
            }),
    {
        self.config.num_pages = num_pages;
        self.is_activated()
    }

    /// The current balloon target.
    pub fn num_pages(&self) -> (r: u32)
        ensures
            r == self.config.num_pages,
    {
        self.config.num_pages
    }

    /// The number of pages in the balloon, as reported by the guest.
    pub fn actual(&self) -> (r: u32)
        ensures
            r == self.config.actual,
    {
        self.config.actual
    }

    /// A step of working off the free page reporting queue. These pages are advisory: the guest
    /// may use them again at any time. Nothing is done by a device that is not up.
    pub fn process_frq(&mut self, run: &mut QueueRun) -> (r: Option<Vec<PageRange>>)
        requires
            old(self).wf(),
        ensures
            final(self).wf(),
            old(self).same_but_queue(*final(self), FRQ_INDEX as int),
            old(self).same_but_queue(*final(self), 4),
            !old(self).activated() ==> r is None && *final(run) == *old(run),
            old(self).activated() ==> step_may(
                QueueKind::Report,
                guest_regions(old(self).mem()),
                old(self).at(*old(run), FRQ_INDEX as int),
                final(self).at(*final(run), FRQ_INDEX as int),
                ranges_view(r),
            ),
    {
        match &mut self.device_state {
            DeviceState::Activated(mem, queues) => report_step(&mut queues[FRQ_INDEX], mem, run),
            DeviceState::Inactive => None,
        }
    }

    /// A step of working off the inflate queue. The guest will not access the pages that it gives
    /// up until it deflates the balloon. Nothing is done by a device that is not up.
    pub fn process_ifq(&mut self, run: &mut QueueRun) -> (r: Option<Vec<PageRange>>)
        requires
            old(self).wf(),
        ensures
            final(self).wf(),
            old(self).same_but_queue(*final(self), IFQ_INDEX as int),
            old(self).same_but_queue(*final(self), 0),
            !old(self).activated() ==> r is None && *final(run) == *old(run),
            old(self).activated() ==> step_may(
                QueueKind::Inflate,
                guest_regions(old(self).mem()),
                old(self).at(*old(run), IFQ_INDEX as int),
                final(self).at(*final(run), IFQ_INDEX as int),
                ranges_view(r),
            ),
    {
        match &mut self.device_state {
            DeviceState::Activated(mem, queues) => inflate_step(&mut queues[IFQ_INDEX], mem, run),
            DeviceState::Inactive => None,
        }
    }

    /// A step of working off the deflate queue: whether there was a chain. The host has nothing to
    /// do for pages that the guest takes back. Nothing is done by a device that is not up.
    pub fn process_dfq(&mut self, run: &mut QueueRun) -> (r: bool)
        requires
            old(self).wf(),
        ensures
            final(self).wf(),
            old(self).same_but_queue(*final(self), DFQ_INDEX as int),
            old(self).same_but_queue(*final(self), 1),
            !old(self).activated() ==> !r && *final(run) == *old(run),
            old(self).activated() ==> step_may(
                QueueKind::Deflate,
                guest_regions(old(self).mem()),
                old(self).at(*old(run), DFQ_INDEX as int),
                final(self).at(*final(run), DFQ_INDEX as int),
                nothing_released(r),
            ),
    {
        match &mut self.device_state {
            DeviceState::Activated(mem, queues) => deflate_step(&mut queues[DFQ_INDEX], mem, run),
            DeviceState::Inactive => false,
        }
    }

    pub fn avail_features(&self) -> (r: u64)
        ensures
            r == self.avail_features,
    {
        self.avail_features
    }

    pub fn acked_features(&self) -> (r: u64)
        ensures
            r == self.acked_features,
    {
        self.acked_features
    }

    pub fn set_acked_features(&mut self, acked_features: u64)
        ensures
            *final(self) == (Balloon { acked_features, ..*old(self) }),
    {
        self.acked_features = acked_features;
    }

    pub fn device_type(&self) -> (r: u32)
        ensures
            r == VIRTIO_ID_BALLOON,
            r == 5,
    {
        VIRTIO_ID_BALLOON
    }

    pub fn device_name(&self) -> (r: &str)
        ensures
            r@ == "balloon"@,
    {
        "balloon"
    }

    /// What the queues of the device are made with.
    pub fn queue_config(&self) -> (r: Vec<QueueConfig>)
        ensures
            r@ == Seq::new(NUM_QUEUES as nat, |i: int| QueueConfig { size: QUEUE_SIZE }),
            r@.len() == 5,
            forall|i: int| 0 <= i < 5 ==> (#[trigger] r@[i]).size == 256,
    {
        let mut r: Vec<QueueConfig> = Vec::with_capacity(NUM_QUEUES);
        for i in 0..NUM_QUEUES
            invariant
                r@ == Seq::new(i as nat, |i: int| QueueConfig { size: QUEUE_SIZE }),
        {
            r.push(QueueConfig::new(QUEUE_SIZE));
            assert(r@ =~= Seq::new((i + 1) as nat, |i: int| QueueConfig { size: QUEUE_SIZE }));
        }
        r
    }

    /// Reads the configuration space from `offset` on. What lies behind its end stays as it was.
    pub fn read_config(&self, offset: u64, data: &mut [u8])
        ensures
            final(data)@ == config_read(self.config.bytes(), offset, old(data)@),
    {
        let config: Vec<u8> = self.config.to_bytes();
        if offset >= config.len() as u64 {
            return;
        }
        let at: usize = offset as usize;
        let ghost before = data@;
        let room: usize = config.len() - at;
        let n: usize = if data.len() <= room {
            data.len()
        } else {
            room
        };
        assert(data.len() == before.len());
        for i in 0..n
            invariant
                n <= before.len(),
                at + n <= config@.len(),
                config@.len() == CONFIG_LEN,
                data@.len() == before.len(),
                forall|j: int| 0 <= j < i ==> data@[j] == config@[at + j],
                forall|j: int| i <= j < before.len() ==> data@[j] == before[j],
        {
            data[i] = config[at + i];
        }
        assert(data@ =~= config@.subrange(at as int, at + n) + before.skip(n as int));
    }

    /// Writes the configuration space, which the guest's driver does to report how many pages are
    /// in the balloon. A write that reaches beyond that field is ignored.
    pub fn write_config(&mut self, offset: u64, data: &[u8])
        ensures
            *final(self) == (Balloon {
                config: config_written(old(self).config, offset, data@),
                ..*old(self)
            }),
    {
        if offset < 4 || offset > 8 || data.len() > (8 - offset) as usize {
            return;
        }
        let at: usize = (offset - 4) as usize;
        let mut field: Vec<u8> = Vec::with_capacity(4);
        push_le32(&mut field, self.config.actual);
        let ghost before = field@;
        assert(before =~= le32_bytes(self.config.actual));
        for i in 0..data.len()
            invariant
                at + data@.len() <= 4,
                before.len() == 4,
                field@ == before.take(at as int) + data@.take(i as int) + before.skip(at + i),
        {
            field.set(at + i, data[i]);
            assert(field@ =~= before.take(at as int) + data@.take(i + 1) + before.skip(at + i + 1));
        }
        assert(data@.take(data@.len() as int) =~= data@);
        self.config.actual = get_le32(field.as_slice(), 0);
    }

    /// Whether the device can be brought up with `count` queues.
    pub fn check_queues(&self, count: usize) -> (r: Result<(), ActivateError>)
        ensures
            r == if count == NUM_QUEUES {
                Ok(())
            } else {
                Err::<(), ActivateError>(ActivateError::BadActivate)
            },
            r is Ok <==> count == 5,
    {
        if count != NUM_QUEUES {
            Err(ActivateError::BadActivate)
        } else {
            Ok(())
        }
    }

    /// Brings the device up, where `announced` says that the activation event was written.
    /// Returns whether the guest is to be told of a changed configuration, so that it starts to
    /// inflate: there may be a target already.
    pub fn activate(
        &mut self,
        mem: GuestMemoryMmap<()>,
        queues: Vec<Queue>,
        announced: bool,
    ) -> (r: Result<bool, ActivateError>)
        requires
            old(self).wf(),
        ensures
            final(self).wf(),
            match r {
                Ok(signal) => {
                    &&& queues@.len() == NUM_QUEUES && announced
                    &&& signal == (old(self).config.num_pages > 0)
                    &&& *final(self) == (Balloon {
                        device_state: DeviceState::Activated(mem, queues),
                        ..*old(self)
                    })
                },
                Err(e) => {
                    &&& queues@.len() != NUM_QUEUES || !announced
                    &&& e == ActivateError::BadActivate
                    &&& *final(self) == *old(self)
                },
            },
    {
        self.check_queues(queues.len())?;
        if !announced {
            return Err(ActivateError::BadActivate);
        }
        self.device_state = DeviceState::Activated(mem, queues);
        Ok(self.config.num_pages > 0)
    }

    /// Whether the device is up.
    pub fn is_activated(&self) -> (r: bool)
        ensures
            r == self.activated(),
    {
        match self.device_state {
            DeviceState::Activated(_, _) => true,
            DeviceState::Inactive => false,
        }
    }
}

/// What the guest writes to the field `actual` is what it reads there.
pub proof fn written_config_reads_back(
    config: VirtioBalloonConfig,
    offset: u64,
    data: Seq<u8>,
    buffer: Seq<u8>,
)
    requires
        inside_actual(offset, data),
        buffer.len() == data.len(),
    ensures
        config_read(config_written(config, offset, data).bytes(), offset, buffer) == data,
{
    let field = le32_bytes(config.actual);
    let at = offset - 4;
    let spliced = field.take(at) + data + field.skip(at + data.len());
    let written = config_written(config, offset, data);
    assert(spliced.len() == 4);
    le32_bytes_round_trip(spliced);
    assert(le32_bytes(written.actual) =~= spliced);
    assert(written.bytes().len() == CONFIG_LEN);
    assert forall|i: int| 0 <= i < data.len() implies written.bytes()[offset + i] == data[i] by {
        assert(written.bytes()[offset + i] == spliced[at + i]);
    }
    assert(config_read(written.bytes(), offset, buffer) =~= data);
}

/// The guest cannot write anything but the field `actual`, and what it reads elsewhere stays the
/// same.
pub proof fn guest_writes_only_actual(config: VirtioBalloonConfig, offset: u64, data: Seq<u8>)
    ensures
        config_written(config, offset, data) == (VirtioBalloonConfig {
            actual: config_written(config, offset, data).actual,
            ..config
        }),
        !inside_actual(offset, data) ==> config_written(config, offset, data) == config,
        forall|i: int|
            0 <= i < CONFIG_LEN && !(offset <= i < offset + data.len()) ==> config_written(
                config,
                offset,
                data,
            ).bytes()[i] == #[trigger] config.bytes()[i],
{
    if inside_actual(offset, data) {
        let field = le32_bytes(config.actual);
        let at = offset - 4;
        let spliced = field.take(at) + data + field.skip(at + data.len());
        let written = config_written(config, offset, data);
        assert(spliced.len() == 4);
        le32_bytes_round_trip(spliced);
        assert(le32_bytes(written.actual) =~= spliced);
        assert forall|i: int|
            0 <= i < CONFIG_LEN && !(offset <= i < offset + data.len()) implies written.bytes()[i]
            == #[trigger] config.bytes()[i] by {
            if 4 <= i < 8 {
                assert(written.bytes()[i] == spliced[i - 4]);
                assert(config.bytes()[i] == field[i - 4]);
            }
        }
    }
}

/// The target that the host set is what the guest reads at the start of the configuration space.
pub proof fn target_is_read_by_guest(config: VirtioBalloonConfig, buffer: Seq<u8>)
    requires
        buffer.len() == 4,
    ensures
        le32(config_read(config.bytes(), 0, buffer), 0) == config.num_pages,
{
    le32_round_trip(config.num_pages);
    assert(config_read(config.bytes(), 0, buffer) =~= le32_bytes(config.num_pages));
}

} // verus!
