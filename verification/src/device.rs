//! The interface through which a storage device is driven, and what a device
//! tells about itself.
use vstd::prelude::*;
use std::time::Duration;

verus! {

/// Why a single transfer failed. A failed transfer never ends a run: it is
/// recorded for the block that it concerns.
#[derive(Debug)]
pub struct DeviceError {
    /// The operation, the offset and the cause, in words.
    pub message: String,
}

/// One transfer that a device was asked for, and whether the device failed
/// it.
pub enum Access {
    /// A read of `len` bytes from `offset`.
    Read { offset: u64, len: nat, failed: bool },
    /// A write of `data` to `offset`.
    Write { offset: u64, data: Seq<u8>, failed: bool },
}

/// `contents` after `data` has been stored at `offset`.
pub open spec fn stored(contents: Seq<u8>, offset: int, data: Seq<u8>) -> Seq<u8> {
    Seq::new(
        contents.len(),
        |k: int|
            if offset <= k < offset + data.len() {
                data[k - offset]
            } else {
                contents[k]
            },
    )
}

/// How a device is to be opened.
#[derive(Clone, Copy, Debug, PartialEq, Eq, Structural)]
pub struct OpenMode {
    /// Open for reading.
    pub read: bool,
    /// Open for writing.
    pub write: bool,
    /// Bypass the page cache of the system.
    pub direct: bool,
    /// Let every write reach the device before it returns.
    pub synchronous: bool,
    /// Ask for the device to be held by no one else.
    pub exclusive: bool,
}

/// How to open a device for a run: always for reading, unbuffered and
/// synchronous; for writing, and then exclusively, unless the run only reads.
pub fn open_mode(read_only: bool) -> (mode: OpenMode)
    ensures
        mode == (OpenMode {
            read: true,
            write: !read_only,
            direct: true,
            synchronous: true,
            exclusive: !read_only,
        }),
{
    OpenMode {
        read: true,
        write: !read_only,
        direct: true,
        synchronous: true,
        exclusive: !read_only,
    }
}

/// A storage device.
///
/// The executable methods are what a backend implements. The specification
/// functions are a model that a backend may vouch for, in three parts. A
/// backend that keeps account of the transfers it is asked for, and of how
/// it answered each, says so in `traced` and gives them in `trace`. A backend
/// that behaves perfectly says so in `faithful` and gives the bytes it holds
/// in `contents`. A backend whose memory alignment is settled says so in
/// `aligned` and gives it in `alignment`. By default a device vouches for
/// nothing, and nothing is promised of its transfers: one may fail, and one
/// may succeed without storing anything.
pub trait Device {
    /// The memory alignment of the device is settled.
    open spec fn aligned(&self) -> bool {
        false
    }

    /// The memory alignment that an aligned device reports.
    open spec fn alignment(&self) -> usize {
        0
    }

    /// The device keeps account of the transfers that it is asked for.
    open spec fn traced(&self) -> bool {
        false
    }

    /// The transfers that a traced device was asked for, oldest first.
    open spec fn trace(&self) -> Seq<Access> {
        Seq::empty()
    }

    /// The device behaves perfectly: every transfer inside its contents
    /// succeeds, every write persists, and every read returns what was last
    /// written.
    open spec fn faithful(&self) -> bool {
        false
    }

    /// The bytes that a faithful device holds.
    open spec fn contents(&self) -> Seq<u8> {
        Seq::empty()
    }

    /// The size of the device in bytes.
    fn get_size(&self) -> (size: u64)
        ensures
            self.faithful() ==> size == self.contents().len(),
    ;

    /// What the device tells about itself. The first call may query the
    /// system and settles the memory alignment; it transfers nothing.
    fn get_device_info(&mut self) -> (info: Result<&DeviceInfo, DeviceError>)
        ensures
            final(self).traced() == old(self).traced(),
            final(self).trace() == old(self).trace(),
            final(self).faithful() == old(self).faithful(),
            final(self).contents() == old(self).contents(),
    ;

    /// Reads `data.len()` bytes from `offset` into `data` and returns the time
    /// that the transfer took.
    fn read(&mut self, offset: u64, data: &mut [u8]) -> (elapsed: Result<Duration, DeviceError>)
        ensures
            final(data)@.len() == old(data)@.len(),
            old(self).traced() ==> final(self).traced() && final(self).trace() == old(
                self,
            ).trace().push(
                Access::Read { offset, len: old(data)@.len(), failed: elapsed is Err },
            ),
            old(self).faithful() && offset + old(data)@.len() <= old(self).contents().len() ==> {
                &&& elapsed is Ok
                &&& final(self).faithful()
                &&& final(self).contents() == old(self).contents()
                &&& final(data)@ == old(self).contents().subrange(
                    offset as int,
                    offset + old(data)@.len(),
                )
            },
    ;

    /// Writes `data` to `offset` and returns the time that the transfer took.
    fn write(&mut self, offset: u64, data: &[u8]) -> (elapsed: Result<Duration, DeviceError>)
        ensures
            old(self).traced() ==> final(self).traced() && final(self).trace() == old(
                self,
            ).trace().push(Access::Write { offset, data: data@, failed: elapsed is Err }),
            old(self).faithful() && offset + data@.len() <= old(self).contents().len() ==> {
                &&& elapsed is Ok
                &&& final(self).faithful()
                &&& final(self).contents() == stored(old(self).contents(), offset as int, data@)
            },
    ;

    /// The alignment in bytes that buffers, offsets and lengths have to keep;
    /// zero where the device asks for none.
    fn get_memory_alignment(&self) -> (reported: usize)
        ensures
            self.aligned() ==> reported == self.alignment(),
    ;
}

/// What is known about a device. Fields that do not apply stay empty or zero.
#[derive(Debug)]
pub struct DeviceInfo {
    pub vendor: String,
    pub model: String,
    pub serial: String,
    pub revision: String,
    pub firmware_revision: String,
    /// Total size in bytes.
    pub size: u64,
    pub is_block_device: bool,
    pub logical_block_size: u64,
    pub physical_block_size: u64,
    /// Subsystems that the device hangs off, outermost first.
    pub subsystems: Vec<String>,
    pub usb_driver: String,
    pub usb_vendor_id: String,
    pub usb_product_id: String,
    pub usb_manufacturer: String,
    pub usb_product: String,
    pub usb_serial_number: String,
    pub usb_version: String,
    pub usb_speed: String,
}

/// A device description as plain values.
pub struct DeviceInfoView {
    pub vendor: Seq<char>,
    pub model: Seq<char>,
    pub serial: Seq<char>,
    pub revision: Seq<char>,
    pub firmware_revision: Seq<char>,
    pub size: u64,
    pub is_block_device: bool,
    pub logical_block_size: u64,
    pub physical_block_size: u64,
    pub subsystems: Seq<Seq<char>>,
    pub usb_driver: Seq<char>,
    pub usb_vendor_id: Seq<char>,
    pub usb_product_id: Seq<char>,
    pub usb_manufacturer: Seq<char>,
    pub usb_product: Seq<char>,
    pub usb_serial_number: Seq<char>,
    pub usb_version: Seq<char>,
    pub usb_speed: Seq<char>,
}

impl DeviceInfoView {
    /// The description in which nothing is known: every text is empty, every
    /// number zero.
    pub open spec fn blank() -> DeviceInfoView {
        DeviceInfoView {
            vendor: Seq::empty(),
            model: Seq::empty(),
            serial: Seq::empty(),
            revision: Seq::empty(),
            firmware_revision: Seq::empty(),
            size: 0,
            is_block_device: false,
            logical_block_size: 0,
            physical_block_size: 0,
            subsystems: Seq::empty(),
            usb_driver: Seq::empty(),
            usb_vendor_id: Seq::empty(),
            usb_product_id: Seq::empty(),
            usb_manufacturer: Seq::empty(),
            usb_product: Seq::empty(),
            usb_serial_number: Seq::empty(),
            usb_version: Seq::empty(),
            usb_speed: Seq::empty(),
        }
    }
}

impl View for DeviceInfo {
    type V = DeviceInfoView;

    open spec fn view(&self) -> DeviceInfoView {
        DeviceInfoView {
            vendor: self.vendor@,
            model: self.model@,
            serial: self.serial@,
            revision: self.revision@,
            firmware_revision: self.firmware_revision@,
            size: self.size,
            is_block_device: self.is_block_device,
            logical_block_size: self.logical_block_size,
            physical_block_size: self.physical_block_size,
            subsystems: self.subsystems.deep_view(),
            usb_driver: self.usb_driver@,
            usb_vendor_id: self.usb_vendor_id@,
            usb_product_id: self.usb_product_id@,
            usb_manufacturer: self.usb_manufacturer@,
            usb_product: self.usb_product@,
            usb_serial_number: self.usb_serial_number@,
            usb_version: self.usb_version@,
            usb_speed: self.usb_speed@,
        }
    }
}

impl DeviceInfo {
    /// A description in which nothing is known yet.
    pub fn new() -> (info: DeviceInfo)
        ensures
            info@ == DeviceInfoView::blank(),
    {
        let info = DeviceInfo {
            vendor: String::new(),
            model: String::new(),
            serial: String::new(),
            revision: String::new(),
            firmware_revision: String::new(),
            size: 0,
            is_block_device: false,
            logical_block_size: 0,
            physical_block_size: 0,
            subsystems: Vec::new(),
            usb_driver: String::new(),
            usb_vendor_id: String::new(),
            usb_product_id: String::new(),
            usb_manufacturer: String::new(),
            usb_product: String::new(),
            usb_serial_number: String::new(),
            usb_version: String::new(),
            usb_speed: String::new(),
        };
        assert(info.subsystems.deep_view() =~= Seq::<Seq<char>>::empty());
        info
    }
}

} // verus!
