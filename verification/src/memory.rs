//! A device held in memory: the backend that behaves perfectly.
use vstd::prelude::*;
use vstd::string::*;
use std::time::Duration;
use crate::device::{stored, Access, Device, DeviceError, DeviceInfo, DeviceInfoView};

verus! {

/// A device that keeps its bytes in memory. Every transfer inside its size
/// succeeds at once, every write persists, and every read returns what was
/// last written; a transfer that reaches beyond its size fails and changes
/// nothing. It asks for no alignment and keeps account of every transfer.
/// All that it tells about itself is its size.
pub struct MemoryDevice {
    bytes: Vec<u8>,
    info: DeviceInfo,
    asked: Ghost<Seq<Access>>,
}

/// The description of a device of which nothing is known but its size.
pub open spec fn size_only(size: nat) -> DeviceInfoView {
    DeviceInfoView { size: size as u64, ..DeviceInfoView::blank() }
}

impl MemoryDevice {
    /// The description that the device keeps is that of its size.
    #[verifier::type_invariant]
    spec fn described(self) -> bool {
        self.info@ == size_only(self.bytes@.len())
    }

    /// The bytes that the device holds.
    pub closed spec fn view(&self) -> Seq<u8> {
        self.bytes@
    }

    /// The transfers that the device was asked for, oldest first.
    pub closed spec fn transfers(&self) -> Seq<Access> {
        self.asked@
    }

    /// A device that holds `bytes` and was asked for nothing yet.
    pub fn new(bytes: Vec<u8>) -> (device: MemoryDevice)
        ensures
            device@ == bytes@,
            device.transfers() == Seq::<Access>::empty(),
    {
        let mut info = DeviceInfo::new();
        info.size = bytes.len() as u64;
        MemoryDevice { bytes, info, asked: Ghost(Seq::empty()) }
    }

    /// The bytes that the device holds.
    pub fn bytes(&self) -> (bytes: &Vec<u8>)
        ensures
            bytes@ == self@,
    {
        &self.bytes
    }

    /// Whether `len` bytes from `offset` lie inside the device.
    fn holds(&self, offset: u64, len: usize) -> (inside: bool)
        ensures
            inside == (offset + len <= self.bytes@.len()),
            self.bytes@.len() <= usize::MAX,
    {
        let size = self.bytes.len();
        len <= size && offset <= (size - len) as u64
    }
}

impl Device for MemoryDevice {
    open spec fn aligned(&self) -> bool {
        true
    }

    open spec fn alignment(&self) -> usize {
        0
    }

    open spec fn traced(&self) -> bool {
        true
    }

    open spec fn trace(&self) -> Seq<Access> {
        self.transfers()
    }

    open spec fn faithful(&self) -> bool {
        true
    }

    open spec fn contents(&self) -> Seq<u8> {
        self@
    }

    fn get_size(&self) -> (size: u64)
        ensures
            size == self@.len(),
    {
        self.bytes.len() as u64
    }

    fn get_device_info(&mut self) -> (info: Result<&DeviceInfo, DeviceError>)
        ensures
            info matches Ok(description) && description@ == size_only(old(self)@.len()),
            final(self)@ == old(self)@,
    {
        proof {
            use_type_invariant(&*self);
        }
        Ok(&self.info)
    }

    fn read(&mut self, offset: u64, data: &mut [u8]) -> (elapsed: Result<Duration, DeviceError>)
        ensures
            elapsed is Ok <==> offset + old(data)@.len() <= old(self)@.len(),
            final(self)@ == old(self)@,
            elapsed is Err ==> final(data)@ == old(data)@,
    {
        proof {
            use_type_invariant(&*self);
        }
        let len = data.len();
        let inside = self.holds(offset, len);
        self.asked = Ghost(
            self.asked@.push(Access::Read { offset, len: data@.len(), failed: !inside }),
        );
        if !inside {
            return Err(
                DeviceError { message: String::from_str("read beyond the end of the device") },
            );
        }
        let start = offset as usize;
        let mut k: usize = 0;
        while k < len
            invariant
                k <= len,
                len == data@.len(),
                start == offset,
                start + len <= self.bytes@.len(),
                self.bytes@.len() <= usize::MAX,
                forall|j: int| 0 <= j < k ==> data@[j] == self.bytes@[start + j],
            decreases len - k,
        {
            data[k] = self.bytes[start + k];
            k += 1;
        }
        proof {
            assert(data@ =~= self.bytes@.subrange(offset as int, offset + len));
        }
        Ok(no_time())
    }

    fn write(&mut self, offset: u64, data: &[u8]) -> (elapsed: Result<Duration, DeviceError>)
        ensures
            elapsed is Ok <==> offset + data@.len() <= old(self)@.len(),
            elapsed is Err ==> final(self)@ == old(self)@,
    {
        proof {
            use_type_invariant(&*self);
        }
        let len = data.len();
        let inside = self.holds(offset, len);
        self.asked = Ghost(
            self.asked@.push(Access::Write { offset, data: data@, failed: !inside }),
        );
        if !inside {
            return Err(
                DeviceError { message: String::from_str("write beyond the end of the device") },
            );
        }
        let start = offset as usize;
        let ghost before = self.bytes@;
        let ghost asked = self.asked@;
        let mut k: usize = 0;
        while k < len
            invariant
                k <= len,
                len == data@.len(),
                start == offset,
                start + len <= before.len(),
                before.len() <= usize::MAX,
                self.bytes@.len() == before.len(),
                self.info@ == size_only(before.len()),
                self.asked@ == asked,
                forall|j: int| 0 <= j < k ==> self.bytes@[start + j] == data@[j],
                forall|j: int|
                    0 <= j < before.len() && !(start <= j < start + k) ==> self.bytes@[j]
                        == before[j],
            decreases len - k,
        {
            self.bytes[start + k] = data[k];
            k += 1;
        }
        proof {
            assert(self.bytes@ =~= stored(before, offset as int, data@));
        }
        Ok(no_time())
    }

    fn get_memory_alignment(&self) -> (reported: usize)
        ensures
            reported == 0,
    {
        0
    }
}

/// `Duration::ZERO`: no time at all.
#[verifier::external_body]
fn no_time() -> Duration {
    Duration::ZERO
}

} // verus!
