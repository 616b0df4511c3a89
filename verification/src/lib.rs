//! Spot-check validation of the capacity that a storage device advertises.
//!
//! A counterfeit device reports more bytes than it can store. This library
//! plans a sparse sample of blocks over the advertised address space, drives
//! the read / write / read-back / restore protocol through a [`device::Device`],
//! classifies every sampled block and derives the capacity that was confirmed.
pub mod buffer;
pub mod device;
pub mod engine;
pub mod identify;
pub mod memory;
pub mod plan;
pub mod protocol;
pub mod report;

pub use buffer::{alignment_offset, Blocks, IoError};
pub use device::{open_mode, Device, DeviceError, DeviceInfo, OpenMode};
pub use plan::{plan_blocks, shuffle_plan, spot_block, BlockIdx, ConfigurationError};
pub use report::{
    classify, contains_report, fill_validation_map, record_original_reads, record_write_errors,
    same_bytes, unknown_map, validated_drive_size, validated_prefix, BlockReport,
};
pub use engine::{note_transfer, read_blocks, write_blocks, Failure, Transfers};
pub use protocol::{buffers_fit, run, Options, Report, RunError};
pub use identify::{
    directory_at, enter_attribute, enter_geometry, enter_subsystems, enter_usb_driver,
    enter_usb_field, find_usb_storage_level, get_sys_path_for_devno, has_usb, link_target,
    parse_devno, read_and_trim, serves_usb_storage, subsystem_chain, usb_search_from,
    usb_search_next, walk_depth, Attribute, DevNo, FileRead, Geometry, IdentifyError, Link,
    UsbField, UsbSearch,
};
pub use memory::MemoryDevice;
