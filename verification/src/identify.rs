//! Identification of a device: the decisions between the queries that a
//! backend puts to the system.
//!
//! The backend asks the system: for the geometry of the block device, for its
//! device number, for the attribute files of its directory in the device tree,
//! and for the links of the directories above it. What follows from the
//! answers is decided here.
use vstd::prelude::*;
use vstd::string::*;
use crate::device::{DeviceInfo, DeviceInfoView};

verus! {

/// A device number, split into its two parts.
#[derive(Clone, Copy, Debug, PartialEq, Eq, Structural)]
pub struct DevNo {
    pub major: u32,
    pub minor: u32,
}

/// Splits a device number as the kernel packs it: the major number in bits 8
/// to 19, the minor number in bits 0 to 7 and 20 to 31.
pub fn parse_devno(devno: u64) -> (number: DevNo)
    ensures
        number.major == (devno >> 8) & 0xfff,
        number.minor == (devno & 0xff) | ((devno >> 12) & 0xfff00),
        number.major < 0x1000,
        number.minor < 0x10_0000,
{
    let major: u64 = (devno >> 8) & 0xfff;
    let minor: u64 = (devno & 0xff) | ((devno >> 12) & 0xfff00);
    assert(major < 0x1000) by (bit_vector)
        requires
            major == (devno >> 8) & 0xfff,
    ;
    assert(minor < 0x10_0000) by (bit_vector)
        requires
            minor == (devno & 0xff) | ((devno >> 12) & 0xfff00),
    ;
    DevNo { major: major as u32, minor: minor as u32 }
}

/// The character of a decimal digit.
pub open spec fn digit_char(digit: nat) -> char {
    if digit == 0 {
        '0'
    } else if digit == 1 {
        '1'
    } else if digit == 2 {
        '2'
    } else if digit == 3 {
        '3'
    } else if digit == 4 {
        '4'
    } else if digit == 5 {
        '5'
    } else if digit == 6 {
        '6'
    } else if digit == 7 {
        '7'
    } else if digit == 8 {
        '8'
    } else {
        '9'
    }
}

/// `n` in decimal digits, without a sign or leading zeros.
pub open spec fn decimal(n: nat) -> Seq<char>
    decreases n,
{
    if n < 10 {
        seq![digit_char(n)]
    } else {
        decimal(n / 10).push(digit_char(n % 10))
    }
}

/// The path of the directory that the device tree keeps for a block device
/// number: `/sys/dev/block/`, the major number, a colon, the minor number.
pub open spec fn sys_path(major: u32, minor: u32) -> Seq<char> {
    "/sys/dev/block/"@ + decimal(major as nat) + ":"@ + decimal(minor as nat)
}

/// The path of the directory that the device tree keeps for `devno`.
pub fn get_sys_path_for_devno(devno: &DevNo) -> (path: String)
    ensures
        path@ == sys_path(devno.major, devno.minor),
{
    let mut path = String::from_str("/sys/dev/block/");
    path.append(decimal_text(devno.major).as_str());
    path.append(":");
    path.append(decimal_text(devno.minor).as_str());
    path
}

/// `u32::to_string`: the number in decimal digits, as `Display` writes an
/// unsigned integer.
#[verifier::external_body]
fn decimal_text(n: u32) -> (text: String)
    ensures
        text@ == decimal(n as nat),
{
    n.to_string()
}

/// What the system says of the geometry of a block device.
#[derive(Clone, Copy, Debug, PartialEq, Eq, Structural)]
pub struct Geometry {
    /// Size of a logical block in bytes.
    pub logical_block_size: u64,
    /// Size of a physical block in bytes.
    pub physical_block_size: u64,
    /// Size of the device in bytes.
    pub size: u64,
}

/// Why the identification of a device was given up.
#[derive(Debug, PartialEq, Eq)]
pub enum IdentifyError {
    /// The geometry gives another size than the end of the device does.
    SizeMismatch { geometry_size: u64, device_size: u64 },
    /// No directory on the way up from the device is the root of the device
    /// tree.
    NoDeviceTreeRoot,
    /// A file or a link of the device tree is there and could not be read.
    ReadFailed { path: String, cause: String },
}

/// What reading a file or a link of the device tree gave.
#[derive(Debug)]
pub enum FileRead {
    /// There is no such file.
    Absent,
    /// The file is there and could not be read; `cause` says why.
    Failed { cause: String },
    /// What the file holds.
    Content(String),
}

/// `error` is the failure to read `path` that `read` tells of.
pub open spec fn is_read_failure(error: IdentifyError, path: Seq<char>, read: FileRead) -> bool {
    &&& read matches FileRead::Failed { cause }
    &&& error matches IdentifyError::ReadFailed { path: failed_path, cause: told }
    &&& failed_path@ == path
    &&& told@ == cause@
}

/// The larger of the two block sizes.
pub open spec fn larger_block_size(geometry: Geometry) -> u64 {
    if geometry.logical_block_size >= geometry.physical_block_size {
        geometry.logical_block_size
    } else {
        geometry.physical_block_size
    }
}

/// Enters the geometry of a block device into `info` and gives the memory
/// alignment that transfers have to keep: the larger of the two block sizes.
/// A geometry whose size is not the size that `info` holds is refused; the
/// block sizes are entered all the same.
pub fn enter_geometry(info: &mut DeviceInfo, geometry: &Geometry) -> (alignment: Result<
    usize,
    IdentifyError,
>)
    ensures
        final(info)@ == (DeviceInfoView {
            is_block_device: true,
            logical_block_size: geometry.logical_block_size,
            physical_block_size: geometry.physical_block_size,
            ..old(info)@
        }),
        geometry.size == old(info).size ==> alignment == Ok::<usize, IdentifyError>(
            larger_block_size(*geometry) as usize,
        ),
        geometry.size != old(info).size ==> alignment == Err::<usize, IdentifyError>(
            IdentifyError::SizeMismatch {
                geometry_size: geometry.size,
                device_size: old(info).size,
            },
        ),
{
    info.is_block_device = true;
    info.logical_block_size = geometry.logical_block_size;
    info.physical_block_size = geometry.physical_block_size;
    let larger = if geometry.logical_block_size >= geometry.physical_block_size {
        geometry.logical_block_size
    } else {
        geometry.physical_block_size
    };
    if geometry.size != info.size {
        return Err(
            IdentifyError::SizeMismatch { geometry_size: geometry.size, device_size: info.size },
        );
    }
    Ok(#[verifier::truncate] (larger as usize))
}

/// White space as `char::is_whitespace` knows it: the characters with the
/// Unicode property `White_Space`.
pub open spec fn is_white_space(c: char) -> bool {
    let code = c as u32;
    ||| 0x09 <= code <= 0x0d
    ||| code == 0x20
    ||| code == 0x85
    ||| code == 0xa0
    ||| code == 0x1680
    ||| 0x2000 <= code <= 0x200a
    ||| code == 0x2028
    ||| code == 0x2029
    ||| code == 0x202f
    ||| code == 0x205f
    ||| code == 0x3000
}

/// `text` without the white space in front.
pub open spec fn trimmed_start(text: Seq<char>) -> Seq<char>
    decreases text.len(),
{
    if text.len() > 0 && is_white_space(text[0]) {
        trimmed_start(text.drop_first())
    } else {
        text
    }
}

/// `text` without the white space at the end.
pub open spec fn trimmed_end(text: Seq<char>) -> Seq<char>
    decreases text.len(),
{
    if text.len() > 0 && is_white_space(text.last()) {
        trimmed_end(text.drop_last())
    } else {
        text
    }
}

/// `text` without the white space in front and at the end.
pub open spec fn trimmed(text: Seq<char>) -> Seq<char> {
    trimmed_end(trimmed_start(text))
}

/// The value of an attribute: what its file holds, trimmed, and nothing
/// where there is no such file.
pub open spec fn attribute_value(read: FileRead) -> Seq<char> {
    match read {
        FileRead::Content(text) => trimmed(text@),
        _ => Seq::empty(),
    }
}

/// The value of the attribute that the file at `path` holds: its content
/// without the white space around it, and nothing where there is no such
/// file. A file that is there and could not be read is an error, which names
/// the path and the cause.
pub fn read_and_trim(path: &str, read: &FileRead) -> (value: Result<String, IdentifyError>)
    ensures
        match value {
            Ok(text) => !(read is Failed) && text@ == attribute_value(*read),
            Err(error) => is_read_failure(error, path@, *read),
        },
{
    match read {
        FileRead::Absent => Ok(String::new()),
        FileRead::Failed { cause } => Err(
            IdentifyError::ReadFailed { path: String::from_str(path), cause: cause.clone() },
        ),
        FileRead::Content(text) => Ok(trim_text(text.as_str())),
    }
}

/// The base name that the link at `path` resolves to, and `None` where there
/// is no such link. A link that is there and could not be read is an error,
/// which names the path and the cause.
pub fn link_target(path: &str, read: &FileRead) -> (target: Result<Option<String>, IdentifyError>)
    ensures
        match target {
            Ok(Some(name)) => read matches FileRead::Content(text) && name@ == text@,
            Ok(None) => read is Absent,
            Err(error) => is_read_failure(error, path@, *read),
        },
{
    match read {
        FileRead::Absent => Ok(None),
        FileRead::Failed { cause } => Err(
            IdentifyError::ReadFailed { path: String::from_str(path), cause: cause.clone() },
        ),
        FileRead::Content(text) => Ok(Some(text.clone())),
    }
}

/// `str::trim`: the text without leading and trailing white space, where
/// white space is what the Unicode property `White_Space` says.
#[verifier::external_body]
fn trim_text(text: &str) -> (trimmed_text: String)
    ensures
        trimmed_text@ == trimmed(text@),
{
    text.trim().to_string()
}

/// The attributes of a block device that its directory in the device tree
/// may hold.
#[derive(Clone, Copy, Debug, PartialEq, Eq, Structural)]
pub enum Attribute {
    Vendor,
    Model,
    Serial,
    Revision,
    FirmwareRevision,
}

/// The descriptor fields that the directory of a USB device may hold.
#[derive(Clone, Copy, Debug, PartialEq, Eq, Structural)]
pub enum UsbField {
    VendorId,
    ProductId,
    Manufacturer,
    Product,
    SerialNumber,
    Version,
    Speed,
}

impl Attribute {
    /// The file of the attribute, from the directory of the block device.
    pub open spec fn file_spec(self) -> Seq<char> {
        match self {
            Attribute::Vendor => "device/vendor"@,
            Attribute::Model => "device/model"@,
            Attribute::Serial => "device/serial"@,
            Attribute::Revision => "device/rev"@,
            Attribute::FirmwareRevision => "device/firmware_rev"@,
        }
    }

    /// The file of the attribute, from the directory of the block device.
    pub fn file(self) -> (name: &'static str)
        ensures
            name@ == self.file_spec(),
    {
        match self {
            Attribute::Vendor => "device/vendor",
            Attribute::Model => "device/model",
            Attribute::Serial => "device/serial",
            Attribute::Revision => "device/rev",
            Attribute::FirmwareRevision => "device/firmware_rev",
        }
    }
}

impl UsbField {
    /// The file of the field, from the directory of the USB device.
    pub open spec fn file_spec(self) -> Seq<char> {
        match self {
            UsbField::VendorId => "idVendor"@,
            UsbField::ProductId => "idProduct"@,
            UsbField::Manufacturer => "manufacturer"@,
            UsbField::Product => "product"@,
            UsbField::SerialNumber => "serial"@,
            UsbField::Version => "version"@,
            UsbField::Speed => "speed"@,
        }
    }

    /// The file of the field, from the directory of the USB device.
    pub fn file(self) -> (name: &'static str)
        ensures
            name@ == self.file_spec(),
    {
        match self {
            UsbField::VendorId => "idVendor",
            UsbField::ProductId => "idProduct",
            UsbField::Manufacturer => "manufacturer",
            UsbField::Product => "product",
            UsbField::SerialNumber => "serial",
            UsbField::Version => "version",
            UsbField::Speed => "speed",
        }
    }
}

impl DeviceInfoView {
    /// The description with `value` for `attribute`.
    pub open spec fn with_attribute(
        self,
        attribute: Attribute,
        value: Seq<char>,
    ) -> DeviceInfoView {
        match attribute {
            Attribute::Vendor => DeviceInfoView { vendor: value, ..self },
            Attribute::Model => DeviceInfoView { model: value, ..self },
            Attribute::Serial => DeviceInfoView { serial: value, ..self },
            Attribute::Revision => DeviceInfoView { revision: value, ..self },
            Attribute::FirmwareRevision => DeviceInfoView { firmware_revision: value, ..self },
        }
    }

    /// The description with `value` for the USB descriptor field `field`.
    pub open spec fn with_usb_field(self, field: UsbField, value: Seq<char>) -> DeviceInfoView {
        match field {
            UsbField::VendorId => DeviceInfoView { usb_vendor_id: value, ..self },
            UsbField::ProductId => DeviceInfoView { usb_product_id: value, ..self },
            UsbField::Manufacturer => DeviceInfoView { usb_manufacturer: value, ..self },
            UsbField::Product => DeviceInfoView { usb_product: value, ..self },
            UsbField::SerialNumber => DeviceInfoView { usb_serial_number: value, ..self },
            UsbField::Version => DeviceInfoView { usb_version: value, ..self },
            UsbField::Speed => DeviceInfoView { usb_speed: value, ..self },
        }
    }
}

/// Enters an attribute of the block device into `info`: what its file at
/// `path` holds, trimmed, and nothing where there is no such file. A file
/// that is there and could not be read is an error, and `info` stays as it
/// is.
pub fn enter_attribute(
    info: &mut DeviceInfo,
    attribute: Attribute,
    path: &str,
    read: &FileRead,
) -> (entered: Result<(), IdentifyError>)
    ensures
        match entered {
            Ok(_) => !(read is Failed) && final(info)@ == old(info)@.with_attribute(
                attribute,
                attribute_value(*read),
            ),
            Err(error) => is_read_failure(error, path@, *read) && final(info)@ == old(info)@,
        },
{
    let value = match read_and_trim(path, read) {
        Ok(value) => value,
        Err(error) => {
            return Err(error);
        },
    };
    match attribute {
        Attribute::Vendor => {
            info.vendor = value;
        },
        Attribute::Model => {
            info.model = value;
        },
        Attribute::Serial => {
            info.serial = value;
        },
        Attribute::Revision => {
            info.revision = value;
        },
        Attribute::FirmwareRevision => {
            info.firmware_revision = value;
        },
    }
    Ok(())
}

/// Enters a field of the USB descriptor into `info`: what its file at
/// `path` holds, trimmed, and nothing where there is no such file. A file
/// that is there and could not be read is an error, and `info` stays as it
/// is.
pub fn enter_usb_field(
    info: &mut DeviceInfo,
    field: UsbField,
    path: &str,
    read: &FileRead,
) -> (entered: Result<(), IdentifyError>)
    ensures
        match entered {
            Ok(_) => !(read is Failed) && final(info)@ == old(info)@.with_usb_field(
                field,
                attribute_value(*read),
            ),
            Err(error) => is_read_failure(error, path@, *read) && final(info)@ == old(info)@,
        },
{
    let value = match read_and_trim(path, read) {
        Ok(value) => value,
        Err(error) => {
            return Err(error);
        },
    };
    match field {
        UsbField::VendorId => {
            info.usb_vendor_id = value;
        },
        UsbField::ProductId => {
            info.usb_product_id = value;
        },
        UsbField::Manufacturer => {
            info.usb_manufacturer = value;
        },
        UsbField::Product => {
            info.usb_product = value;
        },
        UsbField::SerialNumber => {
            info.usb_serial_number = value;
        },
        UsbField::Version => {
            info.usb_version = value;
        },
        UsbField::Speed => {
            info.usb_speed = value;
        },
    }
    Ok(())
}

/// The links of a directory in the device tree that the identification
/// follows.
#[derive(Clone, Copy, Debug, PartialEq, Eq, Structural)]
pub enum Link {
    /// Names the subsystem that the directory belongs to.
    Subsystem,
    /// Names the driver that is bound to the directory.
    Driver,
}

impl Link {
    /// The name of the link in its directory.
    pub open spec fn file_spec(self) -> Seq<char> {
        match self {
            Link::Subsystem => "subsystem"@,
            Link::Driver => "driver"@,
        }
    }

    /// The name of the link in its directory.
    pub fn file(self) -> (name: &'static str)
        ensures
            name@ == self.file_spec(),
    {
        match self {
            Link::Subsystem => "subsystem",
            Link::Driver => "driver",
        }
    }
}

/// Whether two texts are the same.
fn same_text(left: &str, right: &str) -> (same: bool)
    ensures
        same == (left@ == right@),
{
    String::from_str(left) == String::from_str(right)
}

/// The names of the directories of a path, as plain values.
pub open spec fn names(path: Seq<String>) -> Seq<Seq<char>> {
    Seq::new(path.len(), |i: int| path[i]@)
}

/// The base names that links resolve to, as plain values; `None` for a
/// directory without the link.
pub open spec fn targets(links: Seq<Option<String>>) -> Seq<Option<Seq<char>>> {
    Seq::new(
        links.len(),
        |i: int|
            match links[i] {
                Some(name) => Some(name@),
                None => None,
            },
    )
}

/// The directory `level` steps above the last directory of `path` is the
/// root of the device tree, and none below it is.
pub open spec fn is_walk_depth(path: Seq<Seq<char>>, level: int) -> bool {
    &&& 0 <= level < path.len()
    &&& path[path.len() - 1 - level] == "sys"@
    &&& forall|i: int| path.len() - 1 - level < i < path.len() ==> #[trigger] path[i] != "sys"@
}

/// How many directories the walk up from the last directory of `path`
/// visits before it reaches the root of the device tree, the directory named
/// `sys`. `path` holds the names of the directories of a resolved path,
/// outermost first. A path that does not lead through the root of the device
/// tree is refused.
pub fn walk_depth(path: &Vec<String>) -> (depth: Result<usize, IdentifyError>)
    ensures
        match depth {
            Ok(level) => is_walk_depth(names(path@), level as int),
            Err(error) => error == IdentifyError::NoDeviceTreeRoot && forall|i: int|
                0 <= i < path@.len() ==> #[trigger] names(path@)[i] != "sys"@,
        },
{
    let mut level: usize = 0;
    while level < path.len()
        invariant
            level <= path@.len(),
            forall|i: int|
                path@.len() - 1 - level < i < path@.len() ==> #[trigger] names(path@)[i] != "sys"@,
        decreases path@.len() - level,
    {
        if same_text(path[path.len() - 1 - level].as_str(), "sys") {
            return Ok(level);
        }
        level += 1;
    }
    Err(IdentifyError::NoDeviceTreeRoot)
}

/// The directory `level` steps above the last directory of `path`: `path`
/// without its last `level` names.
pub fn directory_at(path: &Vec<String>, level: usize) -> (directory: Vec<String>)
    requires
        level <= path@.len(),
    ensures
        names(directory@) == names(path@).take(path@.len() - level),
{
    let mut directory: Vec<String> = Vec::new();
    let keep = path.len() - level;
    let mut i: usize = 0;
    while i < keep
        invariant
            i <= keep,
            keep <= path@.len(),
            directory@.len() == i,
            forall|k: int| 0 <= k < i ==> directory@[k]@ == path@[k]@,
        decreases keep - i,
    {
        directory.push(path[i].clone());
        i += 1;
    }
    proof {
        assert(names(directory@) =~= names(path@).take(path@.len() - level));
    }
    directory
}

/// The chain of subsystems that the first `upto` directories of a walk give:
/// the subsystem of every directory that has one, in the order of the
/// walk, without a subsystem that repeats the one before it.
pub open spec fn chain_of(subsystems: Seq<Option<Seq<char>>>, upto: int) -> Seq<Seq<char>>
    decreases upto,
{
    if upto <= 0 {
        Seq::empty()
    } else {
        let earlier = chain_of(subsystems, upto - 1);
        match subsystems[upto - 1] {
            None => earlier,
            Some(name) => if earlier.len() > 0 && earlier.last() == name {
                earlier
            } else {
                earlier.push(name)
            },
        }
    }
}

/// No subsystem of a chain repeats the one before it.
pub proof fn lemma_chain_has_no_repeats(subsystems: Seq<Option<Seq<char>>>, upto: int)
    ensures
        forall|i: int|
            0 < i < chain_of(subsystems, upto).len() ==> #[trigger] chain_of(subsystems, upto)[i]
                != chain_of(subsystems, upto)[i - 1],
    decreases upto,
{
    if upto > 0 {
        lemma_chain_has_no_repeats(subsystems, upto - 1);
        let earlier = chain_of(subsystems, upto - 1);
        let chain = chain_of(subsystems, upto);
        assert forall|i: int| 0 < i < chain.len() implies #[trigger] chain[i] != chain[i - 1] by {
            if i < earlier.len() {
                assert(chain[i] == earlier[i] && chain[i - 1] == earlier[i - 1]);
            } else {
                assert(chain == earlier.push(subsystems[upto - 1]->Some_0));
                assert(chain[i - 1] == earlier.last());
            }
        }
    }
}

/// The chain of subsystems of a walk. `subsystems` holds, for every
/// directory that the walk visits, the base name that its subsystem link
/// resolves to, and `None` where it has no such link.
pub fn subsystem_chain(subsystems: &Vec<Option<String>>) -> (chain: Vec<String>)
    ensures
        names(chain@) == chain_of(targets(subsystems@), subsystems@.len() as int),
{
    let mut chain: Vec<String> = Vec::new();
    let mut level: usize = 0;
    proof {
        assert(names(chain@) =~= chain_of(targets(subsystems@), 0));
    }
    while level < subsystems.len()
        invariant
            level <= subsystems@.len(),
            names(chain@) == chain_of(targets(subsystems@), level as int),
        decreases subsystems@.len() - level,
    {
        let ghost earlier = names(chain@);
        match &subsystems[level] {
            Some(name) => {
                let repeats = chain.len() > 0 && same_text(
                    chain[chain.len() - 1].as_str(),
                    name.as_str(),
                );
                proof {
                    assert(targets(subsystems@)[level as int] == Some(name@));
                    if chain@.len() > 0 {
                        assert(earlier.last() == chain@[chain@.len() - 1]@);
                    }
                }
                if !repeats {
                    chain.push(name.clone());
                    proof {
                        assert(names(chain@) =~= earlier.push(name@));
                    }
                }
            },
            None => {
                proof {
                    assert(targets(subsystems@)[level as int] == None::<Seq<char>>);
                }
            },
        }
        level += 1;
    }
    chain
}

/// Whether the chain holds the subsystem `usb`.
pub fn has_usb(chain: &Vec<String>) -> (found: bool)
    ensures
        found == names(chain@).contains("usb"@),
{
    let mut i: usize = 0;
    while i < chain.len()
        invariant
            i <= chain@.len(),
            forall|k: int| 0 <= k < i ==> names(chain@)[k] != "usb"@,
        decreases chain@.len() - i,
    {
        if same_text(chain[i].as_str(), "usb") {
            proof {
                assert(names(chain@)[i as int] == "usb"@);
            }
            return true;
        }
        i += 1;
    }
    false
}

/// The directory belongs to the subsystem `usb`.
pub open spec fn is_usb(subsystem: Option<Seq<char>>) -> bool {
    subsystem == Some("usb"@)
}

/// The driver is one of the two that serve USB storage: `uas`, the newer,
/// or `usb-storage`, the older.
pub open spec fn is_storage_driver(driver: Option<Seq<char>>) -> bool {
    driver == Some("uas"@) || driver == Some("usb-storage"@)
}

/// Where the search for the USB device stands.
#[derive(Clone, Copy, Debug, PartialEq, Eq, Structural)]
pub enum UsbSearch {
    /// The directory at `level` belongs to the subsystem `usb`: its driver
    /// link decides.
    AskDriver { level: usize },
    /// The directory at `level` is the interface of a USB storage device. The
    /// directory above it holds the descriptor.
    Found { level: usize },
    /// No directory of the walk is the interface of a USB storage device.
    NotFound,
}

/// `level` is the first directory from `from` on that belongs to the
/// subsystem `usb`.
pub open spec fn is_next_usb_level(
    subsystems: Seq<Option<Seq<char>>>,
    from: int,
    level: int,
) -> bool {
    &&& from <= level < subsystems.len()
    &&& is_usb(subsystems[level])
    &&& forall|lower: int| from <= lower < level ==> !is_usb(#[trigger] subsystems[lower])
}

/// The search goes on at the first directory from `from` on that belongs to
/// the subsystem `usb`, and ends without a find where there is none.
pub open spec fn search_goes_on(
    subsystems: Seq<Option<Seq<char>>>,
    from: int,
    search: UsbSearch,
) -> bool {
    match search {
        UsbSearch::AskDriver { level } => is_next_usb_level(subsystems, from, level as int),
        UsbSearch::Found { level } => false,
        UsbSearch::NotFound => forall|level: int|
            from <= level < subsystems.len() ==> !is_usb(#[trigger] subsystems[level]),
    }
}

/// Whether `subsystem` names the subsystem `usb`.
fn names_usb(subsystem: &Option<String>) -> (usb: bool)
    ensures
        usb == match *subsystem {
            Some(name) => name@ == "usb"@,
            None => false,
        },
{
    match subsystem {
        Some(name) => same_text(name.as_str(), "usb"),
        None => false,
    }
}

/// Looks for the next directory to ask, from the directory at `from` upwards.
/// `subsystems` holds the subsystems of the directories of the walk as for
/// [`subsystem_chain`].
pub fn usb_search_from(subsystems: &Vec<Option<String>>, from: usize) -> (search: UsbSearch)
    ensures
        search_goes_on(targets(subsystems@), from as int, search),
{
    let mut level: usize = from;
    while level < subsystems.len()
        invariant
            from <= level,
            forall|lower: int|
                from <= lower < level && lower < subsystems@.len() ==> !is_usb(
                    #[trigger] targets(subsystems@)[lower],
                ),
        decreases subsystems@.len() - level,
    {
        if names_usb(&subsystems[level]) {
            proof {
                assert(is_usb(targets(subsystems@)[level as int]));
            }
            return UsbSearch::AskDriver { level };
        }
        proof {
            assert(!is_usb(targets(subsystems@)[level as int]));
        }
        level += 1;
    }
    UsbSearch::NotFound
}

/// The driver as a plain value.
pub open spec fn driver_name(driver: Option<&str>) -> Option<Seq<char>> {
    match driver {
        Some(name) => Some(name@),
        None => None,
    }
}

/// Whether `driver` serves USB storage.
pub fn serves_usb_storage(driver: Option<&str>) -> (serves: bool)
    ensures
        serves == is_storage_driver(driver_name(driver)),
{
    match driver {
        Some(name) => same_text(name, "uas") || same_text(name, "usb-storage"),
        None => false,
    }
}

/// Takes the answer for the directory at `level`: the base name that its
/// driver link resolves to, or `None` where it has no such link. A driver for
/// USB storage ends the search at this directory; any other answer sends it
/// on to the next directory of the subsystem `usb`.
pub fn usb_search_next(
    subsystems: &Vec<Option<String>>,
    level: usize,
    driver: Option<&str>,
) -> (search: UsbSearch)
    requires
        level < subsystems@.len(),
    ensures
        is_storage_driver(driver_name(driver)) ==> search == (UsbSearch::Found { level }),
        !is_storage_driver(driver_name(driver)) ==> search_goes_on(
            targets(subsystems@),
            level + 1,
            search,
        ),
{
    if serves_usb_storage(driver) {
        UsbSearch::Found { level }
    } else {
        proof {
            assert(subsystems@.len() == subsystems.len());
        }
        usb_search_from(subsystems, level + 1)
    }
}

/// `level` is the interface of a USB storage device: it belongs to the
/// subsystem `usb` and a driver for USB storage is bound to it.
pub open spec fn is_usb_storage_level(
    subsystems: Seq<Option<Seq<char>>>,
    drivers: Seq<Option<Seq<char>>>,
    level: int,
) -> bool {
    is_usb(subsystems[level]) && is_storage_driver(drivers[level])
}

/// The whole search on a walk whose links are all known: the first directory
/// that is the interface of a USB storage device, if there is one. `drivers`
/// holds, for every directory, the base name that its driver link resolves
/// to, and `None` where it has no such link.
pub fn find_usb_storage_level(
    subsystems: &Vec<Option<String>>,
    drivers: &Vec<Option<String>>,
) -> (found: Option<usize>)
    requires
        drivers@.len() == subsystems@.len(),
    ensures
        match found {
            Some(level) => {
                &&& level < subsystems@.len()
                &&& is_usb_storage_level(targets(subsystems@), targets(drivers@), level as int)
                &&& forall|lower: int|
                    0 <= lower < level ==> !is_usb_storage_level(
                        targets(subsystems@),
                        targets(drivers@),
                        lower,
                    )
            },
            None => forall|level: int|
                0 <= level < subsystems@.len() ==> !is_usb_storage_level(
                    targets(subsystems@),
                    targets(drivers@),
                    level,
                ),
        },
{
    let mut search = usb_search_from(subsystems, 0);
    let ghost mut from: int = 0;
    loop
        invariant
            drivers@.len() == subsystems@.len(),
            0 <= from,
            search_goes_on(targets(subsystems@), from, search),
            forall|lower: int|
                0 <= lower < from && lower < subsystems@.len() ==> !is_usb_storage_level(
                    targets(subsystems@),
                    targets(drivers@),
                    lower,
                ),
        decreases subsystems@.len() - from,
    {
        match search {
            UsbSearch::AskDriver { level } => {
                let driver: Option<&str> = match &drivers[level] {
                    Some(name) => Some(name.as_str()),
                    None => None,
                };
                proof {
                    assert(driver_name(driver) == targets(drivers@)[level as int]);
                    assert forall|lower: int| from <= lower < level implies !is_usb_storage_level(
                        targets(subsystems@),
                        targets(drivers@),
                        lower,
                    ) by {
                        assert(!is_usb(targets(subsystems@)[lower]));
                    }
                }
                let next = usb_search_next(subsystems, level, driver);
                match next {
                    UsbSearch::Found { level: at } => {
                        return Some(at);
                    },
                    _ => {},
                }
                proof {
                    from = level + 1;
                }
                search = next;
            },
            UsbSearch::Found { level } => {
                return Some(level);
            },
            UsbSearch::NotFound => {
                proof {
                    assert forall|level: int|
                        0 <= level < subsystems@.len() implies !is_usb_storage_level(
                        targets(subsystems@),
                        targets(drivers@),
                        level,
                    ) by {
                        if level >= from {
                            assert(!is_usb(targets(subsystems@)[level]));
                        }
                    }
                }
                return None;
            },
        }
    }
}

/// Enters the name of the driver that serves the USB device into `info`.
pub fn enter_usb_driver(info: &mut DeviceInfo, driver: &str)
    ensures
        final(info)@ == (DeviceInfoView { usb_driver: driver@, ..old(info)@ }),
{
    info.usb_driver = String::from_str(driver);
}

/// Enters the chain of subsystems into `info`.
pub fn enter_subsystems(info: &mut DeviceInfo, chain: Vec<String>)
    ensures
        final(info)@ == (DeviceInfoView { subsystems: names(chain@), ..old(info)@ }),
{
    proof {
        assert(chain.deep_view() =~= names(chain@));
    }
    info.subsystems = chain;
}

} // verus!
