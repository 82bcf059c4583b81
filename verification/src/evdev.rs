//! The Linux evdev/uinput interface: event codes, ioctl request numbers, the
//! kernel's data records, and what the virtual controller is set up with.
use vstd::prelude::*;

verus! {

broadcast use vstd::seq_lib::group_seq_properties;

pub const EV_SYN: i32 = 0x00;
pub const EV_KEY: i32 = 0x01;
pub const EV_ABS: i32 = 0x03;
pub const SYN_REPORT: u32 = 0;
pub const ABS_X: u32 = 0x00;
pub const ABS_Y: u32 = 0x01;
pub const ABS_Z: u32 = 0x02;
pub const ABS_RZ: u32 = 0x05;
pub const ABS_RX: u32 = 0x03;
pub const ABS_RY: u32 = 0x04;
pub const KEY_CNT: usize = 768;
pub const ABS_CNT: usize = 0x40;
pub const BUS_USB: u16 = 0x03;
pub const UINPUT_MAX_NAME_SIZE: usize = 80;
pub const EAGAIN: i32 = 11;

/// The product id that the virtual controller reports.
pub const VIRTUAL_PRODUCT: u16 = 0x02d1;

/// `EVIOCGID`: read the device's `InputId` (8 bytes).
pub const EVIOCGID: u32 = 0x8008_4502;
/// `EVIOCGRAB`: grab or release the device exclusively (an `i32`).
pub const EVIOCGRAB: u32 = 0x4004_4590;
/// `UI_DEV_CREATE`.
pub const UI_DEV_CREATE: u32 = 0x5501;
/// `UI_DEV_DESTROY`.
pub const UI_DEV_DESTROY: u32 = 0x5502;
/// `UI_DEV_SETUP`: hand over a `UinputSetup` (92 bytes).
pub const UI_DEV_SETUP: u32 = 0x405c_5503;
/// `UI_ABS_SETUP`: hand over a `UinputAbsSetup` (28 bytes).
pub const UI_ABS_SETUP: u32 = 0x401c_5504;
/// `UI_SET_EVBIT` (an `i32`).
pub const UI_SET_EVBIT: u32 = 0x4004_5564;
/// `UI_SET_KEYBIT` (an `i32`).
pub const UI_SET_KEYBIT: u32 = 0x4004_5565;
/// `UI_SET_ABSBIT` (an `i32`).
pub const UI_SET_ABSBIT: u32 = 0x4004_5567;

/// An ioctl request number: direction in bits 30-31, argument size in bits
/// 16-23, type in bits 8-15, number in bits 0-7.
pub open spec fn ioc_spec(dir: u32, ty: u8, nr: u8, size: u8) -> int {
    (dir % 4) * 0x4000_0000 + size * 0x1_0000 + ty * 0x100 + nr
}

/// Builds an ioctl request number from its fields.
pub fn ioc(dir: u32, ty: u8, nr: u8, size: u8) -> (r: u32)
    ensures
        r == ioc_spec(dir, ty, nr, size),
{
    let r = (dir << 30u32) | ((ty as u32) << 8u32) | (nr as u32) | ((size as u32) << 16u32);
    assert(r == (dir % 4) * 0x4000_0000 + (size as u32) * 0x1_0000 + (ty as u32) * 0x100 + (
    nr as u32)) by (bit_vector)
        requires
            r == (dir << 30u32) | ((ty as u32) << 8u32) | (nr as u32) | ((size as u32) << 16u32),
    ;
    r
}

/// A request without an argument (`_IO`).
pub fn io_u(ty: u8, nr: u8) -> (r: u32)
    ensures
        r == ioc_spec(0, ty, nr, 0),
{
    ioc(0, ty, nr, 0)
}

/// A request that reads `size` bytes (`_IOR`).
pub fn ior(ty: u8, nr: u8, size: u8) -> (r: u32)
    ensures
        r == ioc_spec(2, ty, nr, size),
{
    ioc(2, ty, nr, size)
}

/// A request that writes `size` bytes (`_IOW`).
pub fn iow(ty: u8, nr: u8, size: u8) -> (r: u32)
    ensures
        r == ioc_spec(1, ty, nr, size),
{
    ioc(1, ty, nr, size)
}

/// `EVIOCGBIT(ev, len)`: read the capability bits of event type `ev`.
pub fn eviocgbit(ev: u8, len: u8) -> (r: u32)
    requires
        ev <= 0xdf,
    ensures
        r == ioc_spec(2, 0x45, (0x20 + ev) as u8, len),
{
    ioc(2, 0x45, 0x20 + ev, len)
}

/// `EVIOCGABS(abs)`: read the `InputAbsInfo` (24 bytes) of axis `abs`.
pub fn eviocgabs(abs: u8) -> (r: u32)
    requires
        abs <= 0xbf,
    ensures
        r == ioc_spec(2, 0x45, (0x40 + abs) as u8, 24),
{
    ior(0x45, 0x40 + abs, 24)
}

/// The request constants are the `_IO`, `_IOR` and `_IOW` encodings of their
/// type, number and argument size.
pub proof fn lemma_request_codes()
    ensures
        EVIOCGID == ioc_spec(2, 0x45, 0x02, 8),
        EVIOCGRAB == ioc_spec(1, 0x45, 0x90, 4),
        UI_DEV_CREATE == ioc_spec(0, 0x55, 1, 0),
        UI_DEV_DESTROY == ioc_spec(0, 0x55, 2, 0),
        UI_DEV_SETUP == ioc_spec(1, 0x55, 3, 92),
        UI_ABS_SETUP == ioc_spec(1, 0x55, 4, 28),
        UI_SET_EVBIT == ioc_spec(1, 0x55, 100, 4),
        UI_SET_KEYBIT == ioc_spec(1, 0x55, 101, 4),
        UI_SET_ABSBIT == ioc_spec(1, 0x55, 103, 4),
{
}

/// A kernel timestamp.
#[derive(Default, Clone, Copy, Debug, PartialEq, Eq)]
pub struct TimeVal {
    pub tv_sec: isize,
    pub tv_usec: isize,
}

/// One evdev event as the kernel reads and writes it.
#[derive(Default, Clone, Copy, Debug, PartialEq, Eq)]
pub struct InputEvent {
    pub time: TimeVal,
    pub type_: u16,
    pub code: u16,
    pub value: i32,
}

/// A device's bus, vendor, product and version.
#[derive(Default, Clone, Copy, Debug, PartialEq, Eq)]
pub struct InputId {
    pub bustype: u16,
    pub vendor: u16,
    pub product: u16,
    pub version: u16,
}

/// The range and resolution of an absolute axis.
#[derive(Default, Clone, Copy, Debug, PartialEq, Eq)]
pub struct InputAbsInfo {
    pub value: i32,
    pub minimum: i32,
    pub maximum: i32,
    pub fuzz: i32,
    pub flat: i32,
    pub resolution: i32,
}

/// The setup of one axis of a uinput device.
#[derive(Default, Clone, Copy, Debug, PartialEq, Eq)]
pub struct UinputAbsSetup {
    pub code: u16,
    pub absinfo: InputAbsInfo,
}

/// The identity and name of a uinput device; the name is NUL-padded.
pub struct UinputSetup {
    pub id: InputId,
    pub name: [u8; UINPUT_MAX_NAME_SIZE],
    pub ff_effects_max: u32,
}

/// One readiness report of `epoll_wait`.
#[derive(Default, Clone, Copy, Debug, PartialEq, Eq)]
pub struct EpollEvent {
    pub events: u32,
    pub data: u64,
}

impl Default for UinputSetup {
    fn default() -> (r: UinputSetup)
        ensures
            r.id == (InputId { bustype: 0, vendor: 0, product: 0, version: 0 }),
            forall|i: int| 0 <= i < UINPUT_MAX_NAME_SIZE ==> r.name[i] == 0,
            r.ff_effects_max == 0,
    {
        UinputSetup {
            id: InputId { bustype: 0, vendor: 0, product: 0, version: 0 },
            name: [0u8; UINPUT_MAX_NAME_SIZE],
            ff_effects_max: 0,
        }
    }
}

/// Whether bit `i` of the little-endian bitmap `buf` is set.
pub open spec fn bit_set(buf: Seq<u8>, i: int) -> bool {
    (buf[i / 8] >> ((i % 8) as u8)) & 1 == 1
}

/// The indices below `count` whose bits are set in `buf`, in increasing order:
/// the keys or axes that a device reports.
pub fn set_bits(buf: &[u8], count: usize) -> (r: Vec<usize>)
    requires
        count <= buf@.len() * 8,
    ensures
        forall|k: int| 0 <= k < r@.len() ==> r@[k] < count && bit_set(buf@, r@[k] as int),
        forall|k: int, l: int| 0 <= k < l < r@.len() ==> r@[k] < r@[l],
        forall|i: int| 0 <= i < count && bit_set(buf@, i) ==> r@.contains(i as usize),
{
    let mut r: Vec<usize> = Vec::new();
    let mut i: usize = 0;
    while i < count
        invariant
            i <= count <= buf@.len() * 8,
            forall|k: int| 0 <= k < r@.len() ==> r@[k] < i && bit_set(buf@, r@[k] as int),
            forall|k: int, l: int| 0 <= k < l < r@.len() ==> r@[k] < r@[l],
            forall|j: int| 0 <= j < i && bit_set(buf@, j) ==> r@.contains(j as usize),
        decreases count - i,
    {
        let byte = buf[i / 8];
        let shift = (i % 8) as u8;
        if (byte >> shift) & 1 != 0 {
            assert((byte >> shift) & 1 != 0 ==> (byte >> shift) & 1 == 1) by (bit_vector);
            r.push(i);
            assert(r@[r@.len() - 1] == i);
        }
        proof {
            assert forall|j: int| 0 <= j < i + 1 && bit_set(buf@, j) implies r@.contains(
                j as usize,
            ) by {
                if j == i {
                    assert(r@[r@.len() - 1] == i);
                }
            }
        }
        i = i + 1;
    }
    r
}

/// Whether `code` is one of the four stick axes.
pub open spec fn is_stick_axis(code: u32) -> bool {
    code == ABS_X || code == ABS_Y || code == ABS_RX || code == ABS_RY
}

/// The setup that the virtual device gets for axis `code`, given the physical
/// device's `info`: stick axes are widened to -32767..32767 with no flat zone
/// and no fuzz; every other axis keeps the physical range.
pub fn abs_setup(code: u32, info: InputAbsInfo) -> (r: UinputAbsSetup)
    requires
        code < ABS_CNT,
    ensures
        r.code == code,
        is_stick_axis(code) ==> r.absinfo == (InputAbsInfo {
            minimum: -32767i32,
            maximum: 32767i32,
            flat: 0i32,
            fuzz: 0i32,
            ..info
        }),
        !is_stick_axis(code) ==> r.absinfo == info,
{
    let mut absinfo = info;
    if code == ABS_X || code == ABS_Y || code == ABS_RX || code == ABS_RY {
        absinfo.minimum = -32767;
        absinfo.maximum = 32767;
        absinfo.flat = 0;
        absinfo.fuzz = 0;
    }
    UinputAbsSetup { code: code as u16, absinfo }
}

/// The name that the virtual controller reports.
pub open spec fn virtual_name() -> Seq<u8> {
    seq![
        0x4bu8, 0x65, 0x79, 0x46, 0x6f, 0x72, 0x67, 0x65, 0x20, 0x56, 0x69, 0x72, 0x74, 0x75,
        0x61, 0x6c, 0x20, 0x43, 0x6f, 0x6e, 0x74, 0x72, 0x6f, 0x6c, 0x6c, 0x65, 0x72,
    ]
}

/// The identity of the virtual controller: a USB device with the physical
/// vendor id `vid`, product 0x02d1, version 1, named
/// "KeyForge Virtual Controller", without force feedback.
pub fn virtual_setup(vid: u16) -> (r: UinputSetup)
    ensures
        r.id == (InputId { bustype: BUS_USB, vendor: vid, product: VIRTUAL_PRODUCT, version: 1 }),
        forall|i: int| 0 <= i < virtual_name().len() ==> r.name[i] == virtual_name()[i],
        forall|i: int| virtual_name().len() <= i < UINPUT_MAX_NAME_SIZE ==> r.name[i] == 0,
        r.ff_effects_max == 0,
{
    let label: [u8; 27] = [
        0x4b, 0x65, 0x79, 0x46, 0x6f, 0x72, 0x67, 0x65, 0x20, 0x56, 0x69, 0x72, 0x74, 0x75,
        0x61, 0x6c, 0x20, 0x43, 0x6f, 0x6e, 0x74, 0x72, 0x6f, 0x6c, 0x6c, 0x65, 0x72,
    ];
    assert(label@ =~= virtual_name());
    let mut name = [0u8; UINPUT_MAX_NAME_SIZE];
    let mut i: usize = 0;
    while i < 27
        invariant
            i <= 27,
            label@ == virtual_name(),
            forall|j: int| 0 <= j < i ==> name[j] == virtual_name()[j],
            forall|j: int| 27 <= j < UINPUT_MAX_NAME_SIZE ==> name[j] == 0,
        decreases 27 - i,
    {
        name[i] = label[i];
        i = i + 1;
    }
    UinputSetup {
        id: InputId { bustype: BUS_USB, vendor: vid, product: VIRTUAL_PRODUCT, version: 1 },
        name,
        ff_effects_max: 0,
    }
}

/// Whether a directory entry names an evdev node (`event*`).
pub fn is_event_node(name: &[char]) -> (r: bool)
    ensures
        r == (name@.len() >= 5 && name@.take(5) == "event"@),
{
    let prefix = crate::text::chars_of("event");
    proof {
        reveal_strlit("event");
    }
    if name.len() < 5 {
        return false;
    }
    let r = crate::text::chars_eq(&name[0..5], prefix.as_slice());
    assert(name@.subrange(0, 5) =~= name@.take(5));
    r
}

/// Whether a device with identity `id` is the controller `vid`:`pid`.
pub fn is_wanted_device(id: InputId, vid: u16, pid: u16) -> (r: bool)
    ensures
        r == (id.vendor == vid && id.product == pid),
{
    id.vendor == vid && id.product == pid
}

} // verus!
