//! Vulkan devices and memory: which device is taken, which memory a buffer gets, and what has to be
//! given back when a call fails.
//!
//! The calls into the driver are the caller's.

use vstd::prelude::*;
use vstd::string::{StringExecFns, StringSliceAdditionalSpecFns};

use crate::search::{has_part, lower_contains, lowered};
use crate::text::{dec, dec_int, hex_padded, push_dec, push_dec_int, push_hex_padded};
use crate::types::{Ds4Error, Ds4ErrorKind, Ds4Result};

verus! {

/// A queue family that computes.
pub const QUEUE_COMPUTE_BIT: u32 = 0x2;

/// A buffer that kernels use and that is copied to and from.
pub const BUFFER_USAGE: u32 = 0x23;

pub const MEMORY_DEVICE_LOCAL_BIT: u32 = 0x1;

/// Memory that the host sees without flushing.
pub const MEMORY_HOST_BITS: u32 = 0x6;

pub const DEVICE_TYPE_INTEGRATED_GPU: u32 = 1;

pub const DEVICE_TYPE_DISCRETE_GPU: u32 = 2;

/// The name under which the program makes itself known to the driver.
pub const APPLICATION_NAME: &'static str = "ds4-vulkan";

/// The driver's library.
pub const LIBRARY_NAME: &'static str = "vulkan-1.dll";

// ---- Answers of the driver ----

/// What the code of a call means: 0 is success.
pub fn check(name: &str, code: i32) -> (r: Ds4Result<()>)
    ensures
        if code == 0 {
            r is Ok
        } else {
            r matches Err(e) && vulkan_failed(e, name@, code)
        },
{
    if code == 0 {
        return Ok(());
    }
    let mut m: String = String::from_str(name);
    m.append(" failed with Vulkan result ");
    push_dec_int(&mut m, code);
    Err(Ds4Error::new(Ds4ErrorKind::Backend, m))
}

/// The error for a call that failed.
pub open spec fn vulkan_failed(e: Ds4Error, name: Seq<char>, code: i32) -> bool {
    e.is(Ds4ErrorKind::Backend, name + " failed with Vulkan result "@ + dec_int(code as int))
}

fn text_error(kind: Ds4ErrorKind, text: &str) -> (e: Ds4Error)
    ensures
        e.is(kind, text@),
{
    Ds4Error::new(kind, String::from_str(text))
}

/// The outcome of opening a library.
pub fn check_library(name: &str, opened: bool) -> (r: Ds4Result<()>)
    ensures
        if opened {
            r is Ok
        } else {
            r matches Err(e) && e.is(
                Ds4ErrorKind::NotImplemented,
                name@ + " could not be loaded"@,
            )
        },
{
    if opened {
        return Ok(());
    }
    let mut m: String = String::from_str(name);
    m.append(" could not be loaded");
    Err(Ds4Error::new(Ds4ErrorKind::NotImplemented, m))
}

/// The outcome of looking up a function of the driver.
pub fn check_symbol(name: &str, found: bool) -> (r: Ds4Result<()>)
    ensures
        if found {
            r is Ok
        } else {
            r matches Err(e) && e.is(
                Ds4ErrorKind::NotImplemented,
                "Vulkan symbol "@ + name@ + " is unavailable"@,
            )
        },
{
    if found {
        return Ok(());
    }
    let mut m: String = String::from_str("Vulkan symbol ");
    m.append(name);
    m.append(" is unavailable");
    Err(Ds4Error::new(Ds4ErrorKind::NotImplemented, m))
}

/// The error on a system for which the driver is not opened.
pub fn unsupported_system() -> (e: Ds4Error)
    ensures
        e.is(Ds4ErrorKind::NotImplemented, "Vulkan backend currently loads on Windows"@),
{
    text_error(Ds4ErrorKind::NotImplemented, "Vulkan backend currently loads on Windows")
}

// ---- Devices ----

/// A heap of device memory.
#[derive(Debug, Clone, Copy, PartialEq, Eq, Structural)]
pub struct VulkanMemoryHeap {
    pub size_bytes: u64,
    pub flags: u32,
}

/// What is known of the device that was taken.
#[derive(Debug)]
pub struct VulkanDeviceInfo {
    pub device_name: String,
    pub vendor_id: u32,
    pub device_id: u32,
    pub device_type: String,
    pub api_version: u32,
    pub driver_version: u32,
    pub compute_queue_family: u32,
    pub memory_heaps: Vec<VulkanMemoryHeap>,
}

/// Where a buffer's memory is.
#[derive(Debug, Clone, Copy, PartialEq, Eq, Structural)]
pub enum VulkanMemoryKind {
    HostVisible,
    DeviceLocal,
}

/// A family of queues.
#[derive(Debug, Clone, Copy, PartialEq, Eq, Structural)]
pub struct QueueFamily {
    pub flags: u32,
    pub count: u32,
}

/// The memory of a device as the driver reports it: how many types and heaps there are, and tables
/// of 32 types and of 16 heaps. `type_flags` are the properties of each type.
#[derive(Debug)]
pub struct MemoryProperties {
    pub type_count: u32,
    pub type_flags: Vec<u32>,
    pub heap_count: u32,
    pub heaps: Vec<VulkanMemoryHeap>,
}

/// The lesser of two numbers.
pub open spec fn least(a: int, b: int) -> int {
    if a < b {
        a
    } else {
        b
    }
}

impl MemoryProperties {
    /// The tables have their sizes.
    pub open spec fn wf(self) -> bool {
        self.type_flags@.len() == 32 && self.heaps@.len() == 16
    }

    /// Number of types that are looked at.
    pub open spec fn types(self) -> int {
        least(self.type_count as int, 32)
    }
}

/// A device as the driver reports it. `present` is false for a null handle.
#[derive(Debug)]
pub struct DeviceReport {
    pub present: bool,
    pub device_name: String,
    pub vendor_id: u32,
    pub device_id: u32,
    pub device_type: u32,
    pub api_version: u32,
    pub driver_version: u32,
    pub families: Vec<QueueFamily>,
    pub memory: MemoryProperties,
}

/// The family has queues that compute.
pub open spec fn computes(f: QueueFamily) -> bool {
    f.count > 0 && f.flags & QUEUE_COMPUTE_BIT != 0
}

/// The first family, from `from` on, that computes.
pub open spec fn first_computing(families: Seq<QueueFamily>, from: int) -> Option<u32>
    decreases families.len() - from,
{
    if from < 0 || from >= families.len() {
        None
    } else if computes(families[from]) {
        Some(from as u32)
    } else {
        first_computing(families, from + 1)
    }
}

/// The first family that computes.
pub fn compute_queue_family(families: &Vec<QueueFamily>) -> (r: Option<u32>)
    requires
        families@.len() <= u32::MAX,
    ensures
        r == first_computing(families@, 0),
{
    let mut i: usize = 0;
    while i < families.len()
        invariant
            i <= families@.len() <= u32::MAX,
            first_computing(families@, 0) == first_computing(families@, i as int),
        decreases families@.len() - i,
    {
        if families[i].count > 0 && families[i].flags & QUEUE_COMPUTE_BIT != 0 {
            return Some(i as u32);
        }
        i += 1;
    }
    None
}

/// What a kind of device is called.
pub open spec fn kind_name(device_type: u32) -> Seq<char> {
    if device_type == DEVICE_TYPE_INTEGRATED_GPU {
        "integrated-gpu"@
    } else if device_type == DEVICE_TYPE_DISCRETE_GPU {
        "discrete-gpu"@
    } else if device_type == 3 {
        "virtual-gpu"@
    } else if device_type == 4 {
        "cpu"@
    } else {
        "other"@
    }
}

/// What a kind of device is called.
pub fn device_type_name(device_type: u32) -> (r: &'static str)
    ensures
        r@ == kind_name(device_type),
{
    if device_type == DEVICE_TYPE_INTEGRATED_GPU {
        "integrated-gpu"
    } else if device_type == DEVICE_TYPE_DISCRETE_GPU {
        "discrete-gpu"
    } else if device_type == 3 {
        "virtual-gpu"
    } else if device_type == 4 {
        "cpu"
    } else {
        "other"
    }
}

/// How much a device is wanted: an Arc most, then a discrete one, then an integrated one.
pub open spec fn score(name: Seq<char>, device_type: u32) -> u32 {
    if has_part(lowered(vstd::utf8::encode_utf8(name)), "arc".spec_bytes()) {
        300
    } else if device_type == DEVICE_TYPE_DISCRETE_GPU {
        200
    } else if device_type == DEVICE_TYPE_INTEGRATED_GPU {
        100
    } else {
        0
    }
}

/// How much a device is wanted.
pub fn device_score(name: &str, device_type: u32) -> (r: u32)
    ensures
        r == score(name@, device_type),
{
    if lower_contains(name, "arc") {
        300
    } else if device_type == DEVICE_TYPE_DISCRETE_GPU {
        200
    } else if device_type == DEVICE_TYPE_INTEGRATED_GPU {
        100
    } else {
        0
    }
}

/// What is kept of a device.
pub open spec fn describes(info: VulkanDeviceInfo, d: DeviceReport, family: u32) -> bool {
    &&& info.device_name@ == d.device_name@
    &&& info.vendor_id == d.vendor_id
    &&& info.device_id == d.device_id
    &&& info.device_type@ == kind_name(d.device_type)
    &&& info.api_version == d.api_version
    &&& info.driver_version == d.driver_version
    &&& info.compute_queue_family == family
    &&& info.memory_heaps@ == d.memory.heaps@.take(least(d.memory.heap_count as int, 16))
}

/// What is kept of a device.
pub fn device_info(d: &DeviceReport, family: u32) -> (info: VulkanDeviceInfo)
    requires
        d.memory.wf(),
    ensures
        describes(info, *d, family),
{
    let n: usize = if d.memory.heap_count < 16 {
        d.memory.heap_count as usize
    } else {
        16
    };
    let mut heaps: Vec<VulkanMemoryHeap> = Vec::new();
    let mut i: usize = 0;
    while i < n
        invariant
            i <= n <= 16,
            d.memory.heaps@.len() == 16,
            heaps@ == d.memory.heaps@.take(i as int),
        decreases n - i,
    {
        heaps.push(d.memory.heaps[i]);
        i += 1;
        assert(heaps@ =~= d.memory.heaps@.take(i as int));
    }
    VulkanDeviceInfo {
        device_name: String::from_str(d.device_name.as_str()),
        vendor_id: d.vendor_id,
        device_id: d.device_id,
        device_type: String::from_str(device_type_name(d.device_type)),
        api_version: d.api_version,
        driver_version: d.driver_version,
        compute_queue_family: family,
        memory_heaps: heaps,
    }
}

/// The device is there and computes.
pub open spec fn usable(d: DeviceReport) -> bool {
    d.present && first_computing(d.families@, 0) is Some
}

/// The device that is taken: a usable one, wanted no less than the others and more than the usable
/// ones before it.
pub open spec fn is_best(devices: Seq<DeviceReport>, i: int) -> bool {
    &&& 0 <= i < devices.len()
    &&& usable(devices[i])
    &&& forall|j: int|
        #![trigger devices[j]]
        0 <= j < devices.len() && usable(devices[j]) && j != i ==> {
            let mine = score(devices[i].device_name@, devices[i].device_type);
            let other = score(devices[j].device_name@, devices[j].device_type);
            other < mine || (other == mine && i < j)
        }
}

/// At most one device is taken, whatever the driver reports.
pub proof fn law_one_best(devices: Seq<DeviceReport>, a: int, b: int)
    requires
        is_best(devices, a),
        is_best(devices, b),
    ensures
        a == b,
{
}

/// The device that was taken.
#[derive(Debug)]
pub struct SelectedDevice {
    /// Its place in the driver's list.
    pub index: usize,
    pub queue_family: u32,
    pub info: VulkanDeviceInfo,
}

/// Takes a device. `count_code` and `count` are the driver's answer to how many devices there are,
/// and `list_code` and `devices` that to which they are.
pub fn select_physical_device(
    count_code: i32,
    count: u32,
    list_code: i32,
    devices: &Vec<DeviceReport>,
) -> (r: Ds4Result<SelectedDevice>)
    requires
        forall|i: int|
            0 <= i < devices@.len() ==> (#[trigger] devices@[i]).memory.wf()
                && devices@[i].families@.len() <= u32::MAX,
    ensures
        if count_code != 0 {
            r matches Err(e) && vulkan_failed(e, "vkEnumeratePhysicalDevices"@, count_code)
        } else if count == 0 {
            r matches Err(e) && e.is(
                Ds4ErrorKind::NotImplemented,
                "Vulkan reports no physical devices"@,
            )
        } else if list_code != 0 {
            r matches Err(e) && vulkan_failed(e, "vkEnumeratePhysicalDevices"@, list_code)
        } else if exists|i: int| 0 <= i < devices@.len() && usable(#[trigger] devices@[i]) {
            &&& r matches Ok(s)
            &&& is_best(devices@, s.index as int)
            &&& first_computing(devices@[s.index as int].families@, 0) == Some(s.queue_family)
            &&& describes(s.info, devices@[s.index as int], s.queue_family)
        } else {
            r matches Err(e) && e.is(
                Ds4ErrorKind::NotImplemented,
                "Vulkan reports no compute-capable physical devices"@,
            )
        },
{
    check("vkEnumeratePhysicalDevices", count_code)?;
    if count == 0 {
        return Err(
            text_error(Ds4ErrorKind::NotImplemented, "Vulkan reports no physical devices"),
        );
    }
    check("vkEnumeratePhysicalDevices", list_code)?;
    let mut best: Option<(usize, u32, u32)> = None;
    let mut i: usize = 0;
    while i < devices.len()
        invariant
            i <= devices@.len(),
            forall|j: int|
                0 <= j < devices@.len() ==> (#[trigger] devices@[j]).memory.wf()
                    && devices@[j].families@.len() <= u32::MAX,
            match best {
                Some((b, family, points)) => {
                    &&& 0 <= b < i
                    &&& is_best(devices@.take(i as int), b as int)
                    &&& first_computing(devices@[b as int].families@, 0) == Some(family)
                    &&& points == score(
                        devices@[b as int].device_name@,
                        devices@[b as int].device_type,
                    )
                },
                None => forall|j: int| 0 <= j < i ==> !usable(#[trigger] devices@[j]),
            },
        decreases devices@.len() - i,
    {
        let ghost old_best = best;
        let d: &DeviceReport = &devices[i];
        if d.present {
            if let Some(family) = compute_queue_family(&d.families) {
                let points: u32 = device_score(d.device_name.as_str(), d.device_type);
                let better: bool = match best {
                    Some((_, _, top)) => points > top,
                    None => true,
                };
                if better {
                    best = Some((i, family, points));
                }
            }
        }
        proof {
            let before = devices@.take(i as int);
            let after = devices@.take(i + 1);
            assert(forall|j: int| 0 <= j < i ==> #[trigger] before[j] == devices@[j]);
            assert(forall|j: int| 0 <= j <= i ==> #[trigger] after[j] == devices@[j]);
            if let Some((b, family, points)) = best {
                assert forall|j: int|
                    #![trigger after[j]]
                    0 <= j < after.len() && usable(after[j]) && j != b implies {
                    let mine = score(after[b as int].device_name@, after[b as int].device_type);
                    let other = score(after[j].device_name@, after[j].device_type);
                    other < mine || (other == mine && b < j)
                } by {
                    if j < i {
                        assert(before[j] == devices@[j]);
                        if let Some((ob, of, op)) = old_best {
                            assert(before[ob as int] == devices@[ob as int]);
                        }
                    }
                }
            }
        }
        i += 1;
    }
    assert(devices@.take(i as int) =~= devices@);
    match best {
        Some((b, family, _)) => {
            assert(usable(devices@[b as int]));
            Ok(
                SelectedDevice {
                    index: b,
                    queue_family: family,
                    info: device_info(&devices[b], family),
                },
            )
        },
        None => Err(
            text_error(
                Ds4ErrorKind::NotImplemented,
                "Vulkan reports no compute-capable physical devices",
            ),
        ),
    }
}

// ---- Bringing the runtime up ----

/// What the driver answered while the runtime came up.
#[derive(Debug)]
pub enum BringUpEvent {
    /// To the request for an instance.
    Instance { code: i32, is_null: bool },
    /// The outcome of taking a device.
    Selected(Ds4Result<()>),
    /// To the request for the device.
    Device { code: i32, is_null: bool },
    /// To the question for the compute queue.
    Queue { is_null: bool },
}

/// What is to be done next.
#[derive(Debug)]
pub enum BringUpAction {
    Select,
    CreateDevice,
    TakeQueue,
    Ready,
    /// Nothing more: give back what was created, the device first, and report the error.
    Fail { destroy_device: bool, destroy_instance: bool, error: Ds4Error },
}

/// The runtime does not come up.
pub open spec fn fails(
    a: BringUpAction,
    device: bool,
    instance: bool,
    kind: Ds4ErrorKind,
    message: Seq<char>,
) -> bool {
    &&& a matches BringUpAction::Fail { destroy_device, destroy_instance, error }
    &&& destroy_device == device
    &&& destroy_instance == instance
    &&& error.is(kind, message)
}

/// What is said of a call that failed.
pub open spec fn failure(name: Seq<char>, code: i32) -> Seq<char> {
    name + " failed with Vulkan result "@ + dec_int(code as int)
}

/// What follows an answer of the driver.
pub open spec fn bring_up_follows(event: BringUpEvent, a: BringUpAction) -> bool {
    match event {
        BringUpEvent::Instance { code, is_null } => if code != 0 {
            fails(a, false, false, Ds4ErrorKind::Backend, failure("vkCreateInstance"@, code))
        } else if is_null {
            fails(
                a,
                false,
                false,
                Ds4ErrorKind::Backend,
                "vkCreateInstance returned a null instance"@,
            )
        } else {
            a is Select
        },
        BringUpEvent::Selected(Ok(_)) => a is CreateDevice,
        BringUpEvent::Selected(Err(e)) => a == (BringUpAction::Fail {
            destroy_device: false,
            destroy_instance: true,
            error: e,
        }),
        BringUpEvent::Device { code, is_null } => if code != 0 {
            fails(a, false, true, Ds4ErrorKind::Backend, failure("vkCreateDevice"@, code))
        } else if is_null {
            fails(
                a,
                false,
                true,
                Ds4ErrorKind::Backend,
                "vkCreateDevice returned a null device"@,
            )
        } else {
            a is TakeQueue
        },
        BringUpEvent::Queue { is_null } => if is_null {
            fails(
                a,
                true,
                true,
                Ds4ErrorKind::Backend,
                "vkGetDeviceQueue returned a null compute queue"@,
            )
        } else {
            a is Ready
        },
    }
}

/// The outcome of a call that creates something: its code, then whether there is anything.
pub fn check_create(name: &str, code: i32, is_null: bool, null_text: &str) -> (r: Ds4Result<()>)
    ensures
        if code != 0 {
            r matches Err(e) && vulkan_failed(e, name@, code)
        } else if is_null {
            r matches Err(e) && e.is(Ds4ErrorKind::Backend, null_text@)
        } else {
            r is Ok
        },
{
    check(name, code)?;
    if is_null {
        return Err(text_error(Ds4ErrorKind::Backend, null_text));
    }
    Ok(())
}

/// What is to be done after an answer of the driver. It begins with the request for an instance.
pub fn bring_up(event: BringUpEvent) -> (a: BringUpAction)
    ensures
        bring_up_follows(event, a),
{
    match event {
        BringUpEvent::Instance { code, is_null } => match check_create(
            "vkCreateInstance",
            code,
            is_null,
            "vkCreateInstance returned a null instance",
        ) {
            Ok(()) => BringUpAction::Select,
            Err(error) => BringUpAction::Fail {
                destroy_device: false,
                destroy_instance: false,
                error,
            },
        },
        BringUpEvent::Selected(Ok(())) => BringUpAction::CreateDevice,
        BringUpEvent::Selected(Err(error)) => BringUpAction::Fail {
            destroy_device: false,
            destroy_instance: true,
            error,
        },
        BringUpEvent::Device { code, is_null } => match check_create(
            "vkCreateDevice",
            code,
            is_null,
            "vkCreateDevice returned a null device",
        ) {
            Ok(()) => BringUpAction::TakeQueue,
            Err(error) => BringUpAction::Fail {
                destroy_device: false,
                destroy_instance: true,
                error,
            },
        },
        BringUpEvent::Queue { is_null } => {
            if is_null {
                BringUpAction::Fail {
                    destroy_device: true,
                    destroy_instance: true,
                    error: text_error(
                        Ds4ErrorKind::Backend,
                        "vkGetDeviceQueue returned a null compute queue",
                    ),
                }
            } else {
                BringUpAction::Ready
            }
        },
    }
}

/// The answer is to what was asked last; at first an instance is asked for.
pub open spec fn bring_up_answers(asked: Option<BringUpAction>, event: BringUpEvent) -> bool {
    match asked {
        None => event is Instance,
        Some(BringUpAction::Select) => event is Selected,
        Some(BringUpAction::CreateDevice) => event is Device,
        Some(BringUpAction::TakeQueue) => event is Queue,
        Some(BringUpAction::Ready) => false,
        Some(BringUpAction::Fail { destroy_device, destroy_instance, error }) => false,
    }
}

/// A course of bringing the runtime up: each answer is to what was asked last, and each action is
/// what follows.
pub open spec fn bring_up_course(events: Seq<BringUpEvent>, actions: Seq<BringUpAction>) -> bool {
    &&& events.len() == actions.len()
    &&& forall|i: int|
        #![trigger events[i]]
        0 <= i < events.len() ==> bring_up_follows(events[i], actions[i]) && bring_up_answers(
            if i == 0 {
                None
            } else {
                Some(actions[i - 1])
            },
            events[i],
        )
}

/// The course of bringing the runtime up ends after four answers at the latest. Where it fails,
/// exactly what was created is given back.
pub proof fn law_bring_up_gives_back(events: Seq<BringUpEvent>, actions: Seq<BringUpAction>)
    requires
        bring_up_course(events, actions),
        events.len() > 0,
    ensures
        events.len() <= 4,
        events.len() == 4 ==> actions.last() is Ready || actions.last() is Fail,
        actions.last() is Ready ==> events.len() == 4,
        actions.last() matches BringUpAction::Fail { destroy_device, destroy_instance, error } ==> {
            &&& destroy_instance == (events[0] == (BringUpEvent::Instance {
                code: 0,
                is_null: false,
            }))
            &&& destroy_device == (events.len() > 2 && events[2] == (BringUpEvent::Device {
                code: 0,
                is_null: false,
            }))
        },
{
    assert(events[0] is Instance);
    if events.len() > 1 {
        assert(events[1] is Selected);
        if events.len() > 2 {
            assert(events[2] is Device);
            if events.len() > 3 {
                assert(events[3] is Queue);
                if events.len() > 4 {
                    assert(bring_up_answers(Some(actions[3]), events[4]));
                }
            }
        }
    }
}

// ---- The runtime ----

/// A runtime that came up.
#[derive(Debug)]
pub struct VulkanRuntime {
    pub queue_family_index: u32,
    pub memory: MemoryProperties,
    pub device_info: VulkanDeviceInfo,
}

/// A request for memory.
#[derive(Debug, Clone, Copy, PartialEq, Eq, Structural)]
pub struct BufferRequest {
    /// Number of bytes: at least one.
    pub size: usize,
    pub kind: VulkanMemoryKind,
}

/// The properties that memory of a kind must have.
pub open spec fn kind_flags(kind: VulkanMemoryKind) -> u32 {
    match kind {
        VulkanMemoryKind::HostVisible => MEMORY_HOST_BITS,
        VulkanMemoryKind::DeviceLocal => MEMORY_DEVICE_LOCAL_BIT,
    }
}

/// The type is allowed by the mask and has all properties that are required.
pub open spec fn suits(memory: MemoryProperties, bits: u32, required: u32, i: int) -> bool {
    bits & (1u32 << (i as u32)) != 0 && memory.type_flags@[i] & required == required
}

/// The first type, from `from` on, that suits.
pub open spec fn first_type(memory: MemoryProperties, bits: u32, required: u32, from: int) -> Option<
    u32,
>
    decreases memory.types() - from,
{
    if from < 0 || from >= memory.types() {
        None
    } else if suits(memory, bits, required, from) {
        Some(from as u32)
    } else {
        first_type(memory, bits, required, from + 1)
    }
}

/// The error for memory that the device does not have.
pub open spec fn no_memory_type(e: Ds4Error, bits: u32, required: u32) -> bool {
    e.is(
        Ds4ErrorKind::OutOfMemory,
        "Vulkan memory type not found for flags 0x"@ + hex_padded(required as nat, 8)
            + " and mask 0x"@ + hex_padded(bits as nat, 8),
    )
}

/// What the driver answered while a buffer was made.
#[derive(Debug, Clone, Copy, PartialEq, Eq, Structural)]
pub enum BufferEvent {
    /// To the request for a buffer.
    Created { code: i32 },
    /// To the question what memory the buffer needs.
    Needs { size: u64, type_bits: u32 },
    /// To the request for memory.
    Allocated { code: i32 },
    /// To the request to bind the memory to the buffer.
    Bound { code: i32 },
}

/// What is to be done next.
#[derive(Debug)]
pub enum BufferAction {
    AskNeeds,
    Allocate { size: u64, type_index: u32 },
    Bind,
    Finish(VulkanBuffer),
    /// Nothing more: give back what was created, the memory first, and report the error.
    Fail { free_memory: bool, destroy_buffer: bool, error: Ds4Error },
}

/// A call failed while a buffer was made.
pub open spec fn buffer_fails(
    a: BufferAction,
    memory: bool,
    buffer: bool,
    name: Seq<char>,
    code: i32,
) -> bool {
    &&& a matches BufferAction::Fail { free_memory, destroy_buffer, error }
    &&& free_memory == memory
    &&& destroy_buffer == buffer
    &&& vulkan_failed(error, name, code)
}

/// What follows an answer of the driver.
pub open spec fn buffer_follows(
    memory: MemoryProperties,
    request: BufferRequest,
    event: BufferEvent,
    a: BufferAction,
) -> bool {
    match event {
        BufferEvent::Created { code } => if code == 0 {
            a is AskNeeds
        } else {
            buffer_fails(a, false, false, "vkCreateBuffer"@, code)
        },
        BufferEvent::Needs { size, type_bits } => match first_type(
            memory,
            type_bits,
            kind_flags(request.kind),
            0,
        ) {
            Some(i) => a == (BufferAction::Allocate { size, type_index: i }),
            None => a matches BufferAction::Fail { free_memory, destroy_buffer, error }
                && !free_memory && destroy_buffer && no_memory_type(
                error,
                type_bits,
                kind_flags(request.kind),
            ),
        },
        BufferEvent::Allocated { code } => if code == 0 {
            a is Bind
        } else {
            buffer_fails(a, false, true, "vkAllocateMemory"@, code)
        },
        BufferEvent::Bound { code } => if code == 0 {
            a == BufferAction::Finish(
                VulkanBuffer { bytes: request.size, memory_kind: request.kind },
            )
        } else {
            buffer_fails(a, true, true, "vkBindBufferMemory"@, code)
        },
    }
}

impl VulkanRuntime {
    /// What is known of the device.
    pub fn device_info(&self) -> (r: &VulkanDeviceInfo)
        ensures
            *r == self.device_info,
    {
        &self.device_info
    }

    /// The name of the device.
    pub fn device_name(&self) -> (r: &str)
        ensures
            r@ == self.device_info.device_name@,
    {
        self.device_info.device_name.as_str()
    }

    /// The family of the compute queue.
    pub fn queue_family_index(&self) -> (n: u32)
        ensures
            n == self.queue_family_index,
    {
        self.queue_family_index
    }

    /// A request for memory that the host can see.
    pub fn alloc_host_visible(bytes: usize) -> (r: BufferRequest)
        ensures
            r.size == if bytes > 0 {
                bytes
            } else {
                1
            },
            r.kind == VulkanMemoryKind::HostVisible,
    {
        BufferRequest {
            size: if bytes > 0 {
                bytes
            } else {
                1
            },
            kind: VulkanMemoryKind::HostVisible,
        }
    }

    /// A request for memory on the device.
    pub fn alloc_device_local(bytes: usize) -> (r: BufferRequest)
        ensures
            r.size == if bytes > 0 {
                bytes
            } else {
                1
            },
            r.kind == VulkanMemoryKind::DeviceLocal,
    {
        BufferRequest {
            size: if bytes > 0 {
                bytes
            } else {
                1
            },
            kind: VulkanMemoryKind::DeviceLocal,
        }
    }

    /// The first memory type that the mask allows and that has all properties that are required.
    pub fn find_memory_type(&self, bits: u32, required: u32) -> (r: Ds4Result<u32>)
        requires
            self.memory.wf(),
        ensures
            match first_type(self.memory, bits, required, 0) {
                Some(i) => r == Ok::<u32, Ds4Error>(i),
                None => r matches Err(e) && no_memory_type(e, bits, required),
            },
    {
        let n: u32 = if self.memory.type_count < 32 {
            self.memory.type_count
        } else {
            32
        };
        let mut i: u32 = 0;
        while i < n
            invariant
                i <= n <= 32,
                n == self.memory.types(),
                self.memory.wf(),
                first_type(self.memory, bits, required, 0) == first_type(
                    self.memory,
                    bits,
                    required,
                    i as int,
                ),
            decreases n - i,
        {
            let supported: bool = bits & (1u32 << i) != 0;
            let flags: u32 = self.memory.type_flags[i as usize];
            if supported && flags & required == required {
                return Ok(i);
            }
            i += 1;
        }
        let mut m: String = String::from_str("Vulkan memory type not found for flags 0x");
        push_hex_padded(&mut m, required as u64, 8);
        m.append(" and mask 0x");
        push_hex_padded(&mut m, bits as u64, 8);
        Err(Ds4Error::new(Ds4ErrorKind::OutOfMemory, m))
    }

    /// What is to be done after an answer of the driver. It begins with the request for a buffer of
    /// the requested size.
    pub fn alloc_buffer(&self, request: BufferRequest, event: BufferEvent) -> (a: BufferAction)
        requires
            self.memory.wf(),
        ensures
            buffer_follows(self.memory, request, event, a),
    {
        match event {
            BufferEvent::Created { code } => match check("vkCreateBuffer", code) {
                Ok(()) => BufferAction::AskNeeds,
                Err(error) => BufferAction::Fail {
                    free_memory: false,
                    destroy_buffer: false,
                    error,
                },
            },
            BufferEvent::Needs { size, type_bits } => {
                let required: u32 = match request.kind {
                    VulkanMemoryKind::HostVisible => MEMORY_HOST_BITS,
                    VulkanMemoryKind::DeviceLocal => MEMORY_DEVICE_LOCAL_BIT,
                };
                match self.find_memory_type(type_bits, required) {
                    Ok(type_index) => BufferAction::Allocate { size, type_index },
                    Err(error) => BufferAction::Fail {
                        free_memory: false,
                        destroy_buffer: true,
                        error,
                    },
                }
            },
            BufferEvent::Allocated { code } => match check("vkAllocateMemory", code) {
                Ok(()) => BufferAction::Bind,
                Err(error) => BufferAction::Fail {
                    free_memory: false,
                    destroy_buffer: true,
                    error,
                },
            },
            BufferEvent::Bound { code } => match check("vkBindBufferMemory", code) {
                Ok(()) => BufferAction::Finish(
                    VulkanBuffer { bytes: request.size, memory_kind: request.kind },
                ),
                Err(error) => BufferAction::Fail {
                    free_memory: true,
                    destroy_buffer: true,
                    error,
                },
            },
        }
    }
}

/// The answer is to what was asked last; at first a buffer is asked for.
pub open spec fn buffer_answers(asked: Option<BufferAction>, event: BufferEvent) -> bool {
    match asked {
        None => event is Created,
        Some(BufferAction::AskNeeds) => event is Needs,
        Some(BufferAction::Allocate { size, type_index }) => event is Allocated,
        Some(BufferAction::Bind) => event is Bound,
        Some(BufferAction::Finish(_)) => false,
        Some(BufferAction::Fail { free_memory, destroy_buffer, error }) => false,
    }
}

/// A course of making a buffer: each answer is to what was asked last, and each action is what
/// follows.
pub open spec fn buffer_course(
    memory: MemoryProperties,
    request: BufferRequest,
    events: Seq<BufferEvent>,
    actions: Seq<BufferAction>,
) -> bool {
    &&& events.len() == actions.len()
    &&& forall|i: int|
        #![trigger events[i]]
        0 <= i < events.len() ==> buffer_follows(memory, request, events[i], actions[i])
            && buffer_answers(
            if i == 0 {
                None
            } else {
                Some(actions[i - 1])
            },
            events[i],
        )
}

/// The course of making a buffer ends after four answers at the latest. Where it fails, exactly
/// what was created is given back, so that nothing is lost and nothing is given back twice.
pub proof fn law_buffer_gives_back(
    memory: MemoryProperties,
    request: BufferRequest,
    events: Seq<BufferEvent>,
    actions: Seq<BufferAction>,
)
    requires
        buffer_course(memory, request, events, actions),
        events.len() > 0,
    ensures
        events.len() <= 4,
        events.len() == 4 ==> actions.last() is Finish || actions.last() is Fail,
        actions.last() matches BufferAction::Finish(b) ==> events.len() == 4 && b.bytes
            == request.size && b.memory_kind == request.kind,
        actions.last() matches BufferAction::Fail { free_memory, destroy_buffer, error } ==> {
            &&& destroy_buffer == (events[0] == (BufferEvent::Created { code: 0 }))
            &&& free_memory == (events.len() > 2 && events[2] == (BufferEvent::Allocated {
                code: 0,
            }))
        },
{
    assert(events[0] is Created);
    if events.len() > 1 {
        assert(events[1] is Needs);
        if events.len() > 2 {
            assert(events[2] is Allocated);
            if events.len() > 3 {
                assert(events[3] is Bound);
                if events.len() > 4 {
                    assert(buffer_answers(Some(actions[3]), events[4]));
                }
            }
        }
    }
}

/// The memory that is asked for a buffer is of a type that the buffer allows and of the kind that
/// was requested.
pub proof fn law_memory_suits(
    memory: MemoryProperties,
    request: BufferRequest,
    size: u64,
    type_bits: u32,
    a: BufferAction,
)
    requires
        buffer_follows(memory, request, BufferEvent::Needs { size, type_bits }, a),
    ensures
        a matches BufferAction::Allocate { size: asked, type_index } ==> asked == size
            && type_index < memory.types() && suits(
            memory,
            type_bits,
            kind_flags(request.kind),
            type_index as int,
        ),
{
    lemma_first_type(memory, type_bits, kind_flags(request.kind), 0);
}

proof fn lemma_first_type(memory: MemoryProperties, bits: u32, required: u32, from: int)
    requires
        0 <= from,
    ensures
        first_type(memory, bits, required, from) matches Some(i) ==> i < memory.types() && suits(
            memory,
            bits,
            required,
            i as int,
        ),
    decreases memory.types() - from,
{
    if from < memory.types() {
        lemma_first_type(memory, bits, required, from + 1);
    }
}

// ---- Buffers ----

/// A buffer with its memory.
#[derive(Debug, Clone, Copy, PartialEq, Eq, Structural)]
pub struct VulkanBuffer {
    pub bytes: usize,
    pub memory_kind: VulkanMemoryKind,
}

impl VulkanBuffer {
    /// Its size.
    pub fn bytes(&self) -> (n: usize)
        ensures
            n == self.bytes,
    {
        self.bytes
    }

    /// Where its memory is.
    pub fn memory_kind(&self) -> (k: VulkanMemoryKind)
        ensures
            k == self.memory_kind,
    {
        self.memory_kind
    }

    /// The error of a copy of `len` bytes.
    pub open spec fn copy_fails(self, what: Seq<char>, len: usize, r: Ds4Result<()>) -> bool {
        if len > self.bytes {
            r matches Err(e) && e.is(
                Ds4ErrorKind::InvalidArgument,
                "Vulkan buffer "@ + what + " too large: "@ + dec(len as nat) + " > "@ + dec(
                    self.bytes as nat,
                ),
            )
        } else if self.memory_kind != VulkanMemoryKind::HostVisible {
            r matches Err(e) && e.is(
                Ds4ErrorKind::Backend,
                "Vulkan buffer is device-local and cannot be mapped by the host"@,
            )
        } else {
            false
        }
    }

    fn check_copy(&self, what: &str, len: usize) -> (r: Ds4Result<()>)
        ensures
            r is Err == (len > self.bytes || self.memory_kind != VulkanMemoryKind::HostVisible),
            r is Err ==> self.copy_fails(what@, len, r),
    {
        if len > self.bytes {
            let mut m: String = String::from_str("Vulkan buffer ");
            m.append(what);
            m.append(" too large: ");
            push_dec(&mut m, len as u64);
            m.append(" > ");
            push_dec(&mut m, self.bytes as u64);
            return Err(Ds4Error::new(Ds4ErrorKind::InvalidArgument, m));
        }
        if self.memory_kind != VulkanMemoryKind::HostVisible {
            return Err(
                text_error(
                    Ds4ErrorKind::Backend,
                    "Vulkan buffer is device-local and cannot be mapped by the host",
                ),
            );
        }
        Ok(())
    }

    /// Checks a copy of `len` bytes into the buffer.
    pub fn write(&self, len: usize) -> (r: Ds4Result<()>)
        ensures
            r is Err == (len > self.bytes || self.memory_kind != VulkanMemoryKind::HostVisible),
            r is Err ==> self.copy_fails("write"@, len, r),
    {
        self.check_copy("write", len)
    }

    /// Checks a copy of `len` bytes out of the buffer.
    pub fn read(&self, len: usize) -> (r: Ds4Result<()>)
        ensures
            r is Err == (len > self.bytes || self.memory_kind != VulkanMemoryKind::HostVisible),
            r is Err ==> self.copy_fails("read"@, len, r),
    {
        self.check_copy("read", len)
    }

    /// The outcome of making the memory visible to the host.
    pub fn map(code: i32, is_null: bool) -> (r: Ds4Result<()>)
        ensures
            if code != 0 {
                r matches Err(e) && vulkan_failed(e, "vkMapMemory"@, code)
            } else if is_null {
                r matches Err(e) && e.is(
                    Ds4ErrorKind::Backend,
                    "vkMapMemory returned a null host pointer"@,
                )
            } else {
                r is Ok
            },
    {
        check_create("vkMapMemory", code, is_null, "vkMapMemory returned a null host pointer")
    }
}

} // verus!
