//! What the OpenCL runtime decides: which device is taken, how kernels are named and launched, and
//! what its answers mean.

use vstd::prelude::*;
use vstd::string::StringExecFns;
use vstd::utf8::encode_utf8;

use crate::dist::protocol::{lossy_text, utf8_lossy};
use crate::search::{has_part, lower_contains, lowered};
use crate::slices::copy_bytes;
use crate::text::{dec, dec_int, push_dec, push_dec_int};
use crate::types::{fault, Ds4Error, Ds4ErrorKind, Ds4Result, Fault};

verus! {

/// The kernels.
#[derive(Debug, Clone, Copy, PartialEq, Eq, Structural)]
pub enum KernelId {
    EmbeddingWeight,
    RmsNormWeight,
    MatvecWeight,
    EmbeddingF32,
    RmsNormF32,
    MatvecF32,
    AddInplaceF32,
    AddScaledInplaceF32,
    SiluProductF32,
    RopeF32,
    StoreCacheF32,
    AttentionDecodeF32,
}

/// The name of a kernel in the program.
pub open spec fn kernel_text(id: KernelId) -> Seq<char> {
    match id {
        KernelId::EmbeddingWeight => "ds4_embedding_weight"@,
        KernelId::RmsNormWeight => "ds4_rmsnorm_weight"@,
        KernelId::MatvecWeight => "ds4_matvec_weight"@,
        KernelId::EmbeddingF32 => "ds4_embedding_f32"@,
        KernelId::RmsNormF32 => "ds4_rmsnorm_f32"@,
        KernelId::MatvecF32 => "ds4_matvec_f32"@,
        KernelId::AddInplaceF32 => "ds4_add_inplace_f32"@,
        KernelId::AddScaledInplaceF32 => "ds4_add_scaled_inplace_f32"@,
        KernelId::SiluProductF32 => "ds4_silu_product_f32"@,
        KernelId::RopeF32 => "ds4_rope_f32"@,
        KernelId::StoreCacheF32 => "ds4_store_cache_f32"@,
        KernelId::AttentionDecodeF32 => "ds4_attention_decode_f32"@,
    }
}

impl KernelId {
    /// The name of the kernel in the program.
    pub fn name(&self) -> (r: &'static str)
        ensures
            r@ == kernel_text(*self),
    {
        match self {
            KernelId::EmbeddingWeight => "ds4_embedding_weight",
            KernelId::RmsNormWeight => "ds4_rmsnorm_weight",
            KernelId::MatvecWeight => "ds4_matvec_weight",
            KernelId::EmbeddingF32 => "ds4_embedding_f32",
            KernelId::RmsNormF32 => "ds4_rmsnorm_f32",
            KernelId::MatvecF32 => "ds4_matvec_f32",
            KernelId::AddInplaceF32 => "ds4_add_inplace_f32",
            KernelId::AddScaledInplaceF32 => "ds4_add_scaled_inplace_f32",
            KernelId::SiluProductF32 => "ds4_silu_product_f32",
            KernelId::RopeF32 => "ds4_rope_f32",
            KernelId::StoreCacheF32 => "ds4_store_cache_f32",
            KernelId::AttentionDecodeF32 => "ds4_attention_decode_f32",
        }
    }
}

/// What the driver answered to a question for a text: the code of the call for its length, the
/// code of the call for the bytes, and the bytes.
#[derive(Debug)]
pub struct InfoReply {
    pub size_code: i32,
    pub fetch_code: i32,
    pub bytes: Vec<u8>,
}

impl InfoReply {
    /// What stands against the answer.
    pub open spec fn broken(self, call: Seq<char>) -> Option<Fault> {
        if self.size_code != 0 {
            call_fault(call, self.size_code)
        } else if self.fetch_code != 0 {
            call_fault(call, self.fetch_code)
        } else {
            None
        }
    }

    /// The text of the answer.
    pub open spec fn text(self) -> Seq<char> {
        utf8_lossy(self.bytes@.subrange(0, text_end(self.bytes@, 0)))
    }
}

fn info(call: &str, reply: &InfoReply) -> (r: Ds4Result<String>)
    ensures
        match reply.broken(call@) {
            Some(f) => r matches Err(e) && e.says(f),
            None => r matches Ok(s) && s@ == reply.text(),
        },
{
    check(call, reply.size_code)?;
    check(call, reply.fetch_code)?;
    Ok(bytes_to_string(reply.bytes.as_slice()))
}

/// A text about a platform.
pub fn platform_info(reply: &InfoReply) -> (r: Ds4Result<String>)
    ensures
        match reply.broken("clGetPlatformInfo"@) {
            Some(f) => r matches Err(e) && e.says(f),
            None => r matches Ok(s) && s@ == reply.text(),
        },
{
    info("clGetPlatformInfo", reply)
}

/// A text about a device.
pub fn device_info(reply: &InfoReply) -> (r: Ds4Result<String>)
    ensures
        match reply.broken("clGetDeviceInfo"@) {
            Some(f) => r matches Err(e) && e.says(f),
            None => r matches Ok(s) && s@ == reply.text(),
        },
{
    info("clGetDeviceInfo", reply)
}

/// The log of a program that did not build; empty where it cannot be had.
pub fn build_log(reply: &InfoReply) -> (r: String)
    ensures
        r@ == if reply.broken("clGetProgramBuildInfo"@) is Some {
            ""@
        } else {
            reply.text()
        },
{
    match info("clGetProgramBuildInfo", reply) {
        Ok(log) => log,
        Err(_) => String::from_str(""),
    }
}

/// A GPU of a platform, as the driver describes it.
#[derive(Debug)]
pub struct ArcDevice {
    pub name: InfoReply,
    pub vendor: InfoReply,
}

/// A platform, as the driver describes it. The questions for its GPUs are asked only of a platform
/// of Intel's.
#[derive(Debug)]
pub struct ArcPlatform {
    pub name: InfoReply,
    pub vendor: InfoReply,
    pub count_code: i32,
    pub device_count: u32,
    pub list_code: i32,
    pub devices: Vec<ArcDevice>,
}

/// The platforms, as the driver lists them.
#[derive(Debug)]
pub struct PlatformList {
    pub count_code: i32,
    pub count: u32,
    pub list_code: i32,
    pub platforms: Vec<ArcPlatform>,
}

/// The device that was taken: its place and its platform's, and their names.
#[derive(Debug)]
pub struct ArcChoice {
    pub platform: usize,
    pub device: usize,
    pub platform_name: String,
    pub device_name: String,
}

/// The text names Intel.
pub open spec fn names_intel(s: Seq<char>) -> bool {
    has_part(lowered(encode_utf8(s)), encode_utf8("intel"@))
}

/// The text names Arc.
pub open spec fn names_arc(s: Seq<char>) -> bool {
    has_part(lowered(encode_utf8(s)), encode_utf8("arc"@))
}

/// The device is an Intel Arc.
pub open spec fn is_arc(d: ArcDevice) -> bool {
    names_arc(d.name.text()) && names_intel(d.vendor.text())
}

/// What a search comes to.
pub enum Search {
    At { platform: int, device: int },
    Failed(Fault),
    Nowhere,
}

/// What the search among the devices of platform `platform` comes to, from device `from` on.
pub open spec fn device_search(devices: Seq<ArcDevice>, platform: int, from: int) -> Search
    decreases devices.len() - from,
{
    if from < 0 || from >= devices.len() {
        Search::Nowhere
    } else if let Some(f) = devices[from].name.broken("clGetDeviceInfo"@) {
        Search::Failed(f)
    } else if let Some(f) = devices[from].vendor.broken("clGetDeviceInfo"@) {
        Search::Failed(f)
    } else if is_arc(devices[from]) {
        Search::At { platform, device: from }
    } else {
        device_search(devices, platform, from + 1)
    }
}

/// The devices of the platform are looked at.
pub open spec fn searched(p: ArcPlatform) -> bool {
    names_intel(p.vendor.text()) && p.count_code == 0 && p.device_count > 0
}

/// What the search among the platforms comes to, from platform `from` on.
pub open spec fn platform_search(platforms: Seq<ArcPlatform>, from: int) -> Search
    decreases platforms.len() - from,
{
    if from < 0 || from >= platforms.len() {
        Search::Nowhere
    } else {
        let p = platforms[from];
        if let Some(f) = p.name.broken("clGetPlatformInfo"@) {
            Search::Failed(f)
        } else if let Some(f) = p.vendor.broken("clGetPlatformInfo"@) {
            Search::Failed(f)
        } else if !searched(p) {
            platform_search(platforms, from + 1)
        } else if p.list_code != 0 {
            Search::Failed(call_fault("clGetDeviceIDs"@, p.list_code).unwrap())
        } else if device_search(p.devices@, from, 0) is Nowhere {
            platform_search(platforms, from + 1)
        } else {
            device_search(p.devices@, from, 0)
        }
    }
}

/// What the search comes to as a whole.
pub open spec fn arc_search(list: PlatformList) -> Search {
    if list.count_code != 0 {
        Search::Failed(call_fault("clGetPlatformIDs"@, list.count_code).unwrap())
    } else if list.count == 0 {
        Search::Failed(
            fault(Ds4ErrorKind::NotImplemented, "OpenCL reports no platforms"@).unwrap(),
        )
    } else if list.list_code != 0 {
        Search::Failed(call_fault("clGetPlatformIDs"@, list.list_code).unwrap())
    } else {
        platform_search(list.platforms@, 0)
    }
}

/// No device of the list before `n` is an Intel Arc.
pub open spec fn no_arc_before(devices: Seq<ArcDevice>, n: int) -> bool {
    forall|j: int| 0 <= j < n && j < devices.len() ==> !is_arc(#[trigger] devices[j])
}

/// No platform before `n` whose devices are looked at has an Intel Arc.
pub open spec fn no_platform_before(platforms: Seq<ArcPlatform>, n: int) -> bool {
    forall|i: int|
        0 <= i < n && i < platforms.len() && searched(#[trigger] platforms[i]) ==> no_arc_before(
            platforms[i].devices@,
            platforms[i].devices@.len() as int,
        )
}

proof fn lemma_device_search(devices: Seq<ArcDevice>, platform: int, from: int)
    requires
        0 <= from <= devices.len(),
        no_arc_before(devices, from),
    ensures
        match device_search(devices, platform, from) {
            Search::At { platform: p, device } => {
                &&& p == platform
                &&& from <= device < devices.len()
                &&& is_arc(devices[device])
                &&& no_arc_before(devices, device)
            },
            Search::Nowhere => no_arc_before(devices, devices.len() as int),
            Search::Failed(_) => true,
        },
    decreases devices.len() - from,
{
    if from < devices.len() && !is_arc(devices[from]) {
        lemma_device_search(devices, platform, from + 1);
    }
}

proof fn lemma_platform_search(platforms: Seq<ArcPlatform>, from: int)
    requires
        0 <= from <= platforms.len(),
        no_platform_before(platforms, from),
    ensures
        match platform_search(platforms, from) {
            Search::At { platform, device } => {
                &&& from <= platform < platforms.len()
                &&& searched(platforms[platform])
                &&& 0 <= device < platforms[platform].devices@.len()
                &&& is_arc(platforms[platform].devices@[device])
                &&& no_arc_before(platforms[platform].devices@, device)
                &&& no_platform_before(platforms, platform)
            },
            Search::Nowhere => no_platform_before(platforms, platforms.len() as int),
            Search::Failed(_) => true,
        },
    decreases platforms.len() - from,
{
    if from < platforms.len() {
        let p = platforms[from];
        lemma_device_search(p.devices@, from, 0);
        if !searched(p) || device_search(p.devices@, from, 0) is Nowhere {
            lemma_platform_search(platforms, from + 1);
        }
    }
}

/// The device that is taken is the first Intel Arc of the first platform of Intel's that has one.
/// Where none is found and nothing failed, there is none.
pub proof fn law_first_arc(list: PlatformList)
    ensures
        match arc_search(list) {
            Search::At { platform, device } => {
                let platforms = list.platforms@;
                &&& 0 <= platform < platforms.len()
                &&& names_intel(platforms[platform].vendor.text())
                &&& 0 <= device < platforms[platform].devices@.len()
                &&& is_arc(platforms[platform].devices@[device])
                &&& no_arc_before(platforms[platform].devices@, device)
                &&& no_platform_before(platforms, platform)
            },
            Search::Nowhere => no_platform_before(
                list.platforms@,
                list.platforms@.len() as int,
            ),
            Search::Failed(_) => true,
        },
{
    lemma_platform_search(list.platforms@, 0);
}

/// `true` if the platform is one of Intel's.
pub fn platform_wanted(vendor: &str) -> (r: bool)
    ensures
        r == names_intel(vendor@),
{
    lower_contains(vendor, "intel")
}

/// `true` if a device of this name and vendor is an Intel Arc.
pub fn device_wanted(name: &str, vendor: &str) -> (r: bool)
    ensures
        r == (names_arc(name@) && names_intel(vendor@)),
{
    let named: bool = lower_contains(name, "arc");
    named && lower_contains(vendor, "intel")
}

fn find_device(devices: &Vec<ArcDevice>, Ghost(platform): Ghost<int>) -> (r: Ds4Result<
    Option<(usize, String)>,
>)
    ensures
        match device_search(devices@, platform, 0) {
            Search::Failed(f) => r matches Err(e) && e.says(f),
            Search::Nowhere => r matches Ok(None),
            Search::At { platform: _, device } => r matches Ok(Some(found)) && found.0 == device
                && device < devices@.len() && found.1@ == devices@[device].name.text(),
        },
{
    let mut i: usize = 0;
    while i < devices.len()
        invariant
            i <= devices@.len(),
            device_search(devices@, platform, 0) == device_search(devices@, platform, i as int),
        decreases devices@.len() - i,
    {
        let name: String = device_info(&devices[i].name)?;
        let vendor: String = device_info(&devices[i].vendor)?;
        if device_wanted(name.as_str(), vendor.as_str()) {
            return Ok(Some((i, name)));
        }
        i += 1;
    }
    Ok(None)
}

/// Picks the first Intel Arc of the first Intel platform that has one. A question that the driver
/// did not answer before that is reported.
pub fn find_arc_device(list: &PlatformList) -> (r: Ds4Result<ArcChoice>)
    ensures
        match arc_search(*list) {
            Search::At { platform, device } => {
                &&& r matches Ok(c)
                &&& c.platform == platform
                &&& c.device == device
                &&& c.platform_name@ == list.platforms@[platform].name.text()
                &&& c.device_name@ == list.platforms@[platform].devices@[device].name.text()
            },
            Search::Failed(f) => r matches Err(e) && e.says(f),
            Search::Nowhere => r matches Err(e) && e.is(
                Ds4ErrorKind::NotImplemented,
                "Intel Arc OpenCL GPU was not found"@,
            ),
        },
{
    check("clGetPlatformIDs", list.count_code)?;
    if list.count == 0 {
        return Err(
            Ds4Error::new(
                Ds4ErrorKind::NotImplemented,
                String::from_str("OpenCL reports no platforms"),
            ),
        );
    }
    check("clGetPlatformIDs", list.list_code)?;
    let platforms: &Vec<ArcPlatform> = &list.platforms;
    let mut i: usize = 0;
    while i < platforms.len()
        invariant
            platforms@ == list.platforms@,
            i <= platforms@.len(),
            arc_search(*list) == platform_search(platforms@, i as int),
        decreases platforms@.len() - i,
    {
        let name: String = platform_info(&platforms[i].name)?;
        let vendor: String = platform_info(&platforms[i].vendor)?;
        if platform_wanted(vendor.as_str()) && platforms[i].count_code == 0
            && platforms[i].device_count > 0 {
            check("clGetDeviceIDs", platforms[i].list_code)?;
            proof {
                lemma_device_search(platforms@[i as int].devices@, i as int, 0);
            }
            if let Some((device, device_name)) = find_device(
                &platforms[i].devices,
                Ghost(i as int),
            )? {
                return Ok(
                    ArcChoice { platform: i, device, platform_name: name, device_name },
                );
            }
        }
        i += 1;
    }
    Err(
        Ds4Error::new(
            Ds4ErrorKind::NotImplemented,
            String::from_str("Intel Arc OpenCL GPU was not found"),
        ),
    )
}

/// The position of the first zero byte, or the end.
pub open spec fn text_end(s: Seq<u8>, from: int) -> int
    decreases s.len() - from,
{
    if from < 0 || from >= s.len() {
        s.len() as int
    } else if s[from] == 0 {
        from
    } else {
        text_end(s, from + 1)
    }
}

/// The text before the first zero byte.
pub fn bytes_to_string(bytes: &[u8]) -> (r: String)
    ensures
        0 <= text_end(bytes@, 0) <= bytes@.len(),
        r@ == utf8_lossy(bytes@.subrange(0, text_end(bytes@, 0))),
{
    let mut end: usize = 0;
    while end < bytes.len() && bytes[end] != 0
        invariant
            end <= bytes@.len(),
            text_end(bytes@, 0) == text_end(bytes@, end as int),
        decreases bytes@.len() - end,
    {
        end += 1;
    }
    let part: Vec<u8> = copy_bytes(bytes, 0, end);
    lossy_text(part.as_slice())
}

/// The fault of a call that failed.
pub open spec fn call_fault(name: Seq<char>, code: i32) -> Option<Fault> {
    fault(Ds4ErrorKind::Backend, name + " failed with OpenCL error "@ + dec_int(code as int))
}

/// The error for a call that failed.
pub open spec fn opencl_failed(e: Ds4Error, name: Seq<char>, code: i32) -> bool {
    e.is(Ds4ErrorKind::Backend, name + " failed with OpenCL error "@ + dec_int(code as int))
}

fn opencl_error(name: &str, code: i32) -> (e: Ds4Error)
    ensures
        opencl_failed(e, name@, code),
{
    let mut m: String = String::from_str(name);
    m.append(" failed with OpenCL error ");
    push_dec_int(&mut m, code);
    Ds4Error::new(Ds4ErrorKind::Backend, m)
}

/// What the code of a call means: 0 is success.
pub fn check(name: &str, code: i32) -> (r: Ds4Result<()>)
    ensures
        match r {
            Ok(()) => code == 0,
            Err(e) => code != 0 && opencl_failed(e, name@, code),
        },
{
    if code == 0 {
        Ok(())
    } else {
        Err(opencl_error(name, code))
    }
}

/// What the code of a call that creates something means: a null handle is a failure too.
pub fn check_create(name: &str, code: i32, is_null: bool) -> (r: Ds4Result<()>)
    ensures
        match r {
            Ok(()) => code == 0 && !is_null,
            Err(e) => (code != 0 || is_null) && opencl_failed(e, name@, code),
        },
{
    if code == 0 && !is_null {
        Ok(())
    } else {
        Err(opencl_error(name, code))
    }
}

/// The error for a program that did not build.
pub fn build_error(code: i32, log: &str) -> (e: Ds4Error)
    ensures
        e.is(
            Ds4ErrorKind::Backend,
            "Arc OpenCL program build failed ("@ + dec_int(code as int) + "): "@ + log@,
        ),
{
    let mut m: String = String::from_str("Arc OpenCL program build failed (");
    push_dec_int(&mut m, code);
    m.append("): ");
    m.append(log);
    Ds4Error::new(Ds4ErrorKind::Backend, m)
}

/// Global and local size of a launch.
#[derive(Debug, Clone, Copy, PartialEq, Eq, Structural)]
pub struct LaunchSize {
    pub global: usize,
    /// Left to the driver where it does not divide the global size.
    pub local: Option<usize>,
}

/// The size of a launch over `global` items: at least one item, in groups of 64 where there are
/// that many.
pub fn launch_1d(global: usize) -> (r: LaunchSize)
    ensures
        r.global == if global > 0 {
            global
        } else {
            1
        },
        r.local == if r.global < 64 {
            Some(1usize)
        } else if r.global % 64 == 0 {
            Some(64usize)
        } else {
            None
        },
        r.local matches Some(n) ==> r.global % n == 0,
{
    let items: usize = if global > 0 {
        global
    } else {
        1
    };
    let local: usize = if items >= 64 {
        64
    } else {
        1
    };
    LaunchSize {
        global: items,
        local: if items % local == 0 {
            Some(local)
        } else {
            None
        },
    }
}

// ---- Bringing the runtime up ----

/// The library of the driver.
pub const LIBRARY: &'static str = "OpenCL.dll";

/// Number of kernels.
pub const KERNEL_COUNT: usize = 12;

/// The error on a system that the runtime does not load on.
pub fn unsupported_system() -> (e: Ds4Error)
    ensures
        e.is(
            Ds4ErrorKind::NotImplemented,
            "Intel Arc OpenCL backend currently loads on Windows"@,
        ),
{
    Ds4Error::new(
        Ds4ErrorKind::NotImplemented,
        String::from_str("Intel Arc OpenCL backend currently loads on Windows"),
    )
}

/// The outcome of opening a library.
pub fn check_library(name: &str, is_null: bool) -> (r: Ds4Result<()>)
    ensures
        match r {
            Ok(()) => !is_null,
            Err(e) => is_null && e.is(
                Ds4ErrorKind::NotImplemented,
                name@ + " could not be loaded"@,
            ),
        },
{
    if is_null {
        let mut m: String = String::from_str(name);
        m.append(" could not be loaded");
        return Err(Ds4Error::new(Ds4ErrorKind::NotImplemented, m));
    }
    Ok(())
}

/// The outcome of looking up a function of the library.
pub fn check_symbol(name: &str, is_null: bool) -> (r: Ds4Result<()>)
    ensures
        match r {
            Ok(()) => !is_null,
            Err(e) => is_null && e.is(
                Ds4ErrorKind::NotImplemented,
                "OpenCL symbol "@ + name@ + " is unavailable"@,
            ),
        },
{
    if is_null {
        let mut m: String = String::from_str("OpenCL symbol ");
        m.append(name);
        m.append(" is unavailable");
        return Err(Ds4Error::new(Ds4ErrorKind::NotImplemented, m));
    }
    Ok(())
}

/// The kernels in the order in which they are created.
pub open spec fn kernel_order(i: int) -> KernelId {
    if i == 0 {
        KernelId::EmbeddingWeight
    } else if i == 1 {
        KernelId::RmsNormWeight
    } else if i == 2 {
        KernelId::MatvecWeight
    } else if i == 3 {
        KernelId::EmbeddingF32
    } else if i == 4 {
        KernelId::RmsNormF32
    } else if i == 5 {
        KernelId::MatvecF32
    } else if i == 6 {
        KernelId::AddInplaceF32
    } else if i == 7 {
        KernelId::AddScaledInplaceF32
    } else if i == 8 {
        KernelId::SiluProductF32
    } else if i == 9 {
        KernelId::RopeF32
    } else if i == 10 {
        KernelId::StoreCacheF32
    } else {
        KernelId::AttentionDecodeF32
    }
}

/// The kernel that is created in place `i`.
pub fn kernel_at(i: usize) -> (id: KernelId)
    requires
        i < KERNEL_COUNT,
    ensures
        id == kernel_order(i as int),
{
    if i == 0 {
        KernelId::EmbeddingWeight
    } else if i == 1 {
        KernelId::RmsNormWeight
    } else if i == 2 {
        KernelId::MatvecWeight
    } else if i == 3 {
        KernelId::EmbeddingF32
    } else if i == 4 {
        KernelId::RmsNormF32
    } else if i == 5 {
        KernelId::MatvecF32
    } else if i == 6 {
        KernelId::AddInplaceF32
    } else if i == 7 {
        KernelId::AddScaledInplaceF32
    } else if i == 8 {
        KernelId::SiluProductF32
    } else if i == 9 {
        KernelId::RopeF32
    } else if i == 10 {
        KernelId::StoreCacheF32
    } else {
        KernelId::AttentionDecodeF32
    }
}

/// What came of a step of bringing the runtime up.
#[derive(Debug)]
pub enum LoadEvent {
    /// The library was opened and its functions were looked up.
    Driver(Ds4Result<()>),
    /// A device was searched for.
    Searched(Ds4Result<()>),
    Context { code: i32, is_null: bool },
    Queue { code: i32, is_null: bool },
    /// The program was created from its source.
    Program { code: i32, is_null: bool },
    /// The program was built. The log is asked for only where it did not build.
    Built { code: i32, log: InfoReply },
    /// The kernel in this place was created.
    Kernel { index: usize, code: i32, is_null: bool },
}

/// What is to be done next to bring the runtime up.
#[derive(Debug)]
pub enum LoadAction {
    Search,
    CreateContext,
    CreateQueue,
    CreateProgram,
    Build,
    CreateKernel { index: usize },
    Ready,
    /// Nothing more: give the program back where that is asked, and report the error.
    Fail { release_program: bool, error: Ds4Error },
}

/// The step fails, and the program stays.
pub open spec fn load_stops(a: LoadAction, f: Option<Fault>) -> bool {
    &&& a matches LoadAction::Fail { release_program, error }
    &&& !release_program
    &&& f matches Some(x)
    &&& error.says(x)
}

/// What follows a step.
pub open spec fn load_follows(event: LoadEvent, a: LoadAction) -> bool {
    match event {
        LoadEvent::Driver(Ok(_)) => a is Search,
        LoadEvent::Driver(Err(error)) => a == (LoadAction::Fail { release_program: false, error }),
        LoadEvent::Searched(Ok(_)) => a is CreateContext,
        LoadEvent::Searched(Err(error)) => a == (LoadAction::Fail {
            release_program: false,
            error,
        }),
        LoadEvent::Context { code, is_null } => if code == 0 && !is_null {
            a is CreateQueue
        } else {
            load_stops(a, call_fault("clCreateContext"@, code))
        },
        LoadEvent::Queue { code, is_null } => if code == 0 && !is_null {
            a is CreateProgram
        } else {
            load_stops(a, call_fault("clCreateCommandQueue"@, code))
        },
        LoadEvent::Program { code, is_null } => if code == 0 && !is_null {
            a is Build
        } else {
            load_stops(a, call_fault("clCreateProgramWithSource"@, code))
        },
        LoadEvent::Built { code, log } => if code == 0 {
            a == (LoadAction::CreateKernel { index: 0 })
        } else {
            &&& a matches LoadAction::Fail { release_program, error }
            &&& release_program
            &&& error.is(
                Ds4ErrorKind::Backend,
                "Arc OpenCL program build failed ("@ + dec_int(code as int) + "): "@ + if log.broken(
                    "clGetProgramBuildInfo"@,
                ) is Some {
                    ""@
                } else {
                    log.text()
                },
            )
        },
        LoadEvent::Kernel { index, code, is_null } => if code != 0 || is_null {
            load_stops(a, call_fault(kernel_text(kernel_order(index as int)), code))
        } else if index + 1 < KERNEL_COUNT {
            a == (LoadAction::CreateKernel { index: (index + 1) as usize })
        } else {
            a is Ready
        },
    }
}

/// What is to be done after a step. It begins with the library of the driver.
pub fn load_step(event: LoadEvent) -> (a: LoadAction)
    requires
        event matches LoadEvent::Kernel { index, code, is_null } ==> index < KERNEL_COUNT,
    ensures
        load_follows(event, a),
{
    let (checked, next): (Ds4Result<()>, LoadAction) = match event {
        LoadEvent::Driver(r) => (r, LoadAction::Search),
        LoadEvent::Searched(r) => (r, LoadAction::CreateContext),
        LoadEvent::Context { code, is_null } => (
            check_create("clCreateContext", code, is_null),
            LoadAction::CreateQueue,
        ),
        LoadEvent::Queue { code, is_null } => (
            check_create("clCreateCommandQueue", code, is_null),
            LoadAction::CreateProgram,
        ),
        LoadEvent::Program { code, is_null } => (
            check_create("clCreateProgramWithSource", code, is_null),
            LoadAction::Build,
        ),
        LoadEvent::Built { code, log } => {
            if code != 0 {
                let text: String = build_log(&log);
                return LoadAction::Fail {
                    release_program: true,
                    error: build_error(code, text.as_str()),
                };
            }
            (Ok(()), LoadAction::CreateKernel { index: 0 })
        },
        LoadEvent::Kernel { index, code, is_null } => (
            check_create(kernel_at(index).name(), code, is_null),
            if index + 1 < KERNEL_COUNT {
                LoadAction::CreateKernel { index: index + 1 }
            } else {
                LoadAction::Ready
            },
        ),
    };
    match checked {
        Ok(()) => next,
        Err(error) => LoadAction::Fail { release_program: false, error },
    }
}

/// The place of a step in the course of bringing the runtime up.
pub open spec fn load_place(event: LoadEvent) -> int {
    match event {
        LoadEvent::Driver(_) => 0,
        LoadEvent::Searched(_) => 1,
        LoadEvent::Context { .. } => 2,
        LoadEvent::Queue { .. } => 3,
        LoadEvent::Program { .. } => 4,
        LoadEvent::Built { .. } => 5,
        LoadEvent::Kernel { index, .. } => 6 + index,
    }
}

/// The step is the one that was asked for last; at first the library is opened.
pub open spec fn load_answers(asked: Option<LoadAction>, event: LoadEvent) -> bool {
    match asked {
        None => event is Driver,
        Some(LoadAction::Search) => event is Searched,
        Some(LoadAction::CreateContext) => event is Context,
        Some(LoadAction::CreateQueue) => event is Queue,
        Some(LoadAction::CreateProgram) => event is Program,
        Some(LoadAction::Build) => event is Built,
        Some(LoadAction::CreateKernel { index }) => event matches LoadEvent::Kernel { index: i, .. }
            && i == index,
        Some(LoadAction::Ready) => false,
        Some(LoadAction::Fail { .. }) => false,
    }
}

/// A course of bringing the runtime up: each step is the one asked for last, and each action is
/// what follows.
pub open spec fn load_course(events: Seq<LoadEvent>, actions: Seq<LoadAction>) -> bool {
    &&& events.len() == actions.len()
    &&& forall|i: int|
        #![trigger events[i]]
        0 <= i < events.len() ==> load_follows(events[i], actions[i]) && load_answers(
            if i == 0 {
                None
            } else {
                Some(actions[i - 1])
            },
            events[i],
        )
}

proof fn lemma_load_place(events: Seq<LoadEvent>, actions: Seq<LoadAction>, i: int)
    requires
        load_course(events, actions),
        0 <= i < events.len(),
    ensures
        load_place(events[i]) == i,
        i < 6 + KERNEL_COUNT,
    decreases i,
{
    if i > 0 {
        lemma_load_place(events, actions, i - 1);
        assert(load_follows(events[i - 1], actions[i - 1]));
        assert(load_answers(Some(actions[i - 1]), events[i]));
    }
}

/// The steps of bringing the runtime up come in one order, and there are as many as six and the
/// kernels at most. The runtime is ready only after all of them. Where the course fails, the
/// program is given back exactly if it did not build.
pub proof fn law_arc_load_order(events: Seq<LoadEvent>, actions: Seq<LoadAction>)
    requires
        load_course(events, actions),
        events.len() > 0,
    ensures
        forall|i: int| 0 <= i < events.len() ==> load_place(#[trigger] events[i]) == i,
        events.len() <= 6 + KERNEL_COUNT,
        actions.last() is Ready ==> events.len() == 6 + KERNEL_COUNT,
        actions.last() matches LoadAction::Fail { release_program, error } ==> (release_program
            <==> events.len() == 6),
{
    assert forall|i: int| 0 <= i < events.len() implies load_place(#[trigger] events[i]) == i by {
        lemma_load_place(events, actions, i);
    }
    lemma_load_place(events, actions, events.len() - 1);
    assert(load_follows(events[events.len() - 1], actions[events.len() - 1]));
}

// ---- The runtime and its memory ----

/// A runtime that came up.
#[derive(Debug)]
pub struct ArcRuntime {
    pub platform_name: String,
    pub device_name: String,
}

/// A request for memory on the device.
#[derive(Debug, Clone, Copy, PartialEq, Eq, Structural)]
pub struct BufferRequest {
    /// Number of bytes: at least one.
    pub bytes: usize,
    /// `true` if the memory starts out as a copy of bytes of the host.
    pub copies_host: bool,
}

/// Number of bytes that memory for `n` bytes has: at least one.
pub open spec fn at_least_one(n: usize) -> usize {
    if n > 0 {
        n
    } else {
        1
    }
}

impl ArcRuntime {
    /// The runtime on the device that was taken.
    pub fn new(choice: ArcChoice) -> (r: Self)
        ensures
            r.platform_name == choice.platform_name,
            r.device_name == choice.device_name,
    {
        ArcRuntime { platform_name: choice.platform_name, device_name: choice.device_name }
    }

    /// The name of the platform.
    pub fn platform_name(&self) -> (r: &str)
        ensures
            r@ == self.platform_name@,
    {
        self.platform_name.as_str()
    }

    /// The name of the device.
    pub fn device_name(&self) -> (r: &str)
        ensures
            r@ == self.device_name@,
    {
        self.device_name.as_str()
    }

    /// Memory for `bytes` bytes, with nothing in it yet.
    pub fn alloc_buffer(&self, bytes: usize) -> (r: BufferRequest)
        ensures
            r.bytes == at_least_one(bytes),
            !r.copies_host,
    {
        BufferRequest {
            bytes: if bytes > 0 {
                bytes
            } else {
                1
            },
            copies_host: false,
        }
    }

    /// Memory with a copy of `len` bytes of the host, where there are any.
    pub fn from_bytes(&self, len: usize) -> (r: BufferRequest)
        ensures
            r.bytes == at_least_one(len),
            r.copies_host == (len > 0),
    {
        BufferRequest {
            bytes: if len > 0 {
                len
            } else {
                1
            },
            copies_host: len > 0,
        }
    }
}

/// Memory on the device.
#[derive(Debug, Clone, Copy, PartialEq, Eq, Structural)]
pub struct ArcMem {
    pub bytes: usize,
}

impl ArcMem {
    /// The memory that came of a request, by what the driver answered.
    pub fn created(request: BufferRequest, code: i32, is_null: bool) -> (r: Ds4Result<ArcMem>)
        ensures
            match r {
                Ok(m) => code == 0 && !is_null && m.bytes == request.bytes,
                Err(e) => (code != 0 || is_null) && opencl_failed(e, "clCreateBuffer"@, code),
            },
    {
        check_create("clCreateBuffer", code, is_null)?;
        Ok(ArcMem { bytes: request.bytes })
    }

    /// Number of bytes.
    pub fn bytes(&self) -> (n: usize)
        ensures
            n == self.bytes,
    {
        self.bytes
    }

    /// Checks that as many bytes can be written.
    pub fn write(&self, len: usize) -> (r: Ds4Result<()>)
        ensures
            match r {
                Ok(()) => len <= self.bytes,
                Err(e) => len > self.bytes && e.is(
                    Ds4ErrorKind::InvalidArgument,
                    "Arc buffer write too large: "@ + dec(len as nat) + " > "@ + dec(
                        self.bytes as nat,
                    ),
                ),
            },
    {
        if len > self.bytes {
            let mut m: String = String::from_str("Arc buffer write too large: ");
            push_dec(&mut m, len as u64);
            m.append(" > ");
            push_dec(&mut m, self.bytes as u64);
            return Err(Ds4Error::new(Ds4ErrorKind::InvalidArgument, m));
        }
        Ok(())
    }

    /// Checks that as many bytes can be read.
    pub fn read(&self, len: usize) -> (r: Ds4Result<()>)
        ensures
            match r {
                Ok(()) => len <= self.bytes,
                Err(e) => len > self.bytes && e.is(
                    Ds4ErrorKind::InvalidArgument,
                    "Arc buffer read too large: "@ + dec(len as nat) + " > "@ + dec(
                        self.bytes as nat,
                    ),
                ),
            },
    {
        if len > self.bytes {
            let mut m: String = String::from_str("Arc buffer read too large: ");
            push_dec(&mut m, len as u64);
            m.append(" > ");
            push_dec(&mut m, self.bytes as u64);
            return Err(Ds4Error::new(Ds4ErrorKind::InvalidArgument, m));
        }
        Ok(())
    }
}

} // verus!
