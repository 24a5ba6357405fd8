//! CUDA driver and run-time compiler: which libraries are tried, how the runtime comes up, and what
//! their answers mean.
//!
//! The calls into the libraries are the caller's.

use vstd::prelude::*;
use vstd::string::{StrSliceExecFns, StringExecFns};

use super::runtime_body::RUNTIME_KERNEL_BODY;
use crate::dist::protocol::{lossy_text, utf8_lossy};
use crate::search::{begins, ends, text_begins, text_ends};
use crate::slices::str_eq;
use crate::text::{dec, dec_int, hex_padded, push_dec, push_dec_int, push_hex_padded};
use crate::types::{Ds4Error, Ds4ErrorKind, Ds4Result};

verus! {

/// An address on the device.
pub type CuDevicePtr = u64;

// ---- Answers of the driver ----

/// What the code of a driver call means: 0 is success. `text` is what the driver calls the code.
pub fn check(code: i32, op: &str, text: Option<&str>) -> (r: Ds4Result<()>)
    ensures
        if code == 0 {
            r is Ok
        } else {
            r matches Err(e) && e.is(
                Ds4ErrorKind::Other,
                op@ + ": "@ + match text {
                    Some(t) => t@,
                    None => "CUDA error "@ + dec_int(code as int),
                },
            )
        },
{
    if code == 0 {
        return Ok(());
    }
    let mut m: String = String::from_str(op);
    m.append(": ");
    match text {
        Some(t) => m.append(t),
        None => {
            m.append("CUDA error ");
            push_dec_int(&mut m, code);
        },
    }
    proof {
        if text is None {
            assert(m@ =~= op@ + ": "@ + ("CUDA error "@ + dec_int(code as int)));
        }
    }
    Err(Ds4Error::new(Ds4ErrorKind::Other, m))
}

/// What a code of the compiler is called.
pub open spec fn nvrtc_message(code: i32, text: Option<Seq<char>>) -> Seq<char> {
    match text {
        Some(t) => t,
        None => "NVRTC error "@ + dec_int(code as int),
    }
}

/// What a code of the compiler is called; `text` is the compiler's own word for it.
pub fn error_message(code: i32, text: Option<&str>) -> (r: String)
    ensures
        r@ == nvrtc_message(
            code,
            match text {
                Some(t) => Some(t@),
                None => None,
            },
        ),
{
    match text {
        Some(t) => String::from_str(t),
        None => {
            let mut m: String = String::from_str("NVRTC error ");
            push_dec_int(&mut m, code);
            m
        },
    }
}

// ---- Libraries ----

/// The outcome of trying the places of a library in order; `opened` is the one that opened.
pub fn open_any(opened: Option<usize>, label: &str) -> (r: Ds4Result<usize>)
    ensures
        match opened {
            Some(i) => r == Ok::<usize, Ds4Error>(i),
            None => r matches Err(e) && e.is(
                Ds4ErrorKind::NotImplemented,
                label@ + " runtime library was not found"@,
            ),
        },
{
    match opened {
        Some(i) => Ok(i),
        None => {
            let mut m: String = String::from_str(label);
            m.append(" runtime library was not found");
            Err(Ds4Error::new(Ds4ErrorKind::NotImplemented, m))
        },
    }
}

/// The outcome of looking up a function in a library.
pub fn check_symbol(path: &str, name: &str, found: bool) -> (r: Ds4Result<()>)
    ensures
        if found {
            r is Ok
        } else {
            r matches Err(e) && e.is(
                Ds4ErrorKind::NotImplemented,
                path@ + " missing symbol "@ + name@,
            )
        },
{
    if found {
        return Ok(());
    }
    let mut m: String = String::from_str(path);
    m.append(" missing symbol ");
    m.append(name);
    Err(Ds4Error::new(Ds4ErrorKind::NotImplemented, m))
}

/// Where the driver is looked for, in order.
pub fn driver_candidates(windows: bool) -> (r: Vec<String>)
    ensures
        windows ==> r@.len() == 1 && r@[0]@ == "nvcuda.dll"@,
        !windows ==> r@.len() == 2 && r@[0]@ == "libcuda.so.1"@ && r@[1]@ == "libcuda.so"@,
{
    let mut v: Vec<String> = Vec::new();
    if windows {
        v.push(String::from_str("nvcuda.dll"));
    } else {
        v.push(String::from_str("libcuda.so.1"));
        v.push(String::from_str("libcuda.so"));
    }
    v
}

/// A file of a directory. `name` is its last part, where that is text.
#[derive(Debug)]
pub struct BinEntry {
    pub path: String,
    pub name: Option<String>,
}

/// The file is a compiler library.
pub open spec fn is_nvrtc(e: BinEntry) -> bool {
    match e.name {
        Some(n) => begins(n@, "nvrtc64_"@) && ends(n@, ".dll"@),
        None => false,
    }
}

/// The compiler libraries among files, in order.
pub open spec fn nvrtc_among(entries: Seq<BinEntry>) -> Seq<Seq<char>>
    decreases entries.len(),
{
    if entries.len() == 0 {
        Seq::empty()
    } else if is_nvrtc(entries.last()) {
        nvrtc_among(entries.drop_last()).push(entries.last().path@)
    } else {
        nvrtc_among(entries.drop_last())
    }
}

/// The texts of a list.
pub open spec fn texts(list: Seq<String>) -> Seq<Seq<char>> {
    Seq::new(list.len(), |i: int| list[i]@)
}

/// Adds the compiler libraries among files.
pub fn collect_nvrtc_from_bin(out: &mut Vec<String>, entries: &Vec<BinEntry>)
    ensures
        texts(final(out)@) == texts(old(out)@) + nvrtc_among(entries@),
{
    let mut i: usize = 0;
    proof {
        assert(entries@.take(0) =~= Seq::<BinEntry>::empty());
        assert(texts(out@) =~= texts(old(out)@) + nvrtc_among(entries@.take(0)));
    }
    while i < entries.len()
        invariant
            i <= entries@.len(),
            texts(out@) == texts(old(out)@) + nvrtc_among(entries@.take(i as int)),
        decreases entries@.len() - i,
    {
        let ghost before = out@;
        let wanted: bool = match &entries[i].name {
            Some(name) => text_begins(name.as_str(), "nvrtc64_") && text_ends(
                name.as_str(),
                ".dll",
            ),
            None => false,
        };
        if wanted {
            out.push(String::from_str(entries[i].path.as_str()));
        }
        proof {
            assert(entries@.take(i + 1).drop_last() =~= entries@.take(i as int));
            if wanted {
                assert(texts(out@) =~= texts(before).push(entries@[i as int].path@));
            }
            assert(texts(out@) =~= texts(old(out)@) + nvrtc_among(entries@.take(i + 1)));
        }
        i += 1;
    }
    assert(entries@.take(i as int) =~= entries@);
}

/// What a search for the compiler goes by: two environment variables that name it, the files of the
/// toolkit that a third one names, and on Windows the files of the toolkits that are installed.
#[derive(Debug)]
pub struct NvrtcSearch {
    pub ds4_dll: Option<String>,
    pub nvrtc_dll: Option<String>,
    pub cuda_bin: Vec<BinEntry>,
    pub windows: bool,
    pub installed_bins: Vec<BinEntry>,
}

/// The one text, or none.
pub open spec fn one_text(t: Option<String>) -> Seq<Seq<char>> {
    match t {
        Some(s) => seq![s@],
        None => Seq::empty(),
    }
}

/// Where the compiler is looked for, with repetitions.
pub open spec fn nvrtc_places(s: NvrtcSearch) -> Seq<Seq<char>> {
    one_text(s.ds4_dll) + one_text(s.nvrtc_dll) + nvrtc_among(s.cuda_bin@) + if s.windows {
        seq!["nvrtc64_130_0.dll"@, "nvrtc64_120_0.dll"@, "nvrtc64_112_0.dll"@] + nvrtc_among(
            s.installed_bins@,
        ) + seq!["C:\\Program Files\\Blackmagic Design\\DaVinci Resolve\\nvrtc64_120_0.dll"@]
    } else {
        seq!["libnvrtc.so"@, "libnvrtc.so.12"@, "/usr/local/cuda/lib64/libnvrtc.so"@]
    }
}

/// What `str::to_lowercase` makes of a text.
pub uninterp spec fn lowercase(s: Seq<char>) -> Seq<char>;

/// Puts a text in lower case. `str::to_lowercase` maps each character by the lower-case mappings of
/// Unicode, and its result depends on the text alone.
#[verifier::external_body]
fn lower_text(s: &str) -> (r: String)
    ensures
        r@ == lowercase(s@),
{
    s.to_lowercase()
}

/// Some text of the list has `key` as its lower-case form.
pub open spec fn has_key(list: Seq<Seq<char>>, key: Seq<char>) -> bool {
    exists|j: int| 0 <= j < list.len() && lowercase(#[trigger] list[j]) == key
}

/// The texts of a list that differ from all earlier ones, letter case aside.
pub open spec fn deduped(list: Seq<Seq<char>>) -> Seq<Seq<char>>
    decreases list.len(),
{
    if list.len() == 0 {
        Seq::empty()
    } else if has_key(list.drop_last(), lowercase(list.last())) {
        deduped(list.drop_last())
    } else {
        deduped(list.drop_last()).push(list.last())
    }
}

/// Of texts that differ in letter case only, exactly the first is kept: the kept ones differ in
/// more, and each text agrees with a kept one.
pub proof fn law_dedup(list: Seq<Seq<char>>)
    ensures
        forall|i: int, j: int|
            0 <= i < j < deduped(list).len() ==> lowercase(#[trigger] deduped(list)[i])
                != lowercase(#[trigger] deduped(list)[j]),
        forall|key: Seq<char>| #[trigger] has_key(deduped(list), key) == has_key(list, key),
    decreases list.len(),
{
    if list.len() > 0 {
        let init = list.drop_last();
        law_dedup(init);
        assert forall|key: Seq<char>| #[trigger]
            has_key(list, key) == (has_key(init, key) || lowercase(list.last()) == key) by {
            if has_key(init, key) {
                let j = choose|j: int|
                    0 <= j < init.len() && lowercase(#[trigger] init[j]) == key;
                assert(lowercase(list[j]) == key);
            }
            if lowercase(list.last()) == key {
                assert(lowercase(list[list.len() - 1]) == key);
            }
            if has_key(list, key) {
                let j = choose|j: int|
                    0 <= j < list.len() && lowercase(#[trigger] list[j]) == key;
                if j < init.len() {
                    assert(lowercase(init[j]) == key);
                }
            }
        }
        if !has_key(init, lowercase(list.last())) {
            let kept = deduped(init);
            assert forall|i: int| 0 <= i < kept.len() implies lowercase(#[trigger] kept[i])
                != lowercase(list.last()) by {
                if lowercase(kept[i]) == lowercase(list.last()) {
                    assert(has_key(kept, lowercase(list.last())));
                }
            }
            let all = deduped(list);
            assert forall|key: Seq<char>| #[trigger]
                has_key(all, key) == (has_key(kept, key) || lowercase(list.last()) == key) by {
                if has_key(kept, key) {
                    let j = choose|j: int|
                        0 <= j < kept.len() && lowercase(#[trigger] kept[j]) == key;
                    assert(lowercase(all[j]) == key);
                }
                if lowercase(list.last()) == key {
                    assert(lowercase(all[kept.len() as int]) == key);
                }
                if has_key(all, key) {
                    let j = choose|j: int|
                        0 <= j < all.len() && lowercase(#[trigger] all[j]) == key;
                    if j < kept.len() {
                        assert(lowercase(kept[j]) == key);
                    }
                }
            }
        } else {
            assert forall|key: Seq<char>| #[trigger]
                has_key(deduped(list), key) == has_key(list, key) by {}
        }
    }
}

fn key_listed(keys: &Vec<String>, key: &str) -> (r: bool)
    ensures
        r == exists|j: int| 0 <= j < keys@.len() && (#[trigger] keys@[j])@ == key@,
{
    let mut i: usize = 0;
    while i < keys.len()
        invariant
            i <= keys@.len(),
            forall|j: int| 0 <= j < i ==> (#[trigger] keys@[j])@ != key@,
        decreases keys@.len() - i,
    {
        if str_eq(keys[i].as_str(), key) {
            return true;
        }
        i += 1;
    }
    false
}

/// Keeps of paths that differ in letter case only the first.
pub fn dedup_paths(paths: &Vec<String>) -> (r: Vec<String>)
    ensures
        texts(r@) == deduped(texts(paths@)),
{
    let mut out: Vec<String> = Vec::new();
    let mut keys: Vec<String> = Vec::new();
    let mut i: usize = 0;
    assert(texts(out@) =~= deduped(texts(paths@).take(0)));
    while i < paths.len()
        invariant
            i <= paths@.len(),
            keys@.len() == i,
            forall|j: int| 0 <= j < i ==> (#[trigger] keys@[j])@ == lowercase(paths@[j]@),
            texts(out@) == deduped(texts(paths@).take(i as int)),
        decreases paths@.len() - i,
    {
        let ghost before = out@;
        let key: String = lower_text(paths[i].as_str());
        let seen: bool = key_listed(&keys, key.as_str());
        proof {
            let list = texts(paths@).take(i + 1);
            let init = texts(paths@).take(i as int);
            assert(list.drop_last() =~= init);
            assert(list.last() == paths@[i as int]@);
            if seen {
                let j = choose|j: int| 0 <= j < keys@.len() && (#[trigger] keys@[j])@ == key@;
                assert(lowercase(init[j]) == key@);
            } else if has_key(init, key@) {
                let j = choose|j: int|
                    0 <= j < init.len() && lowercase(#[trigger] init[j]) == key@;
                assert(keys@[j]@ == key@);
            }
        }
        if !seen {
            out.push(String::from_str(paths[i].as_str()));
            assert(texts(out@) =~= texts(before).push(paths@[i as int]@));
        }
        keys.push(key);
        i += 1;
    }
    assert(texts(paths@).take(i as int) =~= texts(paths@));
    out
}

fn push_text(out: &mut Vec<String>, t: &str)
    ensures
        texts(final(out)@) == texts(old(out)@).push(t@),
{
    out.push(String::from_str(t));
    assert(texts(out@) =~= texts(old(out)@).push(t@));
}

fn push_one(out: &mut Vec<String>, t: &Option<String>)
    ensures
        texts(final(out)@) == texts(old(out)@) + one_text(*t),
{
    match t {
        Some(s) => push_text(out, s.as_str()),
        None => {},
    }
    assert(texts(out@) =~= texts(old(out)@) + one_text(*t));
}

/// Where the compiler is looked for, in order.
pub fn nvrtc_candidates(s: &NvrtcSearch) -> (r: Vec<String>)
    ensures
        texts(r@) == deduped(nvrtc_places(*s)),
{
    let mut out: Vec<String> = Vec::new();
    push_one(&mut out, &s.ds4_dll);
    push_one(&mut out, &s.nvrtc_dll);
    collect_nvrtc_from_bin(&mut out, &s.cuda_bin);
    if s.windows {
        push_text(&mut out, "nvrtc64_130_0.dll");
        push_text(&mut out, "nvrtc64_120_0.dll");
        push_text(&mut out, "nvrtc64_112_0.dll");
        collect_nvrtc_from_bin(&mut out, &s.installed_bins);
        push_text(
            &mut out,
            "C:\\Program Files\\Blackmagic Design\\DaVinci Resolve\\nvrtc64_120_0.dll",
        );
    } else {
        push_text(&mut out, "libnvrtc.so");
        push_text(&mut out, "libnvrtc.so.12");
        push_text(&mut out, "/usr/local/cuda/lib64/libnvrtc.so");
    }
    assert(texts(out@) =~= nvrtc_places(*s));
    dedup_paths(&out)
}

// ---- Bringing the runtime up ----

/// Number of kernels that are taken from the compiled program.
pub const KERNEL_COUNT: usize = 8;

/// The name of a kernel in the program.
pub open spec fn kernel_symbol(i: int) -> Seq<char> {
    if i == 0 {
        "ds4_embedding"@
    } else if i == 1 {
        "ds4_rmsnorm"@
    } else if i == 2 {
        "ds4_matvec"@
    } else if i == 3 {
        "ds4_add"@
    } else if i == 4 {
        "ds4_silu_product"@
    } else if i == 5 {
        "ds4_rope"@
    } else if i == 6 {
        "ds4_store_cache"@
    } else {
        "ds4_attention_decode"@
    }
}

/// The name of a kernel in the program.
pub fn kernel_name(i: usize) -> (r: &'static str)
    requires
        i < KERNEL_COUNT,
    ensures
        r@ == kernel_symbol(i as int),
{
    if i == 0 {
        "ds4_embedding"
    } else if i == 1 {
        "ds4_rmsnorm"
    } else if i == 2 {
        "ds4_matvec"
    } else if i == 3 {
        "ds4_add"
    } else if i == 4 {
        "ds4_silu_product"
    } else if i == 5 {
        "ds4_rope"
    } else if i == 6 {
        "ds4_store_cache"
    } else {
        "ds4_attention_decode"
    }
}

/// What is to be done next to bring the runtime up.
#[derive(Debug, Clone, Copy, PartialEq, Eq, Structural)]
pub enum LoadStep {
    /// Open the driver and look up its functions.
    Driver,
    Init,
    DeviceGet,
    CtxCreate,
    /// Open the compiler and look up its functions.
    Compiler,
    /// Compile the program.
    Compile,
    ModuleLoad,
    /// Take a kernel from the program.
    Function(usize),
    Ready,
}

impl LoadStep {
    /// The step can be taken.
    pub open spec fn open_step(self) -> bool {
        match self {
            LoadStep::Ready => false,
            LoadStep::Function(i) => i < KERNEL_COUNT,
            _ => true,
        }
    }

    /// The step after this one.
    pub open spec fn following(self) -> LoadStep {
        match self {
            LoadStep::Driver => LoadStep::Init,
            LoadStep::Init => LoadStep::DeviceGet,
            LoadStep::DeviceGet => LoadStep::CtxCreate,
            LoadStep::CtxCreate => LoadStep::Compiler,
            LoadStep::Compiler => LoadStep::Compile,
            LoadStep::Compile => LoadStep::ModuleLoad,
            LoadStep::ModuleLoad => LoadStep::Function(0),
            LoadStep::Function(i) => if i + 1 < KERNEL_COUNT {
                LoadStep::Function((i + 1) as usize)
            } else {
                LoadStep::Ready
            },
            LoadStep::Ready => LoadStep::Ready,
        }
    }

    /// The step after this one has come to `outcome`: a failure ends it.
    pub fn after(self, outcome: Ds4Result<()>) -> (r: Ds4Result<LoadStep>)
        requires
            self.open_step(),
        ensures
            match outcome {
                Ok(()) => r == Ok::<LoadStep, Ds4Error>(self.following()) && (
                self.following().open_step() || self.following() is Ready),
                Err(e) => r == Err::<LoadStep, Ds4Error>(e),
            },
    {
        match outcome {
            Err(e) => Err(e),
            Ok(()) => Ok(
                match self {
                    LoadStep::Driver => LoadStep::Init,
                    LoadStep::Init => LoadStep::DeviceGet,
                    LoadStep::DeviceGet => LoadStep::CtxCreate,
                    LoadStep::CtxCreate => LoadStep::Compiler,
                    LoadStep::Compiler => LoadStep::Compile,
                    LoadStep::Compile => LoadStep::ModuleLoad,
                    LoadStep::ModuleLoad => LoadStep::Function(0),
                    LoadStep::Function(i) => if i + 1 < KERNEL_COUNT {
                        LoadStep::Function(i + 1)
                    } else {
                        LoadStep::Ready
                    },
                    LoadStep::Ready => LoadStep::Ready,
                },
            ),
        }
    }
}

/// The step after `n` successes.
pub open spec fn step_after(n: nat) -> LoadStep
    decreases n,
{
    if n == 0 {
        LoadStep::Driver
    } else {
        step_after((n - 1) as nat).following()
    }
}

/// The runtime is ready after one success for each step: the driver, the device, its context, the
/// compiler, the program and each kernel in order, and not before.
pub proof fn law_load_order(n: nat)
    ensures
        n < 15 ==> step_after(n).open_step(),
        n >= 15 ==> step_after(n) is Ready,
        7 <= n < 15 ==> step_after(n) == LoadStep::Function((n - 7) as usize),
    decreases n,
{
    reveal_with_fuel(step_after, 9);
    if n > 7 {
        law_load_order((n - 1) as nat);
    }
}

// ---- Compiling the program ----

/// What a compiler call came to: its code, and what the compiler calls it.
#[derive(Debug)]
pub struct NvrtcReply {
    pub code: i32,
    pub message: String,
}

/// What the compiler answered.
#[derive(Debug)]
pub enum PtxEvent {
    /// To the request for a program.
    Created(NvrtcReply),
    /// To the request to compile it; with the log.
    Compiled(NvrtcReply, String),
    /// To the question how large the result is.
    Sized(NvrtcReply, usize),
    /// To the request for the result.
    Fetched(NvrtcReply, Vec<u8>),
}

/// What is to be done next.
#[derive(Debug)]
pub enum PtxAction {
    Compile,
    AskSize,
    Fetch(usize),
    /// Nothing more; the program is to be destroyed if there is one.
    Finish { destroy: bool, result: Ds4Result<Vec<u8>> },
}

/// The name under which the program is compiled.
pub const PROGRAM_NAME: &'static str = "ds4_runtime.cu";

/// The options of the compiler.
pub fn compile_options() -> (r: Vec<&'static str>)
    ensures
        r@.len() == 2,
        r@[0]@ == "--gpu-architecture=compute_80"@,
        r@[1]@ == "--use_fast_math"@,
{
    let mut v: Vec<&'static str> = Vec::new();
    v.push("--gpu-architecture=compute_80");
    v.push("--use_fast_math");
    v
}

/// The error for a source that the compiler cannot be given; `reason` says why.
pub fn source_error(reason: &str) -> (e: Ds4Error)
    ensures
        e.is(
            Ds4ErrorKind::InvalidArgument,
            "CUDA source contains interior nul: "@ + reason@,
        ),
{
    let mut m: String = String::from_str("CUDA source contains interior nul: ");
    m.append(reason);
    Ds4Error::new(Ds4ErrorKind::InvalidArgument, m)
}

/// A call of the compiler failed.
pub open spec fn call_failed(a: PtxAction, destroyed: bool, message: Seq<char>) -> bool {
    &&& a matches PtxAction::Finish { destroy, result }
    &&& destroy == destroyed
    &&& result matches Err(e)
    &&& e.is(Ds4ErrorKind::NotImplemented, message)
}

/// What follows an answer of the compiler.
pub open spec fn ptx_follows(event: PtxEvent, a: PtxAction) -> bool {
    match event {
        PtxEvent::Created(r) => if r.code == 0 {
            a is Compile
        } else {
            call_failed(a, false, "nvrtcCreateProgram: "@ + r.message@)
        },
        PtxEvent::Compiled(r, log) => if r.code == 0 {
            a is AskSize
        } else {
            call_failed(a, true, "nvrtcCompileProgram: "@ + r.message@ + "; "@ + log@)
        },
        PtxEvent::Sized(r, size) => if r.code == 0 {
            a == PtxAction::Fetch(size)
        } else {
            call_failed(a, true, "nvrtcGetPTXSize: "@ + r.message@)
        },
        PtxEvent::Fetched(r, ptx) => if r.code == 0 {
            a matches PtxAction::Finish { destroy, result } && destroy && result == Ok::<
                Vec<u8>,
                Ds4Error,
            >(ptx)
        } else {
            call_failed(a, true, "nvrtcGetPTX: "@ + r.message@)
        },
    }
}

fn failed_call(what: &str, message: &str, destroy: bool) -> (a: PtxAction)
    ensures
        call_failed(a, destroy, what@ + message@),
{
    let mut m: String = String::from_str(what);
    m.append(message);
    PtxAction::Finish { destroy, result: Err(Ds4Error::new(Ds4ErrorKind::NotImplemented, m)) }
}

/// What is to be done after an answer of the compiler. It begins with the request for a program, and
/// ends with what the program was compiled to or why it was not.
pub fn compile_ptx(event: PtxEvent) -> (a: PtxAction)
    ensures
        ptx_follows(event, a),
{
    match event {
        PtxEvent::Created(r) => {
            if r.code == 0 {
                PtxAction::Compile
            } else {
                failed_call("nvrtcCreateProgram: ", r.message.as_str(), false)
            }
        },
        PtxEvent::Compiled(r, log) => {
            if r.code == 0 {
                PtxAction::AskSize
            } else {
                let mut m: String = r.message;
                let ghost message = m@;
                m.append("; ");
                m.append(log.as_str());
                assert("nvrtcCompileProgram: "@ + m@ =~= "nvrtcCompileProgram: "@ + message + "; "@
                    + log@);
                failed_call("nvrtcCompileProgram: ", m.as_str(), true)
            }
        },
        PtxEvent::Sized(r, size) => {
            if r.code == 0 {
                PtxAction::Fetch(size)
            } else {
                failed_call("nvrtcGetPTXSize: ", r.message.as_str(), true)
            }
        },
        PtxEvent::Fetched(r, ptx) => {
            if r.code == 0 {
                PtxAction::Finish { destroy: true, result: Ok(ptx) }
            } else {
                failed_call("nvrtcGetPTX: ", r.message.as_str(), true)
            }
        },
    }
}

/// The answer is to what was asked last; at first a program is asked for.
pub open spec fn answers(asked: Option<PtxAction>, event: PtxEvent) -> bool {
    match asked {
        None => event is Created,
        Some(PtxAction::Compile) => event is Compiled,
        Some(PtxAction::AskSize) => event is Sized,
        Some(PtxAction::Fetch(size)) => event matches PtxEvent::Fetched(r, ptx) && ptx@.len()
            == size,
        Some(PtxAction::Finish { destroy, result }) => false,
    }
}

/// A course of compiling the program from the request for one on: each answer is to what was asked
/// last, and each action is what follows.
pub open spec fn ptx_course(events: Seq<PtxEvent>, actions: Seq<PtxAction>) -> bool {
    &&& events.len() == actions.len()
    &&& forall|i: int|
        #![trigger events[i]]
        0 <= i < events.len() ==> ptx_follows(events[i], actions[i]) && answers(
            if i == 0 {
                None
            } else {
                Some(actions[i - 1])
            },
            events[i],
        )
}

/// Compiling ends after four answers at the latest; a program that was created is destroyed at the
/// end, and one that was not is not; nothing is destroyed before the end.
pub proof fn law_program_destroyed(events: Seq<PtxEvent>, actions: Seq<PtxAction>)
    requires
        ptx_course(events, actions),
        events.len() > 0,
    ensures
        events.len() <= 4,
        forall|i: int| 0 <= i < events.len() - 1 ==> !(#[trigger] actions[i] is Finish),
        events.len() == 4 ==> actions.last() is Finish,
        actions.last() matches PtxAction::Finish { destroy, result } ==> destroy == (
        events[0]->Created_0.code == 0),
        actions.last() matches PtxAction::Finish { destroy, result } ==> (result is Ok
            ==> events.len() == 4 && events[3]->Fetched_1 == result->Ok_0),
{
    assert(events[0] is Created);
    if events.len() > 1 {
        assert(events[1] is Compiled);
        if events.len() > 2 {
            assert(events[2] is Sized);
            if events.len() > 3 {
                assert(events[3] is Fetched);
                if events.len() > 4 {
                    assert(answers(Some(actions[3]), events[4]));
                }
            }
        }
    }
}

/// What asking for the compiler's log came to.
#[derive(Debug)]
pub struct LogReply {
    pub size_code: i32,
    pub size: usize,
    pub fetch_code: i32,
    pub bytes: Vec<u8>,
}

/// Number of zero characters at the start, from `from` on.
pub open spec fn first_letter(s: Seq<char>, from: int) -> int
    decreases s.len() - from,
{
    if 0 <= from < s.len() && s[from] == '\0' {
        first_letter(s, from + 1)
    } else {
        from
    }
}

/// Where the zero characters at the end begin, not before `from`.
pub open spec fn last_letter(s: Seq<char>, from: int, to: int) -> int
    decreases to - from,
{
    if 0 <= from < to <= s.len() && s[to - 1] == '\0' {
        last_letter(s, from, to - 1)
    } else {
        to
    }
}

/// The text without the zero characters at both ends.
pub open spec fn without_nuls(s: Seq<char>) -> Seq<char> {
    let from = first_letter(s, 0);
    s.subrange(from, last_letter(s, from, s.len() as int))
}

/// The text of the compiler's log; empty where there is none.
pub fn nvrtc_log(log: &LogReply) -> (r: String)
    ensures
        r@ == if log.size_code != 0 || log.size == 0 || log.fetch_code != 0 {
            ""@
        } else {
            without_nuls(utf8_lossy(log.bytes@))
        },
{
    if log.size_code != 0 || log.size == 0 || log.fetch_code != 0 {
        return String::from_str("");
    }
    let text: String = lossy_text(log.bytes.as_slice());
    let s: &str = text.as_str();
    let n: usize = s.unicode_len();
    let mut from: usize = 0;
    while from < n && s.get_char(from) == '\0'
        invariant
            n == s@.len(),
            from <= n,
            first_letter(s@, 0) == first_letter(s@, from as int),
        decreases n - from,
    {
        from += 1;
    }
    let mut to: usize = n;
    while from < to && s.get_char(to - 1) == '\0'
        invariant
            from <= to <= n,
            n == s@.len(),
            last_letter(s@, from as int, n as int) == last_letter(s@, from as int, to as int),
        decreases to - from,
    {
        to -= 1;
    }
    String::from_str(s.substring_char(from, to))
}

// ---- Device memory ----

/// Memory on the device.
#[derive(Debug)]
pub struct DeviceMem {
    pub ptr: CuDevicePtr,
    pub bytes: usize,
}

impl DeviceMem {
    /// Its address.
    pub fn ptr(&self) -> (p: CuDevicePtr)
        ensures
            p == self.ptr,
    {
        self.ptr
    }

    /// Its size.
    pub fn bytes(&self) -> (n: usize)
        ensures
            n == self.bytes,
    {
        self.bytes
    }

    /// Checks that `len` bytes can be copied to the device.
    pub fn copy_from(&self, len: usize) -> (r: Ds4Result<()>)
        ensures
            if len > self.bytes {
                r matches Err(e) && e.is(
                    Ds4ErrorKind::InvalidArgument,
                    "host copy "@ + dec(len as nat) + " exceeds device allocation "@ + dec(
                        self.bytes as nat,
                    ),
                )
            } else {
                r is Ok
            },
    {
        if len > self.bytes {
            return Err(Self::too_long("host copy ", len, self.bytes));
        }
        Ok(())
    }

    /// Checks that `len` bytes can be copied from the device.
    pub fn copy_to(&self, len: usize) -> (r: Ds4Result<()>)
        ensures
            if len > self.bytes {
                r matches Err(e) && e.is(
                    Ds4ErrorKind::InvalidArgument,
                    "host destination "@ + dec(len as nat) + " exceeds device allocation "@ + dec(
                        self.bytes as nat,
                    ),
                )
            } else {
                r is Ok
            },
    {
        if len > self.bytes {
            return Err(Self::too_long("host destination ", len, self.bytes));
        }
        Ok(())
    }

    fn too_long(what: &str, len: usize, bytes: usize) -> (e: Ds4Error)
        ensures
            e.is(
                Ds4ErrorKind::InvalidArgument,
                what@ + dec(len as nat) + " exceeds device allocation "@ + dec(bytes as nat),
            ),
    {
        let mut m: String = String::from_str(what);
        push_dec(&mut m, len as u64);
        m.append(" exceeds device allocation ");
        push_dec(&mut m, bytes as u64);
        Ds4Error::new(Ds4ErrorKind::InvalidArgument, m)
    }
}

// ---- Calls to the driver ----

/// What the driver answered to a call: a code, and what the driver calls that code.
#[derive(Debug)]
pub struct DriverReply {
    pub code: i32,
    pub text: Option<String>,
}

/// The answer to the call `op` is a success exactly if its code is 0; otherwise the error names the
/// call and the code.
pub open spec fn replied<T>(r: Ds4Result<T>, op: Seq<char>, reply: DriverReply) -> bool {
    if reply.code == 0 {
        r is Ok
    } else {
        r matches Err(e) && e.is(
            Ds4ErrorKind::Other,
            op + ": "@ + match reply.text {
                Some(t) => t@,
                None => "CUDA error "@ + dec_int(reply.code as int),
            },
        )
    }
}

fn outcome(op: &str, reply: &DriverReply) -> (r: Ds4Result<()>)
    ensures
        replied(r, op@, *reply),
{
    match &reply.text {
        Some(t) => check(reply.code, op, Some(t.as_str())),
        None => check(reply.code, op, None),
    }
}

/// The runtime on a device. Each function is given the driver's answer to its call; the context is
/// made current before each of the calls.
#[derive(Debug, Clone, Copy, PartialEq, Eq, Structural)]
pub struct CudaRuntime;

impl CudaRuntime {
    /// Making the context current.
    pub fn ensure_current(reply: &DriverReply) -> (r: Ds4Result<()>)
        ensures
            replied(r, "cuCtxSetCurrent"@, *reply),
    {
        outcome("cuCtxSetCurrent", reply)
    }

    /// Memory on the device, at the address that the driver gave.
    pub fn alloc_device(bytes: usize, ptr: CuDevicePtr, reply: &DriverReply) -> (r: Ds4Result<
        DeviceMem,
    >)
        ensures
            replied(r, "cuMemAlloc"@, *reply),
            r matches Ok(m) ==> m.ptr == ptr && m.bytes == bytes,
    {
        outcome("cuMemAlloc", reply)?;
        Ok(DeviceMem { ptr, bytes })
    }

    /// Memory that host and device share, at the address that the driver gave.
    pub fn alloc_managed(bytes: usize, ptr: CuDevicePtr, reply: &DriverReply) -> (r: Ds4Result<
        DeviceMem,
    >)
        ensures
            replied(r, "cuMemAllocManaged"@, *reply),
            r matches Ok(m) ==> m.ptr == ptr && m.bytes == bytes,
    {
        outcome("cuMemAllocManaged", reply)?;
        Ok(DeviceMem { ptr, bytes })
    }

    /// A copy from the host to the device.
    pub fn copy_htod(reply: &DriverReply) -> (r: Ds4Result<()>)
        ensures
            replied(r, "cuMemcpyHtoD"@, *reply),
    {
        outcome("cuMemcpyHtoD", reply)
    }

    /// A copy from the device to the host.
    pub fn copy_dtoh(reply: &DriverReply) -> (r: Ds4Result<()>)
        ensures
            replied(r, "cuMemcpyDtoH"@, *reply),
    {
        outcome("cuMemcpyDtoH", reply)
    }

    /// Waiting for the device.
    pub fn synchronize(reply: &DriverReply) -> (r: Ds4Result<()>)
        ensures
            replied(r, "cuCtxSynchronize"@, *reply),
    {
        outcome("cuCtxSynchronize", reply)
    }

    /// The launch of a kernel.
    pub fn launch(reply: &DriverReply) -> (r: Ds4Result<()>)
        ensures
            replied(r, "cuLaunchKernel"@, *reply),
    {
        outcome("cuLaunchKernel", reply)
    }

    /// Whether the driver is asked to free an address: a null address is none.
    pub fn frees(ptr: CuDevicePtr) -> (r: bool)
        ensures
            r == (ptr != 0),
    {
        ptr != 0
    }
}

// ---- The program ----

/// Numbers in decimal, separated by commas.
pub open spec fn sign_items(s: Seq<u8>) -> Seq<char>
    decreases s.len(),
{
    if s.len() == 0 {
        Seq::empty()
    } else if s.len() == 1 {
        dec(s[0] as nat)
    } else {
        sign_items(s.drop_last()) + ","@ + dec(s.last() as nat)
    }
}

/// Numbers as hexadecimal literals, separated by commas.
pub open spec fn grid_items(s: Seq<u64>) -> Seq<char>
    decreases s.len(),
{
    if s.len() == 0 {
        Seq::empty()
    } else if s.len() == 1 {
        "0x"@ + hex_padded(s[0] as nat, 16) + "ULL"@
    } else {
        grid_items(s.drop_last()) + ","@ + "0x"@ + hex_padded(s.last() as nat, 16) + "ULL"@
    }
}

/// The program: the tables of the two-bit format, and the kernels.
pub fn runtime_kernel_source(signs: &[u8], grid: &[u64]) -> (r: String)
    ensures
        r@ == "__constant__ unsigned char DS4_KSIGNS[128] = {"@ + sign_items(signs@)
            + "};\n__constant__ unsigned long long DS4_IQ2_GRID[256] = {"@ + grid_items(grid@)
            + "};\n"@ + RUNTIME_KERNEL_BODY@,
{
    let mut src: String = String::from_str("__constant__ unsigned char DS4_KSIGNS[128] = {");
    let ghost head = src@;
    let mut i: usize = 0;
    assert(src@ =~= head + sign_items(signs@.take(0)));
    while i < signs.len()
        invariant
            i <= signs@.len(),
            src@ == head + sign_items(signs@.take(i as int)),
        decreases signs@.len() - i,
    {
        if i != 0 {
            src.append(",");
        }
        push_dec(&mut src, signs[i] as u64);
        proof {
            let next = signs@.take(i + 1);
            assert(next.drop_last() =~= signs@.take(i as int));
            assert(next.last() == signs@[i as int]);
            assert(src@ =~= head + sign_items(next));
        }
        i += 1;
    }
    assert(signs@.take(i as int) =~= signs@);
    src.append("};\n__constant__ unsigned long long DS4_IQ2_GRID[256] = {");
    let ghost middle = src@;
    let mut j: usize = 0;
    assert(src@ =~= middle + grid_items(grid@.take(0)));
    while j < grid.len()
        invariant
            j <= grid@.len(),
            src@ == middle + grid_items(grid@.take(j as int)),
        decreases grid@.len() - j,
    {
        if j != 0 {
            src.append(",");
        }
        src.append("0x");
        push_hex_padded(&mut src, grid[j], 16);
        src.append("ULL");
        proof {
            let next = grid@.take(j + 1);
            assert(next.drop_last() =~= grid@.take(j as int));
            assert(next.last() == grid@[j as int]);
            assert(src@ =~= middle + grid_items(next));
        }
        j += 1;
    }
    assert(grid@.take(j as int) =~= grid@);
    src.append("};\n");
    src.append(RUNTIME_KERNEL_BODY);
    src
}

} // verus!
