//! Kernel compilers that run as programs: what their outcome means, and which kernels are compiled.

use vstd::prelude::*;
use vstd::string::StringExecFns;

use crate::dist::protocol::{lossy_text, utf8_lossy};
use crate::table::NameTable;
use crate::types::{fault, Ds4Error, Ds4ErrorKind, Ds4Result, Fault};

verus! {

/// What a compiler's outcomes are called.
#[derive(Debug, Clone, Copy)]
pub struct ToolTexts {
    /// Before the reason why the source could not be written down.
    pub unstaged: &'static str,
    /// Before what a failing compiler printed.
    pub failed: &'static str,
    /// The compiler is not there.
    pub absent: &'static str,
}

/// What running a compiler came to.
#[derive(Debug)]
pub enum ToolRun {
    /// It could not be started.
    Absent,
    /// It failed, and printed this.
    Failed(Vec<u8>),
    /// It wrote this.
    Done(Vec<u8>),
}

/// What stands against a compiled kernel. `unstaged` is the reason why the source could not be
/// written down.
pub open spec fn compile_fault(texts: ToolTexts, unstaged: Option<Seq<char>>, run: ToolRun) -> Option<
    Fault,
> {
    match unstaged {
        Some(reason) => fault(
            Ds4ErrorKind::NotImplemented,
            texts.unstaged@ + " ("@ + reason + ")"@,
        ),
        None => match run {
            ToolRun::Absent => fault(Ds4ErrorKind::NotImplemented, texts.absent@),
            ToolRun::Failed(printed) => fault(
                Ds4ErrorKind::Other,
                texts.failed@ + utf8_lossy(printed@),
            ),
            ToolRun::Done(_) => None,
        },
    }
}

/// What was asked of a compiler, seen from its outcome: what it wrote, or why there is nothing. The
/// run is looked at only if the source was written down.
pub fn compile_outcome(texts: ToolTexts, unstaged: Option<String>, run: ToolRun) -> (r: Ds4Result<
    Vec<u8>,
>)
    ensures
        match compile_fault(
            texts,
            match unstaged {
                Some(s) => Some(s@),
                None => None,
            },
            run,
        ) {
            Some(f) => r matches Err(e) && e.says(f),
            None => r matches Ok(out) && run matches ToolRun::Done(bytes) && out == bytes,
        },
{
    if let Some(reason) = unstaged {
        let mut m: String = String::from_str(texts.unstaged);
        m.append(" (");
        m.append(reason.as_str());
        m.append(")");
        return Err(Ds4Error::new(Ds4ErrorKind::NotImplemented, m));
    }
    match run {
        ToolRun::Absent => Err(
            Ds4Error::new(Ds4ErrorKind::NotImplemented, String::from_str(texts.absent)),
        ),
        ToolRun::Failed(printed) => {
            let mut m: String = String::from_str(texts.failed);
            m.append(lossy_text(printed.as_slice()).as_str());
            Err(Ds4Error::new(Ds4ErrorKind::Other, m))
        },
        ToolRun::Done(bytes) => Ok(bytes),
    }
}

/// A kernel to compile.
#[derive(Debug, Clone, Copy)]
pub struct KernelSource {
    pub name: &'static str,
    pub source: &'static str,
}

/// Compiled kernels by name.
#[derive(Debug)]
pub struct KernelCache {
    pub kernels: NameTable<Vec<u8>>,
}

/// The first kernel of a set, from `from` on, that has not been compiled.
pub open spec fn first_missing(
    set: Seq<KernelSource>,
    compiled: Map<Seq<char>, Vec<u8>>,
    from: int,
) -> Option<KernelSource>
    decreases set.len() - from,
{
    if from < 0 || from >= set.len() {
        None
    } else if compiled.contains_key(set[from].name@) {
        first_missing(set, compiled, from + 1)
    } else {
        Some(set[from])
    }
}

proof fn lemma_first_missing(
    set: Seq<KernelSource>,
    compiled: Map<Seq<char>, Vec<u8>>,
    from: int,
)
    requires
        0 <= from,
    ensures
        first_missing(set, compiled, from) matches Some(k) ==> !compiled.contains_key(k.name@),
        first_missing(set, compiled, from) is None ==> forall|i: int|
            from <= i < set.len() ==> compiled.contains_key((#[trigger] set[i]).name@),
    decreases set.len() - from,
{
    if from < set.len() {
        lemma_first_missing(set, compiled, from + 1);
    }
}

/// A kernel that was compiled is not asked for again, and when none is asked for, all are compiled.
pub proof fn law_compiled_once(
    set: Seq<KernelSource>,
    compiled: Map<Seq<char>, Vec<u8>>,
    binary: Vec<u8>,
)
    ensures
        first_missing(set, compiled, 0) matches Some(k) ==> !compiled.contains_key(k.name@) && (
        first_missing(set, compiled.insert(k.name@, binary), 0) matches Some(next) ==> next.name@
            != k.name@),
        first_missing(set, compiled, 0) is None ==> forall|i: int|
            0 <= i < set.len() ==> compiled.contains_key((#[trigger] set[i]).name@),
{
    lemma_first_missing(set, compiled, 0);
    if let Some(k) = first_missing(set, compiled, 0) {
        lemma_first_missing(set, compiled.insert(k.name@, binary), 0);
    }
}

impl KernelCache {
    /// A cache without kernels.
    pub fn new() -> (c: Self)
        ensures
            c.kernels@ == Map::<Seq<char>, Vec<u8>>::empty(),
    {
        KernelCache { kernels: NameTable::new() }
    }

    /// `true` if the kernel has been compiled.
    pub fn has(&self, name: &str) -> (r: bool)
        ensures
            r == self.kernels@.contains_key(name@),
    {
        self.kernels.contains(name)
    }

    /// The first kernel of a set that has to be compiled.
    pub fn next_kernel(&self, set: &Vec<KernelSource>) -> (r: Option<KernelSource>)
        ensures
            r == first_missing(set@, self.kernels@, 0),
    {
        let mut i: usize = 0;
        while i < set.len()
            invariant
                i <= set@.len(),
                first_missing(set@, self.kernels@, 0) == first_missing(
                    set@,
                    self.kernels@,
                    i as int,
                ),
            decreases set@.len() - i,
        {
            if !self.has(set[i].name) {
                return Some(set[i]);
            }
            i += 1;
        }
        None
    }

    /// Keeps a kernel under its name. `compiled` is what compiling it came to; it is not looked at
    /// if the kernel is there already, and a failure changes nothing.
    pub fn get_or_compile(&mut self, name: &str, compiled: Ds4Result<Vec<u8>>) -> (r: Ds4Result<()>)
        ensures
            if old(self).kernels@.contains_key(name@) {
                r is Ok && final(self).kernels@ == old(self).kernels@
            } else {
                match compiled {
                    Ok(binary) => {
                        &&& r is Ok
                        &&& final(self).kernels@ == old(self).kernels@.insert(name@, binary)
                    },
                    Err(e) => {
                        &&& r == Err::<(), Ds4Error>(e)
                        &&& final(self).kernels@ == old(self).kernels@
                    },
                }
            },
    {
        if self.has(name) {
            return Ok(());
        }
        match compiled {
            Ok(binary) => {
                self.kernels.insert(String::from_str(name), binary);
                Ok(())
            },
            Err(e) => Err(e),
        }
    }
}

} // verus!
