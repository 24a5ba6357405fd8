//! Kernel launches of the CUDA runtime: which kernel, on which grid, with which arguments.

use vstd::prelude::*;

use super::backend::{blocks_for, blocks_of, launch_grid, op_items, LaunchGrid};
use super::runtime::KERNEL_COUNT;
use crate::backend_paged::page_table::overwritten;
use crate::graph::{run_op, Arithmetic, LayerBuf, LayerOp, LayerState, LayerWeight};

verus! {

/// The kernels of the program.
#[derive(Debug, Clone, Copy, PartialEq, Eq, Structural)]
pub enum CudaKernel {
    Embedding,
    RmsNorm,
    Matvec,
    Add,
    SiluProduct,
    Rope,
    StoreCache,
    Attention,
}

impl CudaKernel {
    /// The place of the kernel among those that are taken from the program.
    pub open spec fn place(self) -> int {
        match self {
            CudaKernel::Embedding => 0,
            CudaKernel::RmsNorm => 1,
            CudaKernel::Matvec => 2,
            CudaKernel::Add => 3,
            CudaKernel::SiluProduct => 4,
            CudaKernel::Rope => 5,
            CudaKernel::StoreCache => 6,
            CudaKernel::Attention => 7,
        }
    }

    /// The place of the kernel among those that are taken from the program.
    pub fn index(&self) -> (i: usize)
        ensures
            i == self.place(),
            i < KERNEL_COUNT,
    {
        match self {
            CudaKernel::Embedding => 0,
            CudaKernel::RmsNorm => 1,
            CudaKernel::Matvec => 2,
            CudaKernel::Add => 3,
            CudaKernel::SiluProduct => 4,
            CudaKernel::Rope => 5,
            CudaKernel::StoreCache => 6,
            CudaKernel::Attention => 7,
        }
    }
}

/// An argument of a kernel.
#[derive(Debug, Clone, Copy, PartialEq, Eq, Structural)]
pub enum CudaArg {
    Buffer(LayerBuf),
    Weight(LayerWeight),
    TokenEmbedding,
    KCache,
    VCache,
    Number(i32),
    /// What the squares' mean is raised by in a norm, as a bit pattern.
    NormEpsilon(u32),
    /// The base of the rotation's frequencies, as a bit pattern.
    RopeBase(u32),
}

/// A millionth, as a bit pattern: what the squares' mean is raised by.
pub const NORM_EPSILON: u32 = 0x358637BD;

/// Ten thousand, as a bit pattern: the base of the rotation's frequencies.
pub const ROPE_BASE: u32 = 0x461C4000;

/// A launch: the kernel, its grid, and its arguments in order.
#[derive(Debug)]
pub struct CudaLaunch {
    pub kernel: CudaKernel,
    pub grid: LaunchGrid,
    pub args: Vec<CudaArg>,
}

/// The kernel that runs an operation of a layer.
pub open spec fn op_kernel(op: LayerOp) -> CudaKernel {
    match op {
        LayerOp::RmsNorm { .. } => CudaKernel::RmsNorm,
        LayerOp::Matvec { .. } => CudaKernel::Matvec,
        LayerOp::Rope { .. } => CudaKernel::Rope,
        LayerOp::StoreK { .. } => CudaKernel::StoreCache,
        LayerOp::StoreV { .. } => CudaKernel::StoreCache,
        LayerOp::Attention { .. } => CudaKernel::Attention,
        LayerOp::Add { .. } => CudaKernel::Add,
        LayerOp::SiluProduct { .. } => CudaKernel::SiluProduct,
    }
}

/// The arguments of an operation. `code` is the number of the weight's format, and `cache_pos` the
/// row of the cache that is stored to.
pub open spec fn op_args(op: LayerOp, code: i32, cache_pos: usize) -> Seq<CudaArg> {
    match op {
        LayerOp::RmsNorm { from, weight, to, n } => seq![
            CudaArg::Buffer(from),
            CudaArg::Weight(weight),
            CudaArg::Number(code),
            CudaArg::Buffer(to),
            CudaArg::Number(n as i32),
            CudaArg::NormEpsilon(NORM_EPSILON),
        ],
        LayerOp::Matvec { from, weight, to, in_dim, out_dim } => seq![
            CudaArg::Buffer(from),
            CudaArg::Weight(weight),
            CudaArg::Number(code),
            CudaArg::Buffer(to),
            CudaArg::Number(in_dim as i32),
            CudaArg::Number(out_dim as i32),
        ],
        LayerOp::Rope { buf, pos, n_heads, head_dim } => seq![
            CudaArg::Buffer(buf),
            CudaArg::Number(pos as i32),
            CudaArg::Number(n_heads as i32),
            CudaArg::Number(head_dim as i32),
            CudaArg::RopeBase(ROPE_BASE),
        ],
        LayerOp::StoreK { start, n } => seq![
            CudaArg::Buffer(LayerBuf::K),
            CudaArg::KCache,
            CudaArg::Number(cache_pos as i32),
            CudaArg::Number(n as i32),
        ],
        LayerOp::StoreV { start, n } => seq![
            CudaArg::Buffer(LayerBuf::V),
            CudaArg::VCache,
            CudaArg::Number(cache_pos as i32),
            CudaArg::Number(n as i32),
        ],
        LayerOp::Attention { prefix_len, prefix_values, n_heads, head_dim } => seq![
            CudaArg::Buffer(LayerBuf::Q),
            CudaArg::KCache,
            CudaArg::VCache,
            CudaArg::Buffer(LayerBuf::Attn),
            CudaArg::Number(prefix_len as i32),
            CudaArg::Number(n_heads as i32),
            CudaArg::Number(head_dim as i32),
        ],
        LayerOp::Add { to, from, n } => seq![
            CudaArg::Buffer(to),
            CudaArg::Buffer(from),
            CudaArg::Number(n as i32),
        ],
        LayerOp::SiluProduct { gate, up, n } => seq![
            CudaArg::Buffer(gate),
            CudaArg::Buffer(up),
            CudaArg::Number(n as i32),
        ],
    }
}

fn kernel_of(op: LayerOp) -> (k: CudaKernel)
    ensures
        k == op_kernel(op),
{
    match op {
        LayerOp::RmsNorm { from, weight, to, n } => CudaKernel::RmsNorm,
        LayerOp::Matvec { from, weight, to, in_dim, out_dim } => CudaKernel::Matvec,
        LayerOp::Rope { buf, pos, n_heads, head_dim } => CudaKernel::Rope,
        LayerOp::StoreK { start, n } => CudaKernel::StoreCache,
        LayerOp::StoreV { start, n } => CudaKernel::StoreCache,
        LayerOp::Attention { prefix_len, prefix_values, n_heads, head_dim } => CudaKernel::Attention,
        LayerOp::Add { to, from, n } => CudaKernel::Add,
        LayerOp::SiluProduct { gate, up, n } => CudaKernel::SiluProduct,
    }
}

fn args_of(op: LayerOp, code: i32, cache_pos: usize) -> (v: Vec<CudaArg>)
    ensures
        v@ == op_args(op, code, cache_pos),
{
    let v: Vec<CudaArg> = match op {
        LayerOp::RmsNorm { from, weight, to, n } => vec![
            CudaArg::Buffer(from),
            CudaArg::Weight(weight),
            CudaArg::Number(code),
            CudaArg::Buffer(to),
            CudaArg::Number(n as i32),
            CudaArg::NormEpsilon(NORM_EPSILON),
        ],
        LayerOp::Matvec { from, weight, to, in_dim, out_dim } => vec![
            CudaArg::Buffer(from),
            CudaArg::Weight(weight),
            CudaArg::Number(code),
            CudaArg::Buffer(to),
            CudaArg::Number(in_dim as i32),
            CudaArg::Number(out_dim as i32),
        ],
        LayerOp::Rope { buf, pos, n_heads, head_dim } => vec![
            CudaArg::Buffer(buf),
            CudaArg::Number(pos as i32),
            CudaArg::Number(n_heads as i32),
            CudaArg::Number(head_dim as i32),
            CudaArg::RopeBase(ROPE_BASE),
        ],
        LayerOp::StoreK { start, n } => vec![
            CudaArg::Buffer(LayerBuf::K),
            CudaArg::KCache,
            CudaArg::Number(cache_pos as i32),
            CudaArg::Number(n as i32),
        ],
        LayerOp::StoreV { start, n } => vec![
            CudaArg::Buffer(LayerBuf::V),
            CudaArg::VCache,
            CudaArg::Number(cache_pos as i32),
            CudaArg::Number(n as i32),
        ],
        LayerOp::Attention { prefix_len, prefix_values, n_heads, head_dim } => vec![
            CudaArg::Buffer(LayerBuf::Q),
            CudaArg::KCache,
            CudaArg::VCache,
            CudaArg::Buffer(LayerBuf::Attn),
            CudaArg::Number(prefix_len as i32),
            CudaArg::Number(n_heads as i32),
            CudaArg::Number(head_dim as i32),
        ],
        LayerOp::Add { to, from, n } => vec![
            CudaArg::Buffer(to),
            CudaArg::Buffer(from),
            CudaArg::Number(n as i32),
        ],
        LayerOp::SiluProduct { gate, up, n } => vec![
            CudaArg::Buffer(gate),
            CudaArg::Buffer(up),
            CudaArg::Number(n as i32),
        ],
    };
    assert(v@ =~= op_args(op, code, cache_pos));
    v
}

/// Lays out the launch of an operation of a layer. `code` is the number of the weight's format,
/// where the operation has a weight, and `cache_pos` the row of the cache that is stored to.
pub fn launch_op(op: LayerOp, code: i32, cache_pos: usize) -> (l: CudaLaunch)
    requires
        blocks_of(op_items(op)) <= u32::MAX,
        op_items(op) <= usize::MAX,
    ensures
        l.kernel == op_kernel(op),
        l.grid == if op is RmsNorm {
            LaunchGrid { blocks: 1, threads: 1 }
        } else {
            LaunchGrid { blocks: blocks_of(op_items(op)) as u32, threads: 256 }
        },
        l.args@ == op_args(op, code, cache_pos),
{
    CudaLaunch {
        kernel: kernel_of(op),
        grid: launch_grid(op),
        args: args_of(op, code, cache_pos),
    }
}

/// Lays out taking the embedding of a token.
pub fn launch_embedding(token: u32, code: i32, hidden: usize) -> (l: CudaLaunch)
    requires
        blocks_of(hidden as int) <= u32::MAX,
    ensures
        l.kernel == CudaKernel::Embedding,
        l.grid == (LaunchGrid { blocks: blocks_of(hidden as int) as u32, threads: 256 }),
        l.args@ == seq![
            CudaArg::TokenEmbedding,
            CudaArg::Number(code),
            CudaArg::Number(token as i32),
            CudaArg::Number(hidden as i32),
            CudaArg::Buffer(LayerBuf::X),
        ],
{
    let l = CudaLaunch {
        kernel: CudaKernel::Embedding,
        grid: LaunchGrid { blocks: blocks_for(hidden), threads: 256 },
        args: vec![
            CudaArg::TokenEmbedding,
            CudaArg::Number(code),
            CudaArg::Number(token as i32),
            CudaArg::Number(hidden as i32),
            CudaArg::Buffer(LayerBuf::X),
        ],
    };
    assert(l.args@ =~= seq![
        CudaArg::TokenEmbedding,
        CudaArg::Number(code),
        CudaArg::Number(token as i32),
        CudaArg::Number(hidden as i32),
        CudaArg::Buffer(LayerBuf::X),
    ]);
    l
}

// ---- What launches come to ----

/// The buffer that an argument is.
pub open spec fn arg_buffer(arg: CudaArg) -> LayerBuf {
    match arg {
        CudaArg::Buffer(b) => b,
        _ => LayerBuf::X,
    }
}

/// The weight that an argument is.
pub open spec fn arg_weight(arg: CudaArg) -> LayerWeight {
    match arg {
        CudaArg::Weight(w) => w,
        _ => LayerWeight::AttnNorm,
    }
}

/// The size that an argument is.
pub open spec fn arg_size(arg: CudaArg) -> usize {
    match arg {
        CudaArg::Number(n) => n as usize,
        _ => 0,
    }
}

/// The state with another buffer.
pub open spec fn with_buffer(s: LayerState, to: CudaArg, values: Seq<u32>) -> LayerState {
    LayerState { bufs: s.bufs.insert(arg_buffer(to), values), ..s }
}

/// What a kernel makes of the state with these arguments, as its parameters stand in its source.
pub open spec fn run_launch(a: Arithmetic, s: LayerState, kernel: CudaKernel, p: Seq<CudaArg>) -> LayerState {
    let b = |i: int| s.bufs[arg_buffer(p[i])];
    let n = |i: int| arg_size(p[i]);
    match kernel {
        CudaKernel::Embedding => s,
        CudaKernel::RmsNorm => with_buffer(s, p[3], (a.norm)(b(0), arg_weight(p[1]), n(4))),
        CudaKernel::Matvec => with_buffer(
            s,
            p[3],
            (a.product)(b(0), arg_weight(p[1]), n(4), n(5)),
        ),
        CudaKernel::Add => with_buffer(s, p[0], (a.sum)(b(0), b(1), n(2))),
        CudaKernel::SiluProduct => with_buffer(s, p[0], (a.gate)(b(0), b(1), n(2))),
        CudaKernel::Rope => with_buffer(s, p[0], (a.rotate)(b(0), n(1), n(2), n(3))),
        CudaKernel::StoreCache => if p[1] == CudaArg::KCache {
            LayerState { k: overwritten(s.k, n(2) * n(3), b(0).take(n(3) as int)), ..s }
        } else {
            LayerState { v: overwritten(s.v, n(2) * n(3), b(0).take(n(3) as int)), ..s }
        },
        CudaKernel::Attention => with_buffer(
            s,
            p[3],
            (a.attend)(
                b(0),
                (if p[1] == CudaArg::KCache {
                    s.k
                } else {
                    s.v
                }).take(n(4) * n(5) * n(6)),
                (if p[2] == CudaArg::VCache {
                    s.v
                } else {
                    s.k
                }).take(n(4) * n(5) * n(6)),
                n(4),
                n(5),
                n(6),
            ),
        ),
    }
}

/// The sizes of an operation can be handed to a kernel, and its row of the cache is this one.
pub open spec fn sizes_fit(op: LayerOp, cache_pos: usize) -> bool {
    match op {
        LayerOp::RmsNorm { from, weight, to, n } => n <= i32::MAX,
        LayerOp::Matvec { from, weight, to, in_dim, out_dim } => in_dim <= i32::MAX && out_dim
            <= i32::MAX,
        LayerOp::Rope { buf, pos, n_heads, head_dim } => pos <= i32::MAX && n_heads <= i32::MAX
            && head_dim <= i32::MAX,
        LayerOp::StoreK { start, n } => cache_pos <= i32::MAX && n <= i32::MAX && start
            == cache_pos * n,
        LayerOp::StoreV { start, n } => cache_pos <= i32::MAX && n <= i32::MAX && start
            == cache_pos * n,
        LayerOp::Attention { prefix_len, prefix_values, n_heads, head_dim } => prefix_len
            <= i32::MAX && n_heads <= i32::MAX && head_dim <= i32::MAX && prefix_values == prefix_len
            * n_heads * head_dim,
        LayerOp::Add { to, from, n } => n <= i32::MAX,
        LayerOp::SiluProduct { gate, up, n } => n <= i32::MAX,
    }
}

/// The launch of an operation does what the operation says, whatever the arithmetic is. Where the
/// operation has a weight, the number of the weight's format follows the weight, and each kernel is
/// taken from the program under its own place.
pub proof fn law_launch_does_op(
    a: Arithmetic,
    s: LayerState,
    op: LayerOp,
    code: i32,
    cache_pos: usize,
)
    requires
        sizes_fit(op, cache_pos),
    ensures
        ({
            let p = op_args(op, code, cache_pos);
            &&& run_launch(a, s, op_kernel(op), p) == run_op(a, s, op)
            &&& op is RmsNorm || op is Matvec ==> p[2] == CudaArg::Number(code)
            &&& op is RmsNorm ==> p[5] == CudaArg::NormEpsilon(0x358637BD)
            &&& op is Rope ==> p[4] == CudaArg::RopeBase(0x461C4000)
        }),
        forall|k: CudaKernel, l: CudaKernel|
            k != l ==> #[trigger] k.place() != #[trigger] l.place(),
{
    match op {
        LayerOp::RmsNorm { from, weight, to, n } => {
            assert((n as i32) as usize == n);
        },
        LayerOp::Attention { prefix_len, prefix_values, n_heads, head_dim } => {
            assert((prefix_len as i32) as usize == prefix_len);
            assert((n_heads as i32) as usize == n_heads);
            assert((head_dim as i32) as usize == head_dim);
        },
        _ => {},
    }
}

/// A grid has a thread for each element that a kernel computes: for each element of a product, a
/// sum, a gated product and a row of the cache, for each pair that is rotated, and for each head
/// that attends.
pub proof fn law_grid_covers(op: LayerOp)
    ensures
        ({
            let threads = 256 * blocks_of(op_items(op));
            &&& op matches LayerOp::Matvec { from, weight, to, in_dim, out_dim } ==> threads
                >= out_dim
            &&& op matches LayerOp::Rope { buf, pos, n_heads, head_dim } ==> threads >= n_heads * (
            head_dim / 2)
            &&& op matches LayerOp::StoreK { start, n } ==> threads >= n
            &&& op matches LayerOp::StoreV { start, n } ==> threads >= n
            &&& op matches LayerOp::Attention { prefix_len, prefix_values, n_heads, head_dim }
                ==> threads >= n_heads
            &&& op matches LayerOp::Add { to, from, n } ==> threads >= n
            &&& op matches LayerOp::SiluProduct { gate, up, n } ==> threads >= n
            &&& threads < op_items(op) + 512
        }),
{
    assert(op_items(op) >= 0) by {
        if let LayerOp::Rope { buf, pos, n_heads, head_dim } = op {
            assert(n_heads * (head_dim / 2) >= 0) by (nonlinear_arith);
        }
    }
}

} // verus!
