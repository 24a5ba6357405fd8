//! Distributed inference: wire protocol, coordinator and worker.

use vstd::prelude::*;
use vstd::string::StringExecFns;

use crate::tensor::{DType, Shape, Tensor, TensorView};
use crate::types::{Ds4DistributedRole, Ds4Error, Ds4ErrorKind, Ds4Result};

pub mod coordinator;
pub mod msg;
pub mod protocol;
pub mod worker;

pub use protocol::MAGIC as WIRE_MAGIC;

verus! {

pub const CRATE_NAME: &'static str = "ds4-dist";

pub const VERSION: &'static str = "0.1.0";

/// The four bytes that open every frame, "DS4D".
pub const DS4_DIST_WIRE_MAGIC: u32 = 0x4453_3444;

/// Activation width that a HELLO announces by default.
pub const DEFAULT_ACTIVATION_BITS: u8 = 32;

/// Largest part of a snapshot that one chunk carries.
pub const SNAPSHOT_CHUNK_BYTES: usize = 8 * 1024 * 1024;

/// A session that the helpers below can be handed. Any sendable value will do.
pub trait SessionHandle: Send {

}

impl<T: Send> SessionHandle for T {

}

/// A session that knows its role.
pub trait SessionDist {
    fn distributed_role(&self) -> Ds4DistributedRole;
}

/// The error for a session handle without a route.
pub open spec fn route_missing(e: Ds4Error) -> bool {
    e.is(
        Ds4ErrorKind::NotImplemented,
        "distributed session route is absent for this generic handle"@,
    )
}

fn session_route_missing() -> (e: Ds4Error)
    ensures
        route_missing(e),
{
    Ds4Error::new(
        Ds4ErrorKind::NotImplemented,
        String::from_str("distributed session route is absent for this generic handle"),
    )
}

/// Resets per-request slice state. There is none behind a plain handle, so this succeeds and
/// leaves the handle alone.
pub fn layer_slice_reset<S: SessionHandle>(session: &mut S) -> (r: Ds4Result<()>)
    ensures
        r is Ok,
        *final(session) == *old(session),
{
    Ok(())
}

/// Runs layers `layer_start..layer_end`. A plain handle owns no route, so only the empty range
/// can be run: it copies the hidden state and gives no logits.
pub fn eval_layer_slice<S: SessionHandle>(
    session: &mut S,
    tokens: &[u32],
    pos0: usize,
    layer_start: usize,
    layer_end: usize,
    input_hc: &Tensor,
    output_hc: &mut Tensor,
    output_logits: &mut Tensor,
) -> (r: Ds4Result<()>)
    ensures
        *final(session) == *old(session),
        layer_start == layer_end ==> {
            &&& r is Ok
            &&& final(output_hc)@ == input_hc@
            &&& final(output_logits)@ == (TensorView {
                dtype: DType::F32,
                dims: seq![0usize],
                data: Seq::empty(),
            })
        },
        layer_start != layer_end ==> {
            &&& r matches Err(e) && route_missing(e)
            &&& *final(output_hc) == *old(output_hc)
            &&& *final(output_logits) == *old(output_logits)
        },
{
    if layer_start == layer_end {
        *output_hc = input_hc.duplicate();
        let none: Vec<u32> = Vec::new();
        let mut dims: Vec<usize> = Vec::new();
        dims.push(0);
        *output_logits = Tensor::from_f32_bits(none.as_slice(), Shape::new(dims));
        assert(output_logits@.dims =~= seq![0usize]);
        assert(output_logits@.data =~= Seq::<u8>::empty());
        return Ok(());
    }
    Err(session_route_missing())
}

/// Runs the output head. A plain handle owns no route, so this fails.
pub fn eval_output_head_from_hc<S: SessionHandle>(
    session: &mut S,
    hidden_hc: &Tensor,
    n_tokens: usize,
    logits: &mut Tensor,
) -> (r: Ds4Result<()>)
    ensures
        r matches Err(e) && route_missing(e),
        *final(session) == *old(session),
        *final(logits) == *old(logits),
{
    Err(session_route_missing())
}

/// `true` if a route is attached. None is visible behind a plain handle.
pub fn distributed_route_ready<S: SessionHandle>(session: &S) -> (r: Ds4Result<bool>)
    ensures
        r == Ok::<bool, Ds4Error>(false),
{
    Ok(session_role(session).is_some())
}

/// `true` if the handle has a distributed role. None is visible behind a plain handle.
pub fn is_distributed<S: SessionHandle>(session: &S) -> (r: bool)
    ensures
        !r,
{
    session_role(session).is_some()
}

fn session_role<S: SessionHandle>(session: &S) -> (r: Option<Ds4DistributedRole>)
    ensures
        r is None,
{
    None
}

} // verus!
