//! The boundary-facing pieces: error taxonomy, failure sentinels, and the
//! demonstration operations of the call surface.
//!
//! The foreign shell keeps every call inside a fault-containment scope and
//! answers each failure with a fixed sentinel payload instead of an image.
//! The choice of payload per failure tier is made here, so its shape is
//! pinned down by proof.

use vstd::prelude::*;
use vstd::string::StringExecFns;

verus! {

/// Why a pipeline stage failed.
#[derive(Clone, Copy, Debug, PartialEq, Eq, Structural)]
pub enum BridgeError {
    /// A flat buffer did not fit the fixed tensor shape.
    ShapeError,
    /// The inference engine rejected the model bytes or the bound input, or
    /// did not offer the named output tensor.
    EngineError,
    /// The grayscale raster could not be serialized as a PNG.
    EncodeFailed,
}

/// The failure tiers that the boundary distinguishes for the caller.
#[derive(Clone, Copy, Debug, PartialEq, Eq, Structural)]
pub enum FailureTier {
    /// The incoming byte buffers could not be read at the boundary.
    Marshal,
    /// Preprocessing, inference or encoding reported an error.
    Pipeline,
    /// An internal fault (a contained panic) was intercepted.
    Fault,
}

/// The sentinel bytes owed for each failure tier.
pub open spec fn sentinel_spec(tier: FailureTier) -> Seq<u8> {
    match tier {
        FailureTier::Marshal => seq![0u8, 0u8, 0u8],
        FailureTier::Pipeline => seq![0u8, 2u8],
        FailureTier::Fault => seq![0u8, 0u8, 1u8],
    }
}

/// The fixed sentinel payload returned in place of an image for `tier`.
pub fn failure_sentinel(tier: FailureTier) -> (r: Vec<u8>)
    ensures
        r@ == sentinel_spec(tier),
{
    match tier {
        FailureTier::Marshal => vec![0u8, 0u8, 0u8],
        FailureTier::Pipeline => vec![0u8, 2u8],
        FailureTier::Fault => vec![0u8, 0u8, 1u8],
    }
}

/// Different failure tiers always answer with different payloads, so the
/// host can tell the tiers apart by content alone.
pub proof fn lemma_sentinels_distinct(a: FailureTier, b: FailureTier)
    requires
        a != b,
    ensures
        sentinel_spec(a) != sentinel_spec(b),
{
    assert(sentinel_spec(FailureTier::Marshal)[2] == 0u8);
    assert(sentinel_spec(FailureTier::Fault)[2] == 1u8);
    assert(sentinel_spec(FailureTier::Pipeline).len() == 2);
    assert(sentinel_spec(FailureTier::Marshal).len() == 3);
    assert(sentinel_spec(FailureTier::Fault).len() == 3);
}

/// A successful image payload can never be mistaken for a failure
/// sentinel: every sentinel holds at most three bytes, while a PNG stream
/// runs past its eight signature bytes.
pub proof fn lemma_success_distinct_from_sentinels(bytes: Seq<u8>, tier: FailureTier)
    requires
        bytes.len() > 8,
    ensures
        bytes != sentinel_spec(tier),
{
    assert(sentinel_spec(tier).len() <= 3);
}

/// The string echo of the call surface: prefixes a greeting and appends an
/// exclamation mark.
pub fn greet(name: &str) -> (r: String)
    ensures
        r@ == "Hello "@ + name@ + "!"@,
{
    let mut r = String::new();
    r.append("Hello ");
    r.append(name);
    r.append("!");
    proof {
        assert(r@ =~= "Hello "@ + name@ + "!"@);
    }
    r
}

/// The squaring operation of the call surface.
pub fn square(n: i32) -> (r: i32)
    requires
        -46340 <= n <= 46340,
    ensures
        r == n * n,
{
    proof {
        assert(0 <= n * n <= 2147395600) by (nonlinear_arith)
            requires
                -46340 <= n <= 46340,
        ;
    }
    n * n
}

/// The addition operation of the call surface.
pub fn add(a: i32, b: i32) -> (r: i32)
    requires
        i32::MIN <= a + b <= i32::MAX,
    ensures
        r == a + b,
{
    a + b
}

} // verus!
