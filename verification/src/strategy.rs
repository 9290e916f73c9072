//! The per-call execution policy: whether compression work is large enough
//! to be worth running outside the host runtime's exclusivity lock.

use vstd::prelude::*;

verus! {

/// Inputs of at most this many bytes run inline under the host runtime's
/// exclusivity lock; for longer inputs the lock's release overhead is
/// amortized by the compute saved.
pub const MAX_INPUT_LEN: usize = 512;

/// Decides whether work on an input of `input_len` bytes should run with the
/// host runtime's exclusivity lock released.
///
/// This is a pure latency policy, not a correctness requirement: each call
/// owns its input and output buffers exclusively, so the work is safe either
/// way. The host glue performs the actual lock release (or thread offload)
/// exactly when this returns true.
pub fn nogvl_if_large(input_len: usize) -> (r: bool)
    ensures
        r <==> input_len > MAX_INPUT_LEN,
{
    input_len > MAX_INPUT_LEN
}

} // verus!
