//! Context sizer: turns a tokenized prompt length and a new-token target into
//! the batch and context budgets of one generation request, and rejects
//! requests that cannot fit into the engine context.

use vstd::prelude::*;

verus! {

/// Ceiling on the number of tokens submitted to the engine in one batch.
pub const BATCH_CEILING: usize = 4096;

/// Ceiling on the engine context (prompt tokens plus generated tokens).
pub const CONTEXT_CEILING: usize = 32768;

/// Number of decode threads handed to the engine when a context is created.
pub const DECODE_THREADS: usize = 6;

/// Raised when a request cannot fit: the prompt plus the new-token target
/// exceeds the context ceiling. No engine context is created in that case.
#[derive(Clone, Copy, Debug, PartialEq, Eq, Structural)]
pub enum SizeError {
    ContextOverflow,
}

/// The budgets of one generation request.
#[derive(Clone, Copy, Debug, PartialEq, Eq, Structural)]
pub struct Budget {
    /// Batch capacity: enough for all prompt and generated tokens, capped.
    pub batch: usize,
    /// Total context size handed to the engine.
    pub context: usize,
    /// Decode thread count handed to the engine.
    pub threads: usize,
}

/// Computes the budgets for a prompt of `prompt_tokens` tokens and a target of
/// at most `new_tokens` generated tokens. Succeeds exactly when the total
/// fits under the context ceiling; the batch is the total, capped at the
/// batch ceiling.
pub fn size_budget(prompt_tokens: usize, new_tokens: usize) -> (r: Result<Budget, SizeError>)
    ensures
        prompt_tokens + new_tokens <= CONTEXT_CEILING <==> r is Ok,
        r matches Ok(b) ==> {
            &&& b.batch == if prompt_tokens + new_tokens <= BATCH_CEILING {
                prompt_tokens + new_tokens
            } else {
                BATCH_CEILING as int
            }
            &&& b.context == CONTEXT_CEILING
            &&& b.threads == DECODE_THREADS
        },
        r matches Err(e) ==> e == SizeError::ContextOverflow,
{
    if prompt_tokens > CONTEXT_CEILING || new_tokens > CONTEXT_CEILING - prompt_tokens {
        return Err(SizeError::ContextOverflow);
    }
    let total = prompt_tokens + new_tokens;
    let batch = if total <= BATCH_CEILING {
        total
    } else {
        BATCH_CEILING
    };
    Ok(Budget { batch, context: CONTEXT_CEILING, threads: DECODE_THREADS })
}

} // verus!
