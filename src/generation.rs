//! The decisions of the text-generation loop of the AI worker: whether a
//! tokenized prompt may run, and when generation stops. The model itself is
//! driven by the host.
use vstd::prelude::*;

verus! {

#[derive(Debug, PartialEq, Eq)]
pub enum GenerationError {
    /// The prompt tokenized to nothing.
    EmptyPrompt,
    /// The key-value cache needs `required` cells; the context has `available`.
    ContextTooSmall { required: usize, available: u32 },
    /// The prompt has `tokens` tokens, no fewer than the `limit` on positions.
    PromptTooLong { tokens: usize, limit: usize },
}

/// Whether a prompt of `prompt_len` bytes that tokenized into `n_tokens`
/// tokens may run in a context of `n_ctx` cells. Generation runs up to
/// position `prompt_len`, so that many cells are needed, and the prompt must
/// leave at least one position free.
pub fn admit_prompt(n_tokens: usize, prompt_len: usize, n_ctx: u32) -> (r: Result<(), GenerationError>)
    ensures
        r is Ok <==> n_tokens > 0 && prompt_len <= n_ctx && n_tokens < prompt_len,
        r == Err::<(), GenerationError>(GenerationError::EmptyPrompt) <==> n_tokens == 0,
        r == Err::<(), GenerationError>(
            GenerationError::ContextTooSmall { required: prompt_len, available: n_ctx },
        ) <==> n_tokens > 0 && prompt_len > n_ctx,
        r == Err::<(), GenerationError>(
            GenerationError::PromptTooLong { tokens: n_tokens, limit: prompt_len },
        ) <==> n_tokens > 0 && prompt_len <= n_ctx && n_tokens >= prompt_len,
{
    if n_tokens == 0 {
        Err(GenerationError::EmptyPrompt)
    } else if prompt_len > n_ctx as usize {
        Err(GenerationError::ContextTooSmall { required: prompt_len, available: n_ctx })
    } else if n_tokens >= prompt_len {
        Err(GenerationError::PromptTooLong { tokens: n_tokens, limit: prompt_len })
    } else {
        Ok(())
    }
}

/// Whether to sample another token at position `position`: not after the
/// end of the stream, and not past position `limit`.
pub fn keep_generating(position: usize, limit: usize, end_of_stream: bool) -> (r: bool)
    ensures
        r == (!end_of_stream && position <= limit),
{
    !end_of_stream && position <= limit
}

} // verus!
