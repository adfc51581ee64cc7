//! Dispatch outcomes: the result of one generation request, and the
//! classification of everything that can come back from the endpoint under
//! a deadline.
use vstd::prelude::*;

verus! {

/// What a completed generation reports: the response text and the
/// accounting fields, passed through from the server unmodified.
#[derive(Debug, Clone)]
pub struct GenerationResult {
    pub response: String,
    pub total_duration: u64,
    pub load_duration: u64,
    pub prompt_eval_count: u64,
    pub prompt_eval_duration: u64,
    pub eval_count: u64,
    pub eval_duration: u64,
}

pub ghost struct GenerationResultV {
    pub response: Seq<char>,
    pub total_duration: u64,
    pub load_duration: u64,
    pub prompt_eval_count: u64,
    pub prompt_eval_duration: u64,
    pub eval_count: u64,
    pub eval_duration: u64,
}

impl View for GenerationResult {
    type V = GenerationResultV;

    open spec fn view(&self) -> GenerationResultV {
        GenerationResultV {
            response: self.response@,
            total_duration: self.total_duration,
            load_duration: self.load_duration,
            prompt_eval_count: self.prompt_eval_count,
            prompt_eval_duration: self.prompt_eval_duration,
            eval_count: self.eval_count,
            eval_duration: self.eval_duration,
        }
    }
}

impl GenerationResult {
    /// A copy that denotes the same result.
    pub fn cloned(&self) -> (r: Self)
        ensures
            r@ == self@,
    {
        GenerationResult {
            response: self.response.clone(),
            total_duration: self.total_duration,
            load_duration: self.load_duration,
            prompt_eval_count: self.prompt_eval_count,
            prompt_eval_duration: self.prompt_eval_duration,
            eval_count: self.eval_count,
            eval_duration: self.eval_duration,
        }
    }
}

/// A failure reported by the far side of a dispatch: either the transport
/// broke, or the server answered with a well-formed error of its own.
#[derive(Debug, Clone)]
pub enum UpstreamError {
    Transport(String),
    Server(String),
}

/// Why a dispatch returned no generation.
#[derive(Debug, Clone)]
pub enum DispatchError {
    /// The deadline elapsed before the endpoint answered; nothing of the
    /// in-flight request is interpreted.
    Timeout { elapsed_ms: u64 },
    Upstream(UpstreamError),
}

/// The raw outcome of racing one network send against its deadline, as the
/// unverified edge hands it back.
#[derive(Debug, Clone)]
pub enum DispatchOutcome {
    /// The endpoint answered with a generation.
    Completed(GenerationResult),
    /// The endpoint answered, with a well-formed error of its own.
    RemoteFailure(String),
    /// The transport failed: connection refused, resolution, a malformed
    /// response.
    TransportFailure(String),
    /// The deadline timer fired first, after this many milliseconds.
    DeadlineElapsed(u64),
}

/// Classify a raw outcome: a completed generation is handed through, and
/// every failure becomes its error variant.
pub fn classify_outcome(outcome: DispatchOutcome) -> (r: Result<GenerationResult, DispatchError>)
    ensures
        match outcome {
            DispatchOutcome::Completed(g) => r matches Ok(out) && out == g,
            DispatchOutcome::RemoteFailure(m) => r matches Err(DispatchError::Upstream(
                UpstreamError::Server(s),
            )) && s == m,
            DispatchOutcome::TransportFailure(m) => r matches Err(DispatchError::Upstream(
                UpstreamError::Transport(s),
            )) && s == m,
            DispatchOutcome::DeadlineElapsed(ms) => r matches Err(DispatchError::Timeout {
                elapsed_ms,
            }) && elapsed_ms == ms,
        },
{
    match outcome {
        DispatchOutcome::Completed(g) => Ok(g),
        DispatchOutcome::RemoteFailure(m) => Err(DispatchError::Upstream(UpstreamError::Server(m))),
        DispatchOutcome::TransportFailure(m) => Err(
            DispatchError::Upstream(UpstreamError::Transport(m)),
        ),
        DispatchOutcome::DeadlineElapsed(ms) => Err(DispatchError::Timeout { elapsed_ms: ms }),
    }
}

} // verus!
