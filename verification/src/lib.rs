//! Verified core of a sampling-parameter sweep tool for a local
//! text-generation server: merging loosely-typed default options with
//! strongly-typed run parameters, building and classifying dispatches,
//! and keeping an append-only, idempotent experiment log.
use vstd::prelude::*;

pub mod chars;
pub mod clock;
pub mod codec;
pub mod config;
pub mod dispatch;
pub mod endpoint;
pub mod naming;
pub mod numerals;
pub mod options;
pub mod store;
pub mod wire;

verus! {

use crate::config::{
    merge,
    merged_of,
    sp_defaults_ok,
    sp_first_bad,
    sp_key_target,
    BaseConfig,
    RunParameters,
};
use crate::dispatch::{
    classify_outcome,
    DispatchError,
    DispatchOutcome,
    GenerationResult,
    UpstreamError,
};
use crate::endpoint::{
    default_port,
    generate_url,
    host_with_scheme,
    spec_generate_url,
    split_host_port,
    url_parts,
    UrlError,
};
use crate::options::ConfigCoercionError;
use crate::store::{store_log_step, store_wf, ExperimentStore};
use crate::wire::{request_body, request_json};

/// Number of nanoseconds in one second.
pub open spec fn spec_nanos_per_second() -> u64 {
    1_000_000_000
}

/// Number of nanoseconds in one minute.
pub open spec fn spec_nanos_per_minute() -> u64 {
    60_000_000_000
}

/// Convert a duration in nanoseconds to whole seconds, discarding the rest.
pub fn nanoseconds_to_seconds(nanoseconds: u64) -> (r: u64)
    ensures
        r == nanoseconds / spec_nanos_per_second(),
{
    nanoseconds / 1_000_000_000
}

/// Convert a duration in nanoseconds to whole minutes and the seconds left
/// over.
pub fn nanoseconds_to_minutes_seconds(nanoseconds: u64) -> (r: (u64, u64))
    ensures
        r.0 == nanoseconds / spec_nanos_per_minute(),
        r.1 == (nanoseconds % spec_nanos_per_minute()) / spec_nanos_per_second(),
{
    let total_minutes = nanoseconds / 60_000_000_000;
    let remaining_nanoseconds = nanoseconds % 60_000_000_000;
    let seconds = remaining_nanoseconds / 1_000_000_000;
    (total_minutes, seconds)
}

/// Why a run could not be prepared for dispatch.
#[derive(Debug, Clone)]
pub enum PrepareError {
    /// A recognized default-option key would not coerce; nothing is sent.
    Coercion(ConfigCoercionError),
    /// The configured server text is no URL with a host; nothing is sent.
    Endpoint(UrlError),
}

/// One dispatchable request: where to post, the body to post, and the
/// deadline in seconds.
#[derive(Debug, Clone)]
pub struct PreparedRequest {
    pub url: String,
    pub body: String,
    pub timeout_secs: u64,
}

/// Resolve one run against the shared configuration: merge the options,
/// split the endpoint, and render the request body. Pure: nothing is sent
/// and nothing is persisted here.
pub fn prepare_run(base: &BaseConfig, run: &RunParameters) -> (r: Result<
    PreparedRequest,
    PrepareError,
>)
    requires
        base.wf(),
    ensures
        match r {
            Ok(p) => {
                &&& sp_defaults_ok(base@.default_options)
                &&& url_parts(base@.server_url) matches Some(q) && p.url@ == spec_generate_url(
                    host_with_scheme(q.0, q.1),
                    (match q.2 {
                        Some(pt) => pt,
                        None => default_port(q.0),
                    }),
                )
                &&& p.body@ == request_json(run@.model, run@.prompt, merged_of(base@, run@))
                &&& p.timeout_secs == base@.request_timeout
            },
            Err(PrepareError::Coercion(e)) => {
                &&& !sp_defaults_ok(base@.default_options)
                &&& 0 <= sp_first_bad(base@.default_options) < base@.default_options.len()
                &&& e.key@ == base@.default_options[sp_first_bad(base@.default_options)].key
                &&& Some(e.expected) == sp_key_target(e.key@)
            },
            Err(PrepareError::Endpoint(_)) => {
                &&& sp_defaults_ok(base@.default_options)
                &&& url_parts(base@.server_url) is None
            },
        },
{
    let merged = match merge(base, run) {
        Ok(m) => m,
        Err(e) => {
            return Err(PrepareError::Coercion(e));
        },
    };
    let (host, port) = match split_host_port(base.server_url.as_str()) {
        Ok(hp) => hp,
        Err(e) => {
            return Err(PrepareError::Endpoint(e));
        },
    };
    let url = generate_url(host.as_str(), port);
    let body = request_body(run.model.as_str(), run.prompt.as_str(), &merged);
    proof {
        assert(merged@ == merged_of(base@, run@));
    }
    Ok(PreparedRequest { url, body, timeout_secs: base.request_timeout })
}

/// Take the raw outcome of one dispatch and finish the run: a completed
/// generation is logged under the run's identifier and handed back; any
/// failure or timeout is classified and returned with the store left
/// untouched — a failed dispatch never reaches the store.
pub fn finish_run(
    store: &mut ExperimentStore,
    config: &BaseConfig,
    params: &RunParameters,
    outcome: DispatchOutcome,
) -> (r: Result<GenerationResult, DispatchError>)
    requires
        store_wf(old(store)@),
    ensures
        store_wf(final(store)@),
        match outcome {
            DispatchOutcome::Completed(g) => r matches Ok(out) && out == g && store_log_step(
                old(store)@,
                final(store)@,
                config@,
                params@,
                g@,
            ),
            DispatchOutcome::RemoteFailure(m) => final(store)@ == old(store)@ && (r matches Err(
                DispatchError::Upstream(UpstreamError::Server(s)),
            ) && s == m),
            DispatchOutcome::TransportFailure(m) => final(store)@ == old(store)@ && (r matches Err(
                DispatchError::Upstream(UpstreamError::Transport(s)),
            ) && s == m),
            DispatchOutcome::DeadlineElapsed(ms) => final(store)@ == old(store)@ && (r matches Err(
                DispatchError::Timeout { elapsed_ms },
            ) && elapsed_ms == ms),
        },
{
    match classify_outcome(outcome) {
        Ok(g) => {
            // the in-memory store's log never fails: its contract says so
            let _logged = store.log(config, params, &g);
            Ok(g)
        },
        Err(e) => Err(e),
    }
}

} // verus!
