use grid_search_desktop::codec::contents_to_doc;
use grid_search_desktop::config::{BaseConfig, OptionEntry, RunParameters};
use grid_search_desktop::dispatch::{
    classify_outcome, DispatchError, DispatchOutcome, GenerationResult, UpstreamError,
};
use grid_search_desktop::endpoint::{split_host_port, version_url};
use grid_search_desktop::store::ExperimentStore;
use grid_search_desktop::options::{Milli, UntypedValue};
use grid_search_desktop::wire::request_body;
use grid_search_desktop::{
    finish_run, nanoseconds_to_minutes_seconds, nanoseconds_to_seconds, prepare_run, PrepareError,
};

fn milli(thousandths: i64) -> Milli {
    Milli { thousandths }
}

fn sample_run() -> RunParameters {
    RunParameters {
        experiment_uuid: "abc".to_string(),
        model: "test-model:latest".to_string(),
        prompt: "Say hello".to_string(),
        system_prompt: "You are terse.".to_string(),
        temperature: milli(660),
        repeat_penalty: milli(1500),
        top_k: 75,
        top_p: milli(720),
        repeat_last_n: 64,
        tfs_z: milli(1000),
        mirostat: 0,
        mirostat_tau: milli(5000),
        mirostat_eta: milli(100),
        seed: 42,
    }
}

fn base_with(server: &str, entries: Vec<OptionEntry>) -> BaseConfig {
    BaseConfig {
        server_url: server.to_string(),
        request_timeout: 300,
        system_prompt: "sys".to_string(),
        default_options: entries,
    }
}

fn generation(text: &str) -> GenerationResult {
    GenerationResult {
        response: text.to_string(),
        total_duration: 90_000_000_000,
        load_duration: 1_000,
        prompt_eval_count: 12,
        prompt_eval_duration: 2_000,
        eval_count: 34,
        eval_duration: 3_000,
    }
}

#[test]
fn prepare_run_builds_url_body_and_deadline() {
    let base = base_with("http://localhost:11434", Vec::new());
    let run = sample_run();
    let prepared = prepare_run(&base, &run).expect("prepare should succeed");
    assert_eq!(prepared.url, "http://localhost:11434/api/generate");
    assert_eq!(prepared.timeout_secs, 300);
    assert_eq!(
        prepared.body,
        "{\"model\":\"test-model:latest\",\"prompt\":\"Say hello\",\
         \"system\":\"You are terse.\",\"stream\":false,\"options\":{\
         \"temperature\":0.660,\"repeat_penalty\":1.500,\"top_k\":75,\
         \"top_p\":0.720,\"repeat_last_n\":64,\"tfs_z\":1.000,\"mirostat\":0,\
         \"mirostat_tau\":5.000,\"mirostat_eta\":0.100,\"seed\":42}}"
    );
}

#[test]
fn prepare_run_rejects_bad_endpoint() {
    let base = base_with("not a url", Vec::new());
    let run = sample_run();
    let err = prepare_run(&base, &run).expect_err("no URL, no dispatch");
    assert!(matches!(err, PrepareError::Endpoint(_)));
}

#[test]
fn prepare_run_rejects_uncoercible_default() {
    let base = base_with(
        "http://localhost:11434",
        vec![OptionEntry {
            key: "num_ctx".to_string(),
            value: UntypedValue::Text("abc".to_string()),
        }],
    );
    let run = sample_run();
    let err = prepare_run(&base, &run).expect_err("bad default, no dispatch");
    match err {
        PrepareError::Coercion(e) => assert_eq!(e.key, "num_ctx"),
        other => panic!("wrong error kind: {:?}", other),
    }
}

#[test]
fn request_body_includes_defaults_and_escapes() {
    let base = base_with(
        "http://localhost:11434",
        vec![
            OptionEntry {
                key: "num_ctx".to_string(),
                value: UntypedValue::Num(milli(4_096_000)),
            },
            OptionEntry {
                key: "stop".to_string(),
                value: UntypedValue::Text("###".to_string()),
            },
        ],
    );
    let mut run = sample_run();
    run.prompt = "say \"hi\"\n".to_string();
    let merged = grid_search_desktop::config::merge(&base, &run).expect("merge should succeed");
    let body = request_body(&run.model, &run.prompt, &merged);
    assert!(body.contains("\"prompt\":\"say \\\"hi\\\"\\n\""));
    assert!(body.contains("\"num_ctx\":4096,"));
    assert!(body.contains("\"stop\":[\"###\"],"));
}

#[test]
fn classify_timeout_and_failures() {
    match classify_outcome(DispatchOutcome::DeadlineElapsed(1)) {
        Err(DispatchError::Timeout { elapsed_ms }) => assert_eq!(elapsed_ms, 1),
        other => panic!("wrong classification: {:?}", other),
    }
    match classify_outcome(DispatchOutcome::RemoteFailure("model missing".to_string())) {
        Err(DispatchError::Upstream(UpstreamError::Server(m))) => {
            assert_eq!(m, "model missing")
        },
        other => panic!("wrong classification: {:?}", other),
    }
    match classify_outcome(DispatchOutcome::TransportFailure("refused".to_string())) {
        Err(DispatchError::Upstream(UpstreamError::Transport(m))) => assert_eq!(m, "refused"),
        other => panic!("wrong classification: {:?}", other),
    }
    match classify_outcome(DispatchOutcome::Completed(generation("ok"))) {
        Ok(g) => assert_eq!(g.response, "ok"),
        other => panic!("wrong classification: {:?}", other),
    }
}

#[test]
fn timeout_leaves_store_untouched() {
    let mut store = ExperimentStore::new();
    let base = base_with("http://localhost:11434", Vec::new());
    store
        .log(&base, &sample_run(), &generation("kept"))
        .expect("log should succeed");
    let before = store.list();
    let r = finish_run(&mut store, &base, &sample_run(), DispatchOutcome::DeadlineElapsed(1));
    assert!(matches!(r, Err(DispatchError::Timeout { elapsed_ms: 1 })));
    let after = store.list();
    assert_eq!(after.len(), before.len());
    assert_eq!(after[0].contents, before[0].contents);
}

#[test]
fn completed_dispatch_is_logged() {
    let mut store = ExperimentStore::new();
    let base = base_with("http://localhost:11434", Vec::new());
    let g = finish_run(
        &mut store,
        &base,
        &sample_run(),
        DispatchOutcome::Completed(generation("logged")),
    )
    .expect("a completed dispatch is handed through");
    assert_eq!(g.response, "logged");
    let listed = store.list();
    assert_eq!(listed.len(), 1);
    let doc = contents_to_doc(&listed[0].contents).expect("contents should read back");
    assert_eq!(doc.experiment_uuid, "abc");
    assert_eq!(doc.inferences.len(), 1);
    assert_eq!(doc.inferences[0].result.response, "logged");
}

#[test]
fn split_host_port_reads_explicit_port() {
    let (host, port) = split_host_port("http://localhost:11434").expect("should parse");
    assert_eq!(host, "http://localhost");
    assert_eq!(port, 11434);
}

#[test]
fn split_host_port_defaults_by_scheme() {
    let (host, port) = split_host_port("https://example.com").expect("should parse");
    assert_eq!(host, "https://example.com");
    assert_eq!(port, 443);
    let (host2, port2) = split_host_port("http://example.com").expect("should parse");
    assert_eq!(host2, "http://example.com");
    assert_eq!(port2, 80);
}

#[test]
fn split_host_port_rejects_hostless_text() {
    assert!(split_host_port("not a url").is_err());
}

#[test]
fn version_url_trims_one_trailing_slash() {
    assert_eq!(
        version_url("http://localhost:11434/"),
        "http://localhost:11434/api/version"
    );
    assert_eq!(
        version_url("http://localhost:11434"),
        "http://localhost:11434/api/version"
    );
}

#[test]
fn nanosecond_conversions() {
    assert_eq!(nanoseconds_to_seconds(1_500_000_000), 1);
    assert_eq!(nanoseconds_to_seconds(999_999_999), 0);
    assert_eq!(nanoseconds_to_minutes_seconds(90_000_000_000), (1, 30));
    assert_eq!(nanoseconds_to_minutes_seconds(59_999_999_999), (0, 59));
}
