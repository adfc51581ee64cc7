use grid_search_desktop::codec::{contents_to_doc, doc_to_contents, ExperimentDoc, InferenceRecord};
use grid_search_desktop::config::{BaseConfig, OptionEntry, RunParameters};
use grid_search_desktop::dispatch::GenerationResult;
use grid_search_desktop::options::{Milli, UntypedValue};

fn milli(thousandths: i64) -> Milli {
    Milli { thousandths }
}

fn run_with(uuid: &str, prompt: &str, seed: i32) -> RunParameters {
    RunParameters {
        experiment_uuid: uuid.to_string(),
        model: "test-model:latest".to_string(),
        prompt: prompt.to_string(),
        system_prompt: "You are terse.\nVery terse.".to_string(),
        temperature: milli(660),
        repeat_penalty: milli(-1500),
        top_k: 75,
        top_p: milli(720),
        repeat_last_n: -64,
        tfs_z: milli(1000),
        mirostat: 2,
        mirostat_tau: milli(5000),
        mirostat_eta: milli(100),
        seed,
    }
}

fn generation(text: &str) -> GenerationResult {
    GenerationResult {
        response: text.to_string(),
        total_duration: u64::MAX,
        load_duration: 0,
        prompt_eval_count: 12,
        prompt_eval_duration: 2_000,
        eval_count: 34,
        eval_duration: 3_000,
    }
}

fn sample_doc() -> ExperimentDoc {
    ExperimentDoc {
        experiment_uuid: "abc".to_string(),
        datetime: "2024-01-01 00:00:00 UTC".to_string(),
        config: BaseConfig {
            server_url: "http://localhost:11434".to_string(),
            request_timeout: 300,
            system_prompt: "sys".to_string(),
            default_options: vec![
                OptionEntry {
                    key: "num_ctx".to_string(),
                    value: UntypedValue::Num(milli(4_096_000)),
                },
                OptionEntry {
                    key: "stop".to_string(),
                    value: UntypedValue::Text("###".to_string()),
                },
                OptionEntry {
                    key: "verbose".to_string(),
                    value: UntypedValue::Truth(true),
                },
            ],
        },
        inferences: vec![
            InferenceRecord {
                parameters: run_with("abc", "first prompt with \"quotes\"", 1),
                result: generation("first answer\nwith a newline"),
            },
            InferenceRecord {
                parameters: run_with("abc", "second prompt", 2),
                result: generation("second answer"),
            },
        ],
    }
}

#[test]
fn round_trip_reproduces_identifier_and_sequence() {
    let doc = sample_doc();
    let contents = doc_to_contents(&doc);
    let back = contents_to_doc(&contents).expect("a written document reads back");
    assert_eq!(back.experiment_uuid, "abc");
    assert_eq!(back.datetime, "2024-01-01 00:00:00 UTC");
    assert_eq!(back.inferences.len(), 2);
    assert_eq!(back.inferences[0].parameters.prompt, "first prompt with \"quotes\"");
    assert_eq!(back.inferences[0].parameters.seed, 1);
    assert_eq!(back.inferences[0].result.response, "first answer\nwith a newline");
    assert_eq!(back.inferences[0].result.total_duration, u64::MAX);
    assert_eq!(back.inferences[1].parameters.seed, 2);
    assert_eq!(back.inferences[1].parameters.repeat_penalty, milli(-1500));
    assert_eq!(back.inferences[1].parameters.repeat_last_n, -64);
}

#[test]
fn round_trip_keeps_config_snapshot() {
    let doc = sample_doc();
    let contents = doc_to_contents(&doc);
    let back = contents_to_doc(&contents).expect("a written document reads back");
    assert_eq!(back.config.server_url, "http://localhost:11434");
    assert_eq!(back.config.request_timeout, 300);
    assert_eq!(back.config.default_options.len(), 3);
    assert_eq!(back.config.default_options[0].key, "num_ctx");
    assert!(matches!(
        back.config.default_options[2].value,
        UntypedValue::Truth(true)
    ));
}

#[test]
fn round_trip_of_empty_inference_sequence() {
    let mut doc = sample_doc();
    doc.inferences = Vec::new();
    let contents = doc_to_contents(&doc);
    let back = contents_to_doc(&contents).expect("a written document reads back");
    assert_eq!(back.inferences.len(), 0);
}

#[test]
fn garbage_does_not_read_back() {
    assert!(contents_to_doc("").is_none());
    assert!(contents_to_doc("not a document").is_none());
}

#[test]
fn truncated_document_does_not_read_back() {
    let doc = sample_doc();
    let contents = doc_to_contents(&doc);
    let mut cut = contents.clone();
    cut.pop();
    assert!(contents_to_doc(&cut).is_none());
}

#[test]
fn trailing_text_does_not_read_back() {
    let doc = sample_doc();
    let mut contents = doc_to_contents(&doc);
    contents.push('x');
    assert!(contents_to_doc(&contents).is_none());
}
