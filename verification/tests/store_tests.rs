use grid_search_desktop::codec::contents_to_doc;
use grid_search_desktop::config::{BaseConfig, RunParameters};
use grid_search_desktop::dispatch::GenerationResult;
use grid_search_desktop::naming::create_experiment_name;
use grid_search_desktop::options::Milli;
use grid_search_desktop::store::{appended_contents, Experiment, ExperimentStore, StoreError};

fn milli(thousandths: i64) -> Milli {
    Milli { thousandths }
}

fn run_with(uuid: &str, seed: i32) -> RunParameters {
    RunParameters {
        experiment_uuid: uuid.to_string(),
        model: "test-model:latest".to_string(),
        prompt: "Say hello".to_string(),
        system_prompt: "You are terse.".to_string(),
        temperature: milli(660),
        repeat_penalty: milli(1500),
        top_k: 75,
        top_p: milli(720),
        repeat_last_n: 64,
        tfs_z: milli(1000),
        mirostat: 0,
        mirostat_tau: milli(5000),
        mirostat_eta: milli(100),
        seed,
    }
}

fn base() -> BaseConfig {
    BaseConfig {
        server_url: "http://localhost:11434".to_string(),
        request_timeout: 300,
        system_prompt: "sys".to_string(),
        default_options: Vec::new(),
    }
}

fn generation(text: &str) -> GenerationResult {
    GenerationResult {
        response: text.to_string(),
        total_duration: 90_000_000_000,
        load_duration: 1_000,
        prompt_eval_count: 12,
        prompt_eval_duration: 2_000,
        eval_count: 34,
        eval_duration: 3_000,
    }
}

#[test]
fn log_twice_yields_one_experiment_with_two_records() {
    let mut store = ExperimentStore::new();
    store
        .log(&base(), &run_with("abc", 1), &generation("first"))
        .expect("log should succeed");
    store
        .log(&base(), &run_with("abc", 2), &generation("second"))
        .expect("log should succeed");
    let listed = store.list();
    assert_eq!(listed.len(), 1);
    let doc = contents_to_doc(&listed[0].contents).expect("contents should read back");
    assert_eq!(doc.experiment_uuid, "abc");
    assert_eq!(doc.inferences.len(), 2);
    assert_eq!(doc.inferences[0].parameters.seed, 1);
    assert_eq!(doc.inferences[0].result.response, "first");
    assert_eq!(doc.inferences[1].parameters.seed, 2);
    assert_eq!(doc.inferences[1].result.response, "second");
}

#[test]
fn log_keeps_distinct_identifiers_apart() {
    let mut store = ExperimentStore::new();
    store
        .log(&base(), &run_with("one", 1), &generation("a"))
        .expect("log should succeed");
    store
        .log(&base(), &run_with("two", 2), &generation("b"))
        .expect("log should succeed");
    let listed = store.list();
    assert_eq!(listed.len(), 2);
    // newest first
    let newest = contents_to_doc(&listed[0].contents).expect("contents should read back");
    let oldest = contents_to_doc(&listed[1].contents).expect("contents should read back");
    assert_eq!(newest.experiment_uuid, "two");
    assert_eq!(oldest.experiment_uuid, "one");
}

#[test]
fn delete_missing_identifier_is_noop() {
    let mut store = ExperimentStore::new();
    store
        .log(&base(), &run_with("abc", 1), &generation("a"))
        .expect("log should succeed");
    store.delete("nonexistent").expect("missing delete is a success");
    assert_eq!(store.list().len(), 1);
}

#[test]
fn delete_wildcard_empties_store() {
    let mut store = ExperimentStore::new();
    store
        .log(&base(), &run_with("one", 1), &generation("a"))
        .expect("log should succeed");
    store
        .log(&base(), &run_with("two", 2), &generation("b"))
        .expect("log should succeed");
    store.delete("*").expect("wildcard delete is a success");
    assert_eq!(store.list().len(), 0);
}

#[test]
fn delete_one_identifier_keeps_the_rest() {
    let mut store = ExperimentStore::new();
    store
        .log(&base(), &run_with("one", 1), &generation("a"))
        .expect("log should succeed");
    store
        .log(&base(), &run_with("two", 2), &generation("b"))
        .expect("log should succeed");
    store.delete("one").expect("delete is a success");
    let listed = store.list();
    assert_eq!(listed.len(), 1);
    let doc = contents_to_doc(&listed[0].contents).expect("contents should read back");
    assert_eq!(doc.experiment_uuid, "two");
}

#[test]
fn logged_row_carries_generated_name_and_flag() {
    let mut store = ExperimentStore::new();
    store
        .log(&base(), &run_with("abc", 1), &generation("a"))
        .expect("log should succeed");
    let listed = store.list();
    assert_eq!(listed.len(), 1);
    let name = &listed[0].name;
    assert!(!name.is_empty());
    assert!(name.chars().all(|c| c.is_ascii_lowercase() || c == '-'));
    assert!(name.matches('-').count() >= 2);
}

#[test]
fn experiment_name_is_three_joined_words() {
    let name = create_experiment_name();
    assert!(!name.is_empty());
    assert!(name.chars().all(|c| c.is_ascii_lowercase() || c == '-'));
    assert!(name.matches('-').count() >= 2);
    assert!(!name.starts_with('-'));
    assert!(!name.ends_with('-'));
}

#[test]
fn experiment_new_leaves_database_fields_unset() {
    let e = Experiment::new(
        "a-b-c".to_string(),
        "contents".to_string(),
        "abc".to_string(),
        "2024-01-01 00:00:00 UTC".to_string(),
        false,
    );
    assert_eq!(e.id, None);
    assert_eq!(e.date_created, None);
    assert_eq!(e.name, "a-b-c");
    assert_eq!(e.contents, "contents");
    assert_eq!(e.experiment_uuid, "abc");
    assert_eq!(e.created, "2024-01-01 00:00:00 UTC");
    assert!(!e.is_favorite);
}

#[test]
fn appended_contents_extends_a_readable_document() {
    let mut store = ExperimentStore::new();
    store
        .log(&base(), &run_with("abc", 1), &generation("a"))
        .expect("log should succeed");
    let listed = store.list();
    let grown = appended_contents(&listed[0].contents, &run_with("abc", 9), &generation("z"))
        .expect("a stored document reads back");
    let doc = contents_to_doc(&grown).expect("grown contents should read back");
    assert_eq!(doc.inferences.len(), 2);
    assert_eq!(doc.inferences[1].parameters.seed, 9);
    assert_eq!(doc.inferences[1].result.response, "z");
}

#[test]
fn appended_contents_rejects_garbage() {
    let err = appended_contents("not a document", &run_with("abc", 1), &generation("a"))
        .expect_err("garbage must not read back");
    assert!(matches!(err, StoreError::Serialization(_)));
}
