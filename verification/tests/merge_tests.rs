use grid_search_desktop::config::{merge, BaseConfig, OptionEntry, RunParameters};
use grid_search_desktop::options::{
    coerce_i32, coerce_milli, coerce_u32, coerce_u8, stop_text, Milli, TargetKind, UntypedValue,
};

fn milli(thousandths: i64) -> Milli {
    Milli { thousandths }
}

fn sample_run() -> RunParameters {
    RunParameters {
        experiment_uuid: "abc".to_string(),
        model: "test-model:latest".to_string(),
        prompt: "Say hello".to_string(),
        system_prompt: "You are terse.".to_string(),
        temperature: milli(660),
        repeat_penalty: milli(1500),
        top_k: 75,
        top_p: milli(720),
        repeat_last_n: 64,
        tfs_z: milli(1000),
        mirostat: 0,
        mirostat_tau: milli(5000),
        mirostat_eta: milli(100),
        seed: 42,
    }
}

fn base_with(entries: Vec<OptionEntry>) -> BaseConfig {
    BaseConfig {
        server_url: "http://localhost:11434".to_string(),
        request_timeout: 300,
        system_prompt: "configured system prompt".to_string(),
        default_options: entries,
    }
}

fn entry(key: &str, value: UntypedValue) -> OptionEntry {
    OptionEntry { key: key.to_string(), value }
}

#[test]
fn precedence_run_value_wins() {
    let base = base_with(vec![
        entry("temperature", UntypedValue::Num(milli(100))),
        entry("top_k", UntypedValue::Num(milli(5_000))),
        entry("seed", UntypedValue::Text("7".to_string())),
    ]);
    let run = sample_run();
    let merged = merge(&base, &run).expect("merge should succeed");
    assert_eq!(merged.temperature, milli(660));
    assert_eq!(merged.top_k, 75);
    assert_eq!(merged.seed, 42);
    assert_eq!(merged.system_prompt, "You are terse.");
}

#[test]
fn coercion_failure_num_ctx() {
    let base = base_with(vec![entry("num_ctx", UntypedValue::Text("abc".to_string()))]);
    let run = sample_run();
    let err = merge(&base, &run).expect_err("merge should fail");
    assert_eq!(err.key, "num_ctx");
    assert!(matches!(err.expected, TargetKind::Unsigned32));
}

#[test]
fn unknown_key_is_skipped() {
    let base = base_with(vec![entry("foo", UntypedValue::Text("bar".to_string()))]);
    let run = sample_run();
    let merged = merge(&base, &run).expect("unknown keys never fail the merge");
    assert!(merged.num_ctx.is_none());
    assert!(merged.num_gqa.is_none());
    assert!(merged.num_gpu.is_none());
    assert!(merged.num_thread.is_none());
    assert!(merged.num_predict.is_none());
    assert!(merged.stop.is_none());
}

#[test]
fn recognized_defaults_fill_fields() {
    let base = base_with(vec![
        entry("num_ctx", UntypedValue::Num(milli(4_096_000))),
        entry("num_thread", UntypedValue::Text("8".to_string())),
        entry("num_predict", UntypedValue::Text("-1".to_string())),
        entry("stop", UntypedValue::Text("###".to_string())),
    ]);
    let run = sample_run();
    let merged = merge(&base, &run).expect("merge should succeed");
    assert_eq!(merged.num_ctx, Some(4096));
    assert_eq!(merged.num_thread, Some(8));
    assert_eq!(merged.num_predict, Some(-1));
    assert_eq!(merged.stop, Some(vec!["###".to_string()]));
}

#[test]
fn first_failing_key_is_reported() {
    let base = base_with(vec![
        entry("num_gpu", UntypedValue::Text("2".to_string())),
        entry("num_thread", UntypedValue::Truth(true)),
        entry("num_ctx", UntypedValue::Text("abc".to_string())),
    ]);
    let run = sample_run();
    let err = merge(&base, &run).expect_err("merge should fail");
    assert_eq!(err.key, "num_thread");
    assert!(matches!(err.expected, TargetKind::Unsigned32));
}

#[test]
fn fixed_point_default_must_parse() {
    let base = base_with(vec![entry("mirostat_tau", UntypedValue::Text("x".to_string()))]);
    let run = sample_run();
    let err = merge(&base, &run).expect_err("merge should fail");
    assert_eq!(err.key, "mirostat_tau");
    assert!(matches!(err.expected, TargetKind::FixedPoint));
}

#[test]
fn coerce_u32_bounds() {
    assert_eq!(
        coerce_u32(&UntypedValue::Text("4294967295".to_string())),
        Some(u32::MAX)
    );
    assert_eq!(coerce_u32(&UntypedValue::Text("4294967296".to_string())), None);
    assert_eq!(coerce_u32(&UntypedValue::Text("".to_string())), None);
    assert_eq!(coerce_u32(&UntypedValue::Text("007".to_string())), Some(7));
    assert_eq!(coerce_u32(&UntypedValue::Num(milli(2500))), None);
    assert_eq!(coerce_u32(&UntypedValue::Num(milli(-1000))), None);
    assert_eq!(coerce_u32(&UntypedValue::Truth(true)), None);
}

#[test]
fn coerce_u8_bounds() {
    assert_eq!(coerce_u8(&UntypedValue::Text("255".to_string())), Some(255));
    assert_eq!(coerce_u8(&UntypedValue::Text("256".to_string())), None);
    assert_eq!(coerce_u8(&UntypedValue::Num(milli(2000))), Some(2));
}

#[test]
fn coerce_i32_bounds() {
    assert_eq!(
        coerce_i32(&UntypedValue::Text("-2147483648".to_string())),
        Some(i32::MIN)
    );
    assert_eq!(coerce_i32(&UntypedValue::Text("-2147483649".to_string())), None);
    assert_eq!(coerce_i32(&UntypedValue::Text("2147483647".to_string())), Some(i32::MAX));
    assert_eq!(coerce_i32(&UntypedValue::Text("-".to_string())), None);
}

#[test]
fn coerce_milli_grammar() {
    assert_eq!(
        coerce_milli(&UntypedValue::Text("0.66".to_string())),
        Some(milli(660))
    );
    assert_eq!(
        coerce_milli(&UntypedValue::Text("-1.5".to_string())),
        Some(milli(-1500))
    );
    assert_eq!(
        coerce_milli(&UntypedValue::Text("1.234".to_string())),
        Some(milli(1234))
    );
    assert_eq!(coerce_milli(&UntypedValue::Text("2".to_string())), Some(milli(2000)));
    assert_eq!(coerce_milli(&UntypedValue::Text("1.2345".to_string())), None);
    assert_eq!(coerce_milli(&UntypedValue::Text(".5".to_string())), None);
    assert_eq!(coerce_milli(&UntypedValue::Text("1.".to_string())), None);
    assert_eq!(coerce_milli(&UntypedValue::Text("abc".to_string())), None);
    assert_eq!(coerce_milli(&UntypedValue::Truth(false)), None);
    assert_eq!(coerce_milli(&UntypedValue::Num(milli(42))), Some(milli(42)));
}

#[test]
fn stop_text_renderings() {
    let t = stop_text(&UntypedValue::Text("###".to_string()));
    assert_eq!(t.iter().collect::<String>(), "###");
    let n = stop_text(&UntypedValue::Num(milli(1500)));
    assert_eq!(n.iter().collect::<String>(), "1.500");
    let b = stop_text(&UntypedValue::Truth(false));
    assert_eq!(b.iter().collect::<String>(), "false");
}
