//! Merging a loosely-typed default configuration with the strongly-typed
//! parameters of one run into a single validated option set. Recognized
//! default keys are coerced to their target types; unknown keys are skipped;
//! the mandatory run parameters always win.
use vstd::prelude::*;

verus! {

use crate::chars::{chars_eq_str, chars_to_string, str_to_chars};
use crate::options::{
    coerce_i32,
    coerce_milli,
    coerce_u32,
    coerce_u8,
    sp_coerce_i32,
    sp_coerce_milli,
    sp_coerce_u32,
    sp_coerce_u8,
    sp_stop_text,
    stop_text,
    ConfigCoercionError,
    Milli,
    TargetKind,
    UntypedValue,
    UntypedValueV,
};

/// One key of a default-option map, with its untyped value.
#[derive(Debug, Clone)]
pub struct OptionEntry {
    pub key: String,
    pub value: UntypedValue,
}

pub ghost struct OptionEntryV {
    pub key: Seq<char>,
    pub value: UntypedValueV,
}

impl View for OptionEntry {
    type V = OptionEntryV;

    open spec fn view(&self) -> OptionEntryV {
        OptionEntryV { key: self.key@, value: self.value@ }
    }
}

impl OptionEntry {
    /// A copy that denotes the same entry.
    pub fn cloned(&self) -> (r: Self)
        ensures
            r@ == self@,
    {
        OptionEntry { key: self.key.clone(), value: self.value.cloned() }
    }
}

/// Shared defaults for a session: endpoint, request timeout in seconds,
/// system prompt, and the untyped default-option map.
#[derive(Debug, Clone)]
pub struct BaseConfig {
    pub server_url: String,
    pub request_timeout: u64,
    pub system_prompt: String,
    pub default_options: Vec<OptionEntry>,
}

pub ghost struct BaseConfigV {
    pub server_url: Seq<char>,
    pub request_timeout: u64,
    pub system_prompt: Seq<char>,
    pub default_options: Seq<OptionEntryV>,
}

/// The views of a sequence of option entries.
pub open spec fn entries_v(s: Seq<OptionEntry>) -> Seq<OptionEntryV> {
    Seq::new(s.len(), |i: int| s[i]@)
}

impl View for BaseConfig {
    type V = BaseConfigV;

    open spec fn view(&self) -> BaseConfigV {
        BaseConfigV {
            server_url: self.server_url@,
            request_timeout: self.request_timeout,
            system_prompt: self.system_prompt@,
            default_options: entries_v(self.default_options@),
        }
    }
}

/// A default-option map is a mapping: its keys are unique.
pub open spec fn defaults_wf(d: Seq<OptionEntryV>) -> bool {
    forall|i: int, j: int| 0 <= i < j < d.len() ==> (#[trigger] d[i].key) != (#[trigger] d[j].key)
}

impl BaseConfig {
    pub open spec fn wf(&self) -> bool {
        defaults_wf(self@.default_options)
    }
}

impl BaseConfig {
    /// A copy that denotes the same configuration.
    pub fn cloned(&self) -> (r: Self)
        ensures
            r@ == self@,
    {
        let n = self.default_options.len();
        let mut entries: Vec<OptionEntry> = Vec::new();
        let mut i: usize = 0;
        while i < n
            invariant
                i <= n,
                n == self.default_options@.len(),
                entries@.len() == i,
                forall|j: int| 0 <= j < i ==> (#[trigger] entries@[j])@
                    == self.default_options@[j]@,
            decreases n - i,
        {
            entries.push(self.default_options[i].cloned());
            i = i + 1;
        }
        let r = BaseConfig {
            server_url: self.server_url.clone(),
            request_timeout: self.request_timeout,
            system_prompt: self.system_prompt.clone(),
            default_options: entries,
        };
        proof {
            assert(entries_v(r.default_options@) =~= entries_v(self.default_options@));
        }
        r
    }
}

/// The mandatory, always-present parameters of one sampling run, with its
/// stable caller-generated identifier.
#[derive(Debug, Clone)]
pub struct RunParameters {
    pub experiment_uuid: String,
    pub model: String,
    pub prompt: String,
    pub system_prompt: String,
    pub temperature: Milli,
    pub repeat_penalty: Milli,
    pub top_k: u32,
    pub top_p: Milli,
    pub repeat_last_n: i32,
    pub tfs_z: Milli,
    pub mirostat: u8,
    pub mirostat_tau: Milli,
    pub mirostat_eta: Milli,
    pub seed: i32,
}

pub ghost struct RunParametersV {
    pub experiment_uuid: Seq<char>,
    pub model: Seq<char>,
    pub prompt: Seq<char>,
    pub system_prompt: Seq<char>,
    pub temperature: Milli,
    pub repeat_penalty: Milli,
    pub top_k: u32,
    pub top_p: Milli,
    pub repeat_last_n: i32,
    pub tfs_z: Milli,
    pub mirostat: u8,
    pub mirostat_tau: Milli,
    pub mirostat_eta: Milli,
    pub seed: i32,
}

impl View for RunParameters {
    type V = RunParametersV;

    open spec fn view(&self) -> RunParametersV {
        RunParametersV {
            experiment_uuid: self.experiment_uuid@,
            model: self.model@,
            prompt: self.prompt@,
            system_prompt: self.system_prompt@,
            temperature: self.temperature,
            repeat_penalty: self.repeat_penalty,
            top_k: self.top_k,
            top_p: self.top_p,
            repeat_last_n: self.repeat_last_n,
            tfs_z: self.tfs_z,
            mirostat: self.mirostat,
            mirostat_tau: self.mirostat_tau,
            mirostat_eta: self.mirostat_eta,
            seed: self.seed,
        }
    }
}

impl RunParameters {
    /// A copy that denotes the same parameters.
    pub fn cloned(&self) -> (r: Self)
        ensures
            r@ == self@,
    {
        RunParameters {
            experiment_uuid: self.experiment_uuid.clone(),
            model: self.model.clone(),
            prompt: self.prompt.clone(),
            system_prompt: self.system_prompt.clone(),
            temperature: self.temperature,
            repeat_penalty: self.repeat_penalty,
            top_k: self.top_k,
            top_p: self.top_p,
            repeat_last_n: self.repeat_last_n,
            tfs_z: self.tfs_z,
            mirostat: self.mirostat,
            mirostat_tau: self.mirostat_tau,
            mirostat_eta: self.mirostat_eta,
            seed: self.seed,
        }
    }
}

/// The fully resolved, typed option set sent with one generation request.
/// Every mandatory field is set; a default-only field is set when its key
/// was present and coercible.
#[derive(Debug, Clone)]
pub struct MergedOptions {
    pub num_ctx: Option<u32>,
    pub num_gqa: Option<u32>,
    pub num_gpu: Option<u32>,
    pub num_thread: Option<u32>,
    pub num_predict: Option<i32>,
    pub stop: Option<Vec<String>>,
    pub temperature: Milli,
    pub repeat_penalty: Milli,
    pub top_k: u32,
    pub top_p: Milli,
    pub repeat_last_n: i32,
    pub tfs_z: Milli,
    pub mirostat: u8,
    pub mirostat_tau: Milli,
    pub mirostat_eta: Milli,
    pub seed: i32,
    pub system_prompt: String,
}

pub ghost struct MergedOptionsV {
    pub num_ctx: Option<u32>,
    pub num_gqa: Option<u32>,
    pub num_gpu: Option<u32>,
    pub num_thread: Option<u32>,
    pub num_predict: Option<i32>,
    pub stop: Option<Seq<Seq<char>>>,
    pub temperature: Milli,
    pub repeat_penalty: Milli,
    pub top_k: u32,
    pub top_p: Milli,
    pub repeat_last_n: i32,
    pub tfs_z: Milli,
    pub mirostat: u8,
    pub mirostat_tau: Milli,
    pub mirostat_eta: Milli,
    pub seed: i32,
    pub system_prompt: Seq<char>,
}

impl View for MergedOptions {
    type V = MergedOptionsV;

    open spec fn view(&self) -> MergedOptionsV {
        MergedOptionsV {
            num_ctx: self.num_ctx,
            num_gqa: self.num_gqa,
            num_gpu: self.num_gpu,
            num_thread: self.num_thread,
            num_predict: self.num_predict,
            stop: match self.stop {
                Some(v) => Some(v.deep_view()),
                None => None,
            },
            temperature: self.temperature,
            repeat_penalty: self.repeat_penalty,
            top_k: self.top_k,
            top_p: self.top_p,
            repeat_last_n: self.repeat_last_n,
            tfs_z: self.tfs_z,
            mirostat: self.mirostat,
            mirostat_tau: self.mirostat_tau,
            mirostat_eta: self.mirostat_eta,
            seed: self.seed,
            system_prompt: self.system_prompt@,
        }
    }
}

/// The closed registry: the target type of each recognized option key.
pub open spec fn sp_key_target(k: Seq<char>) -> Option<TargetKind> {
    if k == "num_ctx"@ || k == "num_gqa"@ || k == "num_gpu"@ || k == "num_thread"@ || k
        == "top_k"@ {
        Some(TargetKind::Unsigned32)
    } else if k == "num_predict"@ || k == "repeat_last_n"@ || k == "seed"@ {
        Some(TargetKind::Signed32)
    } else if k == "mirostat"@ {
        Some(TargetKind::Unsigned8)
    } else if k == "temperature"@ || k == "repeat_penalty"@ || k == "top_p"@ || k == "tfs_z"@
        || k == "mirostat_tau"@ || k == "mirostat_eta"@ {
        Some(TargetKind::FixedPoint)
    } else if k == "stop"@ {
        Some(TargetKind::StopText)
    } else {
        None
    }
}

/// A recognized key whose value does not coerce to the key's target.
pub open spec fn sp_entry_bad(e: OptionEntryV) -> bool {
    match sp_key_target(e.key) {
        Some(TargetKind::Unsigned32) => sp_coerce_u32(e.value) is None,
        Some(TargetKind::Signed32) => sp_coerce_i32(e.value) is None,
        Some(TargetKind::Unsigned8) => sp_coerce_u8(e.value) is None,
        Some(TargetKind::FixedPoint) => sp_coerce_milli(e.value) is None,
        Some(TargetKind::StopText) => false,
        None => false,
    }
}

pub open spec fn sp_defaults_ok(d: Seq<OptionEntryV>) -> bool {
    forall|i: int| 0 <= i < d.len() ==> !sp_entry_bad(#[trigger] d[i])
}

/// The index of the first uncoercible entry, or a negative value.
pub open spec fn sp_first_bad(d: Seq<OptionEntryV>) -> int
    decreases d.len(),
{
    if d.len() == 0 {
        -1
    } else if sp_entry_bad(d[0]) {
        0
    } else {
        let r = sp_first_bad(d.skip(1));
        if r < 0 {
            -1
        } else {
            r + 1
        }
    }
}

pub proof fn lemma_first_bad_at(d: Seq<OptionEntryV>, i: int)
    requires
        0 <= i < d.len(),
        sp_entry_bad(d[i]),
        forall|j: int| 0 <= j < i ==> !sp_entry_bad(#[trigger] d[j]),
    ensures
        sp_first_bad(d) == i,
    decreases i,
{
    if i > 0 {
        let t = d.skip(1);
        assert(t[i - 1] == d[i]);
        assert(forall|j: int| 0 <= j < i - 1 ==> t[j] == d[j + 1] && !sp_entry_bad(
            #[trigger] d[j + 1],
        ));
        lemma_first_bad_at(t, i - 1);
    }
}

/// The value under a key, first occurrence.
pub open spec fn sp_lookup(d: Seq<OptionEntryV>, k: Seq<char>) -> Option<UntypedValueV>
    decreases d.len(),
{
    if d.len() == 0 {
        None
    } else if d[0].key == k {
        Some(d[0].value)
    } else {
        sp_lookup(d.skip(1), k)
    }
}

pub proof fn lemma_lookup_none(d: Seq<OptionEntryV>, k: Seq<char>)
    requires
        forall|j: int| 0 <= j < d.len() ==> (#[trigger] d[j].key) != k,
    ensures
        sp_lookup(d, k) is None,
    decreases d.len(),
{
    if d.len() > 0 {
        let t = d.skip(1);
        assert(forall|j: int| 0 <= j < t.len() ==> t[j] == d[j + 1] && (#[trigger] t[j].key)
            == d[j + 1].key);
        lemma_lookup_none(t, k);
    }
}

pub proof fn lemma_lookup_snoc(d: Seq<OptionEntryV>, e: OptionEntryV, k: Seq<char>)
    ensures
        sp_lookup(d.push(e), k) == if sp_lookup(d, k) is Some {
            sp_lookup(d, k)
        } else if e.key == k {
            Some(e.value)
        } else {
            None
        },
    decreases d.len(),
{
    if d.len() == 0 {
        assert(d.push(e)[0] == e);
        assert(d.push(e).len() == 1);
        if e.key == k {
            assert(sp_lookup(d.push(e), k) == Some(e.value));
        } else {
            assert(d.push(e).skip(1) =~= Seq::<OptionEntryV>::empty());
            assert(sp_lookup(Seq::<OptionEntryV>::empty(), k) is None);
            assert(sp_lookup(d.push(e), k) is None);
        }
    } else {
        assert(d.push(e)[0] == d[0]);
        assert(d.push(e).skip(1) =~= d.skip(1).push(e));
        lemma_lookup_snoc(d.skip(1), e, k);
        if d[0].key == k {
            assert(sp_lookup(d.push(e), k) == Some(d[0].value));
            assert(sp_lookup(d, k) == Some(d[0].value));
        } else {
            assert(sp_lookup(d.push(e), k) == sp_lookup(d.skip(1).push(e), k));
            assert(sp_lookup(d, k) == sp_lookup(d.skip(1), k));
        }
    }
}

/// Enough facts about the recognized key names to tell any two of them
/// apart: their lengths, and a differing character for the pairs of equal
/// length.
pub proof fn lemma_registry_keys_distinct()
    ensures
        "num_ctx"@.len() == 7,
        "num_gqa"@.len() == 7,
        "num_gpu"@.len() == 7,
        "num_thread"@.len() == 10,
        "num_predict"@.len() == 11,
        "stop"@.len() == 4,
        "top_k"@.len() == 5,
        "repeat_last_n"@.len() == 13,
        "seed"@.len() == 4,
        "mirostat"@.len() == 8,
        "temperature"@.len() == 11,
        "repeat_penalty"@.len() == 14,
        "top_p"@.len() == 5,
        "tfs_z"@.len() == 5,
        "mirostat_tau"@.len() == 12,
        "mirostat_eta"@.len() == 12,
        "num_ctx"@[4] == 'c',
        "num_gqa"@[4] == 'g',
        "num_gpu"@[4] == 'g',
        "num_gqa"@[5] == 'q',
        "num_gpu"@[5] == 'p',
        "stop"@[1] == 't',
        "seed"@[1] == 'e',
        "top_k"@[1] == 'o',
        "top_p"@[1] == 'o',
        "tfs_z"@[1] == 'f',
        "top_k"@[4] == 'k',
        "top_p"@[4] == 'p',
        "num_predict"@[0] == 'n',
        "temperature"@[0] == 't',
        "mirostat_tau"@[9] == 't',
        "mirostat_eta"@[9] == 'e',
{
    reveal_strlit("num_ctx");
    reveal_strlit("num_gqa");
    reveal_strlit("num_gpu");
    reveal_strlit("num_thread");
    reveal_strlit("num_predict");
    reveal_strlit("stop");
    reveal_strlit("top_k");
    reveal_strlit("repeat_last_n");
    reveal_strlit("seed");
    reveal_strlit("mirostat");
    reveal_strlit("temperature");
    reveal_strlit("repeat_penalty");
    reveal_strlit("top_p");
    reveal_strlit("tfs_z");
    reveal_strlit("mirostat_tau");
    reveal_strlit("mirostat_eta");
}

/// The coerced value a merged option field takes from the defaults.
pub open spec fn sp_opt_u32(d: Seq<OptionEntryV>, k: Seq<char>) -> Option<u32> {
    match sp_lookup(d, k) {
        Some(v) => sp_coerce_u32(v),
        None => None,
    }
}

pub open spec fn sp_opt_i32(d: Seq<OptionEntryV>, k: Seq<char>) -> Option<i32> {
    match sp_lookup(d, k) {
        Some(v) => sp_coerce_i32(v),
        None => None,
    }
}

/// The single-element stop-sequence list taken from a "stop" default.
pub open spec fn sp_opt_stop(d: Seq<OptionEntryV>) -> Option<Seq<Seq<char>>> {
    match sp_lookup(d, "stop"@) {
        Some(v) => Some(seq![sp_stop_text(v)]),
        None => None,
    }
}

/// What a successful merge yields: every default-only field is the coerced
/// lookup of its key, every mandatory field is the run's value, and the
/// system prompt is the run's.
pub open spec fn sp_merged_from(m: MergedOptionsV, base: BaseConfigV, run: RunParametersV) -> bool {
    let d = base.default_options;
    &&& m.num_ctx == sp_opt_u32(d, "num_ctx"@)
    &&& m.num_gqa == sp_opt_u32(d, "num_gqa"@)
    &&& m.num_gpu == sp_opt_u32(d, "num_gpu"@)
    &&& m.num_thread == sp_opt_u32(d, "num_thread"@)
    &&& m.num_predict == sp_opt_i32(d, "num_predict"@)
    &&& m.stop == sp_opt_stop(d)
    &&& m.temperature == run.temperature
    &&& m.repeat_penalty == run.repeat_penalty
    &&& m.top_k == run.top_k
    &&& m.top_p == run.top_p
    &&& m.repeat_last_n == run.repeat_last_n
    &&& m.tfs_z == run.tfs_z
    &&& m.mirostat == run.mirostat
    &&& m.mirostat_tau == run.mirostat_tau
    &&& m.mirostat_eta == run.mirostat_eta
    &&& m.seed == run.seed
    &&& m.system_prompt == run.system_prompt
}

/// The one option set a successful merge yields.
pub open spec fn merged_of(base: BaseConfigV, run: RunParametersV) -> MergedOptionsV {
    let d = base.default_options;
    MergedOptionsV {
        num_ctx: sp_opt_u32(d, "num_ctx"@),
        num_gqa: sp_opt_u32(d, "num_gqa"@),
        num_gpu: sp_opt_u32(d, "num_gpu"@),
        num_thread: sp_opt_u32(d, "num_thread"@),
        num_predict: sp_opt_i32(d, "num_predict"@),
        stop: sp_opt_stop(d),
        temperature: run.temperature,
        repeat_penalty: run.repeat_penalty,
        top_k: run.top_k,
        top_p: run.top_p,
        repeat_last_n: run.repeat_last_n,
        tfs_z: run.tfs_z,
        mirostat: run.mirostat,
        mirostat_tau: run.mirostat_tau,
        mirostat_eta: run.mirostat_eta,
        seed: run.seed,
        system_prompt: run.system_prompt,
    }
}

/// Merge the default options with one run's mandatory parameters.
///
/// Recognized default keys are coerced to their targets; the first
/// uncoercible one aborts the merge with an error naming that key and its
/// target type; unknown keys are skipped; and every mandatory field is then
/// taken from the run, whatever the defaults held.
pub fn merge(base: &BaseConfig, run: &RunParameters) -> (r: Result<
    MergedOptions,
    ConfigCoercionError,
>)
    requires
        base.wf(),
    ensures
        match r {
            Ok(m) => sp_defaults_ok(base@.default_options) && sp_merged_from(m@, base@, run@),
            Err(e) => {
                &&& !sp_defaults_ok(base@.default_options)
                &&& 0 <= sp_first_bad(base@.default_options) < base@.default_options.len()
                &&& e.key@ == base@.default_options[sp_first_bad(base@.default_options)].key
                &&& Some(e.expected) == sp_key_target(e.key@)
            },
        },
{
    let ghost d = base@.default_options;
    let n = base.default_options.len();
    let mut num_ctx: Option<u32> = None;
    let mut num_gqa: Option<u32> = None;
    let mut num_gpu: Option<u32> = None;
    let mut num_thread: Option<u32> = None;
    let mut num_predict: Option<i32> = None;
    let mut stop: Option<Vec<String>> = None;
    let mut i: usize = 0;
    while i < n
        invariant
            i <= n,
            n == base.default_options@.len(),
            d == base@.default_options,
            d.len() == n,
            defaults_wf(d),
            forall|j: int| 0 <= j < d.len() ==> d[j] == base.default_options@[j]@,
            sp_defaults_ok(d.take(i as int)),
            num_ctx == sp_opt_u32(d.take(i as int), "num_ctx"@),
            num_gqa == sp_opt_u32(d.take(i as int), "num_gqa"@),
            num_gpu == sp_opt_u32(d.take(i as int), "num_gpu"@),
            num_thread == sp_opt_u32(d.take(i as int), "num_thread"@),
            num_predict == sp_opt_i32(d.take(i as int), "num_predict"@),
            (match stop {
                Some(v) => Some(v.deep_view()),
                None => None,
            }) == sp_opt_stop(d.take(i as int)),
        decreases n - i,
    {
        let entry = &base.default_options[i];
        let ghost e = d[i as int];
        proof {
            lemma_registry_keys_distinct();
            assert(e == entry@);
            assert(d.take(i as int + 1) =~= d.take(i as int).push(e));
            assert(forall|j: int| 0 <= j < i ==> d.take(i as int)[j] == d[j]);
            assert(forall|j: int| 0 <= j < i ==> (#[trigger] d.take(i as int)[j].key) != e.key);
            lemma_lookup_none(d.take(i as int), e.key);
            lemma_lookup_snoc(d.take(i as int), e, "num_ctx"@);
            lemma_lookup_snoc(d.take(i as int), e, "num_gqa"@);
            lemma_lookup_snoc(d.take(i as int), e, "num_gpu"@);
            lemma_lookup_snoc(d.take(i as int), e, "num_thread"@);
            lemma_lookup_snoc(d.take(i as int), e, "num_predict"@);
            lemma_lookup_snoc(d.take(i as int), e, "stop"@);
        }
        let kcs = str_to_chars(entry.key.as_str());
        if chars_eq_str(&kcs, "num_ctx") {
            match coerce_u32(&entry.value) {
                Some(x) => {
                    num_ctx = Some(x);
                },
                None => {
                    proof {
                        lemma_first_bad_at(d, i as int);
                    }
                    return Err(
                        ConfigCoercionError {
                            key: entry.key.clone(),
                            expected: TargetKind::Unsigned32,
                        },
                    );
                },
            }
        } else if chars_eq_str(&kcs, "num_gqa") {
            match coerce_u32(&entry.value) {
                Some(x) => {
                    num_gqa = Some(x);
                },
                None => {
                    proof {
                        lemma_first_bad_at(d, i as int);
                    }
                    return Err(
                        ConfigCoercionError {
                            key: entry.key.clone(),
                            expected: TargetKind::Unsigned32,
                        },
                    );
                },
            }
        } else if chars_eq_str(&kcs, "num_gpu") {
            match coerce_u32(&entry.value) {
                Some(x) => {
                    num_gpu = Some(x);
                },
                None => {
                    proof {
                        lemma_first_bad_at(d, i as int);
                    }
                    return Err(
                        ConfigCoercionError {
                            key: entry.key.clone(),
                            expected: TargetKind::Unsigned32,
                        },
                    );
                },
            }
        } else if chars_eq_str(&kcs, "num_thread") {
            match coerce_u32(&entry.value) {
                Some(x) => {
                    num_thread = Some(x);
                },
                None => {
                    proof {
                        lemma_first_bad_at(d, i as int);
                    }
                    return Err(
                        ConfigCoercionError {
                            key: entry.key.clone(),
                            expected: TargetKind::Unsigned32,
                        },
                    );
                },
            }
        } else if chars_eq_str(&kcs, "num_predict") {
            match coerce_i32(&entry.value) {
                Some(x) => {
                    num_predict = Some(x);
                },
                None => {
                    proof {
                        lemma_first_bad_at(d, i as int);
                    }
                    return Err(
                        ConfigCoercionError {
                            key: entry.key.clone(),
                            expected: TargetKind::Signed32,
                        },
                    );
                },
            }
        } else if chars_eq_str(&kcs, "stop") {
            let text = stop_text(&entry.value);
            let mut one: Vec<String> = Vec::new();
            one.push(chars_to_string(&text));
            proof {
                assert(one.deep_view() =~= seq![sp_stop_text(e.value)]);
            }
            stop = Some(one);
        } else if chars_eq_str(&kcs, "top_k") {
            if coerce_u32(&entry.value).is_none() {
                proof {
                    lemma_first_bad_at(d, i as int);
                }
                return Err(
                    ConfigCoercionError { key: entry.key.clone(), expected: TargetKind::Unsigned32 },
                );
            }
        } else if chars_eq_str(&kcs, "repeat_last_n") || chars_eq_str(&kcs, "seed") {
            if coerce_i32(&entry.value).is_none() {
                proof {
                    lemma_first_bad_at(d, i as int);
                }
                return Err(
                    ConfigCoercionError { key: entry.key.clone(), expected: TargetKind::Signed32 },
                );
            }
        } else if chars_eq_str(&kcs, "mirostat") {
            if coerce_u8(&entry.value).is_none() {
                proof {
                    lemma_first_bad_at(d, i as int);
                }
                return Err(
                    ConfigCoercionError { key: entry.key.clone(), expected: TargetKind::Unsigned8 },
                );
            }
        } else if chars_eq_str(&kcs, "temperature") || chars_eq_str(&kcs, "repeat_penalty")
            || chars_eq_str(&kcs, "top_p") || chars_eq_str(&kcs, "tfs_z") || chars_eq_str(
            &kcs,
            "mirostat_tau",
        ) || chars_eq_str(&kcs, "mirostat_eta") {
            if coerce_milli(&entry.value).is_none() {
                proof {
                    lemma_first_bad_at(d, i as int);
                }
                return Err(
                    ConfigCoercionError { key: entry.key.clone(), expected: TargetKind::FixedPoint },
                );
            }
        } else {
            // unknown key: skipped, never an error
            proof {
                assert(sp_key_target(e.key) is None);
            }
        }
        i = i + 1;
    }
    proof {
        assert(d.take(n as int) =~= d);
    }
    Ok(
        MergedOptions {
            num_ctx,
            num_gqa,
            num_gpu,
            num_thread,
            num_predict,
            stop,
            temperature: run.temperature,
            repeat_penalty: run.repeat_penalty,
            top_k: run.top_k,
            top_p: run.top_p,
            repeat_last_n: run.repeat_last_n,
            tfs_z: run.tfs_z,
            mirostat: run.mirostat,
            mirostat_tau: run.mirostat_tau,
            mirostat_eta: run.mirostat_eta,
            seed: run.seed,
            system_prompt: run.system_prompt.clone(),
        },
    )
}

} // verus!
