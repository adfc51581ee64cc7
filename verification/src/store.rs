//! The experiment store: an append-only, idempotent log of experiments
//! keyed by their stable run identifier. Creating, appending, listing
//! newest first, and deleting one identifier or all of them.
use vstd::prelude::*;

verus! {

use crate::chars::{chars_eq, str_to_chars};
use crate::codec::{
    appended_doc,
    contents_to_doc,
    doc_to_contents,
    enc_doc,
    lemma_doc_round_trip,
    sp_doc_full,
    ExperimentDoc,
    ExperimentDocV,
    InferenceRecord,
    InferenceRecordV,
};
use crate::clock::utc_now_string;
use crate::config::{BaseConfig, BaseConfigV, RunParameters, RunParametersV};
use crate::dispatch::{GenerationResult, GenerationResultV};
use crate::naming::{create_experiment_name, generated_name};

/// A listed experiment: what the surrounding layer shows of one row.
#[derive(Debug, Clone)]
pub struct ExperimentFile {
    pub name: String,
    pub created: String,
    pub contents: String,
}

pub ghost struct ExperimentFileV {
    pub name: Seq<char>,
    pub created: Seq<char>,
    pub contents: Seq<char>,
}

impl View for ExperimentFile {
    type V = ExperimentFileV;

    open spec fn view(&self) -> ExperimentFileV {
        ExperimentFileV { name: self.name@, created: self.created@, contents: self.contents@ }
    }
}

/// One persisted experiment row: a generated name, the serialized document,
/// the stable identifier, a favorite flag, and the creation timestamp. The
/// two optional fields are left unset until a database assigns them.
#[derive(Debug, Clone)]
pub struct Experiment {
    pub id: Option<i64>,
    pub name: String,
    pub contents: String,
    pub experiment_uuid: String,
    pub is_favorite: bool,
    pub created: String,
    pub date_created: Option<i64>,
}

pub ghost struct ExperimentV {
    pub id: Option<i64>,
    pub name: Seq<char>,
    pub contents: Seq<char>,
    pub experiment_uuid: Seq<char>,
    pub is_favorite: bool,
    pub created: Seq<char>,
    pub date_created: Option<i64>,
}

impl View for Experiment {
    type V = ExperimentV;

    open spec fn view(&self) -> ExperimentV {
        ExperimentV {
            id: self.id,
            name: self.name@,
            contents: self.contents@,
            experiment_uuid: self.experiment_uuid@,
            is_favorite: self.is_favorite,
            created: self.created@,
            date_created: self.date_created,
        }
    }
}

impl Experiment {
    /// Create a new experiment
    pub fn new(
        name: String,
        contents: String,
        experiment_uuid: String,
        created: String,
        is_favorite: bool,
    ) -> (r: Self)
        ensures
            r@ == (ExperimentV {
                id: None,
                name: name@,
                contents: contents@,
                experiment_uuid: experiment_uuid@,
                is_favorite: is_favorite,
                created: created@,
                date_created: None,
            }),
    {
        Self {
            id: None,  // Will be set by database on insertion
            name,
            contents,
            experiment_uuid,
            is_favorite,
            created,
            date_created: None,  // Will be set by database on insertion
        }
    }
}

/// Why a store operation failed.
#[derive(Debug, Clone)]
pub enum StoreError {
    /// The persistence backend could not read or write; raised by the
    /// surrounding layer that owns the backend, never by the in-memory
    /// store itself.
    Io(String),
    /// A persisted document could not be read back.
    Serialization(String),
}

/// The views of a sequence of experiment rows.
pub open spec fn rows_v(s: Seq<Experiment>) -> Seq<ExperimentV> {
    Seq::new(s.len(), |i: int| s[i]@)
}

/// A row is well formed when its contents read back as a document carrying
/// the row's own identifier.
pub open spec fn row_wf(r: ExperimentV) -> bool {
    match sp_doc_full(r.contents) {
        Some(d) => d.experiment_uuid == r.experiment_uuid,
        None => false,
    }
}

/// A store is well formed when identifiers are unique and every row is
/// well formed.
pub open spec fn store_wf(s: Seq<ExperimentV>) -> bool {
    &&& forall|i: int, j: int|
        0 <= i < j < s.len() ==> (#[trigger] s[i].experiment_uuid) != (
        #[trigger] s[j].experiment_uuid)
    &&& forall|i: int| 0 <= i < s.len() ==> row_wf(#[trigger] s[i])
}

/// The index of the row holding an identifier, or a negative value.
pub open spec fn uuid_index(s: Seq<ExperimentV>, u: Seq<char>) -> int
    decreases s.len(),
{
    if s.len() == 0 {
        -1
    } else if s[0].experiment_uuid == u {
        0
    } else {
        let r = uuid_index(s.skip(1), u);
        if r < 0 {
            -1
        } else {
            r + 1
        }
    }
}

pub proof fn lemma_uuid_index_at(s: Seq<ExperimentV>, u: Seq<char>, i: int)
    requires
        0 <= i < s.len(),
        s[i].experiment_uuid == u,
        forall|j: int| 0 <= j < i ==> (#[trigger] s[j]).experiment_uuid != u,
    ensures
        uuid_index(s, u) == i,
    decreases i,
{
    if i > 0 {
        let t = s.skip(1);
        assert(t[i - 1] == s[i]);
        assert(forall|j: int| 0 <= j < i - 1 ==> (#[trigger] t[j]) == s[j + 1]
            && s[j + 1].experiment_uuid != u);
        lemma_uuid_index_at(t, u, i - 1);
    }
}

pub proof fn lemma_uuid_index_none(s: Seq<ExperimentV>, u: Seq<char>)
    requires
        forall|j: int| 0 <= j < s.len() ==> (#[trigger] s[j]).experiment_uuid != u,
    ensures
        uuid_index(s, u) < 0,
    decreases s.len(),
{
    if s.len() > 0 {
        let t = s.skip(1);
        assert(forall|j: int| 0 <= j < t.len() ==> (#[trigger] t[j]) == s[j + 1]
            && s[j + 1].experiment_uuid != u);
        lemma_uuid_index_none(t, u);
    }
}

pub proof fn lemma_uuid_index_bounds(s: Seq<ExperimentV>, u: Seq<char>)
    ensures
        uuid_index(s, u) >= 0 ==> 0 <= uuid_index(s, u) < s.len() && s[uuid_index(
            s,
            u,
        )].experiment_uuid == u && (forall|j: int|
            0 <= j < uuid_index(s, u) ==> (#[trigger] s[j]).experiment_uuid != u),
        uuid_index(s, u) < 0 ==> forall|j: int|
            0 <= j < s.len() ==> (#[trigger] s[j]).experiment_uuid != u,
    decreases s.len(),
{
    if s.len() > 0 {
        let t = s.skip(1);
        lemma_uuid_index_bounds(t, u);
        assert(forall|j: int| 0 <= j < t.len() ==> (#[trigger] t[j]) == s[j + 1]);
        if s[0].experiment_uuid != u && uuid_index(t, u) < 0 {
            assert forall|j: int| 1 <= j < s.len() implies (#[trigger] s[j]).experiment_uuid
                != u by {
                assert(t[j - 1] == s[j]);
                assert(t[j - 1].experiment_uuid != u);
            }
        }
        if s[0].experiment_uuid != u && uuid_index(t, u) >= 0 {
            assert forall|j: int| 0 <= j < uuid_index(s, u) implies (
            #[trigger] s[j]).experiment_uuid != u by {
                if j > 0 {
                    assert(t[j - 1] == s[j]);
                    assert(t[j - 1].experiment_uuid != u);
                }
            }
        }
    }
}

/// The rows left after deleting one identifier.
pub open spec fn without_uuid(s: Seq<ExperimentV>, u: Seq<char>) -> Seq<ExperimentV>
    decreases s.len(),
{
    if s.len() == 0 {
        Seq::empty()
    } else if s[0].experiment_uuid == u {
        without_uuid(s.skip(1), u)
    } else {
        seq![s[0]] + without_uuid(s.skip(1), u)
    }
}

pub proof fn lemma_without_uuid_snoc(s: Seq<ExperimentV>, e: ExperimentV, u: Seq<char>)
    ensures
        without_uuid(s.push(e), u) == if e.experiment_uuid == u {
            without_uuid(s, u)
        } else {
            without_uuid(s, u) + seq![e]
        },
    decreases s.len(),
{
    if s.len() == 0 {
        assert(s.push(e)[0] == e);
        assert(s.push(e).skip(1) =~= Seq::<ExperimentV>::empty());
        assert(without_uuid(Seq::<ExperimentV>::empty(), u) == Seq::<ExperimentV>::empty());
        if e.experiment_uuid == u {
            assert(without_uuid(s.push(e), u) =~= without_uuid(s, u));
        } else {
            assert(without_uuid(s.push(e), u) =~= without_uuid(s, u) + seq![e]);
        }
    } else {
        assert(s.push(e)[0] == s[0]);
        assert(s.push(e).skip(1) =~= s.skip(1).push(e));
        lemma_without_uuid_snoc(s.skip(1), e, u);
        if s[0].experiment_uuid == u {
            assert(without_uuid(s.push(e), u) == without_uuid(s.skip(1).push(e), u));
            assert(without_uuid(s, u) == without_uuid(s.skip(1), u));
        } else {
            assert(without_uuid(s.push(e), u) == seq![s[0]] + without_uuid(s.skip(1).push(e), u));
            assert(without_uuid(s, u) == seq![s[0]] + without_uuid(s.skip(1), u));
        }
        if e.experiment_uuid == u {
            assert(without_uuid(s.push(e), u) =~= without_uuid(s, u));
        } else {
            assert(without_uuid(s.push(e), u) =~= without_uuid(s, u) + seq![e]);
        }
    }
}

/// Deleting an identifier that no row holds changes nothing: the missing
/// case of delete is a no-op.
pub proof fn lemma_delete_missing_is_noop(s: Seq<ExperimentV>, u: Seq<char>)
    requires
        forall|j: int| 0 <= j < s.len() ==> (#[trigger] s[j]).experiment_uuid != u,
    ensures
        without_uuid(s, u) == s,
    decreases s.len(),
{
    if s.len() > 0 {
        let t = s.skip(1);
        assert(forall|j: int| 0 <= j < t.len() ==> (#[trigger] t[j]) == s[j + 1]
            && s[j + 1].experiment_uuid != u);
        lemma_delete_missing_is_noop(t, u);
        assert(without_uuid(s, u) =~= s);
    }
}

/// Deleting preserves well-formedness, and invents no rows.
pub proof fn lemma_without_uuid_wf(s: Seq<ExperimentV>, u: Seq<char>)
    requires
        store_wf(s),
    ensures
        store_wf(without_uuid(s, u)),
        forall|x: ExperimentV| #[trigger] without_uuid(s, u).contains(x) ==> s.contains(x),
    decreases s.len(),
{
    if s.len() > 0 {
        let t = s.skip(1);
        assert(forall|j: int| 0 <= j < t.len() ==> (#[trigger] t[j]) == s[j + 1]);
        assert(store_wf(t));
        lemma_without_uuid_wf(t, u);
        let w1 = without_uuid(t, u);
        assert(forall|x: ExperimentV| #[trigger] t.contains(x) ==> s.contains(x)) by {
            assert forall|x: ExperimentV| #[trigger] t.contains(x) implies s.contains(x) by {
                let k = choose|k: int| 0 <= k < t.len() && t[k] == x;
                assert(s[k + 1] == x);
            }
        }
        if s[0].experiment_uuid == u {
        } else {
            let w = seq![s[0]] + w1;
            assert(w[0] == s[0]);
            assert(forall|j: int| 1 <= j < w.len() ==> (#[trigger] w[j]) == w1[j - 1]);
            assert forall|i: int, j: int|
                0 <= i < j < w.len() implies (#[trigger] w[i].experiment_uuid) != (
            #[trigger] w[j].experiment_uuid) by {
                if i == 0 {
                    let x = w1[j - 1];
                    assert(w1.contains(x));
                    assert(t.contains(x));
                    let k = choose|k: int| 0 <= k < t.len() && t[k] == x;
                    assert(s[k + 1] == x);
                    assert(s[0].experiment_uuid != s[k + 1].experiment_uuid);
                }
            }
            assert forall|i: int| 0 <= i < w.len() implies row_wf(#[trigger] w[i]) by {
                if i > 0 {
                    assert(w[i] == w1[i - 1]);
                }
            }
            assert forall|x: ExperimentV| #[trigger] w.contains(x) implies s.contains(x) by {
                let k = choose|k: int| 0 <= k < w.len() && w[k] == x;
                if k == 0 {
                    assert(s[0] == x);
                } else {
                    assert(w1.contains(x));
                }
            }
        }
    }
}

/// The fresh document written when an identifier is first logged.
pub open spec fn fresh_doc(
    now: Seq<char>,
    cfg: BaseConfigV,
    p: RunParametersV,
    g: GenerationResultV,
) -> ExperimentDocV {
    ExperimentDocV {
        experiment_uuid: p.experiment_uuid,
        datetime: now,
        config: cfg,
        inferences: seq![InferenceRecordV { parameters: p, result: g }],
    }
}

/// The fresh row created when an identifier is first logged.
pub open spec fn fresh_row(
    name: Seq<char>,
    now: Seq<char>,
    cfg: BaseConfigV,
    p: RunParametersV,
    g: GenerationResultV,
) -> ExperimentV {
    ExperimentV {
        id: None,
        name,
        contents: enc_doc(fresh_doc(now, cfg, p, g)),
        experiment_uuid: p.experiment_uuid,
        is_favorite: false,
        created: now,
        date_created: None,
    }
}

/// How one `log` call changes the rows: append to the one row holding the
/// identifier, or create one fresh row, under some generated name and some
/// creation time.
#[verifier::opaque]
pub open spec fn store_log_step(
    pre: Seq<ExperimentV>,
    post: Seq<ExperimentV>,
    cfg: BaseConfigV,
    p: RunParametersV,
    g: GenerationResultV,
) -> bool {
    let rec = InferenceRecordV { parameters: p, result: g };
    let idx = uuid_index(pre, p.experiment_uuid);
    if idx >= 0 {
        match sp_doc_full(pre[idx].contents) {
            Some(d) => {
                let d2 = appended_doc(d, rec);
                &&& post == pre.update(idx, ExperimentV { contents: enc_doc(d2), ..pre[idx] })
                &&& sp_doc_full(enc_doc(d2)) == Some(d2)
            },
            None => false,
        }
    } else {
        exists|name: Seq<char>, now: Seq<char>|
            {
                &&& generated_name(name)
                &&& post == pre.push(#[trigger] fresh_row(name, now, cfg, p, g))
                &&& sp_doc_full(enc_doc(fresh_doc(now, cfg, p, g))) == Some(
                    fresh_doc(now, cfg, p, g),
                )
            }
    }
}

/// Append one inference to an existing persisted document: the
/// read-then-write step a row-backed store performs on the contents
/// column. Fails exactly when the existing text is not a readable
/// document.
pub fn appended_contents(
    existing: &str,
    params: &RunParameters,
    result: &GenerationResult,
) -> (r: Result<String, StoreError>)
    ensures
        match r {
            Ok(c) => sp_doc_full(existing@) matches Some(d) && c@ == enc_doc(
                appended_doc(d, InferenceRecordV { parameters: params@, result: result@ }),
            ),
            Err(e) => sp_doc_full(existing@) is None && e matches StoreError::Serialization(_),
        },
{
    match contents_to_doc(existing) {
        None => Err(StoreError::Serialization(String::from_str("unreadable document"))),
        Some(mut doc) => {
            let ghost old_doc = sp_doc_full(existing@).unwrap();
            doc.inferences.push(
                InferenceRecord { parameters: params.cloned(), result: result.cloned() },
            );
            proof {
                assert(crate::codec::records_v(doc.inferences@) =~= old_doc.inferences.push(
                    (InferenceRecordV { parameters: params@, result: result@ }),
                ));
                assert(doc@ == appended_doc(
                    old_doc,
                    (InferenceRecordV { parameters: params@, result: result@ }),
                ));
            }
            Ok(doc_to_contents(&doc))
        },
    }
}

/// The inference sequence held under an identifier, empty when absent.
pub open spec fn inferences_under(s: Seq<ExperimentV>, u: Seq<char>) -> Seq<InferenceRecordV> {
    let idx = uuid_index(s, u);
    if idx >= 0 {
        match sp_doc_full(s[idx].contents) {
            Some(d) => d.inferences,
            None => Seq::empty(),
        }
    } else {
        Seq::empty()
    }
}

/// A first log of an identifier creates exactly one row for it, at the
/// end, holding that one inference.
pub proof fn lemma_log_step_creates(
    s0: Seq<ExperimentV>,
    s1: Seq<ExperimentV>,
    cfg: BaseConfigV,
    p: RunParametersV,
    g: GenerationResultV,
)
    requires
        uuid_index(s0, p.experiment_uuid) < 0,
        store_log_step(s0, s1, cfg, p, g),
    ensures
        s1.len() == s0.len() + 1,
        forall|j: int| 0 <= j < s0.len() ==> (#[trigger] s1[j]) == s0[j],
        uuid_index(s1, p.experiment_uuid) == s0.len(),
        inferences_under(s1, p.experiment_uuid) =~= seq![
            InferenceRecordV { parameters: p, result: g },
        ],
{
    reveal(store_log_step);
    let u = p.experiment_uuid;
    lemma_uuid_index_bounds(s0, u);
    let (name, now) = choose|name: Seq<char>, now: Seq<char>|
        {
            &&& generated_name(name)
            &&& s1 == s0.push(#[trigger] fresh_row(name, now, cfg, p, g))
            &&& sp_doc_full(enc_doc(fresh_doc(now, cfg, p, g))) == Some(
                fresh_doc(now, cfg, p, g),
            )
        };
    let idx = s0.len() as int;
    assert(s1[idx] == fresh_row(name, now, cfg, p, g));
    assert forall|j: int| 0 <= j < idx implies (#[trigger] s1[j]).experiment_uuid != u by {
        assert(s1[j] == s0[j]);
    }
    lemma_uuid_index_at(s1, u, idx);
    assert(sp_doc_full(s1[idx].contents) == Some(fresh_doc(now, cfg, p, g)));
}

/// A later log of an identifier already held appends exactly one inference
/// to that one row and touches nothing else.
pub proof fn lemma_log_step_appends(
    s1: Seq<ExperimentV>,
    s2: Seq<ExperimentV>,
    cfg: BaseConfigV,
    p: RunParametersV,
    g: GenerationResultV,
)
    requires
        uuid_index(s1, p.experiment_uuid) >= 0,
        store_log_step(s1, s2, cfg, p, g),
    ensures
        s2.len() == s1.len(),
        uuid_index(s2, p.experiment_uuid) == uuid_index(s1, p.experiment_uuid),
        forall|j: int| 0 <= j < s1.len() && j != uuid_index(s1, p.experiment_uuid) ==> (
        #[trigger] s2[j]) == s1[j],
        // only the document grows: the row keeps its identity
        s2[uuid_index(s1, p.experiment_uuid)].experiment_uuid == s1[uuid_index(
            s1,
            p.experiment_uuid,
        )].experiment_uuid,
        s2[uuid_index(s1, p.experiment_uuid)].name == s1[uuid_index(s1, p.experiment_uuid)].name,
        s2[uuid_index(s1, p.experiment_uuid)].created == s1[uuid_index(
            s1,
            p.experiment_uuid,
        )].created,
        s2[uuid_index(s1, p.experiment_uuid)].is_favorite == s1[uuid_index(
            s1,
            p.experiment_uuid,
        )].is_favorite,
        inferences_under(s2, p.experiment_uuid) =~= inferences_under(s1, p.experiment_uuid).push(
            InferenceRecordV { parameters: p, result: g },
        ),
{
    reveal(store_log_step);
    let u = p.experiment_uuid;
    let rec = InferenceRecordV { parameters: p, result: g };
    let idx = uuid_index(s1, u);
    lemma_uuid_index_bounds(s1, u);
    let d = sp_doc_full(s1[idx].contents).unwrap();
    let d2 = appended_doc(d, rec);
    assert(s2 == s1.update(idx, ExperimentV { contents: enc_doc(d2), ..s1[idx] }));
    assert(s2[idx].experiment_uuid == u);
    assert forall|j: int| 0 <= j < idx implies (#[trigger] s2[j]).experiment_uuid != u by {
        assert(s2[j] == s1[j]);
    }
    lemma_uuid_index_at(s2, u, idx);
    assert(sp_doc_full(s2[idx].contents) == Some(d2));
}

/// Logging the same identifier twice, starting from a store that does not
/// hold it, yields exactly one experiment for it — not two — holding the
/// two inferences in call order.
#[verifier::spinoff_prover]
#[verifier::rlimit(100)]
pub proof fn lemma_log_twice_one_experiment(
    s0: Seq<ExperimentV>,
    s1: Seq<ExperimentV>,
    s2: Seq<ExperimentV>,
    cfg1: BaseConfigV,
    cfg2: BaseConfigV,
    p1: RunParametersV,
    g1: GenerationResultV,
    p2: RunParametersV,
    g2: GenerationResultV,
)
    requires
        store_wf(s0),
        uuid_index(s0, p1.experiment_uuid) < 0,
        p2.experiment_uuid == p1.experiment_uuid,
        store_log_step(s0, s1, cfg1, p1, g1),
        store_log_step(s1, s2, cfg2, p2, g2),
    ensures
        s1.len() == s0.len() + 1,
        s2.len() == s0.len() + 1,
        uuid_index(s2, p1.experiment_uuid) == s0.len(),
        inferences_under(s2, p1.experiment_uuid) =~= seq![
            InferenceRecordV { parameters: p1, result: g1 },
            InferenceRecordV { parameters: p2, result: g2 },
        ],
{
    let u = p1.experiment_uuid;
    let rec1 = InferenceRecordV { parameters: p1, result: g1 };
    let rec2 = InferenceRecordV { parameters: p2, result: g2 };
    lemma_log_step_creates(s0, s1, cfg1, p1, g1);
    lemma_log_step_appends(s1, s2, cfg2, p2, g2);
    assert(inferences_under(s1, u) =~= seq![rec1]);
    assert(inferences_under(s2, u) =~= inferences_under(s1, u).push(rec2));
    assert(seq![rec1].push(rec2) =~= seq![rec1, rec2]);
}

/// What `list` shows of one row.
pub open spec fn file_of(r: ExperimentV) -> ExperimentFileV {
    ExperimentFileV { name: r.name, created: r.created, contents: r.contents }
}

/// The in-memory experiment store: rows in creation order, identifiers
/// unique.
#[derive(Debug)]
pub struct ExperimentStore {
    rows: Vec<Experiment>,
}

impl View for ExperimentStore {
    type V = Seq<ExperimentV>;

    closed spec fn view(&self) -> Seq<ExperimentV> {
        rows_v(self.rows@)
    }
}

impl ExperimentStore {
    /// An empty store.
    pub fn new() -> (r: Self)
        ensures
            r@ == Seq::<ExperimentV>::empty(),
            store_wf(r@),
    {
        let r = ExperimentStore { rows: Vec::new() };
        proof {
            assert(rows_v(r.rows@) =~= Seq::<ExperimentV>::empty());
        }
        r
    }

    /// The row holding an identifier, if any.
    fn find_row(&self, uuid: &String) -> (r: Option<usize>)
        ensures
            match r {
                Some(i) => 0 <= i < self@.len() && uuid_index(self@, uuid@) == i,
                None => uuid_index(self@, uuid@) < 0,
            },
    {
        let n = self.rows.len();
        let mut i: usize = 0;
        while i < n
            invariant
                i <= n,
                n == self.rows@.len(),
                forall|j: int| 0 <= j < i ==> (#[trigger] self.rows@[j])@.experiment_uuid != uuid@,
            decreases n - i,
        {
            if self.rows[i].experiment_uuid == *uuid {
                proof {
                    assert(self@[i as int] == self.rows@[i as int]@);
                    assert(forall|j: int| 0 <= j < i ==> (#[trigger] self@[j]).experiment_uuid
                        != uuid@);
                    lemma_uuid_index_at(self@, uuid@, i as int);
                }
                return Some(i);
            }
            i = i + 1;
        }
        proof {
            assert(forall|j: int| 0 <= j < self@.len() ==> (#[trigger] self@[j]).experiment_uuid
                != uuid@);
            lemma_uuid_index_none(self@, uuid@);
        }
        None
    }

    /// Idempotent append, keyed by the run identifier inside `params`.
    ///
    /// The first call for an identifier creates one row, under a generated
    /// three-word name and the current time, holding this one inference;
    /// every later call for the same identifier appends one inference to
    /// that same row's document and touches nothing else. The in-memory
    /// store itself never fails.
    pub fn log(
        &mut self,
        config: &BaseConfig,
        params: &RunParameters,
        result: &GenerationResult,
    ) -> (r: Result<(), StoreError>)
        requires
            store_wf(old(self)@),
        ensures
            r is Ok,
            store_wf(final(self)@),
            store_log_step(old(self)@, final(self)@, config@, params@, result@),
    {
        let record = InferenceRecord { parameters: params.cloned(), result: result.cloned() };
        match self.find_row(&params.experiment_uuid) {
            Some(i) => {
                proof {
                    lemma_uuid_index_bounds(self@, params.experiment_uuid@);
                }
                let row = &self.rows[i];
                let mut doc = match contents_to_doc(row.contents.as_str()) {
                    Some(d) => d,
                    None => {
                        // a well-formed store's contents always read back
                        proof {
                            assert(row_wf(self@[i as int]));
                            assert(false);
                        }
                        return Err(
                            StoreError::Serialization(String::from_str("unreadable document")),
                        );
                    },
                };
                doc.inferences.push(record);
                proof {
                    let old_doc = sp_doc_full(old(self)@[i as int].contents).unwrap();
                    assert(crate::codec::records_v(doc.inferences@) =~= old_doc.inferences.push(
                        (InferenceRecordV { parameters: params@, result: result@ }),
                    ));
                    assert(doc@ == appended_doc(
                        old_doc,
                        (InferenceRecordV { parameters: params@, result: result@ }),
                    ));
                }
                let new_contents = doc_to_contents(&doc);
                proof {
                    lemma_doc_round_trip(doc@);
                }
                let updated = Experiment {
                    id: row.id,
                    name: row.name.clone(),
                    contents: new_contents,
                    experiment_uuid: row.experiment_uuid.clone(),
                    is_favorite: row.is_favorite,
                    created: row.created.clone(),
                    date_created: row.date_created,
                };
                self.rows[i] = updated;
                proof {
                    let u = params.experiment_uuid@;
                    let idx = uuid_index(old(self)@, u);
                    let rec = InferenceRecordV { parameters: params@, result: result@ };
                    let d2 = appended_doc(sp_doc_full(old(self)@[idx].contents).unwrap(), rec);
                    assert(rows_v(self.rows@) =~= old(self)@.update(
                        idx,
                        ExperimentV { contents: enc_doc(d2), ..old(self)@[idx] },
                    ));
                    reveal(store_log_step);
                    assert(store_log_step(old(self)@, self@, config@, params@, result@));
                    assert forall|a: int, b: int| 0 <= a < b < self@.len() implies (
                    #[trigger] self@[a].experiment_uuid) != (#[trigger] self@[b].experiment_uuid) by {
                        assert(old(self)@[a].experiment_uuid == self@[a].experiment_uuid);
                        assert(old(self)@[b].experiment_uuid == self@[b].experiment_uuid);
                    }
                    assert forall|a: int| 0 <= a < self@.len() implies row_wf(
                        #[trigger] self@[a],
                    ) by {
                        if a != idx {
                            assert(self@[a] == old(self)@[a]);
                        }
                    }
                }
                Ok(())
            },
            None => {
                let name = create_experiment_name();
                let now = utc_now_string();
                let mut inferences: Vec<InferenceRecord> = Vec::new();
                inferences.push(record);
                let doc = ExperimentDoc {
                    experiment_uuid: params.experiment_uuid.clone(),
                    datetime: now.clone(),
                    config: config.cloned(),
                    inferences,
                };
                proof {
                    assert(crate::codec::records_v(doc.inferences@) =~= seq![
                        InferenceRecordV { parameters: params@, result: result@ },
                    ]);
                    assert(doc@ == fresh_doc(now@, config@, params@, result@));
                }
                let contents = doc_to_contents(&doc);
                proof {
                    lemma_doc_round_trip(doc@);
                }
                let row = Experiment::new(
                    name,
                    contents,
                    params.experiment_uuid.clone(),
                    now,
                    false,
                );
                self.rows.push(row);
                proof {
                    let u = params.experiment_uuid@;
                    let ghost namev = row@.name;
                    let ghost nowv = row@.created;
                    assert(row@ == fresh_row(namev, nowv, config@, params@, result@));
                    assert(rows_v(self.rows@) =~= old(self)@.push(
                        fresh_row(namev, nowv, config@, params@, result@),
                    ));
                    reveal(store_log_step);
                    assert(store_log_step(old(self)@, self@, config@, params@, result@));
                    lemma_uuid_index_bounds(old(self)@, u);
                    assert forall|a: int, b: int| 0 <= a < b < self@.len() implies (
                    #[trigger] self@[a].experiment_uuid) != (#[trigger] self@[b].experiment_uuid) by {
                        if b == self@.len() - 1 {
                            assert(self@[a] == old(self)@[a]);
                            assert(old(self)@[a].experiment_uuid != u);
                        } else {
                            assert(self@[a] == old(self)@[a]);
                            assert(self@[b] == old(self)@[b]);
                        }
                    }
                    assert forall|a: int| 0 <= a < self@.len() implies row_wf(
                        #[trigger] self@[a],
                    ) by {
                        if a < self@.len() - 1 {
                            assert(self@[a] == old(self)@[a]);
                        }
                    }
                }
                Ok(())
            },
        }
    }

    /// Every experiment, newest first.
    pub fn list(&self) -> (r: Vec<ExperimentFile>)
        ensures
            r@.len() == self@.len(),
            forall|i: int|
                0 <= i < r@.len() ==> (#[trigger] r@[i])@ == file_of(
                    self@[self@.len() - 1 - i],
                ),
    {
        let n = self.rows.len();
        let mut out: Vec<ExperimentFile> = Vec::new();
        let mut i: usize = 0;
        while i < n
            invariant
                i <= n,
                n == self.rows@.len(),
                out@.len() == i,
                forall|j: int|
                    0 <= j < i ==> (#[trigger] out@[j])@ == file_of(
                        rows_v(self.rows@)[n - 1 - j],
                    ),
            decreases n - i,
        {
            let row = &self.rows[n - 1 - i];
            out.push(
                ExperimentFile {
                    name: row.name.clone(),
                    created: row.created.clone(),
                    contents: row.contents.clone(),
                },
            );
            i = i + 1;
        }
        out
    }

    /// Delete one identifier, or every experiment with the wildcard `"*"`.
    ///
    /// Deleting an identifier that no row holds is a success that changes
    /// nothing.
    pub fn delete(&mut self, target: &str) -> (r: Result<(), StoreError>)
        requires
            store_wf(old(self)@),
        ensures
            r is Ok,
            store_wf(final(self)@),
            target@ == "*"@ ==> final(self)@ == Seq::<ExperimentV>::empty(),
            target@ != "*"@ ==> final(self)@ == without_uuid(old(self)@, target@),
    {
        let t = str_to_chars(target);
        if crate::chars::chars_eq_str(&t, "*") {
            self.rows.clear();
            proof {
                assert(rows_v(self.rows@) =~= Seq::<ExperimentV>::empty());
            }
            return Ok(());
        }
        let n = self.rows.len();
        let mut kept: Vec<Experiment> = Vec::new();
        let mut i: usize = 0;
        proof {
            assert(rows_v(kept@) =~= without_uuid(rows_v(self.rows@).take(0), target@));
        }
        while i < n
            invariant
                i <= n,
                n == self.rows@.len(),
                t@ == target@,
                rows_v(kept@) == without_uuid(rows_v(self.rows@).take(i as int), target@),
            decreases n - i,
        {
            let row = &self.rows[i];
            let ru = str_to_chars(row.experiment_uuid.as_str());
            let ghost pre_rows = rows_v(self.rows@);
            proof {
                assert(pre_rows.take(i as int).push(pre_rows[i as int]) =~= pre_rows.take(
                    i as int + 1,
                ));
                lemma_without_uuid_snoc(pre_rows.take(i as int), pre_rows[i as int], target@);
            }
            if !chars_eq(&ru, &t) {
                let ghost kv = rows_v(kept@);
                kept.push(
                    Experiment {
                        id: row.id,
                        name: row.name.clone(),
                        contents: row.contents.clone(),
                        experiment_uuid: row.experiment_uuid.clone(),
                        is_favorite: row.is_favorite,
                        created: row.created.clone(),
                        date_created: row.date_created,
                    },
                );
                proof {
                    assert(rows_v(kept@) =~= kv + seq![pre_rows[i as int]]);
                }
            }
            i = i + 1;
        }
        proof {
            assert(rows_v(self.rows@).take(n as int) =~= rows_v(self.rows@));
        }
        self.rows = kept;
        proof {
            lemma_without_uuid_wf(old(self)@, target@);
        }
        Ok(())
    }
}

} // verus!
