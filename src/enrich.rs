use vstd::prelude::*;
use crate::config::{MLTask, TaskView};
use crate::record::{Record, copy_record};
use crate::text::{joined, strings_view, join_with};
use crate::extract::all_wf;

verus! {

/// The language that the detector names for a text, if it names one.
pub uninterp spec fn detected_language(text: Seq<char>) -> Option<Seq<char>>;

/// Relies on whatlang::detect, with the detected language's name as
/// `Lang` displays it: the outcome depends on the text alone.
#[verifier::external_body]
fn detect_language(text: &String) -> (r: Option<String>)
    ensures
        match r {
            Some(v) => detected_language(text@) == Some(v@),
            None => detected_language(text@).is_none(),
        },
{
    whatlang::detect(text).map(|info| info.lang().to_string())
}

/// The analysis that a task specification asks for.
#[derive(Clone, Copy, Debug, PartialEq, Eq, Structural)]
pub enum TaskKind {
    SentimentAnalysis,
    EntityRecognition,
    LanguageDetection,
    /// A task type this library does not know; it does nothing.
    Unknown,
}

/// The kind that a task type string names.
pub open spec fn kind_of(task_type: Seq<char>) -> TaskKind {
    if task_type == "sentiment_analysis"@ {
        TaskKind::SentimentAnalysis
    } else if task_type == "entity_recognition"@ {
        TaskKind::EntityRecognition
    } else if task_type == "language_detection"@ {
        TaskKind::LanguageDetection
    } else {
        TaskKind::Unknown
    }
}

/// The field under which a task's result is stored.
pub open spec fn output_key(kind: TaskKind) -> Seq<char> {
    match kind {
        TaskKind::SentimentAnalysis => "sentiment"@,
        TaskKind::EntityRecognition => "entities"@,
        TaskKind::LanguageDetection => "language"@,
        TaskKind::Unknown => Seq::empty(),
    }
}

pub open spec fn sentiment_value_of(outcome: Option<Seq<char>>) -> Seq<char> {
    match outcome {
        Some(label) => label,
        None => "unknown"@,
    }
}

pub open spec fn entities_value_of(outcome: Option<Seq<Seq<char>>>) -> Seq<char> {
    match outcome {
        Some(spans) => joined(spans, ", "@),
        None => Seq::empty(),
    }
}

pub open spec fn language_value_of(outcome: Option<Seq<char>>) -> Seq<char> {
    match outcome {
        Some(name) => name,
        None => "unknown"@,
    }
}

pub open spec fn opt_view(o: Option<String>) -> Option<Seq<char>> {
    match o {
        Some(s) => Some(s@),
        None => None,
    }
}

pub open spec fn opt_strings_view(o: Option<Vec<String>>) -> Option<Seq<Seq<char>>> {
    match o {
        Some(v) => Some(strings_view(v@)),
        None => None,
    }
}

/// Whether `value` is what a task of `kind` stores for `text`, where the
/// sentiment and entity handlers may return any of their outcomes.
pub open spec fn task_value<S, E>(kind: TaskKind, text: Seq<char>, value: Seq<char>, sentiment: S, entities: E) -> bool where
    S: Fn(&String) -> Option<String>,
    E: Fn(&String) -> Option<Vec<String>>,
 {
    match kind {
        TaskKind::SentimentAnalysis => exists|t: &String, o: Option<String>|
            t@ == text && sentiment.ensures((t,), o) && value == sentiment_value_of(opt_view(o)),
        TaskKind::EntityRecognition => exists|t: &String, o: Option<Vec<String>>|
            t@ == text && entities.ensures((t,), o) && value == entities_value_of(opt_strings_view(o)),
        TaskKind::LanguageDetection => value == language_value_of(detected_language(text)),
        TaskKind::Unknown => true,
    }
}

/// Whether a task changes a record: it runs, is of a known kind, and the
/// record has a text.
pub open spec fn task_applies(rec: Map<Seq<char>, Seq<char>>, task: TaskView) -> bool {
    task.1 && kind_of(task.0) != TaskKind::Unknown && rec.contains_key("text"@)
}

/// Whether a later specification of the same task type disables task `j`:
/// the last specification of a task type decides whether it runs.
pub open spec fn cancelled(tasks: Seq<MLTask>, j: int) -> bool {
    exists|k: int|
        j < k < tasks.len() && (#[trigger] tasks[k]).task_type@ == tasks[j].task_type@ && !tasks[k].enabled
}

/// The tasks as they run: each enabled unless it is disabled or cancelled.
pub open spec fn effective(tasks: Seq<MLTask>) -> Seq<TaskView> {
    Seq::new(tasks.len(), |j: int| (tasks[j].task_type@, tasks[j].enabled && !cancelled(tasks, j)))
}

/// A record after the tasks, in order, where `values[j]` is what task `j` stores.
pub open spec fn apply_tasks(rec: Map<Seq<char>, Seq<char>>, tasks: Seq<TaskView>, values: Seq<Seq<char>>) -> Map<
    Seq<char>,
    Seq<char>,
>
    decreases tasks.len(),
{
    if tasks.len() == 0 {
        rec
    } else {
        let prev = apply_tasks(rec, tasks.drop_last(), values);
        let task = tasks.last();
        if task_applies(rec, task) {
            prev.insert(output_key(kind_of(task.0)), values[tasks.len() - 1])
        } else {
            prev
        }
    }
}

/// Whether `out` is `rec` enriched by `tasks` as they run, with each applying
/// task's value coming from its handler on the record's text.
pub open spec fn enriched_by<S, E>(
    rec: Map<Seq<char>, Seq<char>>,
    tasks: Seq<MLTask>,
    out: Map<Seq<char>, Seq<char>>,
    sentiment: S,
    entities: E,
) -> bool where S: Fn(&String) -> Option<String>, E: Fn(&String) -> Option<Vec<String>> {
    exists|values: Seq<Seq<char>>| #[trigger] enriched_with(rec, effective(tasks), values, out, sentiment, entities)
}

/// Whether `out` is `rec` after the running tasks, with the values `values`,
/// each of which its handler gave for the record's text.
pub open spec fn enriched_with<S, E>(
    rec: Map<Seq<char>, Seq<char>>,
    tasks: Seq<TaskView>,
    values: Seq<Seq<char>>,
    out: Map<Seq<char>, Seq<char>>,
    sentiment: S,
    entities: E,
) -> bool where S: Fn(&String) -> Option<String>, E: Fn(&String) -> Option<Vec<String>> {
    values.len() == tasks.len() && out == apply_tasks(rec, tasks, values) && forall|j: int|
        0 <= j < tasks.len() && task_applies(rec, #[trigger] tasks[j]) ==> task_value(
            kind_of(tasks[j].0),
            rec["text"@],
            values[j],
            sentiment,
            entities,
        )
}

/// Whether a handler may be called on every text.
pub open spec fn callable_on_any_text<F, R>(f: F) -> bool where F: Fn(&String) -> R {
    forall|t: &String| #[trigger] f.requires((t,))
}

/// The kind that a task type string names; unknown strings give `Unknown`.
pub fn task_kind(task_type: &String) -> (r: TaskKind)
    ensures
        r == kind_of(task_type@),
{
    if *task_type == "sentiment_analysis".to_owned() {
        TaskKind::SentimentAnalysis
    } else if *task_type == "entity_recognition".to_owned() {
        TaskKind::EntityRecognition
    } else if *task_type == "language_detection".to_owned() {
        TaskKind::LanguageDetection
    } else {
        TaskKind::Unknown
    }
}

/// The field under which a task's result is stored.
pub fn output_field(kind: TaskKind) -> (r: String)
    ensures
        r@ == output_key(kind),
{
    match kind {
        TaskKind::SentimentAnalysis => "sentiment".to_owned(),
        TaskKind::EntityRecognition => "entities".to_owned(),
        TaskKind::LanguageDetection => "language".to_owned(),
        TaskKind::Unknown => String::new(),
    }
}

/// The stored sentiment: the label, or `"unknown"` where the handler failed.
pub fn sentiment_value(outcome: Option<String>) -> (r: String)
    ensures
        r@ == sentiment_value_of(opt_view(outcome)),
{
    match outcome {
        Some(label) => label,
        None => "unknown".to_owned(),
    }
}

/// The stored entities: the spans joined by `", "`, or empty where the
/// handler failed.
pub fn entities_value(outcome: Option<Vec<String>>) -> (r: String)
    ensures
        r@ == entities_value_of(opt_strings_view(outcome)),
{
    match outcome {
        Some(spans) => join_with(&spans, ", "),
        None => String::new(),
    }
}

/// The stored language: its name, or `"unknown"` where none was detected.
pub fn language_value(outcome: Option<String>) -> (r: String)
    ensures
        r@ == language_value_of(opt_view(outcome)),
{
    match outcome {
        Some(name) => name,
        None => "unknown".to_owned(),
    }
}

/// Runs the task of `kind` on `text` and returns the value to store.
pub fn run_task<S, E>(kind: TaskKind, text: &String, sentiment: &S, entities: &E) -> (r: String) where
    S: Fn(&String) -> Option<String>,
    E: Fn(&String) -> Option<Vec<String>>,

    requires
        callable_on_any_text(*sentiment),
        callable_on_any_text(*entities),
    ensures
        task_value(kind, text@, r@, *sentiment, *entities),
{
    match kind {
        TaskKind::SentimentAnalysis => {
            let o = sentiment(text);
            let r = sentiment_value(o);
            assert(sentiment.ensures((text,), o));
            r
        },
        TaskKind::EntityRecognition => {
            let o = entities(text);
            let r = entities_value(o);
            assert(entities.ensures((text,), o));
            r
        },
        TaskKind::LanguageDetection => language_value(detect_language(text)),
        TaskKind::Unknown => String::new(),
    }
}

/// One record enriched by the tasks: each task of a known kind that runs, in
/// order, stores its value under its own field where the record has a text. A
/// task runs where it is enabled and no later specification of its type is
/// disabled.
pub fn enrich_record<S, E>(record: &Record, ml_tasks: &[MLTask], sentiment: &S, entities: &E) -> (r: Record) where
    S: Fn(&String) -> Option<String>,
    E: Fn(&String) -> Option<Vec<String>>,

    requires
        record.wf(),
        callable_on_any_text(*sentiment),
        callable_on_any_text(*entities),
    ensures
        r.wf(),
        enriched_by(record@, ml_tasks@, r@, *sentiment, *entities),
{
    let mut out = copy_record(record);
    let text = record.get("text");
    proof {
        reveal_strlit("text");
    }
    let ghost eff = effective(ml_tasks@);
    let ghost mut values: Seq<Seq<char>> = Seq::empty();
    let mut j: usize = 0;
    while j < ml_tasks.len()
        invariant
            0 <= j <= ml_tasks@.len(),
            callable_on_any_text(*sentiment),
            callable_on_any_text(*entities),
            record.wf(),
            out.wf(),
            values.len() == j,
            match text {
                Some(t) => record@.contains_key("text"@) && t@ == record@["text"@],
                None => !record@.contains_key("text"@),
            },
            eff == effective(ml_tasks@),
            out@ == apply_tasks(record@, eff.subrange(0, j as int), values),
            forall|i: int|
                0 <= i < j && task_applies(record@, #[trigger] eff[i]) ==> task_value(
                    kind_of(eff[i].0),
                    record@["text"@],
                    values[i],
                    *sentiment,
                    *entities,
                ),
        decreases ml_tasks@.len() - j,
    {
        let ghost before = values;
        let ghost tasks_j = eff.subrange(0, j + 1);
        assert(tasks_j.drop_last() =~= eff.subrange(0, j as int));
        let kind = task_kind(&ml_tasks[j].task_type);
        let runs = ml_tasks[j].enabled && !cancelled_later(ml_tasks, j);
        let mut v = String::new();
        if runs {
            match &text {
                Some(t) => {
                    if kind != TaskKind::Unknown {
                        v = run_task(kind, t, sentiment, entities);
                        out.insert(output_field(kind), v.clone());
                    }
                },
                None => {},
            }
        }
        proof {
            values = before.push(v@);
            assert(values.subrange(0, j as int) =~= before.subrange(0, j as int));
            lemma_apply_tasks_prefix(record@, eff.subrange(0, j as int), values, before);
            assert(tasks_j.last() == eff[j as int]);
        }
        j = j + 1;
    }
    assert(eff.subrange(0, ml_tasks@.len() as int) =~= eff);
    assert(enriched_with(record@, eff, values, out@, *sentiment, *entities));
    out
}

/// Whether a later specification of the same task type as task `j` is disabled.
pub fn cancelled_later(tasks: &[MLTask], j: usize) -> (r: bool)
    requires
        j < tasks@.len(),
    ensures
        r == cancelled(tasks@, j as int),
{
    let mut k: usize = j;
    while k < tasks.len()
        invariant
            j <= k <= tasks@.len(),
            forall|m: int|
                j < m < k ==> !((#[trigger] tasks@[m]).task_type@ == tasks@[j as int].task_type@
                    && !tasks@[m].enabled),
        decreases tasks@.len() - k,
    {
        if k > j && !tasks[k].enabled && tasks[k].task_type == tasks[j].task_type {
            return true;
        }
        k = k + 1;
    }
    false
}

/// `apply_tasks` reads only the values of the tasks it is given.
pub proof fn lemma_apply_tasks_prefix(
    rec: Map<Seq<char>, Seq<char>>,
    tasks: Seq<TaskView>,
    v1: Seq<Seq<char>>,
    v2: Seq<Seq<char>>,
)
    requires
        v1.len() >= tasks.len(),
        v2.len() >= tasks.len(),
        v1.subrange(0, tasks.len() as int) == v2.subrange(0, tasks.len() as int),
    ensures
        apply_tasks(rec, tasks, v1) == apply_tasks(rec, tasks, v2),
    decreases tasks.len(),
{
    if tasks.len() > 0 {
        let n = tasks.len() as int;
        assert(v1.subrange(0, n - 1) =~= v1.subrange(0, n).subrange(0, n - 1));
        assert(v2.subrange(0, n - 1) =~= v2.subrange(0, n).subrange(0, n - 1));
        assert(v1[n - 1] == v1.subrange(0, n)[n - 1]);
        assert(v2[n - 1] == v2.subrange(0, n)[n - 1]);
        lemma_apply_tasks_prefix(rec, tasks.drop_last(), v1, v2);
    }
}

/// Every record enriched by the tasks, in order: one output record for each
/// input record.
pub fn process_with_ml<S, E>(data: &[Record], ml_tasks: &[MLTask], sentiment: &S, entities: &E) -> (r: Vec<
    Record,
>) where S: Fn(&String) -> Option<String>, E: Fn(&String) -> Option<Vec<String>>
    requires
        all_wf(data@),
        callable_on_any_text(*sentiment),
        callable_on_any_text(*entities),
    ensures
        r@.len() == data@.len(),
        all_wf(r@),
        forall|i: int|
            0 <= i < data@.len() ==> enriched_by(
                #[trigger] data@[i]@,
                ml_tasks@,
                r@[i]@,
                *sentiment,
                *entities,
            ),
{
    let mut out: Vec<Record> = Vec::new();
    let mut i: usize = 0;
    while i < data.len()
        invariant
            0 <= i <= data@.len(),
            out@.len() == i,
            callable_on_any_text(*sentiment),
            callable_on_any_text(*entities),
            all_wf(data@),
            all_wf(out@),
            forall|k: int|
                0 <= k < i ==> enriched_by(
                    #[trigger] data@[k]@,
                    ml_tasks@,
                    out@[k]@,
                    *sentiment,
                    *entities,
                ),
        decreases data@.len() - i,
    {
        let rec = enrich_record(&data[i], ml_tasks, sentiment, entities);
        out.push(rec);
        i = i + 1;
    }
    out
}

/// Tasks that all do not run leave a record as it is.
pub proof fn lemma_apply_disabled(rec: Map<Seq<char>, Seq<char>>, tasks: Seq<TaskView>, values: Seq<Seq<char>>)
    requires
        forall|j: int| 0 <= j < tasks.len() ==> !(#[trigger] tasks[j]).1,
    ensures
        apply_tasks(rec, tasks, values) == rec,
    decreases tasks.len(),
{
    if tasks.len() > 0 {
        let d = tasks.drop_last();
        assert forall|j: int| 0 <= j < d.len() implies !(#[trigger] d[j]).1 by {
            assert(d[j] == tasks[j]);
        }
        lemma_apply_disabled(rec, d, values);
    }
}

/// Enrichment with only disabled task specifications is the identity on records.
pub proof fn lemma_all_disabled_is_identity<S, E>(
    rec: Map<Seq<char>, Seq<char>>,
    tasks: Seq<MLTask>,
    out: Map<Seq<char>, Seq<char>>,
    sentiment: S,
    entities: E,
) where S: Fn(&String) -> Option<String>, E: Fn(&String) -> Option<Vec<String>>
    requires
        forall|j: int| 0 <= j < tasks.len() ==> !(#[trigger] tasks[j]).enabled,
        enriched_by(rec, tasks, out, sentiment, entities),
    ensures
        out == rec,
{
    let eff = effective(tasks);
    let values = choose|values: Seq<Seq<char>>| #[trigger] enriched_with(rec, eff, values, out, sentiment, entities);
    assert forall|j: int| 0 <= j < eff.len() implies !(#[trigger] eff[j]).1 by {
        assert(!tasks[j].enabled);
    }
    lemma_apply_disabled(rec, eff, values);
}

/// A task type enabled and then disabled does not run: its field is not added,
/// and the record is left as it is.
pub proof fn lemma_disabled_repeat_adds_nothing<S, E>(
    rec: Map<Seq<char>, Seq<char>>,
    first: MLTask,
    second: MLTask,
    out: Map<Seq<char>, Seq<char>>,
    sentiment: S,
    entities: E,
) where S: Fn(&String) -> Option<String>, E: Fn(&String) -> Option<Vec<String>>
    requires
        first.task_type@ == second.task_type@,
        first.enabled,
        !second.enabled,
        enriched_by(rec, seq![first, second], out, sentiment, entities),
    ensures
        out == rec,
{
    let tasks = seq![first, second];
    let eff = effective(tasks);
    let values = choose|values: Seq<Seq<char>>| #[trigger] enriched_with(rec, eff, values, out, sentiment, entities);
    assert(tasks[1] == second);
    assert(cancelled(tasks, 0));
    assert forall|j: int| 0 <= j < eff.len() implies !(#[trigger] eff[j]).1 by {
        if j == 0 {
            assert(cancelled(tasks, 0));
        } else {
            assert(!tasks[1].enabled);
        }
    }
    lemma_apply_disabled(rec, eff, values);
}

/// Enrichment keeps every field other than the tasks' own output fields, with
/// its value, and never removes a field.
pub proof fn lemma_enrichment_keeps_other_fields(
    rec: Map<Seq<char>, Seq<char>>,
    tasks: Seq<TaskView>,
    values: Seq<Seq<char>>,
    key: Seq<char>,
)
    requires
        key != "sentiment"@,
        key != "entities"@,
        key != "language"@,
    ensures
        apply_tasks(rec, tasks, values).contains_key(key) == rec.contains_key(key),
        rec.contains_key(key) ==> apply_tasks(rec, tasks, values)[key] == rec[key],
        rec.dom().subset_of(apply_tasks(rec, tasks, values).dom()),
    decreases tasks.len(),
{
    if tasks.len() > 0 {
        lemma_enrichment_keeps_other_fields(rec, tasks.drop_last(), values, key);
        assert forall|k: Seq<char>| rec.dom().contains(k) implies #[trigger] apply_tasks(rec, tasks, values).dom().contains(k) by {
            lemma_enrichment_keeps_domain(rec, tasks, values, k);
        }
    }
}

proof fn lemma_enrichment_keeps_domain(
    rec: Map<Seq<char>, Seq<char>>,
    tasks: Seq<TaskView>,
    values: Seq<Seq<char>>,
    key: Seq<char>,
)
    requires
        rec.contains_key(key),
    ensures
        apply_tasks(rec, tasks, values).contains_key(key),
    decreases tasks.len(),
{
    if tasks.len() > 0 {
        lemma_enrichment_keeps_domain(rec, tasks.drop_last(), values, key);
    }
}

} // verus!
