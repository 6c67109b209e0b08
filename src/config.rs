use vstd::prelude::*;
use vstd::string::StrSliceExecFns;
use crate::text::{strings_view, trimmed, trim_whitespace};

verus! {

#[verifier::external_type_specification]
#[verifier::external_body]
pub struct ExJsonValue(serde_json::Value);

/// Whether a text is a JSON document that the parser accepts.
pub uninterp spec fn json_parses(text: Seq<char>) -> bool;

/// The JSON value that the parser reads from a text it accepts.
pub uninterp spec fn parsed_json(text: Seq<char>) -> JsonValue;

/// Relies on serde_json::from_str into a dynamically typed value, handed over
/// as plain data: whether it succeeds, and what it reads, depend on the text
/// alone.
#[verifier::external_body]
fn parse_json(text: &str) -> (r: Option<JsonValue>)
    ensures
        r.is_some() == json_parses(text@),
        r.is_some() ==> r.unwrap() == parsed_json(text@),
{
    serde_json::from_str::<serde_json::Value>(text).ok().map(|v| plain_json(&v))
}

/// Converts serde_json::Value's variants, one for one, into plain data;
/// numbers by their text.
#[verifier::external_body]
fn plain_json(v: &serde_json::Value) -> (r: JsonValue) {
    match v {
        serde_json::Value::Null => JsonValue::Null,
        serde_json::Value::Bool(b) => JsonValue::Bool(*b),
        serde_json::Value::Number(n) => JsonValue::Number(n.to_string()),
        serde_json::Value::String(s) => JsonValue::Str(s.clone()),
        serde_json::Value::Array(a) => JsonValue::Array(a.iter().map(plain_json).collect()),
        serde_json::Value::Object(m) => JsonValue::Object(m.iter().map(|(k, x)| (k.clone(), plain_json(x))).collect()),
    }
}

/// An enrichment task specification: which analysis, and whether it runs.
pub struct MLTask {
    pub task_type: String,
    pub enabled: bool,
}

/// A selector specification: the tag selector and the attributes to capture.
pub struct TagConfig {
    pub name: String,
    pub attributes: Vec<String>,
}

/// What a run needs: the page to read, the selectors and the tasks.
pub struct Config {
    pub url: String,
    pub tags: Vec<TagConfig>,
    pub ml_tasks: Vec<MLTask>,
}

/// A JSON value as plain data; a number keeps its text.
pub enum JsonValue {
    Null,
    Bool(bool),
    Number(String),
    Str(String),
    Array(Vec<JsonValue>),
    Object(Vec<(String, JsonValue)>),
}

/// A configuration field that must be present with the right JSON type.
#[derive(Clone, Copy, Debug, PartialEq, Eq, Structural)]
pub enum ConfigField {
    Url,
    Tags,
    TagName,
    TagAttributes,
    Attribute,
    TaskType,
}

/// Why a configuration text was refused.
#[derive(Clone, Copy, Debug, PartialEq, Eq, Structural)]
pub enum ConfigError {
    /// The text is not JSON.
    InvalidJson,
    /// A required field is absent or of the wrong type.
    MissingField(ConfigField),
}

/// A selector specification as plain values.
pub type TagView = (Seq<char>, Seq<Seq<char>>);

/// A task specification as plain values.
pub type TaskView = (Seq<char>, bool);

/// A configuration as plain values: the url, the selectors and the tasks.
pub type ConfigView = (Seq<char>, Seq<TagView>, Seq<TaskView>);

pub open spec fn tag_view(t: TagConfig) -> TagView {
    (t.name@, strings_view(t.attributes@))
}

pub open spec fn task_view(t: MLTask) -> TaskView {
    (t.task_type@, t.enabled)
}

pub open spec fn config_view(c: Config) -> ConfigView {
    (
        c.url@,
        c.tags@.map_values(|t: TagConfig| tag_view(t)),
        c.ml_tasks@.map_values(|t: MLTask| task_view(t)),
    )
}

/// The value of the first entry named `key`.
pub open spec fn entry_lookup(entries: Seq<(String, JsonValue)>, key: Seq<char>) -> Option<JsonValue>
    decreases entries.len(),
{
    if entries.len() == 0 {
        None
    } else if entries[0].0@ == key {
        Some(entries[0].1)
    } else {
        entry_lookup(entries.subrange(1, entries.len() as int), key)
    }
}

/// The member `key` of an object; nothing for any other value.
pub open spec fn member(v: JsonValue, key: Seq<char>) -> Option<JsonValue> {
    match v {
        JsonValue::Object(entries) => entry_lookup(entries@, key),
        _ => None,
    }
}

pub open spec fn str_of(v: Option<JsonValue>) -> Option<Seq<char>> {
    match v {
        Some(JsonValue::Str(s)) => Some(s@),
        _ => None,
    }
}

pub open spec fn array_of(v: Option<JsonValue>) -> Option<Seq<JsonValue>> {
    match v {
        Some(JsonValue::Array(a)) => Some(a@),
        _ => None,
    }
}

pub open spec fn bool_of(v: Option<JsonValue>) -> Option<bool> {
    match v {
        Some(JsonValue::Bool(b)) => Some(b),
        _ => None,
    }
}

/// The strings of an array in order, or the error of its first non-string item.
pub open spec fn strings_result(items: Seq<JsonValue>) -> Result<Seq<Seq<char>>, ConfigError>
    decreases items.len(),
{
    if items.len() == 0 {
        Ok(Seq::empty())
    } else {
        match strings_result(items.drop_last()) {
            Err(e) => Err(e),
            Ok(prev) => match str_of(Some(items.last())) {
                Some(s) => Ok(prev.push(s)),
                None => Err(ConfigError::MissingField(ConfigField::Attribute)),
            },
        }
    }
}

/// One selector specification: a `name` string, then an `attributes` array of strings.
pub open spec fn tag_result(v: JsonValue) -> Result<TagView, ConfigError> {
    match str_of(member(v, "name"@)) {
        None => Err(ConfigError::MissingField(ConfigField::TagName)),
        Some(name) => match array_of(member(v, "attributes"@)) {
            None => Err(ConfigError::MissingField(ConfigField::TagAttributes)),
            Some(items) => match strings_result(items) {
                Err(e) => Err(e),
                Ok(attrs) => Ok((name, attrs)),
            },
        },
    }
}

/// The selector specifications in order, or the error of the first bad one.
pub open spec fn tags_result(items: Seq<JsonValue>) -> Result<Seq<TagView>, ConfigError>
    decreases items.len(),
{
    if items.len() == 0 {
        Ok(Seq::empty())
    } else {
        match tags_result(items.drop_last()) {
            Err(e) => Err(e),
            Ok(prev) => match tag_result(items.last()) {
                Err(e) => Err(e),
                Ok(t) => Ok(prev.push(t)),
            },
        }
    }
}

/// One task specification: a `type` string; `enabled` is false unless it is `true`.
pub open spec fn task_result(v: JsonValue) -> Result<TaskView, ConfigError> {
    match str_of(member(v, "type"@)) {
        None => Err(ConfigError::MissingField(ConfigField::TaskType)),
        Some(t) => Ok(
            (
                t,
                match bool_of(member(v, "enabled"@)) {
                    Some(b) => b,
                    None => false,
                },
            ),
        ),
    }
}

/// The task specifications in order, or the error of the first bad one.
pub open spec fn tasks_result(items: Seq<JsonValue>) -> Result<Seq<TaskView>, ConfigError>
    decreases items.len(),
{
    if items.len() == 0 {
        Ok(Seq::empty())
    } else {
        match tasks_result(items.drop_last()) {
            Err(e) => Err(e),
            Ok(prev) => match task_result(items.last()) {
                Err(e) => Err(e),
                Ok(t) => Ok(prev.push(t)),
            },
        }
    }
}

/// The configuration that a JSON document describes: a `url` string, a `tags`
/// array, and an optional `ml_tasks` array (none where it is absent).
pub open spec fn config_result(root: JsonValue) -> Result<ConfigView, ConfigError> {
    match str_of(member(root, "url"@)) {
        None => Err(ConfigError::MissingField(ConfigField::Url)),
        Some(url) => match array_of(member(root, "tags"@)) {
            None => Err(ConfigError::MissingField(ConfigField::Tags)),
            Some(tag_items) => match tags_result(tag_items) {
                Err(e) => Err(e),
                Ok(tags) => match tasks_result(
                    match array_of(member(root, "ml_tasks"@)) {
                        Some(a) => a,
                        None => Seq::empty(),
                    },
                ) {
                    Err(e) => Err(e),
                    Ok(tasks) => Ok((url, tags, tasks)),
                },
            },
        },
    }
}

/// Whether `r` is what the document `root` gives: its configuration, or its error.
pub open spec fn outcome_of(root: JsonValue, r: Result<Config, ConfigError>) -> bool {
    match r {
        Ok(c) => config_result(root) == Ok::<ConfigView, ConfigError>(config_view(c)),
        Err(e) => config_result(root) == Err::<ConfigView, ConfigError>(e),
    }
}

/// The member `key` of an object, if it has one.
pub fn json_member<'a>(v: &'a JsonValue, key: &str) -> (r: Option<&'a JsonValue>)
    ensures
        match r {
            Some(x) => member(*v, key@) == Some(*x),
            None => member(*v, key@).is_none(),
        },
{
    match v {
        JsonValue::Object(entries) => {
            let k = key.to_owned();
            let ghost es = entries@;
            assert(es.subrange(0, es.len() as int) =~= es);
            let mut i: usize = 0;
            while i < entries.len()
                invariant
                    0 <= i <= entries@.len(),
                    es == entries@,
                    k@ == key@,
                    member(*v, key@) == entry_lookup(es, key@),
                    entry_lookup(es.subrange(i as int, es.len() as int), key@) == entry_lookup(es, key@),
                decreases entries@.len() - i,
            {
                let ghost rest = es.subrange(i as int, es.len() as int);
                assert(rest[0] == es[i as int]);
                if entries[i].0 == k {
                    assert(entry_lookup(rest, key@) == Some(rest[0].1));
                    return Some(&entries[i].1);
                }
                assert(rest.subrange(1, rest.len() as int) =~= es.subrange(i + 1, es.len() as int));
                i = i + 1;
            }
            None
        },
        _ => None,
    }
}

pub open spec fn deref_opt(v: Option<&JsonValue>) -> Option<JsonValue> {
    match v {
        Some(x) => Some(*x),
        None => None,
    }
}

fn json_str(v: Option<&JsonValue>) -> (r: Option<String>)
    ensures
        match r {
            Some(s) => str_of(deref_opt(v)) == Some(s@),
            None => str_of(deref_opt(v)).is_none(),
        },
{
    match v {
        Some(JsonValue::Str(s)) => Some(s.clone()),
        _ => None,
    }
}

fn json_bool(v: Option<&JsonValue>) -> (r: Option<bool>)
    ensures
        r == bool_of(deref_opt(v)),
{
    match v {
        Some(JsonValue::Bool(b)) => Some(*b),
        _ => None,
    }
}

/// One selector specification from its JSON object.
pub fn tag_from_json(v: &JsonValue) -> (r: Result<TagConfig, ConfigError>)
    ensures
        match r {
            Ok(t) => tag_result(*v) == Ok::<TagView, ConfigError>(tag_view(t)),
            Err(e) => tag_result(*v) == Err::<TagView, ConfigError>(e) && e is MissingField,
        },
{
    proof {
        reveal_strlit("name");
        reveal_strlit("attributes");
    }
    let name = match json_str(json_member(v, "name")) {
        Some(n) => n,
        None => return Err(ConfigError::MissingField(ConfigField::TagName)),
    };
    let items = match json_member(v, "attributes") {
        Some(JsonValue::Array(a)) => a,
        _ => return Err(ConfigError::MissingField(ConfigField::TagAttributes)),
    };
    let mut attributes: Vec<String> = Vec::new();
    assert(items@.subrange(0, 0) =~= Seq::<JsonValue>::empty());
    assert(strings_view(attributes@) =~= Seq::<Seq<char>>::empty());
    let mut i: usize = 0;
    while i < items.len()
        invariant
            0 <= i <= items@.len(),
            str_of(member(*v, "name"@)) == Some(name@),
            array_of(member(*v, "attributes"@)) == Some(items@),
            strings_result(items@.subrange(0, i as int)) == Ok::<Seq<Seq<char>>, ConfigError>(
                strings_view(attributes@),
            ),
        decreases items@.len() - i,
    {
        assert(items@.subrange(0, i + 1).drop_last() =~= items@.subrange(0, i as int));
        assert(items@.subrange(0, i + 1).last() == items@[i as int]);
        match &items[i] {
            JsonValue::Str(s) => {
                let ghost prev = attributes@;
                attributes.push(s.clone());
                assert(strings_view(attributes@) =~= strings_view(prev).push(s@));
            },
            _ => {
                proof {
                    let pre = items@.subrange(0, i + 1);
                    assert(str_of(Some(pre.last())) is None);
                    assert(strings_result(pre) == Err::<Seq<Seq<char>>, ConfigError>(
                        ConfigError::MissingField(ConfigField::Attribute),
                    ));
                    lemma_strings_result_err_extends(items@, i as int + 1);
                }
                return Err(ConfigError::MissingField(ConfigField::Attribute));
            },
        }
        i = i + 1;
    }
    assert(items@.subrange(0, items@.len() as int) =~= items@);
    Ok(TagConfig { name, attributes })
}

/// An error on a prefix of an array stays the error of the whole array.
proof fn lemma_strings_result_err_extends(items: Seq<JsonValue>, n: int)
    requires
        0 <= n <= items.len(),
        strings_result(items.subrange(0, n)) is Err,
    ensures
        strings_result(items) == strings_result(items.subrange(0, n)),
    decreases items.len() - n,
{
    if n < items.len() {
        assert(items.subrange(0, n + 1).drop_last() =~= items.subrange(0, n));
        lemma_strings_result_err_extends(items, n + 1);
    } else {
        assert(items.subrange(0, n) =~= items);
    }
}

proof fn lemma_tags_result_err_extends(items: Seq<JsonValue>, n: int)
    requires
        0 <= n <= items.len(),
        tags_result(items.subrange(0, n)) is Err,
    ensures
        tags_result(items) == tags_result(items.subrange(0, n)),
    decreases items.len() - n,
{
    if n < items.len() {
        assert(items.subrange(0, n + 1).drop_last() =~= items.subrange(0, n));
        lemma_tags_result_err_extends(items, n + 1);
    } else {
        assert(items.subrange(0, n) =~= items);
    }
}

proof fn lemma_tasks_result_err_extends(items: Seq<JsonValue>, n: int)
    requires
        0 <= n <= items.len(),
        tasks_result(items.subrange(0, n)) is Err,
    ensures
        tasks_result(items) == tasks_result(items.subrange(0, n)),
    decreases items.len() - n,
{
    if n < items.len() {
        assert(items.subrange(0, n + 1).drop_last() =~= items.subrange(0, n));
        lemma_tasks_result_err_extends(items, n + 1);
    } else {
        assert(items.subrange(0, n) =~= items);
    }
}

/// One task specification from its JSON object.
pub fn task_from_json(v: &JsonValue) -> (r: Result<MLTask, ConfigError>)
    ensures
        match r {
            Ok(t) => task_result(*v) == Ok::<TaskView, ConfigError>(task_view(t)),
            Err(e) => task_result(*v) == Err::<TaskView, ConfigError>(e) && e is MissingField,
        },
{
    proof {
        reveal_strlit("type");
        reveal_strlit("enabled");
    }
    let task_type = match json_str(json_member(v, "type")) {
        Some(t) => t,
        None => return Err(ConfigError::MissingField(ConfigField::TaskType)),
    };
    let enabled = match json_bool(json_member(v, "enabled")) {
        Some(b) => b,
        None => false,
    };
    Ok(MLTask { task_type, enabled })
}

/// The configuration that a parsed JSON document describes.
pub fn config_from_json(root: &JsonValue) -> (r: Result<Config, ConfigError>)
    ensures
        match r {
            Ok(c) => config_result(*root) == Ok::<ConfigView, ConfigError>(config_view(c)),
            Err(e) => config_result(*root) == Err::<ConfigView, ConfigError>(e) && e is MissingField,
        },
{
    proof {
        reveal_strlit("url");
        reveal_strlit("tags");
        reveal_strlit("ml_tasks");
    }
    let url = match json_str(json_member(root, "url")) {
        Some(u) => u,
        None => return Err(ConfigError::MissingField(ConfigField::Url)),
    };
    let tag_items = match json_member(root, "tags") {
        Some(JsonValue::Array(a)) => a,
        _ => return Err(ConfigError::MissingField(ConfigField::Tags)),
    };
    let mut tags: Vec<TagConfig> = Vec::new();
    assert(tag_items@.subrange(0, 0) =~= Seq::<JsonValue>::empty());
    assert(tags@.map_values(|t: TagConfig| tag_view(t)) =~= Seq::<TagView>::empty());
    let mut i: usize = 0;
    while i < tag_items.len()
        invariant
            0 <= i <= tag_items@.len(),
            str_of(member(*root, "url"@)) == Some(url@),
            array_of(member(*root, "tags"@)) == Some(tag_items@),
            tags_result(tag_items@.subrange(0, i as int)) == Ok::<Seq<TagView>, ConfigError>(
                tags@.map_values(|t: TagConfig| tag_view(t)),
            ),
        decreases tag_items@.len() - i,
    {
        assert(tag_items@.subrange(0, i + 1).drop_last() =~= tag_items@.subrange(0, i as int));
        assert(tag_items@.subrange(0, i + 1).last() == tag_items@[i as int]);
        match tag_from_json(&tag_items[i]) {
            Ok(t) => {
                let ghost prev = tags@;
                tags.push(t);
                assert(tags@.map_values(|t: TagConfig| tag_view(t)) =~= prev.map_values(
                    |t: TagConfig| tag_view(t),
                ).push(tag_view(t)));
            },
            Err(e) => {
                proof {
                    lemma_tags_result_err_extends(tag_items@, i as int + 1);
                }
                return Err(e);
            },
        }
        i = i + 1;
    }
    assert(tag_items@.subrange(0, tag_items@.len() as int) =~= tag_items@);
    let empty: Vec<JsonValue> = Vec::new();
    let task_items = match json_member(root, "ml_tasks") {
        Some(JsonValue::Array(a)) => a,
        _ => &empty,
    };
    let mut ml_tasks: Vec<MLTask> = Vec::new();
    assert(task_items@.subrange(0, 0) =~= Seq::<JsonValue>::empty());
    assert(ml_tasks@.map_values(|t: MLTask| task_view(t)) =~= Seq::<TaskView>::empty());
    let mut j: usize = 0;
    while j < task_items.len()
        invariant
            0 <= j <= task_items@.len(),
            str_of(member(*root, "url"@)) == Some(url@),
            array_of(member(*root, "tags"@)) == Some(tag_items@),
            tags_result(tag_items@) == Ok::<Seq<TagView>, ConfigError>(
                tags@.map_values(|t: TagConfig| tag_view(t)),
            ),
            task_items@ == match array_of(member(*root, "ml_tasks"@)) {
                Some(a) => a,
                None => Seq::<JsonValue>::empty(),
            },
            tasks_result(task_items@.subrange(0, j as int)) == Ok::<Seq<TaskView>, ConfigError>(
                ml_tasks@.map_values(|t: MLTask| task_view(t)),
            ),
        decreases task_items@.len() - j,
    {
        assert(task_items@.subrange(0, j + 1).drop_last() =~= task_items@.subrange(0, j as int));
        assert(task_items@.subrange(0, j + 1).last() == task_items@[j as int]);
        match task_from_json(&task_items[j]) {
            Ok(t) => {
                let ghost prev = ml_tasks@;
                ml_tasks.push(t);
                assert(ml_tasks@.map_values(|t: MLTask| task_view(t)) =~= prev.map_values(
                    |t: MLTask| task_view(t),
                ).push(task_view(t)));
            },
            Err(e) => {
                proof {
                    lemma_tasks_result_err_extends(task_items@, j as int + 1);
                }
                return Err(e);
            },
        }
        j = j + 1;
    }
    assert(task_items@.subrange(0, task_items@.len() as int) =~= task_items@);
    Ok(Config { url, tags, ml_tasks })
}

/// The configuration in a JSON text: an error where the text is not JSON,
/// else what the parsed document describes.
pub fn parse_config(text: &str) -> (r: Result<Config, ConfigError>)
    ensures
        (r == Err::<Config, ConfigError>(ConfigError::InvalidJson)) == !json_parses(text@),
        json_parses(text@) ==> outcome_of(parsed_json(text@), r),
{
    match parse_json(text) {
        None => Err(ConfigError::InvalidJson),
        Some(root) => {
            let r = config_from_json(&root);
            assert(outcome_of(root, r));
            r
        },
    }
}

/// A string in lower case.
pub uninterp spec fn lowercased(s: Seq<char>) -> Seq<char>;

/// Relies on str::to_lowercase: the result depends on the characters alone.
#[verifier::external_body]
fn to_lower(s: &str) -> (r: String)
    ensures
        r@ == lowercased(s@),
{
    s.to_lowercase()
}

/// Whether an answer to a yes/no question is yes, in any case.
pub fn is_yes(answer: &str) -> (r: bool)
    ensures
        r == (lowercased(answer@) == "yes"@),
{
    to_lower(answer) == "yes".to_owned()
}

/// The pieces of `s` between occurrences of `sep`, in order; there is always
/// one more piece than there are separators.
pub open spec fn split_on(s: Seq<char>, sep: char) -> Seq<Seq<char>>
    decreases s.len(),
{
    if s.len() == 0 {
        seq![Seq::empty()]
    } else {
        let prev = split_on(s.drop_last(), sep);
        if s.last() == sep {
            prev.push(Seq::empty())
        } else {
            prev.update(prev.len() - 1, prev.last().push(s.last()))
        }
    }
}

/// The attribute names in a comma-separated list, each trimmed.
pub fn parse_attribute_list(line: &str) -> (r: Vec<String>)
    ensures
        strings_view(r@) == split_on(line@, ',').map_values(|p: Seq<char>| trimmed(p)),
{
    let n = line.unicode_len();
    let ghost s = line@;
    let ghost mut done: Seq<Seq<char>> = Seq::empty();
    let mut out: Vec<String> = Vec::new();
    let mut start: usize = 0;
    let mut i: usize = 0;
    assert(s.subrange(0, 0) =~= Seq::<char>::empty());
    while i < n
        invariant
            n == s.len(),
            s == line@,
            0 <= start <= i <= n,
            split_on(s.subrange(0, i as int), ',') == done.push(s.subrange(start as int, i as int)),
            strings_view(out@) == done.map_values(|p: Seq<char>| trimmed(p)),
        decreases n - i,
    {
        let c = line.get_char(i);
        let ghost pre = s.subrange(0, i + 1);
        assert(pre.drop_last() =~= s.subrange(0, i as int));
        assert(pre.last() == c);
        if c == ',' {
            let piece = line.substring_char(start, i).to_owned();
            let t = trim_whitespace(&piece);
            let ghost prev_out = out@;
            out.push(t);
            proof {
                assert(strings_view(out@) =~= strings_view(prev_out).push(t@));
                let nd = done.push(s.subrange(start as int, i as int));
                assert(nd.map_values(|p: Seq<char>| trimmed(p)) =~= done.map_values(
                    |p: Seq<char>| trimmed(p),
                ).push(trimmed(s.subrange(start as int, i as int))));
                done = nd;
                assert(s.subrange(i + 1, i + 1) =~= Seq::<char>::empty());
            }
            start = i + 1;
        } else {
            proof {
                assert(s.subrange(start as int, i + 1) =~= s.subrange(start as int, i as int).push(c));
                let d = done.push(s.subrange(start as int, i as int));
                assert(d.update(d.len() - 1, d.last().push(c)) =~= done.push(
                    s.subrange(start as int, i + 1),
                ));
            }
        }
        i = i + 1;
    }
    let piece = line.substring_char(start, n).to_owned();
    let t = trim_whitespace(&piece);
    let ghost prev_out = out@;
    out.push(t);
    proof {
        assert(s.subrange(0, n as int) =~= s);
        assert(strings_view(out@) =~= strings_view(prev_out).push(t@));
        let nd = done.push(s.subrange(start as int, n as int));
        assert(nd.map_values(|p: Seq<char>| trimmed(p)) =~= done.map_values(|p: Seq<char>| trimmed(p)).push(
            trimmed(s.subrange(start as int, n as int)),
        ));
    }
    out
}

/// The tasks that yes/no answers enable: sentiment analysis, then language
/// detection, each where its answer is yes.
pub fn tasks_from_answers(sentiment: &str, language: &str) -> (r: Vec<MLTask>)
    ensures
        r@.map_values(|t: MLTask| task_view(t)) == (if lowercased(sentiment@) == "yes"@ {
            seq![("sentiment_analysis"@, true)]
        } else {
            Seq::<TaskView>::empty()
        }) + (if lowercased(language@) == "yes"@ {
            seq![("language_detection"@, true)]
        } else {
            Seq::<TaskView>::empty()
        }),
{
    let mut tasks: Vec<MLTask> = Vec::new();
    let ghost mut first: Seq<TaskView> = Seq::empty();
    if is_yes(sentiment) {
        tasks.push(MLTask { task_type: "sentiment_analysis".to_owned(), enabled: true });
        proof {
            first = seq![("sentiment_analysis"@, true)];
        }
    }
    assert(tasks@.map_values(|t: MLTask| task_view(t)) =~= first);
    if is_yes(language) {
        let ghost prev = tasks@;
        tasks.push(MLTask { task_type: "language_detection".to_owned(), enabled: true });
        assert(tasks@.map_values(|t: MLTask| task_view(t)) =~= prev.map_values(|t: MLTask| task_view(t)).push(
            ("language_detection"@, true),
        ));
    }
    assert(tasks@.map_values(|t: MLTask| task_view(t)) =~= first + (if lowercased(language@) == "yes"@ {
        seq![("language_detection"@, true)]
    } else {
        Seq::<TaskView>::empty()
    }));
    tasks
}

} // verus!
