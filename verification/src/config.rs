//! The client's configuration: models, preset prompts, defaults and history
//! settings, and the checks that a loaded configuration must pass.
use vstd::prelude::*;

use crate::text::{is_blank, is_blank_seq, text_eq};
use crate::thinking::Delimiter;

verus! {

/// The `[defaults]` table.
#[derive(Debug, Clone)]
pub struct Defaults {
    pub model: String,
    pub prompt: String,
    pub minimal: Option<bool>,
    pub strip_thinking: Option<bool>,
    pub thinking_delimiters: Vec<Delimiter>,
}

/// One `[prompts.NAME]` table.
#[derive(Debug, Clone)]
pub struct PresetConfig {
    pub text: String,
}

/// The `[history]` table.
#[derive(Debug, Clone)]
pub struct HistoryConfig {
    pub enabled: Option<bool>,
    pub max_entries: Option<usize>,
}

/// One `[models.NAME]` table.
#[derive(Debug, Clone)]
pub struct ModelConfig {
    pub endpoint: String,
    pub model: String,
    pub system_prompt: Option<String>,
    pub api_key: Option<String>,
    pub api_key_command: Option<String>,
    pub options: Option<String>,
    pub strip_thinking: Option<bool>,
    pub thinking_delimiters: Vec<Delimiter>,
}

/// The whole configuration. Models and preset prompts are kept with their
/// names, in the order in which the caller lists them. They come from the
/// tables of a configuration file, so each name occurs once
/// (`names_distinct`); a name is looked up by its first occurrence, which is
/// then the only one.
#[derive(Debug, Clone)]
pub struct Config {
    pub defaults: Defaults,
    pub models: Vec<(String, ModelConfig)>,
    pub prompts: Vec<(String, PresetConfig)>,
    pub history: HistoryConfig,
}

/// The first position from `i` on at which `names` holds `name`.
pub open spec fn position_from(names: Seq<Seq<char>>, name: Seq<char>, i: int) -> Option<int>
    decreases names.len() - i,
{
    if i < 0 || i >= names.len() {
        None
    } else if names[i] == name {
        Some(i)
    } else {
        position_from(names, name, i + 1)
    }
}

/// A position found is a position of the sequence.
pub proof fn lemma_position_in_range(names: Seq<Seq<char>>, name: Seq<char>, i: int)
    ensures
        position_from(names, name, i) matches Some(k) ==> 0 <= k < names.len() && names[k] == name,
    decreases names.len() - i,
{
    if 0 <= i < names.len() && names[i] != name {
        lemma_position_in_range(names, name, i + 1);
    }
}

/// The names of the configured models, in order.
pub open spec fn model_names(config: &Config) -> Seq<Seq<char>> {
    config.models@.map_values(|m: (String, ModelConfig)| m.0@)
}

/// The names of the configured preset prompts, in order.
pub open spec fn prompt_names(config: &Config) -> Seq<Seq<char>> {
    config.prompts@.map_values(|p: (String, PresetConfig)| p.0@)
}

/// Where the model called `name` stands, if it is configured.
pub open spec fn model_index(config: &Config, name: Seq<char>) -> Option<int> {
    position_from(model_names(config), name, 0)
}

/// Where the preset prompt called `name` stands, if it is configured.
pub open spec fn prompt_index(config: &Config, name: Seq<char>) -> Option<int> {
    position_from(prompt_names(config), name, 0)
}

/// No name occurs twice in `names`.
pub open spec fn distinct_names(names: Seq<Seq<char>>) -> bool {
    forall|i: int, j: int| 0 <= i < j < names.len() ==> names[i] != names[j]
}

/// `names[j]` occurs before position `j`.
pub open spec fn repeated_at(names: Seq<Seq<char>>, j: int) -> bool {
    exists|i: int| 0 <= i < j && names[i] == names[j]
}

/// The first position from `j` on whose name occurred before it.
pub open spec fn first_repeat(names: Seq<Seq<char>>, j: int) -> Option<int>
    decreases names.len() - j,
{
    if j < 0 || j >= names.len() {
        None
    } else if repeated_at(names, j) {
        Some(j)
    } else {
        first_repeat(names, j + 1)
    }
}

/// A repeat found is a position of the sequence.
pub proof fn lemma_first_repeat_in_range(names: Seq<Seq<char>>, j: int)
    ensures
        first_repeat(names, j) matches Some(k) ==> 0 <= k < names.len(),
    decreases names.len() - j,
{
    if 0 <= j < names.len() && !repeated_at(names, j) {
        lemma_first_repeat_in_range(names, j + 1);
    }
}

/// Without a repeat from `k` on, no later name occurred before it.
proof fn lemma_no_repeat_from(names: Seq<Seq<char>>, k: int, j: int)
    requires
        0 <= k <= j < names.len(),
        first_repeat(names, k) is None,
    ensures
        !repeated_at(names, j),
    decreases j - k,
{
    if k < j {
        lemma_no_repeat_from(names, k + 1, j);
    }
}

/// Without a repeat, the names are distinct.
pub proof fn lemma_no_repeat_distinct(names: Seq<Seq<char>>)
    requires
        first_repeat(names, 0) is None,
    ensures
        distinct_names(names),
{
    assert forall|i: int, j: int| 0 <= i < j < names.len() implies names[i] != names[j] by {
        lemma_no_repeat_from(names, 0, j);
    }
}

/// The position of the first name, among the first components of
/// `entries`, that occurred before it.
pub fn first_repeated_name<T>(entries: &Vec<(String, T)>) -> (r: Option<usize>)
    ensures
        match r {
            Some(j) => first_repeat(entries@.map_values(|e: (String, T)| e.0@), 0) == Some(
                j as int,
            ) && j < entries.len(),
            None => first_repeat(entries@.map_values(|e: (String, T)| e.0@), 0) is None,
        },
{
    let ghost names = entries@.map_values(|e: (String, T)| e.0@);
    let mut j: usize = 0;
    while j < entries.len()
        invariant
            j <= entries.len() == names.len(),
            names == entries@.map_values(|e: (String, T)| e.0@),
            first_repeat(names, 0) == first_repeat(names, j as int),
        decreases entries.len() - j,
    {
        let mut i: usize = 0;
        while i < j
            invariant
                i <= j < entries.len() == names.len(),
                names == entries@.map_values(|e: (String, T)| e.0@),
                first_repeat(names, 0) == first_repeat(names, j as int),
                forall|k: int| 0 <= k < i ==> names[k] != names[j as int],
            decreases j - i,
        {
            assert(names[i as int] == entries@[i as int].0@);
            assert(names[j as int] == entries@[j as int].0@);
            if text_eq(entries[i].0.as_str(), entries[j].0.as_str()) {
                assert(repeated_at(names, j as int));
                return Some(j);
            }
            i = i + 1;
        }
        assert(!repeated_at(names, j as int));
        j = j + 1;
    }
    None
}

/// The models have distinct names, and so have the preset prompts.
pub open spec fn names_distinct(config: &Config) -> bool {
    distinct_names(model_names(config)) && distinct_names(prompt_names(config))
}

/// With distinct names, looking a name up finds the one position that holds it.
pub proof fn lemma_position_of_distinct(names: Seq<Seq<char>>, name: Seq<char>, k: int, i: int)
    requires
        distinct_names(names),
        0 <= k <= i < names.len(),
        names[i] == name,
    ensures
        position_from(names, name, k) == Some(i),
    decreases i - k,
{
    if k < i {
        assert(names[k] != names[i]);
        lemma_position_of_distinct(names, name, k + 1, i);
    }
}

/// In a configuration whose names are distinct, the model or preset prompt
/// that a name is looked up to is exactly the one entry with that name.
pub proof fn law_lookup_finds_the_named_entry(config: &Config, name: Seq<char>)
    requires
        names_distinct(config),
    ensures
        forall|i: int|
            0 <= i < config.models@.len() ==> ((#[trigger] config.models@[i]).0@ == name <==> model_index(
                config,
                name,
            ) == Some(i)),
        forall|j: int|
            0 <= j < config.prompts@.len() ==> ((#[trigger] config.prompts@[j]).0@ == name
                <==> prompt_index(config, name) == Some(j)),
{
    assert forall|i: int| 0 <= i < config.models@.len() implies ((#[trigger] config.models@[i]).0@
        == name <==> model_index(config, name) == Some(i)) by {
        assert(model_names(config)[i] == config.models@[i].0@);
        lemma_position_in_range(model_names(config), name, 0);
        if config.models@[i].0@ == name {
            lemma_position_of_distinct(model_names(config), name, 0, i);
        }
    }
    assert forall|j: int| 0 <= j < config.prompts@.len() implies ((#[trigger] config.prompts@[j]).0@
        == name <==> prompt_index(config, name) == Some(j)) by {
        assert(prompt_names(config)[j] == config.prompts@[j].0@);
        lemma_position_in_range(prompt_names(config), name, 0);
        if config.prompts@[j].0@ == name {
            lemma_position_of_distinct(prompt_names(config), name, 0, j);
        }
    }
}

/// Finds the model called `name`.
pub fn find_model(config: &Config, name: &str) -> (r: Option<usize>)
    ensures
        match r {
            Some(i) => model_index(config, name@) == Some(i as int),
            None => model_index(config, name@) is None,
        },
        r matches Some(i) ==> i < config.models.len(),
{
    let ghost names = model_names(config);
    let mut i: usize = 0;
    while i < config.models.len()
        invariant
            i <= config.models.len() == names.len(),
            names == model_names(config),
            position_from(names, name@, 0) == position_from(names, name@, i as int),
        decreases config.models.len() - i,
    {
        assert(names[i as int] == config.models@[i as int].0@);
        if text_eq(config.models[i].0.as_str(), name) {
            return Some(i);
        }
        i = i + 1;
    }
    None
}

/// Finds the preset prompt called `name`.
pub fn find_prompt(config: &Config, name: &str) -> (r: Option<usize>)
    ensures
        match r {
            Some(i) => prompt_index(config, name@) == Some(i as int),
            None => prompt_index(config, name@) is None,
        },
        r matches Some(i) ==> i < config.prompts.len(),
{
    let ghost names = prompt_names(config);
    let mut i: usize = 0;
    while i < config.prompts.len()
        invariant
            i <= config.prompts.len() == names.len(),
            names == prompt_names(config),
            position_from(names, name@, 0) == position_from(names, name@, i as int),
        decreases config.prompts.len() - i,
    {
        assert(names[i as int] == config.prompts@[i as int].0@);
        if text_eq(config.prompts[i].0.as_str(), name) {
            return Some(i);
        }
        i = i + 1;
    }
    None
}

/// How a text reads as JSON: not at all, as an object (with its entries
/// in the order in which the parsed map holds them, each value as compact
/// JSON text), or as another value.
#[derive(Debug)]
pub enum JsonShape {
    Invalid,
    Object(Vec<(String, String)>),
    Other,
}

/// The same, keys and value texts as character sequences.
pub enum JsonForm {
    Invalid,
    Object(Seq<(Seq<char>, Seq<char>)>),
    Other,
}

/// The entries as pairs of texts.
pub open spec fn entries_view(entries: Seq<(String, String)>) -> Seq<(Seq<char>, Seq<char>)> {
    entries.map_values(|e: (String, String)| (e.0@, e.1@))
}

/// The keys of the entries, in order.
pub open spec fn entry_keys(entries: Seq<(Seq<char>, Seq<char>)>) -> Seq<Seq<char>> {
    entries.map_values(|e: (Seq<char>, Seq<char>)| e.0)
}

impl View for JsonShape {
    type V = JsonForm;

    open spec fn view(&self) -> JsonForm {
        match self {
            JsonShape::Invalid => JsonForm::Invalid,
            JsonShape::Object(entries) => JsonForm::Object(entries_view(entries@)),
            JsonShape::Other => JsonForm::Other,
        }
    }
}

/// What `serde_json::from_str::<serde_json::Value>` makes of a text: no
/// value; an object, with its keys in the order of its map and each value
/// written back as compact JSON by `serde_json`; or another value.
pub uninterp spec fn json_shape_of(text: Seq<char>) -> JsonForm;

/// Parses `text` with `serde_json::from_str` into a `serde_json::Value` and
/// tells whether that failed, gave an object, or gave another value; for an
/// object, its entries in the order in which its map yields them, each value
/// converted to compact JSON text by its `Display`. The contract claims only
/// that the answer is a function of the text.
#[verifier::external_body]
pub(crate) fn json_shape(text: &str) -> (r: JsonShape)
    ensures
        r@ == json_shape_of(text@),
{
    match serde_json::from_str::<serde_json::Value>(text) {
        Ok(serde_json::Value::Object(map)) => JsonShape::Object(
            map.iter().map(|(k, v)| (k.clone(), v.to_string())).collect(),
        ),
        Ok(_) => JsonShape::Other,
        Err(_) => JsonShape::Invalid,
    }
}

/// An optional shape as its view.
pub open spec fn form_of(o: Option<JsonShape>) -> Option<JsonForm> {
    match o {
        Some(s) => Some(s@),
        None => None,
    }
}

/// Why a configuration is refused.
#[derive(Debug)]
pub enum ConfigError {
    /// Two models share this name.
    DuplicateModelName(String),
    /// Two preset prompts share this name.
    DuplicatePromptName(String),
    DefaultModelMissing(String),
    DefaultPromptMissing(String),
    ZeroMaxEntries,
    BothApiKeyAndCommand(String),
    NoApiKey(String),
    OptionsNotJson(String),
    OptionsNotObject(String),
    EmptyEndpoint(String),
    EmptyModelId(String),
}

/// A refusal, with the names it mentions as texts.
pub enum ConfigProblem {
    DuplicateModelName(Seq<char>),
    DuplicatePromptName(Seq<char>),
    DefaultModelMissing(Seq<char>),
    DefaultPromptMissing(Seq<char>),
    ZeroMaxEntries,
    BothApiKeyAndCommand(Seq<char>),
    NoApiKey(Seq<char>),
    OptionsNotJson(Seq<char>),
    OptionsNotObject(Seq<char>),
    EmptyEndpoint(Seq<char>),
    EmptyModelId(Seq<char>),
}

impl View for ConfigError {
    type V = ConfigProblem;

    open spec fn view(&self) -> ConfigProblem {
        match self {
            ConfigError::DuplicateModelName(n) => ConfigProblem::DuplicateModelName(n@),
            ConfigError::DuplicatePromptName(n) => ConfigProblem::DuplicatePromptName(n@),
            ConfigError::DefaultModelMissing(n) => ConfigProblem::DefaultModelMissing(n@),
            ConfigError::DefaultPromptMissing(n) => ConfigProblem::DefaultPromptMissing(n@),
            ConfigError::ZeroMaxEntries => ConfigProblem::ZeroMaxEntries,
            ConfigError::BothApiKeyAndCommand(n) => ConfigProblem::BothApiKeyAndCommand(n@),
            ConfigError::NoApiKey(n) => ConfigProblem::NoApiKey(n@),
            ConfigError::OptionsNotJson(n) => ConfigProblem::OptionsNotJson(n@),
            ConfigError::OptionsNotObject(n) => ConfigProblem::OptionsNotObject(n@),
            ConfigError::EmptyEndpoint(n) => ConfigProblem::EmptyEndpoint(n@),
            ConfigError::EmptyModelId(n) => ConfigProblem::EmptyModelId(n@),
        }
    }
}

/// What is wrong with one model, given how its options read as JSON
/// (`None` when it has no options): checked in this order.
pub open spec fn model_problem(name: Seq<char>, m: ModelConfig, options_shape: Option<JsonForm>) -> Option<
    ConfigProblem,
> {
    if m.api_key is Some && m.api_key_command is Some {
        Some(ConfigProblem::BothApiKeyAndCommand(name))
    } else if m.api_key is None && m.api_key_command is None {
        Some(ConfigProblem::NoApiKey(name))
    } else if m.options is Some && options_shape matches Some(JsonForm::Invalid) {
        Some(ConfigProblem::OptionsNotJson(name))
    } else if m.options is Some && !(options_shape matches Some(JsonForm::Object(_))) {
        Some(ConfigProblem::OptionsNotObject(name))
    } else if is_blank_seq(m.endpoint@) {
        Some(ConfigProblem::EmptyEndpoint(name))
    } else if is_blank_seq(m.model@) {
        Some(ConfigProblem::EmptyModelId(name))
    } else {
        None
    }
}

/// How a model's options read as JSON, `None` without options.
pub open spec fn options_shape_of(m: ModelConfig) -> Option<JsonForm> {
    match m.options {
        Some(o) => Some(json_shape_of(o@)),
        None => None,
    }
}

/// The problem of the first model, from position `i` on, that has one.
pub open spec fn first_model_problem(models: Seq<(String, ModelConfig)>, i: int) -> Option<
    ConfigProblem,
>
    decreases models.len() - i,
{
    if i < 0 || i >= models.len() {
        None
    } else {
        match model_problem(models[i].0@, models[i].1, options_shape_of(models[i].1)) {
            Some(p) => Some(p),
            None => first_model_problem(models, i + 1),
        }
    }
}

/// What is wrong with a configuration, checked in this order: a name used
/// twice (which a configuration file's tables cannot hold), the default
/// model, the default prompt, the history size, then each model in turn.
pub open spec fn config_problem(config: &Config) -> Option<ConfigProblem> {
    if first_repeat(model_names(config), 0) is Some {
        Some(ConfigProblem::DuplicateModelName(model_names(config)[first_repeat(model_names(config), 0)->0]))
    } else if first_repeat(prompt_names(config), 0) is Some {
        Some(ConfigProblem::DuplicatePromptName(prompt_names(config)[first_repeat(prompt_names(config), 0)->0]))
    } else if model_index(config, config.defaults.model@) is None {
        Some(ConfigProblem::DefaultModelMissing(config.defaults.model@))
    } else if prompt_index(config, config.defaults.prompt@) is None {
        Some(ConfigProblem::DefaultPromptMissing(config.defaults.prompt@))
    } else if config.history.max_entries == Some(0usize) {
        Some(ConfigProblem::ZeroMaxEntries)
    } else {
        first_model_problem(config.models@, 0)
    }
}

/// Past a position without problems, no model has one.
proof fn lemma_no_model_problem(models: Seq<(String, ModelConfig)>, i: int, j: int)
    requires
        0 <= i <= j < models.len(),
        first_model_problem(models, i) is None,
    ensures
        model_problem(models[j].0@, models[j].1, options_shape_of(models[j].1)) is None,
    decreases j - i,
{
    if i < j {
        lemma_no_model_problem(models, i + 1, j);
    }
}

/// A configuration that passes the checks has distinct names, names a configured default model
/// and preset prompt, and each of its models has exactly one way to get an
/// API key, options (if any) that read as a JSON object, and a nonblank
/// endpoint and model id.
pub proof fn law_valid_config_is_usable(config: &Config, j: int)
    requires
        config_problem(config) is None,
        0 <= j < config.models@.len(),
    ensures
        names_distinct(config),
        model_index(config, config.defaults.model@) is Some,
        prompt_index(config, config.defaults.prompt@) is Some,
        config.history.max_entries != Some(0usize),
        ({
            let m = config.models@[j].1;
            &&& m.api_key is Some != m.api_key_command is Some
            &&& m.options matches Some(o) ==> json_shape_of(o@) is Object
            &&& !is_blank_seq(m.endpoint@)
            &&& !is_blank_seq(m.model@)
        }),
{
    lemma_no_model_problem(config.models@, 0, j);
    lemma_no_repeat_distinct(model_names(config));
    lemma_no_repeat_distinct(prompt_names(config));
}

/// With distinct names there is no repeat from `j` on.
proof fn lemma_distinct_no_repeat(names: Seq<Seq<char>>, j: int)
    requires
        0 <= j,
        distinct_names(names),
    ensures
        first_repeat(names, j) is None,
    decreases names.len() - j,
{
    if j < names.len() {
        assert(!repeated_at(names, j));
        lemma_distinct_no_repeat(names, j + 1);
    }
}

/// A name that stands at `k` is found from any `i` up to `k`.
proof fn lemma_position_found(names: Seq<Seq<char>>, name: Seq<char>, i: int, k: int)
    requires
        0 <= i <= k < names.len(),
        names[k] == name,
    ensures
        position_from(names, name, i) is Some,
    decreases k - i,
{
    if i < k && names[i] != name {
        lemma_position_found(names, name, i + 1, k);
    }
}

/// With no model from `i` on having a problem, none is found.
proof fn lemma_models_without_problem(models: Seq<(String, ModelConfig)>, i: int)
    requires
        0 <= i,
        forall|j: int|
            i <= j < models.len() ==> model_problem(
                (#[trigger] models[j]).0@,
                models[j].1,
                options_shape_of(models[j].1),
            ) is None,
    ensures
        first_model_problem(models, i) is None,
    decreases models.len() - i,
{
    if i < models.len() {
        lemma_models_without_problem(models, i + 1);
    }
}

/// A configuration is accepted when its model names and preset prompt names
/// are distinct, it configures its default model and default preset prompt,
/// its history size is not zero, and each model has exactly one way to get an
/// API key, options (if any) that read as a JSON object, and a nonblank
/// endpoint and model id. Nothing else is checked: a model's system prompt,
/// blank or not, never makes a configuration refused.
pub proof fn law_complete_config_is_accepted(config: &Config)
    requires
        distinct_names(model_names(config)),
        distinct_names(prompt_names(config)),
        exists|i: int|
            0 <= i < config.models@.len() && (#[trigger] config.models@[i]).0@
                == config.defaults.model@,
        exists|i: int|
            0 <= i < config.prompts@.len() && (#[trigger] config.prompts@[i]).0@
                == config.defaults.prompt@,
        config.history.max_entries != Some(0usize),
        forall|i: int|
            0 <= i < config.models@.len() ==> {
                let m = (#[trigger] config.models@[i]).1;
                &&& m.api_key is Some != m.api_key_command is Some
                &&& m.options matches Some(o) ==> json_shape_of(o@) is Object
                &&& !is_blank_seq(m.endpoint@)
                &&& !is_blank_seq(m.model@)
            },
    ensures
        config_problem(config) is None,
{
    lemma_distinct_no_repeat(model_names(config), 0);
    lemma_distinct_no_repeat(prompt_names(config), 0);
    let mi = choose|i: int|
        0 <= i < config.models@.len() && (#[trigger] config.models@[i]).0@ == config.defaults.model@;
    assert(model_names(config)[mi] == config.models@[mi].0@);
    lemma_position_found(model_names(config), config.defaults.model@, 0, mi);
    let pi = choose|i: int|
        0 <= i < config.prompts@.len() && (#[trigger] config.prompts@[i]).0@
            == config.defaults.prompt@;
    assert(prompt_names(config)[pi] == config.prompts@[pi].0@);
    lemma_position_found(prompt_names(config), config.defaults.prompt@, 0, pi);
    let models = config.models@;
    assert forall|j: int| 0 <= j < models.len() implies model_problem(
        (#[trigger] models[j]).0@,
        models[j].1,
        options_shape_of(models[j].1),
    ) is None by {
        let m = models[j].1;
        if m.options is Some {
            assert(options_shape_of(m) == Some(json_shape_of(m.options->0@)));
        }
    }
    lemma_models_without_problem(models, 0);
}

fn copy_string(s: &String) -> (r: String)
    ensures
        r@ == s@,
{
    s.clone()
}

/// Checks one model, given how its options read as JSON (`None` when it has
/// no options).
pub fn check_model(name: &String, m: &ModelConfig, options_shape: &Option<JsonShape>) -> (r: Result<
    (),
    ConfigError,
>)
    ensures
        match r {
            Ok(()) => model_problem(name@, *m, form_of(*options_shape)) is None,
            Err(e) => model_problem(name@, *m, form_of(*options_shape)) == Some(e@),
        },
{
    if m.api_key.is_some() && m.api_key_command.is_some() {
        return Err(ConfigError::BothApiKeyAndCommand(copy_string(name)));
    }
    if m.api_key.is_none() && m.api_key_command.is_none() {
        return Err(ConfigError::NoApiKey(copy_string(name)));
    }
    if m.options.is_some() {
        match options_shape {
            Some(JsonShape::Invalid) => {
                return Err(ConfigError::OptionsNotJson(copy_string(name)));
            },
            Some(JsonShape::Object(_)) => {},
            _ => {
                return Err(ConfigError::OptionsNotObject(copy_string(name)));
            },
        }
    }
    if is_blank(m.endpoint.as_str()) {
        return Err(ConfigError::EmptyEndpoint(copy_string(name)));
    }
    if is_blank(m.model.as_str()) {
        return Err(ConfigError::EmptyModelId(copy_string(name)));
    }
    Ok(())
}

/// Checks a loaded configuration: the default model and prompt must be
/// configured, the history size must not be zero, and each model must have
/// exactly one way to get its API key, options that are a JSON object, and a
/// nonblank endpoint and model id. The first failing check is reported.
pub fn validate_config(config: &Config) -> (r: Result<(), ConfigError>)
    ensures
        match r {
            Ok(()) => config_problem(config) is None,
            Err(e) => config_problem(config) == Some(e@),
        },
{
    assert(model_names(config) == config.models@.map_values(|e: (String, ModelConfig)| e.0@));
    assert(prompt_names(config) == config.prompts@.map_values(|e: (String, PresetConfig)| e.0@));
    if let Some(j) = first_repeated_name(&config.models) {
        return Err(ConfigError::DuplicateModelName(copy_string(&config.models[j].0)));
    }
    if let Some(j) = first_repeated_name(&config.prompts) {
        return Err(ConfigError::DuplicatePromptName(copy_string(&config.prompts[j].0)));
    }
    if find_model(config, config.defaults.model.as_str()).is_none() {
        return Err(ConfigError::DefaultModelMissing(copy_string(&config.defaults.model)));
    }
    if find_prompt(config, config.defaults.prompt.as_str()).is_none() {
        return Err(ConfigError::DefaultPromptMissing(copy_string(&config.defaults.prompt)));
    }
    if let Some(max_entries) = config.history.max_entries {
        if max_entries == 0 {
            return Err(ConfigError::ZeroMaxEntries);
        }
    }
    let mut i: usize = 0;
    while i < config.models.len()
        invariant
            i <= config.models.len(),
            config_problem(config) == first_model_problem(config.models@, i as int),
        decreases config.models.len() - i,
    {
        let entry = &config.models[i];
        let shape = match &entry.1.options {
            Some(o) => Some(json_shape(o.as_str())),
            None => None,
        };
        assert(form_of(shape) == options_shape_of(entry.1));
        check_model(&entry.0, &entry.1, &shape)?;
        i = i + 1;
    }
    Ok(())
}

} // verus!
