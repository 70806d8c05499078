//! Rules for the model settings read from the configuration: boolean
//! switches in their accepted spellings, model names that must not be
//! blank, and which model a lightweight task runs on.
use crate::text::{str_equal, trim_str, trim_ws};
use vstd::prelude::*;
use vstd::string::*;

verus! {

broadcast use vstd::string::group_string_axioms;

/// A configuration value as the boolean switches read it.
#[derive(Clone, Debug, PartialEq, Eq)]
pub enum ConfigValue {
    Bool(bool),
    /// A number, by its decimal text.
    Number(String),
    String(String),
    /// Any other value, by its YAML text.
    Other(String),
}

/// Why a configuration value could not be read.
#[derive(Clone, Debug, PartialEq, Eq)]
pub enum ConfigError {
    /// The key is not set.
    NotFound(String),
    /// The key is set but could not be read; the message says why.
    Other(String),
}

/// The configuration key of the toolshim switch.
pub const GOOSE_TOOLSHIM: &'static str = "GOOSE_TOOLSHIM";

/// The configuration key of the toolshim model.
pub const GOOSE_TOOLSHIM_OLLAMA_MODEL: &'static str = "GOOSE_TOOLSHIM_OLLAMA_MODEL";

/// The accepted spellings, as error messages list them.
pub const BOOL_SPELLINGS: &'static str = "1, true, yes, on, 0, false, no, off";

// ---------------------------------------------------------------------
// Specifications
// ---------------------------------------------------------------------

/// What `str::to_lowercase` gives for a text.
pub uninterp spec fn lowercase_of(s: Seq<char>) -> Seq<char>;

/// Every character of the text is ASCII.
pub open spec fn is_ascii_text(s: Seq<char>) -> bool {
    forall|i: int| 0 <= i < s.len() ==> (#[trigger] s[i] as u32) < 128
}

/// An ASCII character in lower case: `A` to `Z` become `a` to `z`.
pub open spec fn ascii_lower(c: char) -> char {
    if 'A' <= c && c <= 'Z' {
        ((c as u32) + 32) as char
    } else {
        c
    }
}

/// A text with its ASCII capitals in lower case.
pub open spec fn ascii_lowercase(s: Seq<char>) -> Seq<char> {
    s.map_values(|c: char| ascii_lower(c))
}

/// `str::to_lowercase`: the text with every character mapped to its
/// lower case, a function of the text alone. For an ASCII text that is
/// each capital `A` to `Z` in its small form, every other character
/// kept.
#[verifier::external_body]
fn to_lowercase(s: &str) -> (r: String)
    ensures
        r@ == lowercase_of(s@),
        is_ascii_text(s@) ==> r@ == ascii_lowercase(s@),
{
    s.to_lowercase()
}

/// The lower-case spellings of `true`.
pub open spec fn is_true_spelling(l: Seq<char>) -> bool {
    l == "1"@ || l == "true"@ || l == "yes"@ || l == "on"@
}

/// The lower-case spellings of `false`.
pub open spec fn is_false_spelling(l: Seq<char>) -> bool {
    l == "0"@ || l == "false"@ || l == "no"@ || l == "off"@
}

/// The message for a value of `key` that is not a boolean.
pub open spec fn invalid_bool_message(key: Seq<char>, value: Seq<char>) -> Seq<char> {
    "Invalid value for '"@ + key + "': '"@ + value + "' - must be one of: "@ + BOOL_SPELLINGS@
}

/// The switch that `value`, whose lower case is `lower`, spells.
pub open spec fn bool_of_spelling(key: Seq<char>, value: Seq<char>, lower: Seq<char>) -> Result<
    bool,
    Seq<char>,
> {
    if is_true_spelling(lower) {
        Ok(true)
    } else if is_false_spelling(lower) {
        Ok(false)
    } else {
        Err(invalid_bool_message(key, value))
    }
}

/// The view of a result whose error is a text.
pub open spec fn result_view<T>(r: Result<T, String>) -> Result<T, Seq<char>> {
    match r {
        Ok(v) => Ok(v),
        Err(e) => Err(e@),
    }
}

/// The view of an optional text.
pub open spec fn option_view(o: Option<String>) -> Option<Seq<char>> {
    match o {
        Some(s) => Some(s@),
        None => None,
    }
}

/// The switch that a configuration value spells.
pub open spec fn yaml_bool_of(key: Seq<char>, value: ConfigValue) -> Result<bool, Seq<char>> {
    match value {
        ConfigValue::Bool(b) => Ok(b),
        ConfigValue::Number(t) => bool_of_spelling(key, t@, lowercase_of(t@)),
        ConfigValue::String(t) => bool_of_spelling(key, t@, lowercase_of(t@)),
        ConfigValue::Other(t) => Err(invalid_bool_message(key, trim_ws(t@))),
    }
}

/// The message of a configuration error.
pub open spec fn config_error_message(e: ConfigError) -> Seq<char> {
    match e {
        ConfigError::NotFound(k) => "Configuration value not found: "@ + k@,
        ConfigError::Other(m) => m@,
    }
}

/// The toolshim switch: none when unset, else the switch its value
/// spells; an unreadable value is an error.
pub open spec fn toolshim_setting(lookup: Result<ConfigValue, ConfigError>) -> Result<
    Option<bool>,
    Seq<char>,
> {
    match lookup {
        Ok(v) => match yaml_bool_of(GOOSE_TOOLSHIM@, v) {
            Ok(b) => Ok(Some(b)),
            Err(m) => Err(m),
        },
        Err(ConfigError::NotFound(_)) => Ok(None),
        Err(e) => Err(config_error_message(e)),
    }
}

/// The message for a toolshim model that is blank.
pub open spec fn blank_model_message(value: Seq<char>) -> Seq<char> {
    "Invalid value for '"@ + GOOSE_TOOLSHIM_OLLAMA_MODEL@ + "': '"@ + value
        + "' - cannot be empty if set"@
}

/// The toolshim model: none when unset, the value as it is when it is not
/// blank; a blank or unreadable value is an error.
pub open spec fn toolshim_model_setting(lookup: Result<String, ConfigError>) -> Result<
    Option<Seq<char>>,
    Seq<char>,
> {
    match lookup {
        Ok(v) => if trim_ws(v@).len() == 0 {
            Err(blank_model_message(v@))
        } else {
            Ok(Some(v@))
        },
        Err(ConfigError::NotFound(_)) => Ok(None),
        Err(e) => Err(config_error_message(e)),
    }
}

/// A configured model name: the value trimmed, when it could be read and
/// is not blank.
pub open spec fn model_name_setting(lookup: Result<String, ConfigError>) -> Option<Seq<char>> {
    match lookup {
        Ok(v) => if trim_ws(v@).len() > 0 {
            Some(trim_ws(v@))
        } else {
            None
        },
        Err(_) => None,
    }
}

// ---------------------------------------------------------------------
// Executable rules
// ---------------------------------------------------------------------

/// The message for a value of `key` that is not a boolean.
fn invalid_bool(key: &str, value: &str) -> (r: String)
    ensures
        r@ == invalid_bool_message(key@, value@),
{
    let mut m = String::from_str("Invalid value for '");
    m.append(key);
    m.append("': '");
    m.append(value);
    m.append("' - must be one of: ");
    m.append(BOOL_SPELLINGS);
    m
}

/// The switch that `value` spells, given its lower case `lower`: one of
/// `1`, `true`, `yes`, `on` for true, `0`, `false`, `no`, `off` for false,
/// else an error that names the key and the value.
pub fn bool_from_lowercase(key: &str, value: &str, lower: &str) -> (r: Result<bool, String>)
    ensures
        result_view(r) == bool_of_spelling(key@, value@, lower@),
{
    if str_equal(lower, "1") || str_equal(lower, "true") || str_equal(lower, "yes") || str_equal(
        lower,
        "on",
    ) {
        Ok(true)
    } else if str_equal(lower, "0") || str_equal(lower, "false") || str_equal(lower, "no")
        || str_equal(lower, "off") {
        Ok(false)
    } else {
        Err(invalid_bool(key, value))
    }
}

/// The switch that `value` spells, in any case.
pub fn parse_bool_config(key: &str, value: &str) -> (r: Result<bool, String>)
    ensures
        result_view(r) == bool_of_spelling(key@, value@, lowercase_of(value@)),
        is_ascii_text(value@) ==> result_view(r) == bool_of_spelling(
            key@,
            value@,
            ascii_lowercase(value@),
        ),
{
    let lower = to_lowercase(value);
    bool_from_lowercase(key, value, lower.as_str())
}

/// The switch that a configuration value spells: a boolean as it is, a
/// number or a text by its spelling; anything else is an error that
/// shows its YAML text, trimmed.
pub fn parse_yaml_bool_config(key: &str, value: ConfigValue) -> (r: Result<bool, String>)
    ensures
        result_view(r) == yaml_bool_of(key@, value),
        (value matches ConfigValue::String(t) && is_ascii_text(t@)) ==> result_view(r)
            == bool_of_spelling(key@, value->String_0@, ascii_lowercase(value->String_0@)),
        (value matches ConfigValue::Number(t) && is_ascii_text(t@)) ==> result_view(r)
            == bool_of_spelling(key@, value->Number_0@, ascii_lowercase(value->Number_0@)),
{
    match value {
        ConfigValue::Bool(b) => Ok(b),
        ConfigValue::Number(t) => parse_bool_config(key, t.as_str()),
        ConfigValue::String(t) => parse_bool_config(key, t.as_str()),
        ConfigValue::Other(t) => {
            let shown = trim_str(t.as_str());
            Err(invalid_bool(key, shown.as_str()))
        },
    }
}

/// The message of a configuration error.
fn config_error_text(e: ConfigError) -> (r: String)
    ensures
        r@ == config_error_message(e),
{
    match e {
        ConfigError::NotFound(k) => {
            let mut m = String::from_str("Configuration value not found: ");
            m.append(k.as_str());
            m
        },
        ConfigError::Other(m) => m,
    }
}

/// The toolshim switch, from the configuration's answer for its key.
pub fn get_goose_toolshim(lookup: Result<ConfigValue, ConfigError>) -> (r: Result<
    Option<bool>,
    String,
>)
    ensures
        result_view(r) == toolshim_setting(lookup),
{
    match lookup {
        Ok(v) => match parse_yaml_bool_config(GOOSE_TOOLSHIM, v) {
            Ok(b) => Ok(Some(b)),
            Err(m) => Err(m),
        },
        Err(ConfigError::NotFound(_)) => Ok(None),
        Err(e) => Err(config_error_text(e)),
    }
}

/// Whether the toolshim is on: only when the configuration sets it to a
/// true spelling.
pub fn global_toolshim(lookup: Result<ConfigValue, ConfigError>) -> (r: bool)
    ensures
        r == (toolshim_setting(lookup) == Ok::<Option<bool>, Seq<char>>(Some(true))),
{
    match get_goose_toolshim(lookup) {
        Ok(Some(b)) => b,
        _ => false,
    }
}

/// The toolshim model, from the configuration's answer for its key.
pub fn get_goose_toolshim_model(lookup: Result<String, ConfigError>) -> (r: Result<
    Option<String>,
    String,
>)
    ensures
        match r {
            Ok(o) => toolshim_model_setting(lookup) == Ok::<Option<Seq<char>>, Seq<char>>(
                option_view(o),
            ),
            Err(m) => toolshim_model_setting(lookup) == Err::<Option<Seq<char>>, Seq<char>>(m@),
        },
{
    match lookup {
        Ok(v) => {
            let trimmed = trim_str(v.as_str());
            if trimmed.as_str().unicode_len() == 0 {
                let mut m = String::from_str("Invalid value for '");
                m.append(GOOSE_TOOLSHIM_OLLAMA_MODEL);
                m.append("': '");
                m.append(v.as_str());
                m.append("' - cannot be empty if set");
                Err(m)
            } else {
                Ok(Some(v))
            }
        },
        Err(ConfigError::NotFound(_)) => Ok(None),
        Err(e) => Err(config_error_text(e)),
    }
}

/// A configured model name: the value trimmed, unless it is blank or
/// could not be read.
pub fn configured_model_name(lookup: Result<String, ConfigError>) -> (r: Option<String>)
    ensures
        option_view(r) == model_name_setting(lookup),
{
    match lookup {
        Ok(v) => {
            let trimmed = trim_str(v.as_str());
            if trimmed.as_str().unicode_len() > 0 {
                Some(trimmed)
            } else {
                None
            }
        },
        Err(_) => None,
    }
}

/// The configured compaction model: the value trimmed, unless it is
/// unset, blank, or could not be read (then it is ignored).
pub fn configured_compaction_model_name_from(lookup: Result<String, ConfigError>) -> (r: Option<
    String,
>)
    ensures
        option_view(r) == model_name_setting(lookup),
{
    match lookup {
        Ok(value) => {
            let trimmed = trim_str(value.as_str());
            if trimmed.as_str().unicode_len() > 0 {
                Some(trimmed)
            } else {
                None
            }
        },
        Err(ConfigError::NotFound(_)) => None,
        Err(_) => None,
    }
}

/// The model a lightweight task switches to: the configured override, or
/// else the provider's default fast model, when that differs from the
/// current model; none when the current model stays.
pub open spec fn lightweight_choice(
    current: Seq<char>,
    override_name: Option<Seq<char>>,
    provider_default: Option<Seq<char>>,
) -> Option<Seq<char>> {
    let name = match override_name {
        Some(n) => Some(n),
        None => provider_default,
    };
    match name {
        Some(n) => if n != current {
            Some(n)
        } else {
            None
        },
        None => None,
    }
}

/// The model a lightweight task switches to, if any.
pub fn lightweight_model_name(
    current: &str,
    override_name: Option<String>,
    provider_default: Option<String>,
) -> (r: Option<String>)
    ensures
        option_view(r) == lightweight_choice(
            current@,
            option_view(override_name),
            option_view(provider_default),
        ),
{
    let name = match override_name {
        Some(n) => Some(n),
        None => provider_default,
    };
    match name {
        Some(n) => if str_equal(n.as_str(), current) {
            None
        } else {
            Some(n)
        },
        None => None,
    }
}

/// The override for compaction: the compaction model if configured, else
/// the fast model.
pub fn compaction_override_name(compaction: Option<String>, fast: Option<String>) -> (r: Option<
    String,
>)
    ensures
        option_view(r) == match option_view(compaction) {
            Some(c) => Some(c),
            None => option_view(fast),
        },
{
    match compaction {
        Some(c) => Some(c),
        None => fast,
    }
}

/// The view of a result of two texts.
pub open spec fn text_result_view(r: Result<String, String>) -> Result<Seq<char>, Seq<char>> {
    match r {
        Ok(v) => Ok(v@),
        Err(e) => Err(e@),
    }
}

/// The models a completion tries, in order: the resolved model, then the
/// main model when the resolved one differs from it. A model that could
/// not be resolved is an error, with its message.
pub open spec fn completion_plan(resolved: Result<Seq<char>, Seq<char>>, main_model: Seq<char>) -> Result<
    (Seq<char>, Option<Seq<char>>),
    Seq<char>,
> {
    match resolved {
        Ok(name) => Ok(
            (
                name,
                if name != main_model {
                    Some(main_model)
                } else {
                    None
                },
            ),
        ),
        Err(e) => Err(e),
    }
}

/// The models a completion tries: the resolved one, and the main model
/// to fall back to if it fails and differs from the main model.
pub fn completion_models(resolved: Result<String, String>, main_model: &str) -> (r: Result<
    (String, Option<String>),
    String,
>)
    ensures
        match r {
            Ok((first, fallback)) => completion_plan(text_result_view(resolved), main_model@) == Ok::<
                (Seq<char>, Option<Seq<char>>),
                Seq<char>,
            >((first@, option_view(fallback))),
            Err(e) => completion_plan(text_result_view(resolved), main_model@) == Err::<
                (Seq<char>, Option<Seq<char>>),
                Seq<char>,
            >(e@),
        },
{
    match resolved {
        Ok(name) => {
            if str_equal(name.as_str(), main_model) {
                Ok((name, None))
            } else {
                Ok((name, Some(String::from_str(main_model))))
            }
        },
        Err(e) => Err(e),
    }
}

/// Where a completion stands: the resolved model has yet to answer, with
/// the main model to fall back to if it differs; or the fallback has been
/// asked.
#[derive(Debug, PartialEq, Eq)]
pub enum CompletionState {
    First { fallback: Option<String> },
    Fallback,
}

/// What a completion does after an attempt: hand back that attempt's
/// outcome, or ask the named model and go on in the given state.
#[derive(Debug, PartialEq, Eq)]
pub enum CompletionAction<T, E> {
    Return(Result<T, E>),
    Try(String, CompletionState),
}

/// The completion's first step: the model to ask first, or the error when
/// no model could be resolved.
pub fn completion_start(resolved: Result<String, String>, main_model: &str) -> (r: Result<
    (String, CompletionState),
    String,
>)
    ensures
        match r {
            Ok((first, state)) => state matches CompletionState::First { fallback } && completion_plan(
                text_result_view(resolved),
                main_model@,
            ) == Ok::<(Seq<char>, Option<Seq<char>>), Seq<char>>((first@, option_view(fallback))),
            Err(e) => completion_plan(text_result_view(resolved), main_model@) == Err::<
                (Seq<char>, Option<Seq<char>>),
                Seq<char>,
            >(e@),
        },
{
    match completion_models(resolved, main_model) {
        Ok((first, fallback)) => Ok((first, CompletionState::First { fallback })),
        Err(e) => Err(e),
    }
}

/// The step after an attempt that gave `outcome`. A success is handed
/// back at once; so is a failure of the main model itself and any outcome
/// of the fallback. A failure of a resolved model that differs from the
/// main model is followed by one attempt with the main model.
pub fn completion_step<T, E>(state: CompletionState, outcome: Result<T, E>) -> (r: CompletionAction<
    T,
    E,
>)
    ensures
        outcome is Ok ==> r == CompletionAction::<T, E>::Return(outcome),
        state is Fallback ==> r == CompletionAction::<T, E>::Return(outcome),
        state == (CompletionState::First { fallback: None }) ==> r == CompletionAction::<
            T,
            E,
        >::Return(outcome),
        match state {
            CompletionState::First { fallback: Some(m) } => outcome is Err ==> (r matches CompletionAction::Try(
                next,
                after,
            ) && next@ == m@ && after == CompletionState::Fallback),
            _ => true,
        },
{
    match outcome {
        Ok(v) => CompletionAction::Return(Ok(v)),
        Err(e) => match state {
            CompletionState::First { fallback: Some(m) } => CompletionAction::Try(
                m,
                CompletionState::Fallback,
            ),
            _ => CompletionAction::Return(Err(e)),
        },
    }
}

} // verus!
