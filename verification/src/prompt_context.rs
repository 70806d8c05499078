//! What the system prompt template is rendered with: the extensions, the
//! agent's mode and settings, as a JSON context, and the rendering itself.
use crate::text::{decimal, join_seqs, join_strings, usize_to_decimal, views_of};
use vstd::prelude::*;
use vstd::string::*;

verus! {

broadcast use vstd::string::group_string_axioms;

/// How far the agent may act on its own.
#[derive(Clone, Copy, Debug, PartialEq, Eq, Structural)]
pub enum GooseMode {
    Auto,
    Approve,
    SmartApprove,
    Chat,
}

/// The name of a mode, as configuration files and templates spell it.
pub open spec fn mode_name(m: GooseMode) -> Seq<char> {
    match m {
        GooseMode::Auto => "auto"@,
        GooseMode::Approve => "approve"@,
        GooseMode::SmartApprove => "smart_approve"@,
        GooseMode::Chat => "chat"@,
    }
}

impl GooseMode {
    /// The name of this mode.
    pub fn name(self) -> (r: &'static str)
        ensures
            r@ == mode_name(self),
    {
        match self {
            GooseMode::Auto => "auto",
            GooseMode::Approve => "approve",
            GooseMode::SmartApprove => "smart_approve",
            GooseMode::Chat => "chat",
        }
    }
}

impl Default for GooseMode {
    fn default() -> (r: GooseMode)
        ensures
            r == GooseMode::Auto,
    {
        GooseMode::Auto
    }
}

/// An extension as the system prompt describes it.
#[derive(Debug, PartialEq, Eq)]
pub struct ExtensionInfo {
    pub name: String,
    pub instructions: String,
    pub has_resources: bool,
}

impl ExtensionInfo {
    /// An extension with the given name, instructions and resource support.
    pub fn new(name: &str, instructions: &str, has_resources: bool) -> (r: ExtensionInfo)
        ensures
            r.name@ == name@,
            r.instructions@ == instructions@,
            r.has_resources == has_resources,
    {
        ExtensionInfo {
            name: String::from_str(name),
            instructions: String::from_str(instructions),
            has_resources,
        }
    }
}

impl Clone for ExtensionInfo {
    fn clone(&self) -> (r: Self)
        ensures
            r == *self,
    {
        ExtensionInfo {
            name: self.name.clone(),
            instructions: self.instructions.clone(),
            has_resources: self.has_resources,
        }
    }
}

/// The largest number of extensions enabled before the prompt suggests
/// disabling some.
pub const MAX_EXTENSIONS: usize = 5;

/// The largest number of tools enabled before the prompt suggests
/// disabling some.
pub const MAX_TOOLS: usize = 50;

/// What the system prompt is rendered from.
pub struct PromptContext {
    pub extensions: Vec<ExtensionInfo>,
    pub current_date_time: String,
    pub extension_tool_limits: Option<(usize, usize)>,
    pub goose_mode: GooseMode,
    pub enable_subagents: bool,
    pub code_execution_mode: bool,
    pub moim_system_prompt_block: Option<String>,
}

// ---------------------------------------------------------------------
// JSON text
// ---------------------------------------------------------------------

/// The lower-case hexadecimal digit of `d`.
pub open spec fn hex_digit(d: nat) -> char {
    if d < 10 {
        (48 + d) as char
    } else {
        (87 + d) as char
    }
}

/// A character as serde_json writes it inside a string: the quote and the
/// backslash after a backslash, the five controls that have a short
/// escape by it, the other controls by their code in lower-case
/// hexadecimal, anything else as it is.
pub open spec fn json_char(c: char) -> Seq<char> {
    if c == '"' {
        seq!['\\', '"']
    } else if c == '\\' {
        seq!['\\', '\\']
    } else if c == '\x08' {
        seq!['\\', 'b']
    } else if c == '\t' {
        seq!['\\', 't']
    } else if c == '\n' {
        seq!['\\', 'n']
    } else if c == '\x0C' {
        seq!['\\', 'f']
    } else if c == '\r' {
        seq!['\\', 'r']
    } else if (c as u32) < 0x20 {
        seq!['\\', 'u', '0', '0', hex_digit((c as nat) / 16), hex_digit((c as nat) % 16)]
    } else {
        seq![c]
    }
}

/// The characters of a text as they stand inside a JSON string.
pub open spec fn json_escape(s: Seq<char>) -> Seq<char>
    decreases s.len(),
{
    if s.len() == 0 {
        Seq::empty()
    } else {
        json_escape(s.drop_last()) + json_char(s.last())
    }
}

/// What `serde_json::to_string` gives for a text: the text in quotes,
/// each character as `json_char` writes it.
pub open spec fn json_quoted(s: Seq<char>) -> Seq<char> {
    seq!['"'] + json_escape(s) + seq!['"']
}

/// A boolean in JSON.
pub open spec fn json_bool(b: bool) -> Seq<char> {
    if b {
        "true"@
    } else {
        "false"@
    }
}

/// An extension as the prompt reads it: name, instructions, and whether
/// it has resources.
pub type ExtView = (Seq<char>, Seq<char>, bool);

/// The view of an extension.
pub open spec fn ext_view(e: ExtensionInfo) -> ExtView {
    (e.name@, e.instructions@, e.has_resources)
}

/// The views of a list of extensions.
pub open spec fn ext_views(es: Seq<ExtensionInfo>) -> Seq<ExtView> {
    es.map_values(|e: ExtensionInfo| ext_view(e))
}

/// An extension as a JSON object.
pub open spec fn extension_json(e: ExtView) -> Seq<char> {
    "{\"name\":"@ + json_quoted(e.0) + ",\"instructions\":"@ + json_quoted(e.1)
        + ",\"has_resources\":"@ + json_bool(e.2) + "}"@
}

/// The extensions as the elements of a JSON array.
pub open spec fn extensions_json(es: Seq<ExtView>) -> Seq<char> {
    join_seqs(es.map_values(|e: ExtView| extension_json(e)), ","@)
}

/// The limits entry of the context, present only when there are limits.
pub open spec fn limits_json(l: Option<(usize, usize)>) -> Seq<char> {
    match l {
        Some((e, t)) => ",\"extension_tool_limits\":["@ + decimal(e as nat) + ","@ + decimal(
            t as nat,
        ) + "]"@,
        None => Seq::empty(),
    }
}

/// The turn-context entry of the context, present only when there is one.
pub open spec fn moim_json(m: Option<Seq<char>>) -> Seq<char> {
    match m {
        Some(b) => ",\"moim_system_prompt_block\":"@ + json_quoted(b),
        None => Seq::empty(),
    }
}

/// The view of an optional text.
pub open spec fn opt_view(o: Option<String>) -> Option<Seq<char>> {
    match o {
        Some(s) => Some(s@),
        None => None,
    }
}

/// The mode and settings entries of the context.
pub open spec fn settings_json(mode: GooseMode, subagents: bool, code_execution: bool) -> Seq<char> {
    ",\"goose_mode\":"@ + json_quoted(mode_name(mode)) + ",\"is_autonomous\":"@ + json_bool(
        mode == GooseMode::Auto,
    ) + ",\"enable_subagents\":"@ + json_bool(subagents) + ",\"max_extensions\":"@ + decimal(
        MAX_EXTENSIONS as nat,
    ) + ",\"max_tools\":"@ + decimal(MAX_TOOLS as nat) + ",\"code_execution_mode\":"@
        + json_bool(code_execution)
}

/// The whole context as a JSON object, from its parts.
pub open spec fn context_json_parts(
    exts: Seq<ExtView>,
    date: Seq<char>,
    limits: Option<(usize, usize)>,
    mode: GooseMode,
    subagents: bool,
    code_execution: bool,
    moim: Option<Seq<char>>,
) -> Seq<char> {
    "{\"extensions\":["@ + extensions_json(exts) + "],\"current_date_time\":"@ + json_quoted(date)
        + limits_json(limits) + settings_json(mode, subagents, code_execution) + moim_json(moim)
        + "}"@
}

/// The whole context as a JSON object.
pub open spec fn context_json(ctx: PromptContext) -> Seq<char> {
    context_json_parts(
        ext_views(ctx.extensions@),
        ctx.current_date_time@,
        ctx.extension_tool_limits,
        ctx.goose_mode,
        ctx.enable_subagents,
        ctx.code_execution_mode,
        opt_view(ctx.moim_system_prompt_block),
    )
}

/// `serde_json::to_string` on a text: the text in quotes, each character
/// escaped as serde_json's escape table does (`json_char`). Writing a
/// text into a buffer in memory cannot fail, so the empty text that
/// stands for a failure never comes.
#[verifier::external_body]
fn json_string_of(s: &str) -> (r: String)
    ensures
        r@ == json_quoted(s@),
{
    match serde_json::to_string(s) {
        Ok(t) => t,
        Err(_) => String::new(),
    }
}

/// `b` in JSON.
fn json_bool_of(b: bool) -> (r: &'static str)
    ensures
        r@ == json_bool(b),
{
    if b {
        "true"
    } else {
        "false"
    }
}

/// An extension as a JSON object.
fn extension_json_of(e: &ExtensionInfo) -> (r: String)
    ensures
        r@ == extension_json(ext_view(*e)),
{
    let mut r = String::from_str("{\"name\":");
    let name = json_string_of(e.name.as_str());
    r.append(name.as_str());
    r.append(",\"instructions\":");
    let instructions = json_string_of(e.instructions.as_str());
    r.append(instructions.as_str());
    r.append(",\"has_resources\":");
    r.append(json_bool_of(e.has_resources));
    r.append("}");
    proof {
        assert(r@ =~= extension_json(ext_view(*e)));
    }
    r
}

/// The whole context as a JSON object.
pub fn context_json_of(ctx: &PromptContext) -> (r: String)
    ensures
        r@ == context_json(*ctx),
{
    let mut objects: Vec<String> = Vec::new();
    let mut i: usize = 0;
    while i < ctx.extensions.len()
        invariant
            i <= ctx.extensions.len(),
            objects@.len() == i,
            views_of(objects@) == ext_views(ctx.extensions@.take(i as int)).map_values(
                |e: ExtView| extension_json(e),
            ),
        decreases ctx.extensions.len() - i,
    {
        let o = extension_json_of(&ctx.extensions[i]);
        let ghost before = objects@;
        objects.push(o);
        proof {
            assert forall|k: int| 0 <= k < i + 1 implies #[trigger] views_of(objects@)[k]
                == ext_views(ctx.extensions@.take(i as int + 1)).map_values(
                |e: ExtView| extension_json(e),
            )[k] by {
                if k < i {
                    assert(objects@[k] == before[k]);
                    assert(views_of(before)[k] == ext_views(ctx.extensions@.take(i as int)).map_values(
                        |e: ExtView| extension_json(e),
                    )[k]);
                }
            }
            assert(views_of(objects@) =~= ext_views(ctx.extensions@.take(i as int + 1)).map_values(
                |e: ExtView| extension_json(e),
            ));
        }
        i = i + 1;
    }
    proof {
        assert(ctx.extensions@.take(ctx.extensions.len() as int) =~= ctx.extensions@);
    }
    let list = join_strings(&objects, ",");
    let mut r = String::from_str("{\"extensions\":[");
    r.append(list.as_str());
    r.append("],\"current_date_time\":");
    let date = json_string_of(ctx.current_date_time.as_str());
    r.append(date.as_str());
    let limits = limits_json_of(ctx.extension_tool_limits);
    r.append(limits.as_str());
    let settings = settings_json_of(ctx.goose_mode, ctx.enable_subagents, ctx.code_execution_mode);
    r.append(settings.as_str());
    let moim = moim_json_of(&ctx.moim_system_prompt_block);
    r.append(moim.as_str());
    r.append("}");
    r
}

/// The limits entry of the context.
fn limits_json_of(l: Option<(usize, usize)>) -> (r: String)
    ensures
        r@ == limits_json(l),
{
    match l {
        Some((e, t)) => {
            let mut r = String::from_str(",\"extension_tool_limits\":[");
            let es = usize_to_decimal(e);
            r.append(es.as_str());
            r.append(",");
            let ts = usize_to_decimal(t);
            r.append(ts.as_str());
            r.append("]");
            r
        },
        None => String::new(),
    }
}

/// The turn-context entry of the context.
fn moim_json_of(m: &Option<String>) -> (r: String)
    ensures
        r@ == moim_json(opt_view(*m)),
{
    match m {
        Some(b) => {
            let mut r = String::from_str(",\"moim_system_prompt_block\":");
            let bs = json_string_of(b.as_str());
            r.append(bs.as_str());
            r
        },
        None => String::new(),
    }
}

/// The mode and settings entries of the context.
fn settings_json_of(mode: GooseMode, subagents: bool, code_execution: bool) -> (r: String)
    ensures
        r@ == settings_json(mode, subagents, code_execution),
{
    let mut r = String::from_str(",\"goose_mode\":");
    let m = json_string_of(mode.name());
    r.append(m.as_str());
    r.append(",\"is_autonomous\":");
    let autonomous = match mode {
        GooseMode::Auto => true,
        _ => false,
    };
    r.append(json_bool_of(autonomous));
    r.append(",\"enable_subagents\":");
    r.append(json_bool_of(subagents));
    r.append(",\"max_extensions\":");
    let me = usize_to_decimal(MAX_EXTENSIONS);
    r.append(me.as_str());
    r.append(",\"max_tools\":");
    let mt = usize_to_decimal(MAX_TOOLS);
    r.append(mt.as_str());
    r.append(",\"code_execution_mode\":");
    r.append(json_bool_of(code_execution));
    r
}

// ---------------------------------------------------------------------
// Rendering
// ---------------------------------------------------------------------

/// The built-in system prompt template.
pub const SYSTEM_PROMPT_TEMPLATE: &'static str = "You are a general-purpose AI agent called goose, created by Block, the parent company of Square, CashApp, and Tidal.
goose is being developed as an open-source software project.

The current date is {{current_date_time}}.

goose works through the tools that its extensions provide.

# Extensions

Extensions allow other applications to provide context to goose. Extensions connect goose to different data sources and tools.
You are capable of dynamically plugging into new extensions and learning how to use them. You solve higher level problems using the tools in these extensions, and can interact with multiple at once.
{% if (extensions is defined) and extensions %}
Because you dynamically load extensions, your conversation history may refer
to interactions with extensions that are not currently active. The currently
active extensions are below. Each of these extensions provides tools that are
in your tool specification.
{% for extension in extensions %}
## {{extension.name}}
{% if extension.has_resources %}
{{extension.name}} supports resources.
{% endif %}
{% if extension.instructions %}### Instructions
{{extension.instructions}}{% endif %}
{% endfor %}
{% else %}
No extensions are defined. You should let the user know that they should add extensions.
{% endif %}
{% if extension_tool_limits is defined and extension_tool_limits %}
# Suggestion

The user has {{extension_tool_limits[0]}} extensions with {{extension_tool_limits[1]}} tools enabled, exceeding recommended limits ({{max_extensions}} extensions or {{max_tools}} tools).
Consider asking if they'd like to disable some extensions to improve tool selection accuracy.
{% endif %}
{% if moim_system_prompt_block is defined and moim_system_prompt_block %}
{{moim_system_prompt_block}}
{% endif %}
# Response Guidelines

Use Markdown formatting for all responses.
";

/// The system prompt when its template cannot be rendered.
pub const FALLBACK_SYSTEM_PROMPT: &'static str =
    "You are a general-purpose AI agent called goose, created by Block";

/// What rendering `template` against the JSON context `context_json`
/// gives: the text, or nothing when either cannot be read or rendering
/// fails.
pub uninterp spec fn rendered_prompt(template: Seq<char>, context_json: Seq<char>) -> Option<Seq<char>>;

/// `minijinja::Environment::render_str` (in a new environment) on
/// `template`, with the context that `serde_json::from_str` reads from
/// `context_json`. The result, or its failure, is a function of the two
/// texts alone.
#[verifier::external_body]
fn render_template_str(template: &str, context_json: &str) -> (r: Option<String>)
    ensures
        r matches Some(s) ==> rendered_prompt(template@, context_json@) == Some(s@),
        r is None ==> rendered_prompt(template@, context_json@) is None,
{
    let context: serde_json::Value = serde_json::from_str(context_json).ok()?;
    minijinja::Environment::new().render_str(template, context).ok()
}

/// The base prompt that `template` gives with the JSON context `json`:
/// the rendered text, or the fallback prompt when rendering fails.
pub open spec fn base_prompt(template: Seq<char>, json: Seq<char>) -> Seq<char> {
    match rendered_prompt(template, json) {
        Some(t) => t,
        None => FALLBACK_SYSTEM_PROMPT@,
    }
}

/// Renders `template` with `ctx`, or gives the fallback prompt.
pub fn render_base(template: &str, ctx: &PromptContext) -> (r: String)
    ensures
        r@ == base_prompt(template@, context_json(*ctx)),
{
    let json = context_json_of(ctx);
    match render_template_str(template, json.as_str()) {
        Some(t) => t,
        None => String::from_str(FALLBACK_SYSTEM_PROMPT),
    }
}

} // verus!
