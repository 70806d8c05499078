//! The system prompt: a template rendered with the enabled extensions and
//! the agent's settings, followed by named additional instructions; and
//! its division into segments for the context report.
use crate::extras_map::{
    entry_texts, index_map_clone, index_map_entries, index_map_insert, index_map_new,
    index_map_shift_remove, index_map_texts, keys_distinct, map_insert, map_insert_all, map_remove,
    sanitize_map, sanitized_entries, Entries,
};
use crate::prompt_context::{
    base_prompt, context_json_parts, ext_view, ext_views, opt_view, render_base,
    ExtView, ExtensionInfo, GooseMode, PromptContext, MAX_EXTENSIONS, MAX_TOOLS,
    SYSTEM_PROMPT_TEMPLATE,
};
use crate::text::{
    contains_seq, contains_str, decimal, is_unicode_tag, join_seqs, join_strings,
    lemma_without_tags_has_no_tags, sanitize_unicode_tags, usize_to_decimal, without_tags,
};
use crate::tool_groups::{
    lemma_seq_less_irreflexive, lemma_seq_less_total, lemma_seq_less_transitive, seq_less,
};
use indexmap::IndexMap;
use vstd::prelude::*;
use vstd::string::*;

verus! {

broadcast use vstd::string::group_string_axioms;

/// The instruction added when the agent may only chat.
pub const CHAT_MODE_INSTRUCTION: &'static str =
    "Right now you are in the chat only mode, no access to any tool use and system.";

/// The start of the text that stands in for an extension's instructions
/// when the report checks whether the template shows them.
pub const CONTEXT_REPORT_EXTENSION_MARKER_PREFIX: &'static str = "__GOOSE_CONTEXT_REPORT_EXTENSION_";

/// The text that stands in for the turn-context block when the report
/// checks whether the template shows it.
pub const CONTEXT_REPORT_MOIM_MARKER: &'static str = "__GOOSE_CONTEXT_REPORT_MOIM__";

/// The separator between the base prompt and the additional instructions.
pub const ADDITIONAL_INSTRUCTIONS_HEADER: &'static str = "\n\n# Additional Instructions:\n\n";

// ---------------------------------------------------------------------
// The clock
// ---------------------------------------------------------------------

/// What `chrono::DateTime::<Utc>::from_timestamp(secs, 0)` formatted
/// with `"%Y-%m-%d %H:%M:%S %:z"` gives: the text, or nothing when the
/// time is out of range.
pub uninterp spec fn utc_seconds_text(secs: int) -> Option<Seq<char>>;

/// What `chrono::DateTime::<Utc>::from_timestamp(secs, 0)` formatted
/// with `"%Y-%m-%d %H:00 %:z"` gives: the hour of that second, or nothing
/// when the time is out of range.
pub uninterp spec fn utc_hour_text(secs: int) -> Option<Seq<char>>;

/// `chrono::Utc::now()` formatted with `"%Y-%m-%d %H:00 %:z"`: the
/// current hour. Which hour depends on the clock, so only its form is
/// stated: it is the hour text of some second.
#[verifier::external_body]
fn current_hour_timestamp() -> (r: String)
    ensures
        exists|secs: int| utc_hour_text(secs) == Some(r@),
{
    chrono::Utc::now().format("%Y-%m-%d %H:00 %:z").to_string()
}

/// `chrono::DateTime::<Utc>::from_timestamp(secs, 0)`, formatted with
/// `"%Y-%m-%d %H:%M:%S %:z"`: a function of `secs` alone.
#[verifier::external_body]
fn utc_timestamp_text(secs: i64) -> (r: Option<String>)
    ensures
        r matches Some(t) ==> utc_seconds_text(secs as int) == Some(t@),
        r is None ==> utc_seconds_text(secs as int) is None,
{
    match chrono::DateTime::<chrono::Utc>::from_timestamp(secs, 0) {
        Some(dt) => Some(dt.format("%Y-%m-%d %H:%M:%S %:z").to_string()),
        None => None,
    }
}

// ---------------------------------------------------------------------
// The prompt manager
// ---------------------------------------------------------------------

/// The system prompt's settings: an optional template that replaces the
/// built-in one, named additional instructions in insertion order, and
/// the timestamp that the prompt shows.
pub struct PromptManager {
    system_prompt_override: Option<String>,
    system_prompt_extras: IndexMap<String, String>,
    current_date_timestamp: String,
}

impl PromptManager {
    /// The template that replaces the built-in one, if any.
    pub closed spec fn override_prompt(&self) -> Option<Seq<char>> {
        opt_view(self.system_prompt_override)
    }

    /// The additional instructions, in order.
    pub closed spec fn extras(&self) -> Entries {
        index_map_entries(self.system_prompt_extras)
    }

    /// The timestamp that the prompt shows.
    pub closed spec fn timestamp(&self) -> Seq<char> {
        self.current_date_timestamp@
    }

    /// No instruction name occurs twice.
    pub open spec fn wf(&self) -> bool {
        keys_distinct(self.extras())
    }

    /// A manager with no override and no additional instructions, showing
    /// the current hour.
    pub fn new() -> (r: PromptManager)
        ensures
            r.wf(),
            r.override_prompt() is None,
            r.extras().len() == 0,
            exists|secs: int| utc_hour_text(secs) == Some(r.timestamp()),
    {
        PromptManager {
            system_prompt_override: None,
            system_prompt_extras: index_map_new(),
            current_date_timestamp: current_hour_timestamp(),
        }
    }

    /// A manager with no override and no additional instructions, showing
    /// the given second (Unix time, UTC); nothing when that time is out
    /// of range.
    pub fn with_timestamp(unix_seconds: i64) -> (r: Option<PromptManager>)
        ensures
            utc_seconds_text(unix_seconds as int) is None <==> r is None,
            r matches Some(m) ==> {
                &&& m.wf()
                &&& m.override_prompt() is None
                &&& m.extras().len() == 0
                &&& Some(m.timestamp()) == utc_seconds_text(unix_seconds as int)
            },
    {
        match utc_timestamp_text(unix_seconds) {
            Some(t) => Some(
                PromptManager {
                    system_prompt_override: None,
                    system_prompt_extras: index_map_new(),
                    current_date_timestamp: t,
                },
            ),
            None => None,
        }
    }

    /// Sets the instruction named `key`: a present name keeps its place
    /// and takes the new text, a new one goes last.
    pub fn add_system_prompt_extra(&mut self, key: String, instruction: String)
        requires
            old(self).wf(),
        ensures
            final(self).wf(),
            final(self).extras() == map_insert(old(self).extras(), key@, instruction@),
            final(self).override_prompt() == old(self).override_prompt(),
            final(self).timestamp() == old(self).timestamp(),
    {
        index_map_insert(&mut self.system_prompt_extras, key, instruction);
    }

    /// Removes the instruction named `key`, if present; the others keep
    /// their order.
    pub fn remove_system_prompt_extra(&mut self, key: &str)
        requires
            old(self).wf(),
        ensures
            final(self).wf(),
            final(self).extras() == map_remove(old(self).extras(), key@),
            final(self).override_prompt() == old(self).override_prompt(),
            final(self).timestamp() == old(self).timestamp(),
    {
        index_map_shift_remove(&mut self.system_prompt_extras, key);
    }

    /// Sets each newly found directory hint, in order, as an instruction;
    /// whether there was any.
    pub fn load_subdirectory_hints(&mut self, new_hints: Vec<(String, String)>) -> (r: bool)
        requires
            old(self).wf(),
        ensures
            final(self).wf(),
            r == (new_hints@.len() > 0),
            final(self).extras() == map_insert_all(
                old(self).extras(),
                new_hints@.map_values(|p: (String, String)| (p.0@, p.1@)),
            ),
            final(self).override_prompt() == old(self).override_prompt(),
            final(self).timestamp() == old(self).timestamp(),
    {
        let ghost pairs = new_hints@.map_values(|p: (String, String)| (p.0@, p.1@));
        let ghost start = self.extras();
        let has_new = new_hints.len() > 0;
        let n = new_hints.len();
        let mut rest = new_hints;
        let mut i: usize = 0;
        proof {
            assert(pairs.take(0) =~= Seq::<(Seq<char>, Seq<char>)>::empty());
        }
        while i < n
            invariant
                n == pairs.len(),
                i <= n,
                rest@.len() == n - i,
                forall|k: int| 0 <= k < rest@.len() ==> (#[trigger] rest@[k]).0@ == pairs[i + k].0
                    && rest@[k].1@ == pairs[i + k].1,
                self.wf(),
                self.extras() == map_insert_all(start, pairs.take(i as int)),
                self.override_prompt() == old(self).override_prompt(),
                self.timestamp() == old(self).timestamp(),
            decreases n - i,
        {
            let (key, content) = rest.remove(0);
            proof {
                assert(pairs.take(i as int + 1).drop_last() =~= pairs.take(i as int));
            }
            index_map_insert(&mut self.system_prompt_extras, key, content);
            i = i + 1;
        }
        proof {
            assert(pairs.take(n as int) =~= pairs);
        }
        has_new
    }

    /// Replaces the built-in template with `template`.
    pub fn set_system_prompt_override(&mut self, template: String)
        requires
            old(self).wf(),
        ensures
            final(self).wf(),
            final(self).override_prompt() == Some(template@),
            final(self).extras() == old(self).extras(),
            final(self).timestamp() == old(self).timestamp(),
    {
        self.system_prompt_override = Some(template);
    }

    /// Goes back to the built-in template.
    pub fn clear_system_prompt_override(&mut self)
        requires
            old(self).wf(),
        ensures
            final(self).wf(),
            final(self).override_prompt() is None,
            final(self).extras() == old(self).extras(),
            final(self).timestamp() == old(self).timestamp(),
    {
        self.system_prompt_override = None;
    }

    /// A builder for this manager's prompt, with nothing added yet.
    pub fn builder<'a>(&'a self) -> (r: SystemPromptBuilder<'a, PromptManager>)
        ensures
            r.manager() == *self,
            r.extensions().len() == 0,
            r.frontend() is None,
            r.tool_counts() is None,
            !r.subagents(),
            r.hints() is None,
            !r.code_execution(),
            r.mode() is None,
    {
        SystemPromptBuilder {
            manager: self,
            extensions_info: Vec::new(),
            frontend_instructions: None,
            extension_tool_count: None,
            subagents_enabled: false,
            hints: None,
            code_execution_mode: false,
            goose_mode: None,
        }
    }
}

impl Default for PromptManager {
    fn default() -> (r: PromptManager)
        ensures
            r.wf(),
            r.override_prompt() is None,
            r.extras().len() == 0,
            exists|secs: int| utc_hour_text(secs) == Some(r.timestamp()),
    {
        PromptManager::new()
    }
}

// ---------------------------------------------------------------------
// Specifications of the prompt
// ---------------------------------------------------------------------

/// Inserts `e` into a list sorted by name, after every extension whose
/// name is not greater.
pub open spec fn insert_by_name(sorted: Seq<ExtView>, e: ExtView) -> Seq<ExtView>
    decreases sorted.len(),
{
    if sorted.len() == 0 {
        seq![e]
    } else if seq_less(e.0, sorted.last().0) {
        insert_by_name(sorted.drop_last(), e).push(sorted.last())
    } else {
        sorted.push(e)
    }
}

/// The extensions sorted by name; extensions of equal names keep their
/// order.
pub open spec fn sort_by_name(s: Seq<ExtView>) -> Seq<ExtView>
    decreases s.len(),
{
    if s.len() == 0 {
        s
    } else {
        insert_by_name(sort_by_name(s.drop_last()), s.last())
    }
}

/// The extensions with the front end's instructions, if any, as an
/// extension named `frontend`.
pub open spec fn with_frontend(exts: Seq<ExtView>, frontend: Option<Seq<char>>) -> Seq<ExtView> {
    match frontend {
        Some(f) => exts.push(("frontend"@, f, false)),
        None => exts,
    }
}

/// An extension with its instructions sanitised.
pub open spec fn sanitize_view(e: ExtView) -> ExtView {
    (e.0, without_tags(e.1), e.2)
}

/// The extensions that the prompt lists: the front end added, sorted by
/// name, instructions sanitised.
pub open spec fn prepared(exts: Seq<ExtView>, frontend: Option<Seq<char>>) -> Seq<ExtView> {
    sort_by_name(with_frontend(exts, frontend)).map_values(|e: ExtView| sanitize_view(e))
}

/// The counts, when more extensions or tools are enabled than
/// recommended.
pub open spec fn tool_limits(c: Option<(usize, usize)>) -> Option<(usize, usize)> {
    match c {
        Some((e, t)) => if e > MAX_EXTENSIONS || t > MAX_TOOLS {
            Some((e, t))
        } else {
            None
        },
        None => None,
    }
}

/// The prompt warns of too many extensions or tools exactly when the
/// extensions exceed `MAX_EXTENSIONS` or the tools exceed `MAX_TOOLS`,
/// and then shows both counts as they are.
pub proof fn lemma_tool_limits_warn(e: usize, t: usize)
    ensures
        e > MAX_EXTENSIONS ==> tool_limits(Some((e, t))) == Some((e, t)),
        t > MAX_TOOLS ==> tool_limits(Some((e, t))) == Some((e, t)),
        e <= MAX_EXTENSIONS && t <= MAX_TOOLS ==> tool_limits(Some((e, t))) is None,
        tool_limits(None) is None,
{
}

/// The mode: the one set on the builder, else the configured one.
pub open spec fn resolved_mode(set: Option<GooseMode>, configured: GooseMode) -> GooseMode {
    match set {
        Some(m) => m,
        None => configured,
    }
}

/// The template rendered: the override, sanitised, or the built-in one.
pub open spec fn base_template(override_prompt: Option<Seq<char>>) -> Seq<char> {
    match override_prompt {
        Some(o) => without_tags(o),
        None => SYSTEM_PROMPT_TEMPLATE@,
    }
}

/// The additional instructions as the prompt shows them: the manager's,
/// then the hints and the chat-mode instruction as named entries, every
/// text sanitised.
pub open spec fn final_extras(extras: Entries, hints: Option<Seq<char>>, mode: GooseMode) -> Entries {
    let with_hints = match hints {
        Some(h) => map_insert(extras, "hints"@, h),
        None => extras,
    };
    let with_mode = if mode == GooseMode::Chat {
        map_insert(with_hints, "chat_mode"@, CHAT_MODE_INSTRUCTION@)
    } else {
        with_hints
    };
    sanitized_entries(with_mode)
}

/// The prompt: the base, and, when there are additional instructions,
/// their texts under a heading, separated by blank lines.
pub open spec fn built_prompt(base: Seq<char>, extras: Entries) -> Seq<char> {
    if extras.len() == 0 {
        base
    } else {
        base + ADDITIONAL_INSTRUCTIONS_HEADER@ + join_seqs(entry_texts(extras), "\n\n"@)
    }
}

/// The text that stands in for the instructions of extension `i`.
pub open spec fn extension_marker(i: int) -> Seq<char> {
    CONTEXT_REPORT_EXTENSION_MARKER_PREFIX@ + decimal(i as nat) + "__"@
}

/// The extensions with each one's instructions replaced by its marker.
pub open spec fn marked(p: Seq<ExtView>) -> Seq<ExtView> {
    p.map(|i: int, e: ExtView| (e.0, extension_marker(i), e.2))
}

/// The extensions with their instructions left empty.
pub open spec fn blanked(p: Seq<ExtView>) -> Seq<ExtView> {
    p.map_values(|e: ExtView| (e.0, Seq::<char>::empty(), e.2))
}

/// The name and instructions of each extension whose marker occurs in
/// `rendered` and whose instructions are not empty, in order.
pub open spec fn shown_instructions(p: Seq<ExtView>, rendered: Seq<char>) -> Entries
    decreases p.len(),
{
    if p.len() == 0 {
        Seq::empty()
    } else {
        let rest = shown_instructions(p.drop_last(), rendered);
        if contains_seq(rendered, extension_marker(p.len() - 1)) && p.last().1.len() > 0 {
            rest.push((p.last().0, p.last().1))
        } else {
            rest
        }
    }
}

// ---------------------------------------------------------------------
// Sorting
// ---------------------------------------------------------------------

proof fn lemma_insert_by_name_at(s: Seq<ExtView>, e: ExtView, p: int)
    requires
        0 <= p <= s.len(),
        forall|k: int| p <= k < s.len() ==> seq_less(e.0, #[trigger] s[k].0),
        p > 0 ==> !seq_less(e.0, s[p - 1].0),
    ensures
        insert_by_name(s, e) == s.take(p).push(e) + s.skip(p),
    decreases s.len(),
{
    if s.len() == p {
        assert(s.take(p).push(e) + s.skip(p) =~= s.push(e));
        if p == 0 {
            assert(s.push(e) =~= seq![e]);
        }
    } else {
        let d = s.drop_last();
        assert forall|k: int| p <= k < d.len() implies seq_less(e.0, #[trigger] d[k].0) by {
            assert(d[k] == s[k]);
        }
        if p > 0 {
            assert(d[p - 1] == s[p - 1]);
        }
        lemma_insert_by_name_at(d, e, p);
        assert(seq_less(e.0, s[s.len() - 1].0));
        assert((d.take(p).push(e) + d.skip(p)).push(s.last()) =~= s.take(p).push(e) + s.skip(p));
    }
}

/// The names of a list never decrease.
pub open spec fn sorted_by_name(s: Seq<ExtView>) -> bool {
    forall|i: int, j: int| 0 <= i < j < s.len() ==> !seq_less(s[j].0, s[i].0)
}

proof fn lemma_insert_by_name_sorted(s: Seq<ExtView>, e: ExtView)
    requires
        sorted_by_name(s),
    ensures
        sorted_by_name(insert_by_name(s, e)),
        insert_by_name(s, e).len() == s.len() + 1,
        insert_by_name(s, e).to_multiset() == s.to_multiset().insert(e),
    decreases s.len(),
{
    broadcast use vstd::seq_lib::group_to_multiset_ensures;

    if s.len() == 0 {
        assert(seq![e] =~= Seq::<ExtView>::empty().push(e));
    } else {
        let d = s.drop_last();
        let l = s.last();
        assert(s =~= d.push(l));
        if seq_less(e.0, l.0) {
            assert(sorted_by_name(d));
            lemma_insert_by_name_sorted(d, e);
            let r = insert_by_name(d, e);
            assert forall|i: int, j: int| 0 <= i < j < r.push(l).len() implies !seq_less(
                r.push(l)[j].0,
                r.push(l)[i].0,
            ) by {
                if j == r.len() {
                    let x = r[i];
                    assert(r.to_multiset().count(x) > 0);
                    assert(d.to_multiset().insert(e).count(x) > 0);
                    if x == e {
                        lemma_seq_less_asym(e.0, l.0);
                    } else {
                        assert(d.to_multiset().count(x) > 0);
                        assert(d.contains(x));
                        let m = choose|m: int| 0 <= m < d.len() && d[m] == x;
                        assert(s[m] == x);
                        assert(!seq_less(s[s.len() - 1].0, s[m].0));
                    }
                }
            }
        } else {
            assert forall|i: int, j: int| 0 <= i < j < s.push(e).len() implies !seq_less(
                s.push(e)[j].0,
                s.push(e)[i].0,
            ) by {
                if j == s.len() && i < s.len() - 1 {
                    assert(!seq_less(s[s.len() - 1].0, s[i].0));
                    lemma_seq_less_total(s[i].0, s[s.len() - 1].0);
                    if seq_less(e.0, s[i].0) {
                        if s[i].0 == s[s.len() - 1].0 {
                        } else {
                            lemma_seq_less_transitive(e.0, s[i].0, s[s.len() - 1].0);
                        }
                    }
                }
            }
        }
    }
}

proof fn lemma_seq_less_asym(a: Seq<char>, b: Seq<char>)
    requires
        seq_less(a, b),
    ensures
        !seq_less(b, a),
{
    if seq_less(b, a) {
        lemma_seq_less_transitive(a, b, a);
        lemma_seq_less_irreflexive(a);
    }
}

/// Sorting by name gives the same extensions, each as often, with names
/// that never decrease.
pub proof fn lemma_sort_by_name(s: Seq<ExtView>)
    ensures
        sorted_by_name(sort_by_name(s)),
        sort_by_name(s).to_multiset() == s.to_multiset(),
    decreases s.len(),
{
    broadcast use vstd::seq_lib::group_to_multiset_ensures;

    if s.len() > 0 {
        lemma_sort_by_name(s.drop_last());
        lemma_insert_by_name_sorted(sort_by_name(s.drop_last()), s.last());
        assert(s =~= s.drop_last().push(s.last()));
    }
}

/// The extensions that the prompt lists are in name order, and their
/// instructions hold no Unicode tag character.
pub proof fn lemma_prepared_sorted_and_clean(exts: Seq<ExtView>, frontend: Option<Seq<char>>)
    ensures
        sorted_by_name(prepared(exts, frontend)),
        prepared(exts, frontend).len() == with_frontend(exts, frontend).len(),
        forall|i: int, c: int|
            0 <= i < prepared(exts, frontend).len() && 0 <= c < prepared(exts, frontend)[i].1.len()
                ==> !is_unicode_tag(#[trigger] prepared(exts, frontend)[i].1[c]),
{
    broadcast use vstd::seq_lib::group_to_multiset_ensures;

    let w = with_frontend(exts, frontend);
    lemma_sort_by_name(w);
    let srt = sort_by_name(w);
    assert(srt.len() == w.len()) by {
        assert(srt.to_multiset().len() == w.to_multiset().len());
    }
    let p = prepared(exts, frontend);
    assert forall|i: int, c: int| 0 <= i < p.len() && 0 <= c < p[i].1.len() implies !is_unicode_tag(
        #[trigger] p[i].1[c],
    ) by {
        lemma_without_tags_has_no_tags(srt[i].1);
    }
}

/// The additional instructions of the prompt hold no Unicode tag
/// character, whatever the manager, the hints and the mode hold.
pub proof fn lemma_final_extras_clean(extras: Entries, hints: Option<Seq<char>>, mode: GooseMode)
    ensures
        forall|i: int, c: int|
            0 <= i < final_extras(extras, hints, mode).len() && 0 <= c < final_extras(
                extras,
                hints,
                mode,
            )[i].1.len() ==> !is_unicode_tag(#[trigger] final_extras(extras, hints, mode)[i].1[c]),
{
    let f = final_extras(extras, hints, mode);
    assert forall|i: int, c: int| 0 <= i < f.len() && 0 <= c < f[i].1.len() implies !is_unicode_tag(
        #[trigger] f[i].1[c],
    ) by {
        let with_hints = match hints {
            Some(h) => map_insert(extras, "hints"@, h),
            None => extras,
        };
        let with_mode = if mode == GooseMode::Chat {
            map_insert(with_hints, "chat_mode"@, CHAT_MODE_INSTRUCTION@)
        } else {
            with_hints
        };
        lemma_without_tags_has_no_tags(with_mode[i].1);
    }
}

/// `exts` sorted by name, equal names keeping their order.
fn sort_extensions(exts: Vec<ExtensionInfo>) -> (r: Vec<ExtensionInfo>)
    ensures
        ext_views(r@) == sort_by_name(ext_views(exts@)),
{
    let ghost input = ext_views(exts@);
    let n = exts.len();
    let mut rest = exts;
    let mut sorted: Vec<ExtensionInfo> = Vec::new();
    let mut i: usize = 0;
    proof {
        assert(input.take(0) =~= Seq::<ExtView>::empty());
    }
    while i < n
        invariant
            n == input.len(),
            i <= n,
            rest@.len() == n - i,
            forall|k: int| 0 <= k < rest@.len() ==> ext_view(#[trigger] rest@[k]) == input[i + k],
            ext_views(sorted@) == sort_by_name(input.take(i as int)),
        decreases n - i,
    {
        let e = rest.remove(0);
        let ghost sv = ext_views(sorted@);
        let mut p = sorted.len();
        while p > 0 && crate::report_tools::str_less(e.name.as_str(), sorted[p - 1].name.as_str())
            invariant
                p <= sorted@.len(),
                sv == ext_views(sorted@),
                forall|k: int| p <= k < sv.len() ==> seq_less(e.name@, #[trigger] sv[k].0),
            decreases p,
        {
            p = p - 1;
        }
        proof {
            assert(input.take(i as int + 1).drop_last() =~= input.take(i as int));
            assert(input.take(i as int + 1).last() == ext_view(e));
            lemma_insert_by_name_at(sv, ext_view(e), p as int);
        }
        sorted.insert(p, e);
        proof {
            assert(ext_views(sorted@) =~= sv.take(p as int).push(ext_view(e)) + sv.skip(p as int));
        }
        i = i + 1;
    }
    proof {
        assert(input.take(n as int) =~= input);
    }
    sorted
}

// ---------------------------------------------------------------------
// The builder
// ---------------------------------------------------------------------

/// Collects what the system prompt shows beyond the manager's settings.
pub struct SystemPromptBuilder<'a, M> {
    manager: &'a M,
    extensions_info: Vec<ExtensionInfo>,
    frontend_instructions: Option<String>,
    extension_tool_count: Option<(usize, usize)>,
    subagents_enabled: bool,
    hints: Option<String>,
    code_execution_mode: bool,
    goose_mode: Option<GooseMode>,
}

/// The parts of the system prompt that the context report accounts for
/// one by one.
pub struct SystemPromptSegments {
    pub base_template_blanked: String,
    pub base_is_override: bool,
    pub moim_block: Option<String>,
    pub extension_instructions: Vec<(String, String)>,
    pub extras: IndexMap<String, String>,
}

impl<'a> SystemPromptBuilder<'a, PromptManager> {
    /// The manager whose prompt is built.
    pub closed spec fn manager(&self) -> PromptManager {
        *self.manager
    }

    /// The extensions added, in order.
    pub closed spec fn extensions(&self) -> Seq<ExtView> {
        ext_views(self.extensions_info@)
    }

    /// The front end's instructions, if set.
    pub closed spec fn frontend(&self) -> Option<Seq<char>> {
        opt_view(self.frontend_instructions)
    }

    /// The numbers of enabled extensions and tools, if set.
    pub closed spec fn tool_counts(&self) -> Option<(usize, usize)> {
        self.extension_tool_count
    }

    /// Whether subagents are enabled.
    pub closed spec fn subagents(&self) -> bool {
        self.subagents_enabled
    }

    /// The hints, if any were found.
    pub closed spec fn hints(&self) -> Option<Seq<char>> {
        opt_view(self.hints)
    }

    /// Whether code execution mode is on.
    pub closed spec fn code_execution(&self) -> bool {
        self.code_execution_mode
    }

    /// The mode, if set.
    pub closed spec fn mode(&self) -> Option<GooseMode> {
        self.goose_mode
    }

    /// Everything but the extensions is as in `other`.
    pub open spec fn same_settings(&self, other: Self) -> bool {
        &&& self.manager() == other.manager()
        &&& self.frontend() == other.frontend()
        &&& self.tool_counts() == other.tool_counts()
        &&& self.subagents() == other.subagents()
        &&& self.hints() == other.hints()
        &&& self.code_execution() == other.code_execution()
        &&& self.mode() == other.mode()
    }

    /// What the template gives for these extensions, mode and turn-context
    /// block, with the builder's other settings.
    pub open spec fn rendered_with(&self, exts: Seq<ExtView>, mode: GooseMode, moim: Option<Seq<char>>) -> Seq<char> {
        base_prompt(
            base_template(self.manager().override_prompt()),
            context_json_parts(
                exts,
                self.manager().timestamp(),
                tool_limits(self.tool_counts()),
                mode,
                self.subagents(),
                self.code_execution(),
                moim,
            ),
        )
    }

    /// Adds an extension.
    pub fn with_extension(self, extension: ExtensionInfo) -> (r: Self)
        ensures
            r.extensions() == self.extensions().push(ext_view(extension)),
            r.same_settings(self),
    {
        let mut s = self;
        s.extensions_info.push(extension);
        proof {
            assert(ext_views(s.extensions_info@) =~= self.extensions().push(ext_view(extension)));
        }
        s
    }

    /// Adds extensions, in order.
    pub fn with_extensions(self, extensions: Vec<ExtensionInfo>) -> (r: Self)
        ensures
            r.extensions() == self.extensions() + ext_views(extensions@),
            r.same_settings(self),
    {
        let mut s = self;
        let mut rest = extensions;
        let ghost all = ext_views(extensions@);
        let n = rest.len();
        let mut i: usize = 0;
        proof {
            assert(all.take(0) =~= Seq::<ExtView>::empty());
            assert(self.extensions() + all.take(0) =~= self.extensions());
        }
        while i < n
            invariant
                n == all.len(),
                i <= n,
                rest@.len() == n - i,
                forall|k: int| 0 <= k < rest@.len() ==> ext_view(#[trigger] rest@[k]) == all[i + k],
                ext_views(s.extensions_info@) == self.extensions() + all.take(i as int),
                s.same_settings(self),
            decreases n - i,
        {
            let e = rest.remove(0);
            let ghost before = ext_views(s.extensions_info@);
            s.extensions_info.push(e);
            proof {
                assert(ext_views(s.extensions_info@) =~= before.push(ext_view(e)));
                assert(self.extensions() + all.take(i as int + 1) =~= (self.extensions() + all.take(
                    i as int,
                )).push(all[i as int]));
            }
            i = i + 1;
        }
        proof {
            assert(all.take(n as int) =~= all);
        }
        s
    }

    /// Sets the front end's instructions (none to unset them).
    pub fn with_frontend_instructions(self, frontend_instructions: Option<String>) -> (r: Self)
        ensures
            r.frontend() == opt_view(frontend_instructions),
            r.extensions() == self.extensions(),
            r.manager() == self.manager(),
            r.tool_counts() == self.tool_counts(),
            r.subagents() == self.subagents(),
            r.hints() == self.hints(),
            r.code_execution() == self.code_execution(),
            r.mode() == self.mode(),
    {
        let mut s = self;
        s.frontend_instructions = frontend_instructions;
        s
    }

    /// Sets the numbers of enabled extensions and tools.
    pub fn with_extension_and_tool_counts(self, extension_count: usize, tool_count: usize) -> (r:
        Self)
        ensures
            r.tool_counts() == Some((extension_count, tool_count)),
            r.extensions() == self.extensions(),
            r.manager() == self.manager(),
            r.frontend() == self.frontend(),
            r.subagents() == self.subagents(),
            r.hints() == self.hints(),
            r.code_execution() == self.code_execution(),
            r.mode() == self.mode(),
    {
        let mut s = self;
        s.extension_tool_count = Some((extension_count, tool_count));
        s
    }

    /// Turns code execution mode on or off.
    pub fn with_code_execution_mode(self, enabled: bool) -> (r: Self)
        ensures
            r.code_execution() == enabled,
            r.extensions() == self.extensions(),
            r.manager() == self.manager(),
            r.frontend() == self.frontend(),
            r.tool_counts() == self.tool_counts(),
            r.subagents() == self.subagents(),
            r.hints() == self.hints(),
            r.mode() == self.mode(),
    {
        let mut s = self;
        s.code_execution_mode = enabled;
        s
    }

    /// Sets the hints loaded from the working directory, unless there
    /// were none.
    pub fn with_hints(self, hints: String) -> (r: Self)
        ensures
            r.hints() == if hints@.len() > 0 {
                Some(hints@)
            } else {
                self.hints()
            },
            r.extensions() == self.extensions(),
            r.manager() == self.manager(),
            r.frontend() == self.frontend(),
            r.tool_counts() == self.tool_counts(),
            r.subagents() == self.subagents(),
            r.code_execution() == self.code_execution(),
            r.mode() == self.mode(),
    {
        let mut s = self;
        if hints.as_str().unicode_len() > 0 {
            s.hints = Some(hints);
        }
        s
    }

    /// Sets the hints combined from their sources, unless there were
    /// none.
    pub fn with_hint_sources(self, combined: String) -> (r: Self)
        ensures
            r.hints() == if combined@.len() > 0 {
                Some(combined@)
            } else {
                self.hints()
            },
            r.extensions() == self.extensions(),
            r.manager() == self.manager(),
            r.frontend() == self.frontend(),
            r.tool_counts() == self.tool_counts(),
            r.subagents() == self.subagents(),
            r.code_execution() == self.code_execution(),
            r.mode() == self.mode(),
    {
        self.with_hints(combined)
    }

    /// Enables or disables subagents.
    pub fn with_enable_subagents(self, subagents_enabled: bool) -> (r: Self)
        ensures
            r.subagents() == subagents_enabled,
            r.extensions() == self.extensions(),
            r.manager() == self.manager(),
            r.frontend() == self.frontend(),
            r.tool_counts() == self.tool_counts(),
            r.hints() == self.hints(),
            r.code_execution() == self.code_execution(),
            r.mode() == self.mode(),
    {
        let mut s = self;
        s.subagents_enabled = subagents_enabled;
        s
    }

    /// Sets the mode.
    pub fn with_goose_mode(self, mode: GooseMode) -> (r: Self)
        ensures
            r.mode() == Some(mode),
            r.extensions() == self.extensions(),
            r.manager() == self.manager(),
            r.frontend() == self.frontend(),
            r.tool_counts() == self.tool_counts(),
            r.subagents() == self.subagents(),
            r.hints() == self.hints(),
            r.code_execution() == self.code_execution(),
    {
        let mut s = self;
        s.goose_mode = Some(mode);
        s
    }

    /// The mode: the one set on the builder, else the configured one.
    fn resolved_goose_mode(&self, configured_mode: GooseMode) -> (r: GooseMode)
        ensures
            r == resolved_mode(self.mode(), configured_mode),
    {
        match self.goose_mode {
            Some(m) => m,
            None => configured_mode,
        }
    }

    /// The extensions that the prompt lists.
    fn prepared_extensions(&self) -> (r: Vec<ExtensionInfo>)
        ensures
            ext_views(r@) == prepared(self.extensions(), self.frontend()),
    {
        let mut exts: Vec<ExtensionInfo> = Vec::new();
        let mut i: usize = 0;
        while i < self.extensions_info.len()
            invariant
                i <= self.extensions_info.len(),
                exts@.len() == i,
                ext_views(exts@) == ext_views(self.extensions_info@.take(i as int)),
            decreases self.extensions_info.len() - i,
        {
            let ghost before = exts@;
            exts.push(self.extensions_info[i].clone());
            proof {
                assert forall|k: int| 0 <= k < i + 1 implies #[trigger] ext_views(exts@)[k]
                    == ext_views(self.extensions_info@.take(i as int + 1))[k] by {
                    if k < i {
                        assert(exts@[k] == before[k]);
                        assert(ext_views(before)[k] == ext_views(self.extensions_info@.take(i as int))[k]);
                    }
                }
                assert(ext_views(exts@) =~= ext_views(self.extensions_info@.take(i as int + 1)));
            }
            i = i + 1;
        }
        proof {
            assert(self.extensions_info@.take(self.extensions_info.len() as int)
                =~= self.extensions_info@);
        }
        match &self.frontend_instructions {
            Some(f) => {
                let ghost before = ext_views(exts@);
                exts.push(ExtensionInfo::new("frontend", f.as_str(), false));
                proof {
                    assert(ext_views(exts@) =~= before.push(("frontend"@, f@, false)));
                }
            },
            None => {},
        }
        let sorted = sort_extensions(exts);
        let mut out: Vec<ExtensionInfo> = Vec::new();
        let mut j: usize = 0;
        while j < sorted.len()
            invariant
                j <= sorted.len(),
                out@.len() == j,
                ext_views(out@) == ext_views(sorted@.take(j as int)).map_values(
                    |e: ExtView| sanitize_view(e),
                ),
            decreases sorted.len() - j,
        {
            let ghost before = out@;
            let e = &sorted[j];
            let clean = ExtensionInfo {
                name: e.name.clone(),
                instructions: sanitize_unicode_tags(e.instructions.as_str()),
                has_resources: e.has_resources,
            };
            out.push(clean);
            proof {
                assert forall|k: int| 0 <= k < j + 1 implies #[trigger] ext_views(out@)[k]
                    == ext_views(sorted@.take(j as int + 1)).map_values(
                    |e: ExtView| sanitize_view(e),
                )[k] by {
                    if k < j {
                        assert(out@[k] == before[k]);
                        assert(ext_views(before)[k] == ext_views(sorted@.take(j as int)).map_values(
                            |e: ExtView| sanitize_view(e),
                        )[k]);
                    }
                }
                assert(ext_views(out@) =~= ext_views(sorted@.take(j as int + 1)).map_values(
                    |e: ExtView| sanitize_view(e),
                ));
            }
            j = j + 1;
        }
        proof {
            assert(sorted@.take(sorted.len() as int) =~= sorted@);
        }
        out
    }

    /// The counts, when more extensions or tools are enabled than
    /// recommended.
    fn extension_tool_limits(&self) -> (r: Option<(usize, usize)>)
        ensures
            r == tool_limits(self.tool_counts()),
    {
        match self.extension_tool_count {
            Some((e, t)) => if e > MAX_EXTENSIONS || t > MAX_TOOLS {
                Some((e, t))
            } else {
                None
            },
            None => None,
        }
    }

    /// The template rendered with these extensions, mode and turn-context
    /// block.
    fn render_base(&self, extensions: Vec<ExtensionInfo>, mode: GooseMode, moim: Option<String>) -> (r:
        String)
        ensures
            r@ == self.rendered_with(ext_views(extensions@), mode, opt_view(moim)),
    {
        let template = match &self.manager.system_prompt_override {
            Some(o) => sanitize_unicode_tags(o.as_str()),
            None => String::from_str(SYSTEM_PROMPT_TEMPLATE),
        };
        let ctx = PromptContext {
            extensions,
            current_date_time: self.manager.current_date_timestamp.clone(),
            extension_tool_limits: self.extension_tool_limits(),
            goose_mode: mode,
            enable_subagents: self.subagents_enabled,
            code_execution_mode: self.code_execution_mode,
            moim_system_prompt_block: moim,
        };
        render_base(template.as_str(), &ctx)
    }

    /// The additional instructions as the prompt shows them.
    fn finalize_extras(&self, mode: GooseMode) -> (r: IndexMap<String, String>)
        requires
            self.manager().wf(),
        ensures
            index_map_entries(r) == final_extras(self.manager().extras(), self.hints(), mode),
            keys_distinct(index_map_entries(r)),
    {
        let mut extras = index_map_clone(&self.manager.system_prompt_extras);
        match &self.hints {
            Some(h) => {
                index_map_insert(&mut extras, String::from_str("hints"), h.clone());
            },
            None => {},
        }
        match mode {
            GooseMode::Chat => {
                index_map_insert(
                    &mut extras,
                    String::from_str("chat_mode"),
                    String::from_str(CHAT_MODE_INSTRUCTION),
                );
            },
            _ => {},
        }
        sanitize_map(&extras)
    }

    /// The system prompt: the template rendered with the prepared
    /// extensions, the turn-context block and the other settings (the
    /// mode set on the builder, else `configured_mode`), followed by the
    /// additional instructions when there are any.
    pub fn build(self, configured_mode: GooseMode, moim_block: Option<String>) -> (r: String)
        requires
            self.manager().wf(),
        ensures
            ({
                let mode = resolved_mode(self.mode(), configured_mode);
                r@ == built_prompt(
                    self.rendered_with(
                        prepared(self.extensions(), self.frontend()),
                        mode,
                        opt_view(moim_block),
                    ),
                    final_extras(self.manager().extras(), self.hints(), mode),
                )
            }),
    {
        let mode = self.resolved_goose_mode(configured_mode);
        let prepared_exts = self.prepared_extensions();
        let base_prompt = self.render_base(prepared_exts, mode, moim_block);
        let extras = self.finalize_extras(mode);
        let texts = index_map_texts(&extras);
        if texts.len() == 0 {
            base_prompt
        } else {
            let mut r = base_prompt;
            r.append(ADDITIONAL_INSTRUCTIONS_HEADER);
            let joined = join_strings(&texts, "\n\n");
            r.append(joined.as_str());
            r
        }
    }

    /// The marker of extension `i`.
    fn marker_of(i: usize) -> (r: String)
        ensures
            r@ == extension_marker(i as int),
    {
        let mut r = String::from_str(CONTEXT_REPORT_EXTENSION_MARKER_PREFIX);
        let digits = usize_to_decimal(i);
        r.append(digits.as_str());
        r.append("__");
        r
    }

    /// For each extension, whether the template shows its instructions:
    /// whether its marker occurs when the markers stand in for them.
    fn rendered_extension_instructions(&self, extensions: &Vec<ExtensionInfo>, mode: GooseMode) -> (r:
        Vec<bool>)
        ensures
            r@.len() == extensions@.len(),
            forall|i: int|
                0 <= i < r@.len() ==> #[trigger] r@[i] == contains_seq(
                    self.rendered_with(marked(ext_views(extensions@)), mode, None),
                    extension_marker(i),
                ),
    {
        let ghost p = ext_views(extensions@);
        let mut markers: Vec<String> = Vec::new();
        let mut marked_exts: Vec<ExtensionInfo> = Vec::new();
        let mut i: usize = 0;
        while i < extensions.len()
            invariant
                p == ext_views(extensions@),
                i <= extensions.len(),
                markers@.len() == i,
                marked_exts@.len() == i,
                forall|k: int| 0 <= k < i ==> (#[trigger] markers@[k])@ == extension_marker(k),
                forall|k: int| 0 <= k < i ==> ext_view(#[trigger] marked_exts@[k]) == marked(p)[k],
            decreases extensions.len() - i,
        {
            let marker = Self::marker_of(i);
            let e = &extensions[i];
            marked_exts.push(
                ExtensionInfo {
                    name: e.name.clone(),
                    instructions: marker.clone(),
                    has_resources: e.has_resources,
                },
            );
            markers.push(marker);
            i = i + 1;
        }
        proof {
            assert(ext_views(marked_exts@) =~= marked(p));
        }
        let rendered = self.render_base(marked_exts, mode, None);
        let mut flags: Vec<bool> = Vec::new();
        let mut j: usize = 0;
        while j < markers.len()
            invariant
                j <= markers.len(),
                markers@.len() == extensions@.len(),
                rendered@ == self.rendered_with(marked(p), mode, None),
                forall|k: int| 0 <= k < markers@.len() ==> (#[trigger] markers@[k])@ == extension_marker(k),
                flags@.len() == j,
                forall|k: int|
                    0 <= k < j ==> #[trigger] flags@[k] == contains_seq(rendered@, extension_marker(k)),
            decreases markers.len() - j,
        {
            let found = contains_str(rendered.as_str(), markers[j].as_str());
            flags.push(found);
            j = j + 1;
        }
        flags
    }

    /// Whether the template shows the turn-context block.
    fn renders_moim_block(&self, extensions: Vec<ExtensionInfo>, mode: GooseMode) -> (r: bool)
        ensures
            r == contains_seq(
                self.rendered_with(ext_views(extensions@), mode, Some(CONTEXT_REPORT_MOIM_MARKER@)),
                CONTEXT_REPORT_MOIM_MARKER@,
            ),
    {
        let rendered = self.render_base(
            extensions,
            mode,
            Some(String::from_str(CONTEXT_REPORT_MOIM_MARKER)),
        );
        contains_str(rendered.as_str(), CONTEXT_REPORT_MOIM_MARKER)
    }

    /// The system prompt in parts: the template rendered with every
    /// extension's instructions left empty; whether the template is the
    /// override; the turn-context block, when the template shows it; the
    /// name and instructions of each extension whose instructions the
    /// template shows and are not empty; and the additional instructions.
    pub fn build_segments(self, configured_mode: GooseMode, moim_block: Option<String>) -> (r:
        SystemPromptSegments)
        requires
            self.manager().wf(),
        ensures
            ({
                let mode = resolved_mode(self.mode(), configured_mode);
                let p = prepared(self.extensions(), self.frontend());
                &&& r.base_template_blanked@ == self.rendered_with(blanked(p), mode, None)
                &&& r.base_is_override == self.manager().override_prompt() is Some
                &&& opt_view(r.moim_block) == if contains_seq(
                    self.rendered_with(p, mode, Some(CONTEXT_REPORT_MOIM_MARKER@)),
                    CONTEXT_REPORT_MOIM_MARKER@,
                ) {
                    opt_view(moim_block)
                } else {
                    None
                }
                &&& r.extension_instructions@.map_values(|q: (String, String)| (q.0@, q.1@))
                    == shown_instructions(p, self.rendered_with(marked(p), mode, None))
                &&& index_map_entries(r.extras) == final_extras(
                    self.manager().extras(),
                    self.hints(),
                    mode,
                )
                &&& keys_distinct(index_map_entries(r.extras))
            }),
    {
        let mode = self.resolved_goose_mode(configured_mode);
        let prepared_exts = self.prepared_extensions();
        let ghost p = ext_views(prepared_exts@);
        let flags = self.rendered_extension_instructions(&prepared_exts, mode);
        let mut copies: Vec<ExtensionInfo> = Vec::new();
        let mut instructions: Vec<(String, String)> = Vec::new();
        let mut blanks: Vec<ExtensionInfo> = Vec::new();
        let ghost rendered = self.rendered_with(marked(p), mode, None);
        let mut i: usize = 0;
        while i < prepared_exts.len()
            invariant
                p == ext_views(prepared_exts@),
                flags@.len() == prepared_exts@.len(),
                forall|k: int|
                    0 <= k < flags@.len() ==> #[trigger] flags@[k] == contains_seq(
                        rendered,
                        extension_marker(k),
                    ),
                i <= prepared_exts.len(),
                copies@.len() == i,
                blanks@.len() == i,
                forall|k: int| 0 <= k < i ==> ext_view(#[trigger] copies@[k]) == p[k],
                forall|k: int| 0 <= k < i ==> ext_view(#[trigger] blanks@[k]) == blanked(p)[k],
                instructions@.map_values(|q: (String, String)| (q.0@, q.1@)) == shown_instructions(
                    p.take(i as int),
                    rendered,
                ),
            decreases prepared_exts.len() - i,
        {
            let e = &prepared_exts[i];
            proof {
                assert(p.take(i as int + 1).drop_last() =~= p.take(i as int));
                assert(p.take(i as int + 1).last() == p[i as int]);
            }
            let ghost before = instructions@;
            if flags[i] && e.instructions.as_str().unicode_len() > 0 {
                instructions.push((e.name.clone(), e.instructions.clone()));
                proof {
                    assert(instructions@.map_values(|q: (String, String)| (q.0@, q.1@))
                        =~= before.map_values(|q: (String, String)| (q.0@, q.1@)).push(
                        (p[i as int].0, p[i as int].1),
                    ));
                }
            }
            copies.push(e.clone());
            blanks.push(
                ExtensionInfo {
                    name: e.name.clone(),
                    instructions: String::new(),
                    has_resources: e.has_resources,
                },
            );
            i = i + 1;
        }
        proof {
            assert(p.take(prepared_exts.len() as int) =~= p);
            assert(ext_views(copies@) =~= p);
            assert(ext_views(blanks@) =~= blanked(p));
        }
        let includes_moim = self.renders_moim_block(copies, mode);
        let base_template_blanked = self.render_base(blanks, mode, None);
        let extras = self.finalize_extras(mode);
        let base_is_override = match &self.manager.system_prompt_override {
            Some(_) => true,
            None => false,
        };
        let moim = if includes_moim {
            moim_block
        } else {
            None
        };
        SystemPromptSegments {
            base_template_blanked,
            base_is_override,
            moim_block: moim,
            extension_instructions: instructions,
            extras,
        }
    }
}

} // verus!
