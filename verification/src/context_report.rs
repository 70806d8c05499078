//! The context report: how the tokens of a request divide among the system
//! prompt, extension instructions, hints, turn context, tool definitions
//! and messages.
use crate::extras_map::index_map_entries;
use crate::message::{
    content_texts, is_turn_context, is_turn_context_text, message_content_token_text,
    plain_text_of, Message, MessageContent, Role,
};
use crate::prompt_manager::SystemPromptSegments;
use crate::report_messages::{
    counted_messages_encode, counted_texts, message_segments, message_segments_budget,
    message_segments_ok,
};
use crate::report_tools::{
    hint_parts, hints_encode, hints_texts, is_hint_part, lemma_segments_tokens_push, segments_tokens,
    tool_segments, tool_segments_ok, toolshim_encodes, toolshim_segment_ok, toolshim_texts,
    toolshim_tool_segment,
};
use crate::text::{
    decimal, is_prefix_of, join_seqs, join_strings, preview, preview_of, starts_with_str,
    str_equal, views_of,
};
use crate::token_counter::{
    bytes, chat_budget, chat_encodes, chat_texts, chat_tokens, entries_from, exact_for,
    lemma_entries_from_mono, lemma_entries_from_same,
    lemma_entries_from_trans, lemma_exact_kept, lemma_exact_subset, lemma_step_entries,
    lemma_step_exact, o200k_encodes, tools_texts, union_of, o200k_token_count, tools_encode, TokenCounter,
    ToolSpec, FUNC_END,
};
use crate::tool_groups::{sum_by, tool_cost_fn};
use vstd::prelude::*;
use vstd::string::*;

verus! {

broadcast use vstd::string::group_string_axioms;

/// Id of the user message that stands in for a turn while the report is
/// prepared.
pub const TURN_CONTEXT_PLACEHOLDER_ID: &'static str = "context-report-turn-context-placeholder";

/// Text of the user message that stands in for a turn.
pub const TURN_CONTEXT_PLACEHOLDER_TEXT: &'static str = "[context report placeholder]";

/// What a segment of the report accounts for.
#[derive(Clone, Copy, Debug, PartialEq, Eq, Structural)]
pub enum ContextCategory {
    SystemPrompt,
    ExtensionInstructions,
    AdditionalInstructions,
    TurnContext,
    ToolDefinitions,
    Messages,
}

/// One item within a segment.
#[derive(Clone, Debug, PartialEq, Eq)]
pub struct ContextPart {
    pub label: String,
    pub source: Option<String>,
    pub token_count: u64,
    pub char_count: u64,
    pub content_preview: Option<String>,
}

/// One segment of the report.
#[derive(Clone, Debug, PartialEq, Eq)]
pub struct ContextSegment {
    pub category: ContextCategory,
    pub label: String,
    pub source: Option<String>,
    pub token_count: u64,
    pub char_count: u64,
    pub content_preview: Option<String>,
    pub parts: Vec<ContextPart>,
}

/// Where a hint file was found.
#[derive(Clone, Copy, Debug, PartialEq, Eq, Structural)]
pub enum HintScope {
    Global,
    Project,
}

/// A loaded hint file.
#[derive(Clone, Debug, PartialEq, Eq)]
pub struct HintSource {
    pub scope: HintScope,
    pub path: String,
    pub content: String,
}

// ---------------------------------------------------------------------
// Specifications
// ---------------------------------------------------------------------

/// The role of the last message that the agent sees.
pub open spec fn last_visible_role(ms: Seq<Message>) -> Option<Role>
    decreases ms.len(),
{
    if ms.len() == 0 {
        None
    } else if ms.last().agent_visible {
        Some(ms.last().role)
    } else {
        last_visible_role(ms.drop_last())
    }
}

/// Whether a message is the turn placeholder.
pub open spec fn is_placeholder(m: Message) -> bool {
    m.id matches Some(i) && i@ == TURN_CONTEXT_PLACEHOLDER_ID@
}

/// The latest turn-context text among pieces, searching from the last.
pub open spec fn last_turn_context_in(cs: Seq<MessageContent>) -> Option<Seq<char>>
    decreases cs.len(),
{
    if cs.len() == 0 {
        None
    } else {
        match plain_text_of(cs.last()) {
            Some(t) => if is_turn_context(t) {
                Some(t)
            } else {
                last_turn_context_in(cs.drop_last())
            },
            None => last_turn_context_in(cs.drop_last()),
        }
    }
}

/// The latest turn-context text of a conversation: messages from the
/// last, and within each its pieces from the last.
pub open spec fn last_turn_context(ms: Seq<Message>) -> Option<Seq<char>>
    decreases ms.len(),
{
    if ms.len() == 0 {
        None
    } else {
        match last_turn_context_in(ms.last().content@) {
            Some(t) => Some(t),
            None => last_turn_context(ms.drop_last()),
        }
    }
}

/// A piece is the placeholder's marker text.
pub open spec fn is_marker(c: MessageContent) -> bool {
    plain_text_of(c) == Some(TURN_CONTEXT_PLACEHOLDER_TEXT@)
}

/// The pieces that are not the placeholder's marker text.
pub open spec fn without_marker(cs: Seq<MessageContent>) -> Seq<MessageContent>
    decreases cs.len(),
{
    if cs.len() == 0 {
        cs
    } else if is_marker(cs.last()) {
        without_marker(cs.drop_last())
    } else {
        without_marker(cs.drop_last()).push(cs.last())
    }
}

/// The first position of a placeholder message, or -1.
pub open spec fn first_placeholder(ms: Seq<Message>) -> int
    decreases ms.len(),
{
    if ms.len() == 0 {
        -1
    } else if is_placeholder(ms[0]) {
        0
    } else {
        let p = first_placeholder(ms.drop_first());
        if p < 0 {
            -1
        } else {
            p + 1
        }
    }
}

/// The text that stands for a message in the report: the counted texts
/// of its pieces, one per line.
pub open spec fn message_text_of(m: Message) -> Seq<char> {
    join_seqs(content_texts(m.content@), "\n"@)
}

/// How a message is grouped in the report.
#[derive(Clone, Copy, Debug, PartialEq, Eq, Structural)]
pub enum MessageKind {
    User,
    Assistant,
    ToolCalls,
    ToolResults,
}

/// Some piece is a tool's result.
pub open spec fn has_tool_response(cs: Seq<MessageContent>) -> bool {
    exists|i: int| 0 <= i < cs.len() && (#[trigger] cs[i]) is ToolResponse
}

/// Some piece is a tool call.
pub open spec fn has_tool_request(cs: Seq<MessageContent>) -> bool {
    exists|i: int| 0 <= i < cs.len() && (#[trigger] cs[i]) is ToolRequest
}

/// The group of a message: tool results first, then tool calls, then by
/// role.
pub open spec fn kind_of(m: Message) -> MessageKind {
    if has_tool_response(m.content@) {
        MessageKind::ToolResults
    } else if has_tool_request(m.content@) {
        MessageKind::ToolCalls
    } else if m.role == Role::Assistant {
        MessageKind::Assistant
    } else {
        MessageKind::User
    }
}

/// The label of a group of messages.
pub open spec fn kind_label(k: MessageKind) -> Seq<char> {
    match k {
        MessageKind::User => "User messages"@,
        MessageKind::Assistant => "Assistant messages"@,
        MessageKind::ToolCalls => "Tool calls"@,
        MessageKind::ToolResults => "Tool results"@,
    }
}

// ---------------------------------------------------------------------
// Executable functions
// ---------------------------------------------------------------------

/// A segment for one text: its tokens, characters and preview, with no
/// parts; nothing when the text cannot be counted.
pub fn text_segment(
    category: ContextCategory,
    label: String,
    source: Option<String>,
    text: &str,
    token_counter: &mut TokenCounter,
) -> (r: Option<ContextSegment>)
    requires
        old(token_counter).wf(),
    ensures
        final(token_counter).wf(),
        o200k_encodes(text@) ==> r is Some,
        r matches Some(seg) ==> {
            &&& seg.category == category
            &&& seg.label == label
            &&& seg.source == source
            &&& seg.token_count <= bytes(text@)
            &&& exact_for(old(token_counter).entries(), set![text@]) ==> seg.token_count
                == o200k_token_count(text@)
            &&& seg.char_count == text@.len()
            &&& seg.content_preview matches Some(p) && p@ == preview_of(text@)
            &&& seg.parts@.len() == 0
        },
        entries_from(final(token_counter).entries(), old(token_counter).entries(), set![text@]),
{
    let tokens = match token_counter.count_tokens(text) {
        Some(n) => n,
        None => {
            return None;
        },
    };
    let chars = text.unicode_len();
    Some(
        ContextSegment {
            category,
            label,
            source,
            token_count: tokens as u64,
            char_count: chars as u64,
            content_preview: Some(preview(text)),
            parts: Vec::new(),
        },
    )
}

/// Whether a message is the turn placeholder.
pub fn is_turn_context_placeholder(message: &Message) -> (r: bool)
    ensures
        r == is_placeholder(*message),
{
    match &message.id {
        Some(id) => str_equal(id.as_str(), TURN_CONTEXT_PLACEHOLDER_ID),
        None => false,
    }
}

/// The conversation with a placeholder user turn appended when the last
/// message that the agent sees is the assistant's, so that turn context
/// can be attached to it; and whether one was appended.
pub fn with_turn_context_placeholder(conversation: Vec<Message>) -> (r: (Vec<Message>, bool))
    ensures
        r.1 == (last_visible_role(conversation@) == Some(Role::Assistant)),
        r.1 ==> r.0@.len() == conversation@.len() + 1 && r.0@.drop_last() == conversation@ && ({
            let m = r.0@.last();
            &&& is_placeholder(m)
            &&& m.role == Role::User
            &&& m.agent_visible
            &&& m.content@.len() == 1
            &&& m.content@[0] matches MessageContent::Text(t) && t@
                == TURN_CONTEXT_PLACEHOLDER_TEXT@
        }),
        !r.1 ==> r.0@ == conversation@,
{
    let mut conversation = conversation;
    let n = conversation.len();
    let mut i = n;
    assert(conversation@.take(n as int) =~= conversation@);
    while i > 0 && !conversation[i - 1].agent_visible
        invariant
            i <= n == conversation.len(),
            last_visible_role(conversation@) == last_visible_role(conversation@.take(i as int)),
        decreases i,
    {
        proof {
            assert(conversation@.take(i as int).drop_last() =~= conversation@.take(i as int - 1));
        }
        i = i - 1;
    }
    proof {
        if i == n {
            assert(conversation@.take(n as int) =~= conversation@);
        }
    }
    let last_is_assistant = i > 0 && conversation[i - 1].role == Role::Assistant;
    proof {
        if i > 0 {
            assert(conversation@.take(i as int).last() == conversation@[i as int - 1]);
        }
    }
    if last_is_assistant {
        let ghost before = conversation@;
        let placeholder = Message::user().with_id(TURN_CONTEXT_PLACEHOLDER_ID).with_text(
            TURN_CONTEXT_PLACEHOLDER_TEXT,
        );
        conversation.push(placeholder);
        proof {
            assert(conversation@.drop_last() =~= before);
        }
        (conversation, true)
    } else {
        (conversation, false)
    }
}

proof fn lemma_first_placeholder(ms: Seq<Message>)
    ensures
        ({
            let p = first_placeholder(ms);
            &&& p >= 0 ==> p < ms.len() && is_placeholder(ms[p]) && forall|j: int|
                0 <= j < p ==> !is_placeholder(#[trigger] ms[j])
            &&& p < 0 ==> forall|j: int| 0 <= j < ms.len() ==> !is_placeholder(#[trigger] ms[j])
        }),
    decreases ms.len(),
{
    if ms.len() > 0 && !is_placeholder(ms[0]) {
        lemma_first_placeholder(ms.drop_first());
        assert forall|j: int| 1 <= j < ms.len() implies ms[j] == ms.drop_first()[j - 1] by {}
    }
}

/// The pieces of a message without the placeholder's marker text.
fn drop_marker(content: Vec<MessageContent>) -> (r: Vec<MessageContent>)
    ensures
        r@ == without_marker(content@),
{
    let ghost orig = content@;
    let n0 = content.len();
    let mut rest = content;
    let mut kept: Vec<MessageContent> = Vec::new();
    let mut j: usize = 0;
    while rest.len() > 0
        invariant
            orig.len() == n0,
            j <= orig.len(),
            rest@.len() == orig.len() - j,
            rest@ == orig.skip(j as int),
            kept@ == without_marker(orig.take(j as int)),
        decreases rest.len(),
    {
        let c = rest.remove(0);
        proof {
            assert(orig.take(j as int + 1).drop_last() =~= orig.take(j as int));
            assert(c == orig[j as int]);
            assert(rest@ =~= orig.skip(j as int + 1));
        }
        let marker = match c.as_text() {
            Some(t) => str_equal(t.as_str(), TURN_CONTEXT_PLACEHOLDER_TEXT),
            None => false,
        };
        if !marker {
            kept.push(c);
        }
        j = j + 1;
    }
    proof {
        assert(orig.take(j as int) =~= orig);
    }
    kept
}

/// The messages that are not the turn placeholder, in order.
pub open spec fn without_placeholders(ms: Seq<Message>) -> Seq<Message>
    decreases ms.len(),
{
    if ms.len() == 0 {
        ms
    } else if is_placeholder(ms.last()) {
        without_placeholders(ms.drop_last())
    } else {
        without_placeholders(ms.drop_last()).push(ms.last())
    }
}

/// Drops every turn placeholder from the conversation; the other
/// messages keep their order.
pub fn remove_turn_context_placeholders(conversation: &mut Vec<Message>)
    ensures
        final(conversation)@ == without_placeholders(old(conversation)@),
{
    let ghost orig = conversation@;
    let n = conversation.len();
    let mut rest: Vec<Message> = Vec::new();
    std::mem::swap(&mut rest, conversation);
    let mut kept: Vec<Message> = Vec::new();
    let mut j: usize = 0;
    proof {
        assert(orig.take(0) =~= Seq::<Message>::empty());
        assert(rest@.skip(0) =~= rest@);
    }
    while rest.len() > 0
        invariant
            orig.len() == n,
            j <= n,
            rest@ == orig.skip(j as int),
            kept@ == without_placeholders(orig.take(j as int)),
        decreases rest.len(),
    {
        let m = rest.remove(0);
        proof {
            assert(orig.take(j as int + 1).drop_last() =~= orig.take(j as int));
            assert(m == orig[j as int]);
            assert(rest@ =~= orig.skip(j as int + 1));
        }
        if !is_turn_context_placeholder(&m) {
            kept.push(m);
        }
        j = j + 1;
    }
    proof {
        assert(orig.take(j as int) =~= orig);
    }
    *conversation = kept;
}

/// Taking the placeholders out of a conversation that held none gives it
/// back unchanged, and so does taking them out after a placeholder was
/// appended: the placeholder added for the report never stays in it.
pub proof fn lemma_placeholder_round_trip(conversation: Seq<Message>, placeholder: Message)
    requires
        forall|i: int| 0 <= i < conversation.len() ==> !is_placeholder(#[trigger] conversation[i]),
        is_placeholder(placeholder),
    ensures
        without_placeholders(conversation) == conversation,
        without_placeholders(conversation.push(placeholder)) == conversation,
    decreases conversation.len(),
{
    if conversation.len() > 0 {
        let d = conversation.drop_last();
        assert forall|i: int| 0 <= i < d.len() implies !is_placeholder(#[trigger] d[i]) by {
            assert(d[i] == conversation[i]);
        }
        lemma_placeholder_round_trip(d, placeholder);
        assert(!is_placeholder(conversation[conversation.len() - 1]));
        assert(d.push(conversation.last()) =~= conversation);
    }
    assert(conversation.push(placeholder).drop_last() =~= conversation);
}

/// `after` is `before` with the marker text dropped from message `p`.
pub open spec fn marker_dropped_at(before: Seq<Message>, after: Seq<Message>, p: int) -> bool {
    &&& after.len() == before.len()
    &&& forall|j: int| 0 <= j < before.len() && j != p ==> #[trigger] after[j] == before[j]
    &&& after[p].id == before[p].id
    &&& after[p].role == before[p].role
    &&& after[p].agent_visible == before[p].agent_visible
    &&& after[p].content@ == without_marker(before[p].content@)
}

/// Drops the marker text from the first placeholder message, if any; the
/// message itself and every other message stay.
pub fn remove_turn_context_placeholder_marker(conversation: &mut Vec<Message>)
    ensures
        first_placeholder(old(conversation)@) < 0 ==> final(conversation)@ == old(conversation)@,
        first_placeholder(old(conversation)@) >= 0 ==> marker_dropped_at(
            old(conversation)@,
            final(conversation)@,
            first_placeholder(old(conversation)@),
        ),
{
    proof {
        lemma_first_placeholder(conversation@);
    }
    let n = conversation.len();
    let mut i: usize = 0;
    while i < n && !is_turn_context_placeholder(&conversation[i])
        invariant
            n == conversation.len(),
            i <= n,
            forall|j: int| 0 <= j < i ==> !is_placeholder(#[trigger] conversation@[j]),
        decreases n - i,
    {
        i = i + 1;
    }
    if i >= n {
        proof {
            let p = first_placeholder(conversation@);
            if p >= 0 {
                assert(!is_placeholder(conversation@[p]));
            }
        }
        return;
    }
    proof {
        let p = first_placeholder(conversation@);
        assert(p == i as int) by {
            if p < 0 {
                assert(!is_placeholder(conversation@[i as int]));
            } else if p < i {
                assert(!is_placeholder(conversation@[p]));
            }
        }
    }
    let ghost before = conversation@;
    let message = conversation.remove(i);
    let Message { id, role, agent_visible, content } = message;
    let kept = drop_marker(content);
    conversation.insert(i, Message { id, role, agent_visible, content: kept });
    proof {
        assert forall|j: int| 0 <= j < before.len() && j != i implies #[trigger] conversation@[j]
            == before[j] by {
            if j < i {
            } else {
            }
        }
    }
}

/// The latest turn-context text of a conversation, searching messages
/// from the last and each message's pieces from the last.
pub fn turn_context_text(conversation: &[Message]) -> (r: Option<String>)
    ensures
        r matches Some(t) ==> last_turn_context(conversation@) == Some(t@),
        r is None ==> last_turn_context(conversation@) is None,
{
    let mut i = conversation.len();
    assert(conversation@.take(i as int) =~= conversation@);
    while i > 0
        invariant
            i <= conversation@.len(),
            last_turn_context(conversation@) == last_turn_context(conversation@.take(i as int)),
        decreases i,
    {
        let ghost prefix = conversation@.take(i as int);
        proof {
            assert(prefix.drop_last() =~= conversation@.take(i as int - 1));
            assert(prefix.last() == conversation@[i as int - 1]);
        }
        let content = &conversation[i - 1].content;
        let mut j = content.len();
        assert(content@.take(j as int) =~= content@);
        while j > 0
            invariant
                j <= content@.len(),
                0 < i <= conversation@.len(),
                prefix == conversation@.take(i as int),
                prefix.len() == i,
                last_turn_context(conversation@) == last_turn_context(prefix),
                content@ == prefix.last().content@,
                last_turn_context_in(content@) == last_turn_context_in(content@.take(j as int)),
            decreases j,
        {
            proof {
                assert(content@.take(j as int).drop_last() =~= content@.take(j as int - 1));
            }
            proof {
                assert(content@.take(j as int).last() == content@[j as int - 1]);
            }
            match content[j - 1].as_text() {
                Some(t) => {
                    if is_turn_context_text(t.as_str()) {
                        let r = t.clone();
                        proof {
                            assert(last_turn_context_in(content@.take(j as int)) == Some(t@));
                            assert(last_turn_context_in(prefix.last().content@) == Some(t@));
                            assert(last_turn_context(prefix) == Some(t@));
                        }
                        return Some(r);
                    }
                },
                None => {},
            }
            j = j - 1;
        }
        proof {
            assert(content@.take(0) =~= Seq::<MessageContent>::empty());
        }
        i = i - 1;
    }
    None
}

/// The current turn context of the conversation prepared for the report,
/// and the conversation cleaned of the placeholder that was appended for
/// it: when there is turn context, only the placeholder's marker text
/// goes; otherwise the placeholder message itself goes.
pub fn settle_turn_context(conversation: &mut Vec<Message>, added_placeholder: bool) -> (r: Option<
    String,
>)
    ensures
        r matches Some(t) ==> last_turn_context(old(conversation)@) == Some(t@),
        r is None ==> last_turn_context(old(conversation)@) is None,
        !added_placeholder ==> final(conversation)@ == old(conversation)@,
        added_placeholder && r is Some ==> (if first_placeholder(old(conversation)@) < 0 {
            final(conversation)@ == old(conversation)@
        } else {
            marker_dropped_at(
                old(conversation)@,
                final(conversation)@,
                first_placeholder(old(conversation)@),
            )
        }),
        added_placeholder && r is None ==> final(conversation)@ == without_placeholders(
            old(conversation)@,
        ),
{
    let turn_context = turn_context_text(conversation.as_slice());
    if added_placeholder {
        match &turn_context {
            Some(_) => remove_turn_context_placeholder_marker(conversation),
            None => remove_turn_context_placeholders(conversation),
        }
    }
    turn_context
}

/// The text that stands for a message in the report.
pub fn message_text(message: &Message) -> (r: String)
    ensures
        r@ == message_text_of(*message),
{
    let mut texts: Vec<String> = Vec::new();
    let mut i: usize = 0;
    while i < message.content.len()
        invariant
            i <= message.content.len(),
            texts@.len() == i,
            views_of(texts@) == content_texts(message.content@.take(i as int)),
        decreases message.content.len() - i,
    {
        let ghost old_texts = texts@;
        match message_content_token_text(&message.content[i]) {
            Some(t) => texts.push(t),
            None => {},
        }
        proof {
            let want = content_texts(message.content@.take(i as int + 1));
            assert forall|k: int| 0 <= k < i + 1 implies #[trigger] views_of(texts@)[k] == want[k] by {
                assert(message.content@.take(i as int + 1)[k] == message.content@[k]);
                if k < i {
                    assert(texts@[k] == old_texts[k]);
                    assert(views_of(old_texts)[k] == content_texts(message.content@.take(i as int))[k]);
                    assert(message.content@.take(i as int)[k] == message.content@[k]);
                }
            }
            assert(views_of(texts@) =~= want);
        }
        i = i + 1;
    }
    proof {
        assert(message.content@.take(message.content.len() as int) =~= message.content@);
    }
    join_strings(&texts, "\n")
}

impl MessageKind {
    /// The group of a message: a message with a tool result counts as
    /// tool results, else one with a tool call as tool calls, else it
    /// goes by its role.
    pub fn classify(message: &Message) -> (r: MessageKind)
        ensures
            r == kind_of(*message),
    {
        let mut has_response = false;
        let mut has_request = false;
        let mut i: usize = 0;
        while i < message.content.len()
            invariant
                i <= message.content.len(),
                has_response == exists|k: int|
                    0 <= k < i && (#[trigger] message.content@[k]) is ToolResponse,
                has_request == exists|k: int|
                    0 <= k < i && (#[trigger] message.content@[k]) is ToolRequest,
            decreases message.content.len() - i,
        {
            match &message.content[i] {
                MessageContent::ToolResponse { .. } => {
                    has_response = true;
                },
                MessageContent::ToolRequest { .. } => {
                    has_request = true;
                },
                _ => {},
            }
            i = i + 1;
        }
        if has_response {
            MessageKind::ToolResults
        } else if has_request {
            MessageKind::ToolCalls
        } else if message.role == Role::Assistant {
            MessageKind::Assistant
        } else {
            MessageKind::User
        }
    }

    /// The label of this group.
    pub fn label(self) -> (r: &'static str)
        ensures
            r@ == kind_label(self),
    {
        match self {
            MessageKind::User => "User messages",
            MessageKind::Assistant => "Assistant messages",
            MessageKind::ToolCalls => "Tool calls",
            MessageKind::ToolResults => "Tool results",
        }
    }
}

} // verus!

verus! {

// ---------------------------------------------------------------------
// Assembling the report
// ---------------------------------------------------------------------

/// The model that a report is for.
#[derive(Clone, Debug, PartialEq, Eq)]
pub struct ContextReportModel {
    pub provider: String,
    pub model_name: String,
    pub context_limit: u64,
}

/// A context report: the estimate summed over the segments, the count of
/// the request as sent, and the provider's own count, if known.
#[derive(Clone, Debug, PartialEq, Eq)]
pub struct ContextReportResponse {
    pub model: ContextReportModel,
    pub estimated_total_tokens: u64,
    pub wire_total_tokens: u64,
    pub live_total_tokens: Option<u64>,
    pub segments: Vec<ContextSegment>,
}

/// What a text segment of the report is made from: its category, label,
/// source and text, and whether its parts are the hint files.
pub type SegmentPlan = (ContextCategory, Seq<char>, Option<Seq<char>>, Seq<char>, bool);

/// The prefix of the keys of instructions found in subdirectories.
pub const SUBDIR_HINTS_PREFIX: &'static str = "subdir_hints:";

/// The directory of an instruction key, when the key names one.
pub open spec fn subdir_of(key: Seq<char>) -> Option<Seq<char>> {
    if is_prefix_of(SUBDIR_HINTS_PREFIX@, key) {
        Some(key.skip(SUBDIR_HINTS_PREFIX@.len() as int))
    } else {
        None
    }
}

/// The plan of an extension's instructions.
pub open spec fn extension_plan(e: (Seq<char>, Seq<char>)) -> SegmentPlan {
    (ContextCategory::ExtensionInstructions, e.0, Some("extension:"@ + e.0), e.1, false)
}

/// The plan of an additional instruction.
pub open spec fn extra_plan(e: (Seq<char>, Seq<char>)) -> SegmentPlan {
    (ContextCategory::AdditionalInstructions, e.0, subdir_of(e.0), e.1, e.0 == "hints"@)
}

/// The plan of an optional text: one segment when there is a text.
pub open spec fn optional_plan(
    category: ContextCategory,
    label: Seq<char>,
    source: Option<Seq<char>>,
    text: Option<Seq<char>>,
) -> Seq<SegmentPlan> {
    match text {
        Some(t) => seq![(category, label, source, t, false)],
        None => Seq::empty(),
    }
}

/// The segments of the system prompt's parts, in report order: the base
/// template, each extension's instructions, each additional instruction,
/// the project's instructions, the turn-context block, and the current
/// turn context.
pub open spec fn prompt_plan(
    base_is_override: bool,
    base: Seq<char>,
    extension_instructions: Seq<(Seq<char>, Seq<char>)>,
    extras: Seq<(Seq<char>, Seq<char>)>,
    project_addendum: Option<Seq<char>>,
    project_id: Option<Seq<char>>,
    moim: Option<Seq<char>>,
    turn_context: Option<Seq<char>>,
) -> Seq<SegmentPlan> {
    let source = if base_is_override {
        "override"@
    } else {
        "prompts/system.md"@
    };
    let project_source = match project_id {
        Some(id) => Some("project:"@ + id),
        None => None,
    };
    seq![(ContextCategory::SystemPrompt, "Base system prompt"@, Some(source), base, false)]
        + extension_instructions.map_values(|e: (Seq<char>, Seq<char>)| extension_plan(e))
        + extras.map_values(|e: (Seq<char>, Seq<char>)| extra_plan(e)) + optional_plan(
        ContextCategory::AdditionalInstructions,
        "Project instructions"@,
        project_source,
        project_addendum,
    ) + optional_plan(ContextCategory::TurnContext, "Turn context instructions"@, None, moim)
        + optional_plan(ContextCategory::TurnContext, "Current turn context"@, None, turn_context)
}

/// Every piece of the system prompt has its own segment, in report
/// order: the base template first, then each extension's instructions,
/// then each additional instruction (with the hint files' parts for the
/// one named `hints`), then the project's instructions, the turn-context
/// instructions and the current turn context when there are such texts;
/// nothing else.
pub proof fn lemma_prompt_plan_pieces(
    base_is_override: bool,
    base: Seq<char>,
    extension_instructions: Seq<(Seq<char>, Seq<char>)>,
    extras: Seq<(Seq<char>, Seq<char>)>,
    project_addendum: Option<Seq<char>>,
    project_id: Option<Seq<char>>,
    moim: Option<Seq<char>>,
    turn_context: Option<Seq<char>>,
)
    ensures
        ({
            let plan = prompt_plan(
                base_is_override,
                base,
                extension_instructions,
                extras,
                project_addendum,
                project_id,
                moim,
                turn_context,
            );
            let n = (1 + extension_instructions.len() + extras.len()) as int;
            let np = if project_addendum is Some {
                1int
            } else {
                0
            };
            let nm = if moim is Some {
                1int
            } else {
                0
            };
            let nt = if turn_context is Some {
                1int
            } else {
                0
            };
            &&& plan.len() == n + np + nm + nt
            &&& plan[0].0 == ContextCategory::SystemPrompt && plan[0].1 == "Base system prompt"@
                && plan[0].3 == base && !plan[0].4
            &&& forall|i: int|
                0 <= i < extension_instructions.len() ==> (#[trigger] plan[1 + i]).0
                    == ContextCategory::ExtensionInstructions && plan[1 + i].1
                    == extension_instructions[i].0 && plan[1 + i].2 == Some(
                    "extension:"@ + extension_instructions[i].0,
                ) && plan[1 + i].3 == extension_instructions[i].1 && !plan[1 + i].4
            &&& forall|j: int|
                0 <= j < extras.len() ==> (#[trigger] plan[1 + extension_instructions.len() + j]).0
                    == ContextCategory::AdditionalInstructions && plan[1
                    + extension_instructions.len() + j].1 == extras[j].0 && plan[1
                    + extension_instructions.len() + j].3 == extras[j].1 && plan[1
                    + extension_instructions.len() + j].4 == (extras[j].0 == "hints"@)
            &&& project_addendum matches Some(a) ==> plan[n].0 == ContextCategory::AdditionalInstructions
                && plan[n].1 == "Project instructions"@ && plan[n].3 == a && !plan[n].4
            &&& moim matches Some(m) ==> plan[n + np] == (
                ContextCategory::TurnContext,
                "Turn context instructions"@,
                None::<Seq<char>>,
                m,
                false,
            )
            &&& turn_context matches Some(c) ==> plan[n + np + nm] == (
                ContextCategory::TurnContext,
                "Current turn context"@,
                None::<Seq<char>>,
                c,
                false,
            )
        }),
{
}

/// The view of an optional text.
pub open spec fn text_view(o: Option<String>) -> Option<Seq<char>> {
    match o {
        Some(s) => Some(s@),
        None => None,
    }
}

/// `seg` is the segment that `plan` describes; its parts are the hint
/// files' when the plan says so.
pub open spec fn follows_plan(
    seg: ContextSegment,
    plan: SegmentPlan,
    hints: Seq<HintSource>,
    exact: bool,
) -> bool {
    &&& seg.category == plan.0
    &&& seg.label@ == plan.1
    &&& text_view(seg.source) == plan.2
    &&& seg.char_count == plan.3.len()
    &&& seg.content_preview matches Some(pv) && pv@ == preview_of(plan.3)
    &&& seg.token_count <= bytes(plan.3)
    &&& exact ==> seg.token_count == o200k_token_count(plan.3)
    &&& if plan.4 {
        &&& seg.parts@.len() == hints.len()
        &&& forall|k: int|
            0 <= k < hints.len() ==> is_hint_part(#[trigger] seg.parts@[k], hints[k], exact)
    } else {
        seg.parts@.len() == 0
    }
}

/// A text segment from optional values.
fn plan_segment(
    category: ContextCategory,
    label: String,
    source: Option<String>,
    text: &str,
    token_counter: &mut TokenCounter,
) -> (r: Option<ContextSegment>)
    requires
        old(token_counter).wf(),
    ensures
        final(token_counter).wf(),
        o200k_encodes(text@) ==> r is Some,
        r matches Some(seg) ==> follows_plan(
            seg,
            (category, label@, text_view(source), text@, false),
            Seq::empty(),
            exact_for(old(token_counter).entries(), set![text@]),
        ),
        entries_from(final(token_counter).entries(), old(token_counter).entries(), set![text@]),
{
    text_segment(category, label, source, text, token_counter)
}

/// The plan of the report's prompt segments for these prompt pieces.
pub open spec fn report_plan(
    pieces: SystemPromptSegments,
    project_addendum: Option<String>,
    project_id: Option<String>,
    turn_context: Option<String>,
) -> Seq<SegmentPlan> {
    prompt_plan(
        pieces.base_is_override,
        pieces.base_template_blanked@,
        pieces.extension_instructions@.map_values(|q: (String, String)| (q.0@, q.1@)),
        index_map_entries(pieces.extras),
        text_view(project_addendum),
        text_view(project_id),
        text_view(pieces.moim_block),
        text_view(turn_context),
    )
}

/// Every text of `plan` can be encoded, and so can the hint files where
/// the plan lists them.
pub open spec fn plan_encodes(plan: Seq<SegmentPlan>, hints: Seq<HintSource>) -> bool {
    forall|k: int|
        #![trigger plan[k]]
        0 <= k < plan.len() ==> o200k_encodes(plan[k].3) && (plan[k].4 ==> hints_encode(hints))
}

/// The texts counted for one entry of a plan: its text, and the hint
/// files' contents when it lists them.
pub open spec fn plan_entry_texts(e: SegmentPlan, hints: Seq<HintSource>) -> Set<Seq<char>> {
    set![e.3].union(
        if e.4 {
            hints_texts(hints)
        } else {
            Set::empty()
        },
    )
}

/// `plan_entry_texts` as a function value.
pub open spec fn plan_texts_fn(hints: Seq<HintSource>) -> spec_fn(SegmentPlan) -> Set<Seq<char>> {
    |e: SegmentPlan| plan_entry_texts(e, hints)
}

/// The texts counted for the segments of a plan.
pub open spec fn plan_texts(plan: Seq<SegmentPlan>, hints: Seq<HintSource>) -> Set<Seq<char>> {
    union_of(plan, plan_texts_fn(hints))
}

/// The segments of the system prompt's parts, in report order, as
/// `prompt_plan` lays them out; nothing when a text cannot be counted.
#[verifier::rlimit(80)]
#[verifier::spinoff_prover]
pub fn prompt_segments(
    pieces: &SystemPromptSegments,
    hint_sources: &[HintSource],
    project_addendum: &Option<String>,
    project_id: &Option<String>,
    turn_context: &Option<String>,
    token_counter: &mut TokenCounter,
) -> (r: Option<Vec<ContextSegment>>)
    requires
        old(token_counter).wf(),
    ensures
        final(token_counter).wf(),
        plan_encodes(
            report_plan(*pieces, *project_addendum, *project_id, *turn_context),
            hint_sources@,
        ) ==> r is Some,
        r matches Some(v) ==> prompt_segments_ok(
            v@,
            report_plan(*pieces, *project_addendum, *project_id, *turn_context),
            hint_sources@,
            exact_for(
                old(token_counter).entries(),
                plan_texts(report_plan(*pieces, *project_addendum, *project_id, *turn_context), hint_sources@),
            ),
        ),
        r is Some ==> entries_from(
            final(token_counter).entries(),
            old(token_counter).entries(),
            plan_texts(report_plan(*pieces, *project_addendum, *project_id, *turn_context), hint_sources@),
        ),
{
    let ghost e0 = token_counter.entries();
    let ghost instr = pieces.extension_instructions@.map_values(
        |q: (String, String)| (q.0@, q.1@),
    );
    let ghost extras = index_map_entries(pieces.extras);
    let ghost hs = hint_sources@;
    let ghost plan = report_plan(*pieces, *project_addendum, *project_id, *turn_context);
    let ghost g = plan_texts_fn(hs);
    let ghost all = Set::<Seq<char>>::empty().union(union_of(plan, g));
    let ghost exact = exact_for(e0, all);
    let ghost head = seq![
        (
            ContextCategory::SystemPrompt,
            "Base system prompt"@,
            Some(
                if pieces.base_is_override {
                    "override"@
                } else {
                    "prompts/system.md"@
                },
            ),
            pieces.base_template_blanked@,
            false,
        ),
    ];
    let ghost p1 = head + instr.map_values(|e: (Seq<char>, Seq<char>)| extension_plan(e));
    let ghost p2 = p1 + extras.map_values(|e: (Seq<char>, Seq<char>)| extra_plan(e));
    let ghost opt_project = optional_plan(
        ContextCategory::AdditionalInstructions,
        "Project instructions"@,
        match text_view(*project_id) {
            Some(id) => Some("project:"@ + id),
            None => None,
        },
        text_view(*project_addendum),
    );
    let ghost opt_moim = optional_plan(
        ContextCategory::TurnContext,
        "Turn context instructions"@,
        None,
        text_view(pieces.moim_block),
    );
    let ghost opt_turn = optional_plan(
        ContextCategory::TurnContext,
        "Current turn context"@,
        None,
        text_view(*turn_context),
    );
    let ghost p3 = p2 + opt_project;
    let ghost p4 = p3 + opt_moim;
    let ghost p5 = p4 + opt_turn;
    proof {
        assert(plan =~= p5);
        assert(all =~= plan_texts(plan, hs));
        lemma_entries_from_same(e0, Set::empty());
        assert(Set::<Seq<char>>::empty().union(union_of(plan.take(0), g)) =~= Set::empty());
    }
    let mut segments: Vec<ContextSegment> = Vec::new();
    let base_source = if pieces.base_is_override {
        String::from_str("override")
    } else {
        String::from_str("prompts/system.md")
    };
    let ghost cur = token_counter.entries();
    proof {
        assert(plan[0] == head[0]);
        if exact {
            lemma_step_exact(e0, cur, Set::empty(), plan, g, 0);
            lemma_exact_subset(cur, g(plan[0]), set![plan[0].3]);
        }
    }
    let base = match plan_segment(
        ContextCategory::SystemPrompt,
        String::from_str("Base system prompt"),
        Some(base_source),
        pieces.base_template_blanked.as_str(),
        token_counter,
    ) {
        Some(seg) => seg,
        None => {
            proof {
                if plan_encodes(plan, hs) {
                    assert(o200k_encodes(plan[0].3));
                }
            }
            return None;
        },
    };
    proof {
        lemma_entries_from_mono(token_counter.entries(), cur, set![plan[0].3], g(plan[0]));
        lemma_step_entries(e0, cur, token_counter.entries(), Set::empty(), plan, g, 0);
    }
    segments.push(base);
    proof {
        assert(segments@ =~= seq![base]);
    }
    let mut i: usize = 0;
    while i < pieces.extension_instructions.len()
        invariant
            token_counter.wf(),
            hs == hint_sources@,
            instr == pieces.extension_instructions@.map_values(|q: (String, String)| (q.0@, q.1@)),
            p1 == head + instr.map_values(|e: (Seq<char>, Seq<char>)| extension_plan(e)),
            p2 == p1 + extras.map_values(|e: (Seq<char>, Seq<char>)| extra_plan(e)),
            p3 == p2 + opt_project,
            p4 == p3 + opt_moim,
            plan == p4 + opt_turn,
            plan == report_plan(*pieces, *project_addendum, *project_id, *turn_context),
            g == plan_texts_fn(hs),
            all == Set::<Seq<char>>::empty().union(union_of(plan, g)),
            exact == exact_for(e0, all),
            head.len() == 1,
            i <= pieces.extension_instructions.len(),
            segments@.len() == 1 + i,
            forall|k: int|
                0 <= k < segments@.len() ==> follows_plan(#[trigger] segments@[k], p1[k], hs, exact),
            entries_from(token_counter.entries(), e0, Set::<Seq<char>>::empty().union(union_of(plan.take(1 + i as int), g))),
        decreases pieces.extension_instructions.len() - i,
    {
        let (name, instructions) = &pieces.extension_instructions[i];
        let mut source = String::from_str("extension:");
        source.append(name.as_str());
        let ghost at = 1 + i as int;
        let ghost cur = token_counter.entries();
        proof {
            assert(p1[at] == extension_plan(instr[i as int]));
            assert(plan[at] == p1[at]);
            if exact {
                lemma_step_exact(e0, cur, Set::empty(), plan, g, at);
                lemma_exact_subset(cur, g(plan[at]), set![plan[at].3]);
            }
        }
        let seg = match plan_segment(
            ContextCategory::ExtensionInstructions,
            name.clone(),
            Some(source),
            instructions.as_str(),
            token_counter,
        ) {
            Some(seg) => seg,
            None => {
                proof {
                    if plan_encodes(plan, hs) {
                        assert(o200k_encodes(plan[at].3));
                    }
                }
                return None;
            },
        };
        proof {
            lemma_entries_from_mono(token_counter.entries(), cur, set![plan[at].3], g(plan[at]));
            lemma_step_entries(e0, cur, token_counter.entries(), Set::empty(), plan, g, at);
        }
        segments.push(seg);
        proof {
            assert forall|k: int| 0 <= k < segments@.len() implies follows_plan(
                #[trigger] segments@[k],
                p1[k],
                hs,
                exact,
            ) by {
                if k < segments@.len() - 1 {
                    assert(segments@[k] == segments@.drop_last()[k]);
                }
            }
        }
        i = i + 1;
    }
    let n_extras = crate::extras_map::index_map_len(&pieces.extras);
    let mut j: usize = 0;
    while j < n_extras
        invariant
            token_counter.wf(),
            hs == hint_sources@,
            n_extras == extras.len(),
            extras == index_map_entries(pieces.extras),
            instr.len() == pieces.extension_instructions.len(),
            p1.len() == 1 + instr.len(),
            p2 == p1 + extras.map_values(|e: (Seq<char>, Seq<char>)| extra_plan(e)),
            p3 == p2 + opt_project,
            p4 == p3 + opt_moim,
            plan == p4 + opt_turn,
            plan == report_plan(*pieces, *project_addendum, *project_id, *turn_context),
            g == plan_texts_fn(hs),
            all == Set::<Seq<char>>::empty().union(union_of(plan, g)),
            exact == exact_for(e0, all),
            j <= n_extras,
            segments@.len() == 1 + instr.len() + j,
            forall|k: int|
                0 <= k < segments@.len() ==> follows_plan(#[trigger] segments@[k], p2[k], hs, exact),
            entries_from(token_counter.entries(), e0, Set::<Seq<char>>::empty().union(union_of(plan.take(segments@.len() as int), g))),
        decreases n_extras - j,
    {
        let (key, value) = crate::extras_map::index_map_get_index(&pieces.extras, j);
        let is_hints = str_equal(key.as_str(), "hints");
        let source = if starts_with_str(key.as_str(), SUBDIR_HINTS_PREFIX) {
            let n = key.as_str().unicode_len();
            let m = SUBDIR_HINTS_PREFIX.unicode_len();
            Some(String::from_str(key.as_str().substring_char(m, n)))
        } else {
            None
        };
        let ghost at = 1 + instr.len() + j;
        let ghost cur = token_counter.entries();
        proof {
            assert(p2[at] == extra_plan(extras[j as int]));
            assert(plan[at] == p2[at]);
            assert(plan[at].4 == is_hints);
            assert(plan[at].3 == value@);
            if exact {
                lemma_step_exact(e0, cur, Set::empty(), plan, g, at);
                lemma_exact_subset(cur, g(plan[at]), set![plan[at].3]);
            }
        }
        let mut seg = match text_segment(
            ContextCategory::AdditionalInstructions,
            key,
            source,
            value.as_str(),
            token_counter,
        ) {
            Some(seg) => seg,
            None => {
                proof {
                    if plan_encodes(plan, hs) {
                        assert(o200k_encodes(plan[at].3));
                    }
                }
                return None;
            },
        };
        if is_hints {
            let ghost cur2 = token_counter.entries();
            proof {
                if exact {
                    lemma_exact_kept(cur, cur2, set![plan[at].3], g(plan[at]), hints_texts(hs));
                }
            }
            match hint_parts(hint_sources, token_counter) {
                Some(parts) => {
                    seg.parts = parts;
                },
                None => {
                    proof {
                        if plan_encodes(plan, hs) {
                            assert(plan[at].4 ==> hints_encode(hs));
                        }
                    }
                    return None;
                },
            }
            proof {
                lemma_entries_from_trans(cur, cur2, token_counter.entries(), set![plan[at].3], hints_texts(hs));
            }
        } else {
            proof {
                lemma_entries_from_mono(token_counter.entries(), cur, set![plan[at].3], g(plan[at]));
            }
        }
        proof {
            if is_hints {
                assert(set![plan[at].3].union(hints_texts(hs)) =~= g(plan[at]));
            }
            lemma_step_entries(e0, cur, token_counter.entries(), Set::empty(), plan, g, at);
        }
        let ghost before = segments@;
        segments.push(seg);
        proof {
            assert(text_view(seg.source) == subdir_of(extras[j as int].0)) by {
                if is_prefix_of(SUBDIR_HINTS_PREFIX@, extras[j as int].0) {
                    assert(extras[j as int].0.skip(SUBDIR_HINTS_PREFIX@.len() as int)
                        =~= extras[j as int].0.subrange(
                        SUBDIR_HINTS_PREFIX@.len() as int,
                        extras[j as int].0.len() as int,
                    ));
                }
            }
            assert forall|k: int| 0 <= k < segments@.len() implies follows_plan(
                #[trigger] segments@[k],
                p2[k],
                hs,
                exact,
            ) by {
                if k < before.len() {
                    assert(segments@[k] == before[k]);
                }
            }
        }
        j = j + 1;
    }
    match project_addendum {
        Some(addendum) => {
            let source = match project_id {
                Some(id) => {
                    let mut s = String::from_str("project:");
                    s.append(id.as_str());
                    Some(s)
                },
                None => None,
            };
            let ghost at = p2.len() as int;
            let ghost cur = token_counter.entries();
            proof {
                assert(plan[at] == p3[at]);
                if exact {
                    lemma_step_exact(e0, cur, Set::empty(), plan, g, at);
                    lemma_exact_subset(cur, g(plan[at]), set![plan[at].3]);
                }
            }
            let seg = match plan_segment(
                ContextCategory::AdditionalInstructions,
                String::from_str("Project instructions"),
                source,
                addendum.as_str(),
                token_counter,
            ) {
                Some(seg) => seg,
                None => {
                    proof {
                        if plan_encodes(plan, hs) {
                            assert(o200k_encodes(plan[at].3));
                        }
                    }
                    return None;
                },
            };
            proof {
                lemma_entries_from_mono(token_counter.entries(), cur, set![plan[at].3], g(plan[at]));
                lemma_step_entries(e0, cur, token_counter.entries(), Set::empty(), plan, g, at);
            }
            let ghost before = segments@;
            segments.push(seg);
            proof {
                assert forall|k: int| 0 <= k < segments@.len() implies follows_plan(
                    #[trigger] segments@[k],
                    p3[k],
                    hs,
                    exact,
                ) by {
                    if k < before.len() {
                        assert(segments@[k] == before[k]);
                        assert(p3[k] == p2[k]);
                    }
                }
            }
        },
        None => {
            proof {
                assert(p3 =~= p2);
            }
        },
    }
    match &pieces.moim_block {
        Some(moim) => {
            let ghost at = p3.len() as int;
            let ghost cur = token_counter.entries();
            proof {
                assert(plan[at] == p4[at]);
                if exact {
                    lemma_step_exact(e0, cur, Set::empty(), plan, g, at);
                    lemma_exact_subset(cur, g(plan[at]), set![plan[at].3]);
                }
            }
            let seg = match plan_segment(
                ContextCategory::TurnContext,
                String::from_str("Turn context instructions"),
                None,
                moim.as_str(),
                token_counter,
            ) {
                Some(seg) => seg,
                None => {
                    proof {
                        if plan_encodes(plan, hs) {
                            assert(o200k_encodes(plan[at].3));
                        }
                    }
                    return None;
                },
            };
            proof {
                lemma_entries_from_mono(token_counter.entries(), cur, set![plan[at].3], g(plan[at]));
                lemma_step_entries(e0, cur, token_counter.entries(), Set::empty(), plan, g, at);
            }
            let ghost before = segments@;
            segments.push(seg);
            proof {
                assert forall|k: int| 0 <= k < segments@.len() implies follows_plan(
                    #[trigger] segments@[k],
                    p4[k],
                    hs,
                    exact,
                ) by {
                    if k < before.len() {
                        assert(segments@[k] == before[k]);
                        assert(p4[k] == p3[k]);
                    }
                }
            }
        },
        None => {
            proof {
                assert(p4 =~= p3);
            }
        },
    }
    match turn_context {
        Some(tc) => {
            let ghost at = p4.len() as int;
            let ghost cur = token_counter.entries();
            proof {
                if exact {
                    lemma_step_exact(e0, cur, Set::empty(), plan, g, at);
                    lemma_exact_subset(cur, g(plan[at]), set![plan[at].3]);
                }
            }
            let seg = match plan_segment(
                ContextCategory::TurnContext,
                String::from_str("Current turn context"),
                None,
                tc.as_str(),
                token_counter,
            ) {
                Some(seg) => seg,
                None => {
                    proof {
                        if plan_encodes(plan, hs) {
                            assert(o200k_encodes(plan[at].3));
                        }
                    }
                    return None;
                },
            };
            proof {
                lemma_entries_from_mono(token_counter.entries(), cur, set![plan[at].3], g(plan[at]));
                lemma_step_entries(e0, cur, token_counter.entries(), Set::empty(), plan, g, at);
            }
            let ghost before = segments@;
            segments.push(seg);
            proof {
                assert forall|k: int| 0 <= k < segments@.len() implies follows_plan(
                    #[trigger] segments@[k],
                    plan[k],
                    hs,
                    exact,
                ) by {
                    if k < before.len() {
                        assert(segments@[k] == before[k]);
                        assert(plan[k] == p4[k]);
                    }
                }
            }
        },
        None => {
            proof {
                assert(plan =~= p4);
            }
        },
    }
    proof {
        assert(plan.take(plan.len() as int) =~= plan);
        assert(Set::<Seq<char>>::empty().union(union_of(plan, g)) =~= plan_texts(plan, hs));
    }
    Some(segments)
}

/// `r` are the segments of `plan`, their counts exact when the cache was.
pub open spec fn prompt_segments_ok(
    r: Seq<ContextSegment>,
    plan: Seq<SegmentPlan>,
    hints: Seq<HintSource>,
    exact: bool,
) -> bool {
    &&& r.len() == plan.len()
    &&& forall|k: int| 0 <= k < r.len() ==> follows_plan(#[trigger] r[k], plan[k], hints, exact)
}

/// The report's prompt segments give the turn-context instructions of
/// the prompt a segment of their own: a turn-context segment labelled
/// "Turn context instructions" that holds exactly that text.
pub proof fn lemma_turn_context_instructions_segment(
    r: Seq<ContextSegment>,
    pieces: SystemPromptSegments,
    project_addendum: Option<String>,
    project_id: Option<String>,
    turn_context: Option<String>,
    hints: Seq<HintSource>,
    exact: bool,
)
    requires
        prompt_segments_ok(
            r,
            report_plan(pieces, project_addendum, project_id, turn_context),
            hints,
            exact,
        ),
        pieces.moim_block is Some,
    ensures
        exists|k: int|
            0 <= k < r.len() && (#[trigger] r[k]).category == ContextCategory::TurnContext
                && r[k].label@ == "Turn context instructions"@ && r[k].source is None
                && r[k].char_count == pieces.moim_block->0@.len()
                && (r[k].content_preview matches Some(pv) && pv@ == preview_of(
                pieces.moim_block->0@,
            )),
{
    let ext = pieces.extension_instructions@.map_values(|q: (String, String)| (q.0@, q.1@));
    let extras = index_map_entries(pieces.extras);
    lemma_prompt_plan_pieces(
        pieces.base_is_override,
        pieces.base_template_blanked@,
        ext,
        extras,
        text_view(project_addendum),
        text_view(project_id),
        text_view(pieces.moim_block),
        text_view(turn_context),
    );
    let n = (1 + ext.len() + extras.len()) as int;
    let k = n + if project_addendum is Some {
        1int
    } else {
        0
    };
    assert(follows_plan(r[k], report_plan(pieces, project_addendum, project_id, turn_context)[k], hints, exact));
}

/// Every text that the report counts can be encoded: the prompt's
/// pieces, the tool definitions (or the toolshim appendix and the
/// definitions), and the messages as they are counted.
pub open spec fn report_encodes(
    plan: Seq<SegmentPlan>,
    hints: Seq<HintSource>,
    toolshim: bool,
    tools: Seq<ToolSpec>,
    appendix: Seq<char>,
    display: Seq<Message>,
    counted: Seq<Message>,
) -> bool {
    &&& plan_encodes(plan, hints)
    &&& if toolshim {
        toolshim_encodes(tools, appendix)
    } else {
        tools_encode(tools)
    }
    &&& counted_messages_encode(display, counted)
}

/// The texts that the report's segments count: the prompt's pieces, the
/// tool definitions (or the toolshim appendix and definitions), and the
/// messages as they are counted.
pub open spec fn context_texts(
    plan: Seq<SegmentPlan>,
    hints: Seq<HintSource>,
    toolshim: bool,
    tools: Seq<ToolSpec>,
    appendix: Seq<char>,
    display: Seq<Message>,
    counted: Seq<Message>,
) -> Set<Seq<char>> {
    plan_texts(plan, hints).union(
        if toolshim {
            toolshim_texts(tools, appendix)
        } else {
            tools_texts(tools)
        },
    ).union(counted_texts(display, counted))
}

/// `r` is the report's segments but the overhead: those of `plan`, then
/// the tool segments (the one toolshim segment, or one per owner), then
/// the message segments; their counts exact when the cache was.
pub open spec fn context_segments_ok(
    r: Seq<ContextSegment>,
    plan: Seq<SegmentPlan>,
    hints: Seq<HintSource>,
    toolshim: bool,
    tools: Seq<ToolSpec>,
    appendix: Seq<char>,
    display: Seq<Message>,
    counted: Seq<Message>,
    exact: bool,
) -> bool {
    exists|b: int|
        plan.len() <= b <= r.len() && prompt_segments_ok(
            r.subrange(0, plan.len() as int),
            plan,
            hints,
            exact,
        ) && (if toolshim {
            b == plan.len() + 1 && toolshim_segment_ok(r[plan.len() as int], tools, appendix, exact)
        } else {
            tool_segments_ok(r.subrange(plan.len() as int, b), tools, exact)
        }) && message_segments_ok(r.subrange(b, r.len() as int), display, counted, exact)
}

/// Every segment of the report but the overhead, in report order: the
/// system prompt's parts, then the tool definitions (one toolshim segment
/// when the model reads tools from the prompt, else one per owner), then
/// the messages. Nothing when a text cannot be counted.
pub fn context_segments(
    pieces: &SystemPromptSegments,
    hint_sources: &[HintSource],
    project_addendum: &Option<String>,
    project_id: &Option<String>,
    turn_context: &Option<String>,
    toolshim: bool,
    tools: &[ToolSpec],
    toolshim_appendix: &str,
    display_messages: &[Message],
    counted_messages: &[Message],
    token_counter: &mut TokenCounter,
) -> (r: Option<Vec<ContextSegment>>)
    requires
        old(token_counter).wf(),
        !toolshim ==> sum_by(tools@, tool_cost_fn()) + FUNC_END <= usize::MAX,
        message_segments_budget(display_messages@, counted_messages@, display_messages@.len() as int)
            <= usize::MAX,
    ensures
        final(token_counter).wf(),
        report_encodes(
            report_plan(*pieces, *project_addendum, *project_id, *turn_context),
            hint_sources@,
            toolshim,
            tools@,
            toolshim_appendix@,
            display_messages@,
            counted_messages@,
        ) ==> r is Some,
        r matches Some(v) ==> context_segments_ok(
            v@,
            report_plan(*pieces, *project_addendum, *project_id, *turn_context),
            hint_sources@,
            toolshim,
            tools@,
            toolshim_appendix@,
            display_messages@,
            counted_messages@,
            exact_for(
                old(token_counter).entries(),
                context_texts(
                    report_plan(*pieces, *project_addendum, *project_id, *turn_context),
                    hint_sources@,
                    toolshim,
                    tools@,
                    toolshim_appendix@,
                    display_messages@,
                    counted_messages@,
                ),
            ),
        ),
        r is Some ==> entries_from(
            final(token_counter).entries(),
            old(token_counter).entries(),
            context_texts(
                report_plan(*pieces, *project_addendum, *project_id, *turn_context),
                hint_sources@,
                toolshim,
                tools@,
                toolshim_appendix@,
                display_messages@,
                counted_messages@,
            ),
        ),
{
    let ghost e0 = token_counter.entries();
    let ghost plan = report_plan(*pieces, *project_addendum, *project_id, *turn_context);
    let ghost pt = plan_texts(plan, hint_sources@);
    let ghost tt = if toolshim {
        toolshim_texts(tools@, toolshim_appendix@)
    } else {
        tools_texts(tools@)
    };
    let ghost mt = counted_texts(display_messages@, counted_messages@);
    let ghost all = pt.union(tt).union(mt);
    let ghost exact = exact_for(e0, all);
    proof {
        if exact {
            lemma_exact_subset(e0, all, pt);
        }
    }
    let mut segments = match prompt_segments(
        pieces,
        hint_sources,
        project_addendum,
        project_id,
        turn_context,
        token_counter,
    ) {
        Some(v) => v,
        None => {
            return None;
        },
    };
    let ghost prompt = segments@;
    let ghost cur1 = token_counter.entries();
    proof {
        if exact {
            lemma_exact_kept(e0, cur1, pt, all, tt);
        }
    }
    let ghost mut tool_part: Seq<ContextSegment> = Seq::empty();
    if toolshim {
        let seg = match toolshim_tool_segment(tools, toolshim_appendix, token_counter) {
            Some(seg) => seg,
            None => {
                return None;
            },
        };
        proof {
            tool_part = seq![seg];
        }
        segments.push(seg);
        proof {
            assert(segments@ =~= prompt + tool_part);
        }
    } else {
        let mut tool_segs = match tool_segments(tools, token_counter) {
            Some(v) => v,
            None => {
                return None;
            },
        };
        proof {
            tool_part = tool_segs@;
        }
        segments.append(&mut tool_segs);
    }
    let ghost cur2 = token_counter.entries();
    proof {
        lemma_entries_from_trans(e0, cur1, cur2, pt, tt);
        if exact {
            lemma_exact_kept(e0, cur2, pt.union(tt), all, mt);
        }
    }
    let mut message_segs = match message_segments(display_messages, counted_messages, token_counter) {
        Some(v) => v,
        None => {
            return None;
        },
    };
    let ghost msgs = message_segs@;
    proof {
        lemma_entries_from_trans(e0, cur2, token_counter.entries(), pt.union(tt), mt);
    }
    segments.append(&mut message_segs);
    proof {
        let a = prompt.len() as int;
        let b = a + tool_part.len();
        assert(segments@ =~= prompt + tool_part + msgs);
        assert(segments@.subrange(0, a) =~= prompt);
        assert(segments@.subrange(a, b) =~= tool_part);
        assert(segments@.subrange(b, segments@.len() as int) =~= msgs);
        if toolshim {
            assert(segments@[a] == tool_part[0]);
        }
        assert(a <= b <= segments@.len());
        assert(prompt_segments_ok(segments@.subrange(0, a), plan, hint_sources@, exact));
        assert(message_segments_ok(
            segments@.subrange(b, segments@.len() as int),
            display_messages@,
            counted_messages@,
            exact,
        ));
        assert(if toolshim {
            b == plan.len() + 1 && toolshim_segment_ok(
                segments@[plan.len() as int],
                tools@,
                toolshim_appendix@,
                exact,
            )
        } else {
            tool_segments_ok(segments@.subrange(plan.len() as int, b), tools@, exact)
        });
    }
    Some(segments)
}

/// The tokens of the request as it is sent: the whole system prompt, the
/// messages as the provider sees them and every tool, counted as one
/// chat; nothing when a text cannot be counted.
pub fn wire_total_tokens(
    system_prompt: &str,
    provider_messages: &[Message],
    tools: &[ToolSpec],
    token_counter: &mut TokenCounter,
) -> (r: Option<u64>)
    requires
        old(token_counter).wf(),
        chat_budget(system_prompt@, provider_messages@, tools@) <= usize::MAX,
    ensures
        final(token_counter).wf(),
        chat_encodes(system_prompt@, provider_messages@, tools@) ==> r is Some,
        r matches Some(n) ==> n <= chat_budget(system_prompt@, provider_messages@, tools@) && (
        exact_for(old(token_counter).entries(), chat_texts(system_prompt@, provider_messages@, tools@))
            ==> n == chat_tokens(system_prompt@, provider_messages@, tools@)),
{
    match token_counter.count_chat_tokens(system_prompt, provider_messages, tools) {
        Some(n) => Some(n as u64),
        None => None,
    }
}

/// The tokens of the segments, summed, when the sum fits in a `u64`.
pub fn segments_total(segments: &Vec<ContextSegment>) -> (r: Option<u64>)
    ensures
        r matches Some(t) ==> t == segments_tokens(segments@),
        r is None <==> segments_tokens(segments@) > u64::MAX,
{
    let mut sum: u64 = 0;
    let mut i: usize = 0;
    while i < segments.len()
        invariant
            i <= segments.len(),
            sum == segments_tokens(segments@.take(i as int)),
        decreases segments.len() - i,
    {
        proof {
            assert(segments@.take(i as int + 1).drop_last() =~= segments@.take(i as int));
        }
        match sum.checked_add(segments[i].token_count) {
            Some(s) => {
                sum = s;
            },
            None => {
                proof {
                    lemma_segments_tokens_prefix(segments@, i as int + 1);
                }
                return None;
            },
        }
        i = i + 1;
    }
    proof {
        assert(segments@.take(segments.len() as int) =~= segments@);
    }
    Some(sum)
}

/// The segment that holds the tokens of the request that no other segment
/// accounts for.
pub open spec fn is_overhead_segment(seg: ContextSegment, tokens: int) -> bool {
    &&& seg.category == ContextCategory::SystemPrompt
    &&& seg.label@ == "Prompt overhead"@
    &&& seg.source is None
    &&& seg.token_count == tokens
    &&& seg.char_count == 0
    &&& seg.content_preview is None
    &&& seg.parts@.len() == 0
}

/// The provider's own count, when it is a count.
pub open spec fn live_total(total: Option<i64>) -> Option<u64> {
    match total {
        Some(t) => if t >= 0 {
            Some(t as u64)
        } else {
            None
        },
        None => None,
    }
}

/// The report from its segments: when the request as sent counts more
/// tokens than the segments, a last segment holds the difference, so that
/// the estimate is never below the request's count and equals the sum of
/// the segments.
pub fn finish_report(
    model: ContextReportModel,
    segments: Vec<ContextSegment>,
    wire_total_tokens: u64,
    session_total_tokens: Option<i64>,
) -> (r: ContextReportResponse)
    requires
        segments_tokens(segments@) <= u64::MAX,
    ensures
        r.model == model,
        r.wire_total_tokens == wire_total_tokens,
        r.live_total_tokens == live_total(session_total_tokens),
        segments_tokens(segments@) < wire_total_tokens ==> r.segments@.len() == segments@.len() + 1
            && r.segments@.drop_last() == segments@ && is_overhead_segment(
            r.segments@.last(),
            wire_total_tokens - segments_tokens(segments@),
        ),
        segments_tokens(segments@) >= wire_total_tokens ==> r.segments@ == segments@,
        r.estimated_total_tokens == segments_tokens(r.segments@),
        r.estimated_total_tokens == if segments_tokens(segments@) < wire_total_tokens {
            wire_total_tokens as int
        } else {
            segments_tokens(segments@)
        },
{
    let mut sum: u64 = 0;
    let mut i: usize = 0;
    while i < segments.len()
        invariant
            i <= segments.len(),
            segments_tokens(segments@) <= u64::MAX,
            sum == segments_tokens(segments@.take(i as int)),
        decreases segments.len() - i,
    {
        proof {
            assert(segments@.take(i as int + 1).drop_last() =~= segments@.take(i as int));
            lemma_segments_tokens_prefix(segments@, i as int + 1);
        }
        sum = sum + segments[i].token_count;
        i = i + 1;
    }
    proof {
        assert(segments@.take(segments.len() as int) =~= segments@);
    }
    let mut segments = segments;
    let ghost before = segments@;
    let mut estimated = sum;
    if sum < wire_total_tokens {
        let residual = wire_total_tokens - sum;
        segments.push(
            ContextSegment {
                category: ContextCategory::SystemPrompt,
                label: String::from_str("Prompt overhead"),
                source: None,
                token_count: residual,
                char_count: 0,
                content_preview: None,
                parts: Vec::new(),
            },
        );
        estimated = wire_total_tokens;
        proof {
            lemma_segments_tokens_push(before, segments@.last());
            assert(segments@.drop_last() =~= before);
            assert(before.push(segments@.last()) =~= segments@);
        }
    }
    let live = match session_total_tokens {
        Some(t) => if t >= 0 {
            Some(t as u64)
        } else {
            None
        },
        None => None,
    };
    ContextReportResponse {
        model,
        estimated_total_tokens: estimated,
        wire_total_tokens,
        live_total_tokens: live,
        segments,
    }
}

proof fn lemma_segments_tokens_prefix(segs: Seq<ContextSegment>, i: int)
    requires
        0 <= i <= segs.len(),
    ensures
        0 <= segments_tokens(segs.take(i)) <= segments_tokens(segs),
    decreases segs.len(),
{
    if i == segs.len() {
        assert(segs.take(i) =~= segs);
        lemma_segments_tokens_nonneg(segs);
    } else {
        assert(segs.drop_last().take(i) =~= segs.take(i));
        lemma_segments_tokens_prefix(segs.drop_last(), i);
    }
}

proof fn lemma_segments_tokens_nonneg(segs: Seq<ContextSegment>)
    ensures
        segments_tokens(segs) >= 0,
    decreases segs.len(),
{
    if segs.len() > 0 {
        lemma_segments_tokens_nonneg(segs.drop_last());
    }
}

} // verus!
