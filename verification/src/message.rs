//! The conversation model: roles, message contents and messages, and the
//! text by which each kind of content is counted.
use crate::text::{views_of, decimal, is_prefix_of, join_seqs, join_strings, starts_with_str, usize_to_decimal};
use vstd::prelude::*;
use vstd::string::*;
use vstd::utf8::encode_utf8;

verus! {

broadcast use vstd::string::group_string_axioms;

/// Who wrote a message.
#[derive(Clone, Copy, Debug, PartialEq, Eq, Structural)]
pub enum Role {
    User,
    Assistant,
}

/// A call of a tool by name, with its arguments as compact JSON text.
#[derive(Debug, PartialEq, Eq)]
pub struct ToolCall {
    pub name: String,
    pub arguments_json: String,
}

/// One item of a tool's result.
#[derive(Debug, PartialEq, Eq)]
pub enum ToolResultContent {
    Text(String),
    Image { mime_type: String, data: String },
    /// An embedded resource, by the text that it contributes.
    Resource(String),
    ResourceLink,
    Audio,
}

/// One piece of a message.
#[derive(Debug, PartialEq, Eq)]
pub enum MessageContent {
    Text(String),
    Image { mime_type: String, data: String },
    /// A tool call, or the text of the error that prevented parsing it.
    ToolRequest { id: String, tool_call: Result<ToolCall, String> },
    /// A tool call to be run by the frontend.
    FrontendToolRequest { id: String, tool_call: Result<ToolCall, String> },
    /// A tool's result, or the text of the error that the tool reported.
    ToolResponse { id: String, tool_result: Result<Vec<ToolResultContent>, String> },
    Thinking { thinking: String, signature: String },
    RedactedThinking { data: String },
    /// A confirmation request, a required action or a system
    /// notification, by its display text.
    Notice(String),
}

/// A message of a conversation.
#[derive(Debug, PartialEq, Eq)]
pub struct Message {
    pub id: Option<String>,
    pub role: Role,
    /// Whether the agent (and so the model) sees this message.
    pub agent_visible: bool,
    pub content: Vec<MessageContent>,
}

// ---------------------------------------------------------------------
// Specifications
// ---------------------------------------------------------------------

/// Length in bytes of the UTF-8 encoding of `s`, as `str::len` reports it.
pub open spec fn utf8_len(s: Seq<char>) -> nat {
    (encode_utf8(s).len() as usize) as nat
}

/// The counted text of an image: its MIME type and the byte length of its
/// base64 data.
pub open spec fn image_text(mime_type: Seq<char>, data: Seq<char>) -> Seq<char> {
    "[image: "@ + mime_type + ", "@ + decimal(utf8_len(data)) + " base64 chars]"@
}

/// The counted text of a tool call, or of the error in its place.
pub open spec fn tool_call_text(
    id: Seq<char>,
    call: Result<ToolCall, String>,
    error_prefix: Seq<char>,
) -> Seq<char> {
    match call {
        Ok(c) => id + ":"@ + c.name@ + ":"@ + c.arguments_json@,
        Err(e) => error_prefix + id + "] "@ + e@,
    }
}

/// The counted text of one item of a tool result.
pub open spec fn result_item_text(item: ToolResultContent) -> Seq<char> {
    match item {
        ToolResultContent::Text(t) => t@,
        ToolResultContent::Image { mime_type, data } => image_text(mime_type@, data@),
        ToolResultContent::Resource(t) => t@,
        ToolResultContent::ResourceLink => "[resource link]"@,
        ToolResultContent::Audio => "[audio content]"@,
    }
}

/// An image is counted by its description, never by its data: its media
/// type and the byte length of its base64 data, the same for an image in
/// a tool result as for an image of its own, and the same for any data of
/// that length.
pub proof fn lemma_image_counted_by_description(m: String, d: String, d2: String)
    requires
        encode_utf8(d@).len() <= usize::MAX,
    ensures
        result_item_text(ToolResultContent::Image { mime_type: m, data: d }) == "[image: "@ + m@
            + ", "@ + decimal(encode_utf8(d@).len()) + " base64 chars]"@,
        content_text(MessageContent::Image { mime_type: m, data: d }) == "[image: "@ + m@ + ", "@
            + decimal(encode_utf8(d@).len()) + " base64 chars]"@,
        encode_utf8(d@).len() == encode_utf8(d2@).len() ==> result_item_text(
            ToolResultContent::Image { mime_type: m, data: d },
        ) == result_item_text(ToolResultContent::Image { mime_type: m, data: d2 }),
{
}

/// The counted texts of the items of a tool result.
pub open spec fn item_texts(items: Seq<ToolResultContent>) -> Seq<Seq<char>> {
    items.map_values(|i: ToolResultContent| result_item_text(i))
}

/// The counted text of a tool's result, or of its error.
pub open spec fn tool_result_text(
    id: Seq<char>,
    result: Result<Vec<ToolResultContent>, String>,
) -> Seq<char> {
    match result {
        Ok(items) => if items@.len() == 0 {
            "[tool result]"@
        } else {
            join_seqs(item_texts(items@), "\n"@)
        },
        Err(e) => "[tool result error: "@ + id + "] "@ + e@,
    }
}

/// The text by which a piece of a message is counted.
pub open spec fn content_text(c: MessageContent) -> Seq<char> {
    match c {
        MessageContent::Text(t) => t@,
        MessageContent::Image { mime_type, data } => image_text(mime_type@, data@),
        MessageContent::ToolRequest { id, tool_call } => tool_call_text(
            id@,
            tool_call,
            "[tool call error: "@,
        ),
        MessageContent::FrontendToolRequest { id, tool_call } => tool_call_text(
            id@,
            tool_call,
            "[frontend tool call error: "@,
        ),
        MessageContent::ToolResponse { id, tool_result } => tool_result_text(id@, tool_result),
        MessageContent::Thinking { thinking, .. } => thinking@,
        MessageContent::RedactedThinking { data } => "[redacted thinking: "@ + decimal(
            utf8_len(data@),
        ) + " base64 chars]"@,
        MessageContent::Notice(d) => d@,
    }
}

/// The plain text of a piece of a message, if it is text.
pub open spec fn plain_text_of(c: MessageContent) -> Option<Seq<char>> {
    match c {
        MessageContent::Text(t) => Some(t@),
        _ => None,
    }
}

/// Whether a text is the block of dynamic turn context that the agent
/// injects into the conversation.
pub open spec fn is_turn_context(t: Seq<char>) -> bool {
    is_prefix_of("<turn-context>"@, t)
}

/// The counted texts of the pieces of a message, in order.
pub open spec fn content_texts(cs: Seq<MessageContent>) -> Seq<Seq<char>> {
    cs.map_values(|c: MessageContent| content_text(c))
}

// ---------------------------------------------------------------------
// Executable functions
// ---------------------------------------------------------------------

/// A copy of `s` with the same contents.
pub fn copy_string(s: &String) -> (r: String)
    ensures
        r == *s,
{
    s.clone()
}

fn image_token_text(mime_type: &String, data: &String) -> (r: String)
    ensures
        r@ == image_text(mime_type@, data@),
{
    let mut r = String::from_str("[image: ");
    r.append(mime_type.as_str());
    r.append(", ");
    let n = usize_to_decimal(data.as_str().len());
    r.append(n.as_str());
    r.append(" base64 chars]");
    proof {
        assert(r@ =~= image_text(mime_type@, data@));
    }
    r
}

fn tool_call_token_text(id: &String, call: &Result<ToolCall, String>, error_prefix: &str) -> (r:
    String)
    ensures
        r@ == tool_call_text(id@, *call, error_prefix@),
{
    match call {
        Ok(c) => {
            let mut r = copy_string(id);
            r.append(":");
            r.append(c.name.as_str());
            r.append(":");
            r.append(c.arguments_json.as_str());
            proof {
                assert(r@ =~= tool_call_text(id@, *call, error_prefix@));
            }
            r
        },
        Err(e) => {
            let mut r = String::from_str(error_prefix);
            r.append(id.as_str());
            r.append("] ");
            r.append(e.as_str());
            proof {
                assert(r@ =~= tool_call_text(id@, *call, error_prefix@));
            }
            r
        },
    }
}

fn result_item_token_text(item: &ToolResultContent) -> (r: String)
    ensures
        r@ == result_item_text(*item),
{
    match item {
        ToolResultContent::Text(t) => copy_string(t),
        ToolResultContent::Image { mime_type, data } => image_token_text(mime_type, data),
        ToolResultContent::Resource(t) => copy_string(t),
        ToolResultContent::ResourceLink => String::from_str("[resource link]"),
        ToolResultContent::Audio => String::from_str("[audio content]"),
    }
}

fn tool_result_token_text(id: &String, result: &Result<Vec<ToolResultContent>, String>) -> (r:
    String)
    ensures
        r@ == tool_result_text(id@, *result),
{
    match result {
        Ok(items) => {
            if items.len() == 0 {
                return String::from_str("[tool result]");
            }
            let mut parts: Vec<String> = Vec::new();
            let mut i: usize = 0;
            while i < items.len()
                invariant
                    i <= items.len(),
                    parts@.len() == i,
                    views_of(parts@) == item_texts(items@.take(i as int)),
                decreases items.len() - i,
            {
                let t = result_item_token_text(&items[i]);
                let ghost old_parts = parts@;
                parts.push(t);
                proof {
                    let new_texts = item_texts(items@.take(i as int + 1));
                    assert forall|k: int| 0 <= k < i + 1 implies #[trigger] views_of(parts@)[k]
                        == new_texts[k] by {
                        assert(items@.take(i as int + 1)[k] == items@[k]);
                        if k < i {
                            assert(parts@[k] == old_parts[k]);
                            assert(views_of(old_parts)[k] == item_texts(items@.take(i as int))[k]);
                            assert(items@.take(i as int)[k] == items@[k]);
                        } else {
                            assert(parts@[k] == t);
                        }
                    }
                    assert(views_of(parts@) =~= new_texts);
                }
                i = i + 1;
            }
            proof {
                assert(items@.take(items.len() as int) =~= items@);
            }
            join_strings(&parts, "\n")
        },
        Err(e) => {
            let mut r = String::from_str("[tool result error: ");
            r.append(id.as_str());
            r.append("] ");
            r.append(e.as_str());
            proof {
                assert(r@ =~= tool_result_text(id@, *result));
            }
            r
        },
    }
}

/// The text by which a piece of a message is counted. Every kind of
/// content has one, so the result is always `Some`.
pub fn message_content_token_text(content: &MessageContent) -> (r: Option<String>)
    ensures
        r matches Some(t) && t@ == content_text(*content),
{
    let t = match content {
        MessageContent::Text(t) => copy_string(t),
        MessageContent::Image { mime_type, data } => image_token_text(mime_type, data),
        MessageContent::ToolRequest { id, tool_call } => tool_call_token_text(
            id,
            tool_call,
            "[tool call error: ",
        ),
        MessageContent::FrontendToolRequest { id, tool_call } => tool_call_token_text(
            id,
            tool_call,
            "[frontend tool call error: ",
        ),
        MessageContent::ToolResponse { id, tool_result } => tool_result_token_text(
            id,
            tool_result,
        ),
        MessageContent::Thinking { thinking, .. } => copy_string(thinking),
        MessageContent::RedactedThinking { data } => {
            let mut r = String::from_str("[redacted thinking: ");
            let n = usize_to_decimal(data.as_str().len());
            r.append(n.as_str());
            r.append(" base64 chars]");
            proof {
                assert(r@ =~= content_text(*content));
            }
            r
        },
        MessageContent::Notice(d) => copy_string(d),
    };
    assert(t@ == content_text(*content));
    Some(t)
}

/// Whether `text` is a block of dynamic turn context.
pub fn is_turn_context_text(text: &str) -> (r: bool)
    ensures
        r == is_turn_context(text@),
{
    starts_with_str(text, "<turn-context>")
}

impl Clone for ToolCall {
    fn clone(&self) -> (r: Self)
        ensures
            r == *self,
    {
        ToolCall { name: self.name.clone(), arguments_json: self.arguments_json.clone() }
    }
}

impl Clone for ToolResultContent {
    fn clone(&self) -> (r: Self)
        ensures
            r == *self,
    {
        match self {
            ToolResultContent::Text(t) => ToolResultContent::Text(t.clone()),
            ToolResultContent::Image { mime_type, data } => ToolResultContent::Image {
                mime_type: mime_type.clone(),
                data: data.clone(),
            },
            ToolResultContent::Resource(t) => ToolResultContent::Resource(t.clone()),
            ToolResultContent::ResourceLink => ToolResultContent::ResourceLink,
            ToolResultContent::Audio => ToolResultContent::Audio,
        }
    }
}

fn copy_call(c: &Result<ToolCall, String>) -> (r: Result<ToolCall, String>)
    ensures
        r == *c,
{
    match c {
        Ok(call) => Ok(call.clone()),
        Err(e) => Err(e.clone()),
    }
}

fn copy_result_items(items: &Vec<ToolResultContent>) -> (r: Vec<ToolResultContent>)
    ensures
        r@ == items@,
{
    let mut r: Vec<ToolResultContent> = Vec::new();
    let mut i: usize = 0;
    while i < items.len()
        invariant
            i <= items.len(),
            r@ == items@.take(i as int),
        decreases items.len() - i,
    {
        r.push(items[i].clone());
        proof {
            assert(r@ =~= items@.take(i as int + 1));
        }
        i = i + 1;
    }
    proof {
        assert(items@.take(items.len() as int) =~= items@);
    }
    r
}

impl Clone for MessageContent {
    fn clone(&self) -> (r: Self)
        ensures
            content_text(r) == content_text(*self),
            plain_text_of(r) == plain_text_of(*self),
    {
        match self {
            MessageContent::Text(t) => MessageContent::Text(t.clone()),
            MessageContent::Image { mime_type, data } => MessageContent::Image {
                mime_type: mime_type.clone(),
                data: data.clone(),
            },
            MessageContent::ToolRequest { id, tool_call } => MessageContent::ToolRequest {
                id: id.clone(),
                tool_call: copy_call(tool_call),
            },
            MessageContent::FrontendToolRequest { id, tool_call } =>
                MessageContent::FrontendToolRequest { id: id.clone(), tool_call: copy_call(tool_call) },
            MessageContent::ToolResponse { id, tool_result } => {
                let tool_result = match tool_result {
                    Ok(items) => Ok(copy_result_items(items)),
                    Err(e) => Err(e.clone()),
                };
                let r = MessageContent::ToolResponse { id: id.clone(), tool_result };
                proof {
                    assert(content_text(r) == content_text(*self));
                }
                r
            },
            MessageContent::Thinking { thinking, signature } => MessageContent::Thinking {
                thinking: thinking.clone(),
                signature: signature.clone(),
            },
            MessageContent::RedactedThinking { data } => MessageContent::RedactedThinking {
                data: data.clone(),
            },
            MessageContent::Notice(d) => MessageContent::Notice(d.clone()),
        }
    }
}

impl Clone for Message {
    fn clone(&self) -> (r: Self)
        ensures
            r.id == self.id,
            r.role == self.role,
            r.agent_visible == self.agent_visible,
            r.content@.len() == self.content@.len(),
    {
        let id = match &self.id {
            Some(i) => Some(i.clone()),
            None => None,
        };
        let mut content: Vec<MessageContent> = Vec::new();
        let mut i: usize = 0;
        while i < self.content.len()
            invariant
                i <= self.content.len(),
                content@.len() == i,
            decreases self.content.len() - i,
        {
            content.push(self.content[i].clone());
            i = i + 1;
        }
        Message { id, role: self.role, agent_visible: self.agent_visible, content }
    }
}

impl MessageContent {
    /// The plain text of this piece, if it is text.
    pub fn as_text(&self) -> (r: Option<&String>)
        ensures
            r matches Some(t) ==> plain_text_of(*self) == Some(t@),
            r is None ==> plain_text_of(*self) is None,
    {
        match self {
            MessageContent::Text(t) => Some(t),
            _ => None,
        }
    }
}

impl Message {
    /// An empty, visible message from the user.
    pub fn user() -> (r: Message)
        ensures
            r.id is None,
            r.role == Role::User,
            r.agent_visible,
            r.content@.len() == 0,
    {
        Message { id: None, role: Role::User, agent_visible: true, content: Vec::new() }
    }

    /// An empty, visible message from the assistant.
    pub fn assistant() -> (r: Message)
        ensures
            r.id is None,
            r.role == Role::Assistant,
            r.agent_visible,
            r.content@.len() == 0,
    {
        Message { id: None, role: Role::Assistant, agent_visible: true, content: Vec::new() }
    }

    /// This message with the given id.
    pub fn with_id(self, id: &str) -> (r: Message)
        ensures
            r.id matches Some(i) && i@ == id@,
            r.role == self.role,
            r.agent_visible == self.agent_visible,
            r.content == self.content,
    {
        Message { id: Some(String::from_str(id)), ..self }
    }

    /// This message with one more piece appended.
    pub fn with_content(self, content: MessageContent) -> (r: Message)
        ensures
            r.id == self.id,
            r.role == self.role,
            r.agent_visible == self.agent_visible,
            r.content@ == self.content@.push(content),
    {
        let mut m = self;
        m.content.push(content);
        m
    }

    /// This message with a piece of text appended.
    pub fn with_text(self, text: &str) -> (r: Message)
        ensures
            r.id == self.id,
            r.role == self.role,
            r.agent_visible == self.agent_visible,
            r.content@.len() == self.content@.len() + 1,
            r.content@.drop_last() == self.content@,
            r.content@.last() matches MessageContent::Text(t) && t@ == text@,
    {
        self.with_content(MessageContent::Text(String::from_str(text)))
    }

    /// Whether the agent sees this message.
    pub fn is_agent_visible(&self) -> (r: bool)
        ensures
            r == self.agent_visible,
    {
        self.agent_visible
    }
}

} // verus!
