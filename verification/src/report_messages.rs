//! The message segments of the context report: one per group of
//! messages, each with a part per message.
use crate::context_report::{
    kind_label, kind_of, message_text, message_text_of, ContextCategory, ContextPart,
    ContextSegment, MessageKind,
};
use crate::message::{Message, Role};
use crate::text::{decimal, preview, preview_of, usize_to_decimal};
use crate::report_tools::parts_count;
use crate::token_counter::{
    entries_from, exact_for, lemma_entries_from_same, lemma_step_entries, lemma_step_exact,
    message_budget, message_encodes, message_texts, message_texts_fn, message_tokens, union_of,
    TokenCounter,
};
use vstd::prelude::*;
use vstd::string::*;

verus! {

broadcast use vstd::string::group_string_axioms;

// ---------------------------------------------------------------------
// Message segments
// ---------------------------------------------------------------------

/// The message by which display message `i` is counted: the counted
/// message at the same position when there is one, else itself.
pub open spec fn counted_message(display: Seq<Message>, counted: Seq<Message>, i: int) -> Message {
    if i < counted.len() {
        counted[i]
    } else {
        display[i]
    }
}

/// How a role is named in a part's label.
pub open spec fn role_name(r: Role) -> Seq<char> {
    match r {
        Role::Assistant => "assistant"@,
        Role::User => "user"@,
    }
}

/// The label of the part for message `i`: its 1-based position and role.
pub open spec fn message_part_label(i: int, r: Role) -> Seq<char> {
    "#"@ + decimal((i + 1) as nat) + " "@ + role_name(r)
}

/// `p` is the part for display message `i`.
pub open spec fn is_message_part(
    p: ContextPart,
    display: Seq<Message>,
    counted: Seq<Message>,
    i: int,
    exact: bool,
) -> bool {
    &&& 0 <= i < display.len()
    &&& p.label@ == message_part_label(i, display[i].role)
    &&& p.source is None
    &&& p.char_count == message_text_of(display[i]).len()
    &&& p.content_preview matches Some(pv) && pv@ == preview_of(message_text_of(display[i]))
    &&& exact ==> p.token_count == message_tokens(counted_message(display, counted, i))
}

/// The messages by which the display messages are counted, in order.
pub open spec fn counted_seq(display: Seq<Message>, counted: Seq<Message>) -> Seq<Message> {
    Seq::new(display.len(), |i: int| counted_message(display, counted, i))
}

/// The texts counted for the message segments.
pub open spec fn counted_texts(display: Seq<Message>, counted: Seq<Message>) -> Set<Seq<char>> {
    union_of(counted_seq(display, counted), message_texts_fn())
}

/// Positions of the messages of group `k`, in order.
pub open spec fn kind_indices(ms: Seq<Message>, k: MessageKind) -> Seq<int>
    decreases ms.len(),
{
    if ms.len() == 0 {
        Seq::empty()
    } else if kind_of(ms.last()) == k {
        kind_indices(ms.drop_last(), k).push(ms.len() - 1)
    } else {
        kind_indices(ms.drop_last(), k)
    }
}

/// Every message falls in exactly one group: the groups' positions number
/// the messages.
pub proof fn lemma_kind_indices_partition(ms: Seq<Message>)
    ensures
        kind_indices(ms, MessageKind::User).len() + kind_indices(ms, MessageKind::Assistant).len()
            + kind_indices(ms, MessageKind::ToolCalls).len() + kind_indices(
            ms,
            MessageKind::ToolResults,
        ).len() == ms.len(),
    decreases ms.len(),
{
    if ms.len() > 0 {
        lemma_kind_indices_partition(ms.drop_last());
    }
}

/// `parts` are the parts for the display messages at positions `idx`.
pub open spec fn parts_for(
    parts: Seq<ContextPart>,
    display: Seq<Message>,
    counted: Seq<Message>,
    idx: Seq<int>,
    exact: bool,
) -> bool {
    &&& parts.len() == idx.len()
    &&& forall|q: int|
        0 <= q < parts.len() ==> is_message_part(#[trigger] parts[q], display, counted, idx[q], exact)
}

/// Tokens of a sequence of parts.
pub open spec fn parts_tokens(ps: Seq<ContextPart>) -> int
    decreases ps.len(),
{
    if ps.len() == 0 {
        0
    } else {
        parts_tokens(ps.drop_last()) + ps.last().token_count
    }
}

/// Characters of a sequence of parts.
pub open spec fn parts_chars(ps: Seq<ContextPart>) -> int
    decreases ps.len(),
{
    if ps.len() == 0 {
        0
    } else {
        parts_chars(ps.drop_last()) + ps.last().char_count
    }
}

/// The groups that have messages, in report order.
pub open spec fn present_kinds(display: Seq<Message>) -> Seq<MessageKind> {
    let u = if kind_indices(display, MessageKind::User).len() > 0 {
        seq![MessageKind::User]
    } else {
        Seq::empty()
    };
    let a = if kind_indices(display, MessageKind::Assistant).len() > 0 {
        seq![MessageKind::Assistant]
    } else {
        Seq::empty()
    };
    let c = if kind_indices(display, MessageKind::ToolCalls).len() > 0 {
        seq![MessageKind::ToolCalls]
    } else {
        Seq::empty()
    };
    let t = if kind_indices(display, MessageKind::ToolResults).len() > 0 {
        seq![MessageKind::ToolResults]
    } else {
        Seq::empty()
    };
    u + a + c + t
}

/// `seg` is the segment of group `k`: its label, and the parts of that
/// group's messages, whose tokens and characters it sums.
pub open spec fn is_kind_segment(
    seg: ContextSegment,
    k: MessageKind,
    display: Seq<Message>,
    counted: Seq<Message>,
    exact: bool,
) -> bool {
    &&& seg.category == ContextCategory::Messages
    &&& seg.label@ == kind_label(k)
    &&& seg.source is None
    &&& seg.content_preview is None
    &&& parts_for(seg.parts@, display, counted, kind_indices(display, k), exact)
    &&& seg.token_count == parts_tokens(seg.parts@)
    &&& seg.char_count == parts_chars(seg.parts@)
}

/// Bytes and characters of the first `n` display messages as counted:
/// the report stays within `usize` when this does.
pub open spec fn message_segments_budget(display: Seq<Message>, counted: Seq<Message>, n: int) -> int
    decreases n,
{
    if n <= 0 {
        0
    } else {
        message_segments_budget(display, counted, n - 1) + message_budget(
            counted_message(display, counted, n - 1),
        ) + message_text_of(display[n - 1]).len()
    }
}

proof fn lemma_message_segments_budget_mono(display: Seq<Message>, counted: Seq<Message>, m: int, n: int)
    requires
        0 <= m <= n,
    ensures
        0 <= message_segments_budget(display, counted, m) <= message_segments_budget(display, counted, n),
    decreases n,
{
    if n > 0 {
        if m < n {
            lemma_message_segments_budget_mono(display, counted, m, n - 1);
        } else {
            lemma_message_segments_budget_mono(display, counted, 0, n - 1);
        }
        crate::token_counter::lemma_contents_budget_prefix(
            counted_message(display, counted, n - 1).content@,
            0,
        );
    }
}

proof fn lemma_kind_indices_step(ms: Seq<Message>, i: int, k: MessageKind)
    requires
        0 <= i < ms.len(),
    ensures
        kind_indices(ms.take(i + 1), k) == if kind_of(ms[i]) == k {
            kind_indices(ms.take(i), k).push(i)
        } else {
            kind_indices(ms.take(i), k)
        },
{
    assert(ms.take(i + 1).drop_last() =~= ms.take(i));
}

proof fn lemma_parts_sums_push(ps: Seq<ContextPart>, p: ContextPart)
    ensures
        parts_tokens(ps.push(p)) == parts_tokens(ps) + p.token_count,
        parts_chars(ps.push(p)) == parts_chars(ps) + p.char_count,
{
    assert(ps.push(p).drop_last() =~= ps);
}

/// Whether the byte budget of the message segments fits in a `usize`, as
/// `message_segments` needs.
pub fn message_segments_fit(display_messages: &[Message], counted_messages: &[Message]) -> (r:
    bool)
    ensures
        r == (message_segments_budget(
            display_messages@,
            counted_messages@,
            display_messages@.len() as int,
        ) <= usize::MAX),
{
    let ghost d = display_messages@;
    let ghost c = counted_messages@;
    let mut total: usize = 0;
    let mut i: usize = 0;
    while i < display_messages.len()
        invariant
            d == display_messages@,
            c == counted_messages@,
            i <= d.len(),
            total == message_segments_budget(d, c, i as int),
        decreases display_messages.len() - i,
    {
        proof {
            lemma_message_segments_budget_mono(d, c, i as int + 1, d.len() as int);
        }
        let counted = if i < counted_messages.len() {
            &counted_messages[i]
        } else {
            &display_messages[i]
        };
        let chars = message_text(&display_messages[i]).as_str().unicode_len();
        let step = match crate::budgets::contents_budget_of(&counted.content) {
            Some(b) => b.checked_add(crate::token_counter::TOKENS_PER_MESSAGE),
            None => None,
        };
        let next = match step {
            Some(x) => match x.checked_add(chars) {
                Some(y) => total.checked_add(y),
                None => None,
            },
            None => None,
        };
        match next {
            Some(t) => {
                total = t;
            },
            None => {
                proof {
                    crate::token_counter::lemma_contents_budget_prefix(
                        counted_message(d, c, i as int).content@,
                        0,
                    );
                    lemma_message_segments_budget_mono(d, c, i as int, i as int + 1);
                }
                return false;
            },
        }
        i = i + 1;
    }
    true
}

/// The part for display message `index`, counted by `counted`.
fn message_part(
    index: usize,
    message: &Message,
    counted: &Message,
    token_counter: &mut TokenCounter,
) -> (r: Option<ContextPart>)
    requires
        old(token_counter).wf(),
        message_budget(*counted) <= usize::MAX,
        index < usize::MAX,
    ensures
        final(token_counter).wf(),
        message_encodes(*counted) ==> r is Some,
        r matches Some(part) ==> {
            &&& part.label@ == message_part_label(index as int, message.role)
            &&& part.source is None
            &&& part.char_count == message_text_of(*message).len()
            &&& part.content_preview matches Some(pv) && pv@ == preview_of(message_text_of(*message))
            &&& part.token_count <= message_budget(*counted)
            &&& exact_for(old(token_counter).entries(), message_texts(*counted))
                ==> part.token_count == message_tokens(*counted)
        },
        r is Some ==> entries_from(
            final(token_counter).entries(),
            old(token_counter).entries(),
            message_texts(*counted),
        ),
{
    let text = message_text(message);
    let mut label = String::from_str("#");
    let number = usize_to_decimal(index + 1);
    label.append(number.as_str());
    label.append(" ");
    match message.role {
        Role::Assistant => label.append("assistant"),
        _ => label.append("user"),
    }
    proof {
        assert(label@ =~= message_part_label(index as int, message.role));
    }
    let tokens = match token_counter.count_message_tokens(counted) {
        Some(n) => n,
        None => {
            return None;
        },
    };
    let chars = text.as_str().unicode_len();
    Some(
        ContextPart {
            label,
            source: None,
            token_count: tokens as u64,
            char_count: chars as u64,
            content_preview: Some(preview(text.as_str())),
        },
    )
}

/// The segment of group `k` with the given parts and sums.
fn kind_segment(k: MessageKind, parts: Vec<ContextPart>, tokens: u64, chars: u64) -> (r:
    ContextSegment)
    ensures
        r.category == ContextCategory::Messages,
        r.label@ == kind_label(k),
        r.source is None,
        r.content_preview is None,
        r.parts == parts,
        r.token_count == tokens,
        r.char_count == chars,
{
    ContextSegment {
        category: ContextCategory::Messages,
        label: String::from_str(k.label()),
        source: None,
        token_count: tokens,
        char_count: chars,
        content_preview: None,
        parts,
    }
}

/// Every display message is counted by a message that can be encoded.
pub open spec fn counted_messages_encode(display: Seq<Message>, counted: Seq<Message>) -> bool {
    forall|i: int| 0 <= i < display.len() ==> message_encodes(#[trigger] counted_message(display, counted, i))
}

/// `r` are the message segments of `display`, counted by `counted`: one
/// per group that has messages, in order, each described by
/// `is_kind_segment`; every message has exactly one part.
pub open spec fn message_segments_ok(
    r: Seq<ContextSegment>,
    display: Seq<Message>,
    counted: Seq<Message>,
    exact: bool,
) -> bool {
    &&& r.len() == present_kinds(display).len()
    &&& forall|j: int|
        0 <= j < r.len() ==> is_kind_segment(
            #[trigger] r[j],
            present_kinds(display)[j],
            display,
            counted,
            exact,
        )
    &&& parts_count(r) == display.len()
}

/// The message segments: one per group that has messages (user,
/// assistant, tool calls, tool results, in that order), each listing a
/// part per message of its group in conversation order and summing their
/// tokens and characters. Display message `i` is counted as
/// `counted_messages[i]` when that exists, else as itself. Nothing when a
/// message cannot be counted.
pub fn message_segments(
    display_messages: &[Message],
    counted_messages: &[Message],
    token_counter: &mut TokenCounter,
) -> (r: Option<Vec<ContextSegment>>)
    requires
        old(token_counter).wf(),
        message_segments_budget(display_messages@, counted_messages@, display_messages@.len() as int)
            <= usize::MAX,
    ensures
        final(token_counter).wf(),
        counted_messages_encode(display_messages@, counted_messages@) ==> r is Some,
        r matches Some(v) ==> message_segments_ok(
            v@,
            display_messages@,
            counted_messages@,
            exact_for(old(token_counter).entries(), counted_texts(display_messages@, counted_messages@)),
        ),
        r is Some ==> entries_from(
            final(token_counter).entries(),
            old(token_counter).entries(),
            counted_texts(display_messages@, counted_messages@),
        ),
{
    let ghost d = display_messages@;
    let ghost c = counted_messages@;
    let ghost e0 = token_counter.entries();
    let ghost cs = counted_seq(d, c);
    let ghost mf = message_texts_fn();
    let ghost all = Set::<Seq<char>>::empty().union(union_of(cs, mf));
    let ghost exact = exact_for(e0, all);
    proof {
        assert(all =~= counted_texts(d, c));
        lemma_entries_from_same(e0, Set::empty());
        assert(Set::<Seq<char>>::empty().union(union_of(cs.take(0), mf)) =~= Set::empty());
    }
    let n = display_messages.len();
    let mut user_parts: Vec<ContextPart> = Vec::new();
    let mut assistant_parts: Vec<ContextPart> = Vec::new();
    let mut call_parts: Vec<ContextPart> = Vec::new();
    let mut result_parts: Vec<ContextPart> = Vec::new();
    let mut ut: u64 = 0;
    let mut uc: u64 = 0;
    let mut at: u64 = 0;
    let mut ac: u64 = 0;
    let mut ct: u64 = 0;
    let mut cc: u64 = 0;
    let mut rt: u64 = 0;
    let mut rc: u64 = 0;
    let mut i: usize = 0;
    while i < n
        invariant
            token_counter.wf(),
            d == display_messages@,
            c == counted_messages@,
            n == d.len(),
            i <= n,
            message_segments_budget(d, c, n as int) <= usize::MAX,
            parts_for(user_parts@, d, c, kind_indices(d.take(i as int), MessageKind::User), exact),
            parts_for(
                assistant_parts@,
                d,
                c,
                kind_indices(d.take(i as int), MessageKind::Assistant),
                exact,
            ),
            parts_for(call_parts@, d, c, kind_indices(d.take(i as int), MessageKind::ToolCalls), exact),
            parts_for(
                result_parts@,
                d,
                c,
                kind_indices(d.take(i as int), MessageKind::ToolResults),
                exact,
            ),
            cs == counted_seq(d, c),
            mf == message_texts_fn(),
            all == Set::<Seq<char>>::empty().union(union_of(cs, mf)),
            exact == exact_for(e0, all),
            entries_from(token_counter.entries(), e0, Set::<Seq<char>>::empty().union(union_of(cs.take(i as int), mf))),
            ut == parts_tokens(user_parts@),
            uc == parts_chars(user_parts@),
            at == parts_tokens(assistant_parts@),
            ac == parts_chars(assistant_parts@),
            ct == parts_tokens(call_parts@),
            cc == parts_chars(call_parts@),
            rt == parts_tokens(result_parts@),
            rc == parts_chars(result_parts@),
            ut + uc + at + ac + ct + cc + rt + rc <= message_segments_budget(d, c, i as int),
        decreases n - i,
    {
        proof {
            lemma_message_segments_budget_mono(d, c, i as int + 1, n as int);
            lemma_message_segments_budget_mono(d, c, 0, i as int);
            crate::token_counter::lemma_contents_budget_prefix(
                counted_message(d, c, i as int).content@,
                0,
            );
            lemma_kind_indices_step(d, i as int, MessageKind::User);
            lemma_kind_indices_step(d, i as int, MessageKind::Assistant);
            lemma_kind_indices_step(d, i as int, MessageKind::ToolCalls);
            lemma_kind_indices_step(d, i as int, MessageKind::ToolResults);
        }
        let message = &display_messages[i];
        let kind = MessageKind::classify(message);
        let counted = if i < counted_messages.len() {
            &counted_messages[i]
        } else {
            message
        };
        let ghost cur = token_counter.entries();
        proof {
            assert(cs[i as int] == counted_message(d, c, i as int));
            if exact {
                lemma_step_exact(e0, cur, Set::empty(), cs, mf, i as int);
            }
        }
        let part = match message_part(i, message, counted, token_counter) {
            Some(p) => p,
            None => {
                proof {
                    if counted_messages_encode(d, c) {
                        assert(message_encodes(counted_message(d, c, i as int)));
                    }
                }
                return None;
            },
        };
        proof {
            lemma_step_entries(e0, cur, token_counter.entries(), Set::empty(), cs, mf, i as int);
        }
        let pt = part.token_count;
        let pc = part.char_count;
        proof {
            assert(is_message_part(part, d, c, i as int, exact));
        }
        match kind {
            MessageKind::User => {
                proof {
                    lemma_parts_sums_push(user_parts@, part);
                }
                user_parts.push(part);
                ut = ut + pt;
                uc = uc + pc;
            },
            MessageKind::Assistant => {
                proof {
                    lemma_parts_sums_push(assistant_parts@, part);
                }
                assistant_parts.push(part);
                at = at + pt;
                ac = ac + pc;
            },
            MessageKind::ToolCalls => {
                proof {
                    lemma_parts_sums_push(call_parts@, part);
                }
                call_parts.push(part);
                ct = ct + pt;
                cc = cc + pc;
            },
            MessageKind::ToolResults => {
                proof {
                    lemma_parts_sums_push(result_parts@, part);
                }
                result_parts.push(part);
                rt = rt + pt;
                rc = rc + pc;
            },
        }
        i = i + 1;
    }
    proof {
        assert(d.take(n as int) =~= d);
    }
    let mut segments: Vec<ContextSegment> = Vec::new();
    let ghost kinds = present_kinds(d);
    let ghost mut done: Seq<MessageKind> = Seq::empty();
    let ghost mut counted_parts: int = 0;
    proof {
        lemma_kind_indices_partition(d);
        assert(parts_count(segments@) == 0);
    }
    if user_parts.len() > 0 {
        let ghost before = segments@;
        segments.push(kind_segment(MessageKind::User, user_parts, ut, uc));
        proof {
            done = done.push(MessageKind::User);
            assert(segments@.drop_last() =~= before);
            counted_parts = counted_parts + kind_indices(d, MessageKind::User).len();
            assert(parts_count(segments@) == parts_count(before) + segments@.last().parts@.len());
            assert(parts_count(segments@) == counted_parts);
        }
    }
    if assistant_parts.len() > 0 {
        let ghost before = segments@;
        segments.push(kind_segment(MessageKind::Assistant, assistant_parts, at, ac));
        proof {
            done = done.push(MessageKind::Assistant);
            assert(segments@.drop_last() =~= before);
            counted_parts = counted_parts + kind_indices(d, MessageKind::Assistant).len();
            assert(parts_count(segments@) == parts_count(before) + segments@.last().parts@.len());
            assert(parts_count(segments@) == counted_parts);
        }
    }
    if call_parts.len() > 0 {
        let ghost before = segments@;
        segments.push(kind_segment(MessageKind::ToolCalls, call_parts, ct, cc));
        proof {
            done = done.push(MessageKind::ToolCalls);
            assert(segments@.drop_last() =~= before);
            counted_parts = counted_parts + kind_indices(d, MessageKind::ToolCalls).len();
            assert(parts_count(segments@) == parts_count(before) + segments@.last().parts@.len());
            assert(parts_count(segments@) == counted_parts);
        }
    }
    if result_parts.len() > 0 {
        let ghost before = segments@;
        segments.push(kind_segment(MessageKind::ToolResults, result_parts, rt, rc));
        proof {
            done = done.push(MessageKind::ToolResults);
            assert(segments@.drop_last() =~= before);
            counted_parts = counted_parts + kind_indices(d, MessageKind::ToolResults).len();
            assert(parts_count(segments@) == parts_count(before) + segments@.last().parts@.len());
            assert(parts_count(segments@) == counted_parts);
        }
    }
    proof {
        assert(done =~= kinds);
        assert(segments@.len() == kinds.len());
        assert forall|j: int| 0 <= j < segments@.len() implies is_kind_segment(
            #[trigger] segments@[j],
            kinds[j],
            d,
            c,
            exact,
        ) by {}
        assert(parts_count(segments@) == d.len());
        assert(cs.take(n as int) =~= cs);
    }
    Some(segments)
}

} // verus!
